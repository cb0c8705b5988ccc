use cs120_project::mac_frame::{mactype_2_u8, u8_2_mactype, MACFrame, MACType};
use cs120_project::mac_framer::MacFramer;
use cs120_project::mac_protocol::{
    receive_data_frame, timer_duration_us, FrameReaction, MacTask, TimerReaction, TimerType, ACK_WAIT_TIME,
    BACKOFF_SLOT_TIME, MAX_SEND,
};

#[test]
fn frame_type_numbers() {
    assert_eq!(mactype_2_u8(MACType::Data), 0);
    assert_eq!(mactype_2_u8(MACType::Ack), 1);
    assert_eq!(mactype_2_u8(MACType::Unknown), 2);
    assert_eq!(u8_2_mactype(0), MACType::Data);
    assert_eq!(u8_2_mactype(1), MACType::Ack);
    assert_eq!(u8_2_mactype(2), MACType::Unknown);
    assert_eq!(u8_2_mactype(3), MACType::Unknown);
    for t in [MACType::Data, MACType::Ack, MACType::Unknown] {
        assert_eq!(u8_2_mactype(mactype_2_u8(t)), t);
    }
}

#[test]
fn frame_bytes_carry_the_header_then_the_payload() {
    let frame = MACFrame::new(0x3, 0x5, MACType::Data, vec![10, 20, 30]);
    assert_eq!(frame.get_whole_frame_bits(), vec![0x35, 0x00, 10, 20, 30]);
}

#[test]
fn frame_id_and_type_share_the_second_byte() {
    let mut frame = MACFrame::new(0xA, 0x1, MACType::Ack, vec![]);
    frame.set_frame_id(5);
    assert_eq!(frame.get_whole_frame_bits(), vec![0xA1, (5 << 2) | 1]);
    let bytes = frame.get_whole_frame_bits();
    assert_eq!(MACFrame::get_frame_id(&bytes), 5);
}

#[test]
fn frame_id_is_read_back_modulo_64() {
    let mut frame = MACFrame::new(1, 2, MACType::Data, vec![9]);
    frame.set_frame_id(70);
    let bytes = frame.get_whole_frame_bits();
    assert_eq!(MACFrame::get_frame_id(&bytes), 6);
    assert_eq!(MACFrame::get_payload(&bytes), &[9][..]);
}

#[test]
fn fields_read_from_received_bytes() {
    let data = [0x12u8, 0x71, 0x0B, 0x05, 0xEE];
    assert_eq!(MACFrame::get_dst(&data), 1);
    assert_eq!(MACFrame::get_src(&data), 2);
    assert_eq!(MACFrame::get_type(&data), MACType::Ack);
    assert_eq!(MACFrame::get_frame_id(&data), 0x1C);
    assert_eq!(MACFrame::get_payload(&data), &[0x0B, 0x05, 0xEE][..]);
}

#[test]
fn ack_frame_is_empty_with_id_zero() {
    let mut framer = MacFramer::new(4);
    let ack = framer.generate_ack_frame(9);
    assert_eq!(ack.get_whole_frame_bits(), vec![0x94, 0x01]);
}

#[test]
fn data_is_split_into_numbered_frames() {
    let mut framer = MacFramer::new(1);
    let data: Vec<u8> = (0..10).collect();
    let frames = framer.generate_data_frames(data, 2, 4);
    assert_eq!(frames.len(), 3);
    assert_eq!(frames[0].get_whole_frame_bits(), vec![0x21, 0 << 2, 0, 1, 2, 3]);
    assert_eq!(frames[1].get_whole_frame_bits(), vec![0x21, 1 << 2, 4, 5, 6, 7]);
    assert_eq!(frames[2].get_whole_frame_bits(), vec![0x21, 2 << 2, 8, 9]);
    let more = framer.generate_data_frames(vec![42], 2, 4);
    assert_eq!(more.len(), 1);
    assert_eq!(more[0].get_whole_frame_bits(), vec![0x21, 3 << 2, 42]);
}

#[test]
fn exact_multiple_gives_full_frames_only() {
    let mut framer = MacFramer::new(1);
    let frames = framer.generate_data_frames(vec![1, 2, 3, 4], 2, 2);
    assert_eq!(frames.len(), 2);
    assert_eq!(frames[1].get_whole_frame_bits(), vec![0x21, 1 << 2, 3, 4]);
}

#[test]
fn no_data_gives_no_frames() {
    let mut framer = MacFramer::new(1);
    assert_eq!(framer.generate_data_frames(vec![], 2, 4).len(), 0);
    let next = framer.generate_data_frames(vec![7], 2, 4);
    assert_eq!(MACFrame::get_frame_id(&next[0].get_whole_frame_bits()), 0);
}

#[test]
fn frame_payloads_put_together_give_the_data() {
    let mut framer = MacFramer::new(3);
    let data: Vec<u8> = (0..=200).collect();
    let frames = framer.generate_data_frames(data.clone(), 5, 16);
    assert_eq!(frames.len(), 13);
    let mut joined = Vec::new();
    for f in &frames {
        let bytes = f.get_whole_frame_bits();
        joined.extend_from_slice(MACFrame::get_payload(&bytes));
    }
    assert_eq!(joined, data);
}

#[test]
fn frame_ids_wrap_after_255() {
    let mut framer = MacFramer::new(0);
    let frames = framer.generate_data_frames(vec![0; 257], 1, 1);
    assert_eq!(frames.len(), 257);
    let last = frames[256].get_whole_frame_bits();
    assert_eq!(MACFrame::get_frame_id(&last), 0);
    let before = frames[255].get_whole_frame_bits();
    assert_eq!(MACFrame::get_frame_id(&before), 255 % 64);
}

#[test]
fn timer_durations() {
    assert_eq!(timer_duration_us(TimerType::ACK, 0), ACK_WAIT_TIME * 1000);
    assert_eq!(timer_duration_us(TimerType::NoTimer, 3), 1);
    for factor in 0..8 {
        let d = timer_duration_us(TimerType::BACKOFF, factor);
        assert_eq!(d % (BACKOFF_SLOT_TIME * 1000), 0);
        let limit = std::cmp::min(1u64 << factor, 6);
        assert!(d / (BACKOFF_SLOT_TIME * 1000) <= limit);
    }
}

/// The bytes of a frame from node 9 to `dest`.
fn received_frame(dest: u8, id: u8, mac_type: MACType, payload: &[u8]) -> Vec<u8> {
    let mut f = MACFrame::new(dest, 9, mac_type, payload.to_vec());
    f.set_frame_id(id);
    f.get_whole_frame_bits()
}

#[test]
fn new_task_starts_with_a_backoff_when_it_has_frames() {
    let (task, start) = MacTask::new(1, 2, 0);
    assert!(start);
    assert!(task.is_running());
    let (idle, start) = MacTask::new(1, 0, 0);
    assert!(!start);
    assert!(!idle.is_running());
    let (receiver, start) = MacTask::new(1, 0, 10);
    assert!(!start);
    assert!(receiver.is_running());
}

#[test]
fn frames_for_other_nodes_are_ignored() {
    let (mut task, _) = MacTask::new(1, 0, 4);
    let data = received_frame(2, 0, MACType::Data, &[1, 2, 3]);
    assert_eq!(task.on_frame(&data), FrameReaction::Ignore);
    assert!(task.received().is_empty());
}

#[test]
fn expected_data_is_kept_and_acknowledged() {
    let (mut task, _) = MacTask::new(3, 0, 6);
    let first = received_frame(3, 0, MACType::Data, &[5, 6, 7]);
    assert_eq!(task.on_frame(&first), FrameReaction::SendAck { skip_timer_check: false });
    assert_eq!(task.received(), &vec![5, 6, 7]);
    assert!(task.is_running());
    let again = received_frame(3, 0, MACType::Data, &[8, 9, 10]);
    assert_eq!(task.on_frame(&again), FrameReaction::SendAck { skip_timer_check: false });
    assert_eq!(task.received(), &vec![5, 6, 7]);
    let second = received_frame(3, 1, MACType::Data, &[8, 9, 10]);
    assert_eq!(task.on_frame(&second), FrameReaction::SendAck { skip_timer_check: false });
    assert_eq!(task.received(), &vec![5, 6, 7, 8, 9, 10]);
    assert!(!task.is_running());
}

#[test]
fn a_short_expected_frame_is_acknowledged_without_timer_check() {
    let (mut task, _) = MacTask::new(3, 0, 6);
    let short = received_frame(3, 0, MACType::Data, &[1, 2]);
    assert_eq!(task.on_frame(&short), FrameReaction::SendAck { skip_timer_check: true });
    assert!(task.received().is_empty());
}

#[test]
fn sending_two_frames_with_acknowledgements() {
    let (mut task, start) = MacTask::new(1, 2, 0);
    assert!(start);
    assert_eq!(task.on_timer_expired(), TimerReaction::SendDataFrame { index: 0 });
    assert_eq!(task.on_send_result(true), (TimerType::ACK, 0));
    let ack = received_frame(1, 0, MACType::Ack, &[]);
    assert_eq!(task.on_frame(&ack), FrameReaction::AckReceived { start_backoff: true });
    assert_eq!(task.on_timer_expired(), TimerReaction::SendDataFrame { index: 1 });
    assert_eq!(task.on_send_result(true), (TimerType::ACK, 0));
    assert_eq!(task.on_frame(&ack), FrameReaction::AckReceived { start_backoff: false });
    assert!(!task.is_running());
}

#[test]
fn busy_channel_backs_off_longer_each_time() {
    let (mut task, _) = MacTask::new(1, 1, 0);
    assert_eq!(task.on_timer_expired(), TimerReaction::SendDataFrame { index: 0 });
    assert_eq!(task.on_send_result(false), (TimerType::BACKOFF, 1));
    assert_eq!(task.on_timer_expired(), TimerReaction::SendDataFrame { index: 0 });
    assert_eq!(task.on_send_result(false), (TimerType::BACKOFF, 2));
}

#[test]
fn missing_acknowledgements_end_in_a_link_error() {
    let (mut task, _) = MacTask::new(1, 1, 0);
    let mut timeouts = 0;
    loop {
        assert_eq!(task.on_timer_expired(), TimerReaction::SendDataFrame { index: 0 });
        assert_eq!(task.on_send_result(true), (TimerType::ACK, 0));
        timeouts += 1;
        match task.on_timer_expired() {
            TimerReaction::StartBackoff => assert!(timeouts < MAX_SEND),
            TimerReaction::LinkError => break,
            other => panic!("unexpected reaction {:?}", other),
        }
    }
    assert_eq!(timeouts, MAX_SEND);
}

#[test]
fn listening_takes_only_data_frames_for_this_node() {
    let mut received = vec![1];
    assert!(receive_data_frame(&mut received, &received_frame(3, 0, MACType::Data, &[7, 8]), 3));
    assert_eq!(received, vec![1, 7, 8]);
    assert!(!receive_data_frame(&mut received, &received_frame(3, 0, MACType::Ack, &[9]), 3));
    assert!(!receive_data_frame(&mut received, &received_frame(4, 0, MACType::Data, &[9]), 3));
    assert!(receive_data_frame(&mut received, &received_frame(3, 0, MACType::Data, &[]), 3));
    assert_eq!(received, vec![1, 7, 8]);
}

#[test]
fn two_nodes_exchange_data_and_acknowledgements() {
    let data: Vec<u8> = (0..12).collect();
    let mut sender_framer = MacFramer::new(1);
    let mut receiver_framer = MacFramer::new(2);
    let frames = sender_framer.generate_data_frames(data.clone(), 2, 4);
    let (mut sender, _) = MacTask::new(1, frames.len(), 0);
    let (mut receiver, _) = MacTask::new(2, 0, data.len());
    for (k, frame) in frames.iter().enumerate() {
        assert_eq!(sender.on_timer_expired(), TimerReaction::SendDataFrame { index: k });
        assert_eq!(sender.on_send_result(true), (TimerType::ACK, 0));
        let bytes = frame.get_whole_frame_bits();
        assert_eq!(MACFrame::get_dst(&bytes), 2);
        assert_eq!(MACFrame::get_src(&bytes), 1);
        assert_eq!(MACFrame::get_type(&bytes), MACType::Data);
        assert_eq!(receiver.on_frame(&bytes), FrameReaction::SendAck { skip_timer_check: false });
        assert_eq!(sender.on_frame(&bytes), FrameReaction::Ignore);
        let ack = receiver_framer.generate_ack_frame(1).get_whole_frame_bits();
        assert_eq!(ack.len(), 2);
        assert_eq!(MACFrame::get_type(&ack), MACType::Ack);
        let last = k + 1 == frames.len();
        assert_eq!(sender.on_frame(&ack), FrameReaction::AckReceived { start_backoff: !last });
    }
    assert_eq!(receiver.received(), &data);
    assert!(!receiver.is_running());
    assert!(!sender.is_running());
}

#[test]
fn frames_read_back_their_header() {
    for dest in 0..16u8 {
        for (t, n) in [(MACType::Data, 0u8), (MACType::Ack, 1), (MACType::Unknown, 2)] {
            let mut f = MACFrame::new(dest, 15 - dest, t, vec![1]);
            f.set_frame_id(dest * 5);
            let bytes = f.get_whole_frame_bits();
            assert_eq!(MACFrame::get_dst(&bytes), dest);
            assert_eq!(MACFrame::get_src(&bytes), 15 - dest);
            assert_eq!(MACFrame::get_type(&bytes), t);
            assert_eq!(bytes[1] & 3, n);
            assert_eq!(MACFrame::get_frame_id(&bytes), dest * 5 % 64);
        }
    }
}

#[test]
fn task_counters_follow_the_protocol() {
    let (mut task, _) = MacTask::new(1, 1, 0);
    assert!(task.is_sending());
    assert_eq!((task.cur_send_frame(), task.cur_recv_frame()), (0, 0));
    assert_eq!(task.on_timer_expired(), TimerReaction::SendDataFrame { index: 0 });
    assert_eq!(task.on_send_result(false), (TimerType::BACKOFF, 1));
    assert_eq!(task.resend_times(), 1);
    assert_eq!(task.on_timer_expired(), TimerReaction::SendDataFrame { index: 0 });
    assert_eq!(task.on_send_result(true), (TimerType::ACK, 0));
    assert_eq!(task.on_timer_expired(), TimerReaction::StartBackoff);
    assert_eq!(task.retry_times(), 1);
    let ack = received_frame(1, 0, MACType::Ack, &[]);
    assert_eq!(task.on_frame(&ack), FrameReaction::AckReceived { start_backoff: false });
    assert!(!task.is_sending());
    assert_eq!(task.cur_send_frame(), 1);
    assert_eq!(task.continue_sends(), 0);
}

#[test]
fn backoff_durations_vary() {
    let mut seen = std::collections::HashSet::new();
    for _ in 0..200 {
        seen.insert(timer_duration_us(TimerType::BACKOFF, 3));
    }
    assert!(seen.len() > 1);
    assert!(seen.iter().all(|d| d % 45000 == 0 && d / 45000 <= 6));
}

#[test]
fn backoff_slots_are_45_milliseconds() {
    assert_eq!(cs120_project::mac_protocol::backoff_duration_us(0), 0);
    assert_eq!(cs120_project::mac_protocol::backoff_duration_us(3), 135_000);
    assert_eq!(cs120_project::mac_protocol::backoff_duration_us(6), 270_000);
}
