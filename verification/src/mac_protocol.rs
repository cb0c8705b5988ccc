//! The decisions of the MAC layer's stop-and-wait protocol with carrier sense
//! and random backoff: what a node does when a frame arrives, when its timer
//! expires, and after it tried to send a data frame. Sending, listening and
//! measuring time are left to the caller, which reports each event here and
//! carries out the reaction it gets back.

use crate::bits::Byte;
use crate::mac_frame::{
    spec_dst_of, spec_frame_bytes, spec_frame_id_of, spec_type_of, MACFrame, MACFrameView, MACType,
};
use rand::Rng;
use vstd::prelude::*;

verus! {

/// Acknowledgement timeouts tolerated for one frame before the link is given
/// up.
pub const MAX_SEND: u64 = 40;

/// How long to wait for an acknowledgement, in milliseconds.
pub const ACK_WAIT_TIME: u64 = 30;

/// Length of one backoff slot, in milliseconds.
pub const BACKOFF_SLOT_TIME: u64 = 45;

/// Largest number of backoff slots.
pub const BACKOFF_MAX_FACTOR: u64 = 6;

/// How long to listen for a frame in each round, in milliseconds.
pub const RECV_TIME: u64 = 27;

/// What the timer is running for.
#[derive(Debug, Clone, Copy, PartialEq, Eq, Structural)]
pub enum TimerType {
    ACK,
    BACKOFF,
    NoTimer,
}

/// Largest number of backoff slots after `factor` failed attempts:
/// `2^factor`, capped at `BACKOFF_MAX_FACTOR`.
pub open spec fn spec_backoff_limit(factor: u64) -> u64 {
    if (1u64 << factor) > BACKOFF_MAX_FACTOR {
        BACKOFF_MAX_FACTOR
    } else {
        1u64 << factor
    }
}

/// A number drawn uniformly from `0..=max` by the thread-local generator of
/// `rand` (`gen_range(0..=max)`); only its range is promised.
#[verifier::external_body]
fn random_up_to(max: u64) -> (r: u64)
    ensures
        r <= max,
{
    rand::thread_rng().gen_range(0..=max)
}

/// The duration, in microseconds, of a backoff of `slot_times` slots.
pub fn backoff_duration_us(slot_times: u64) -> (d: u64)
    requires
        slot_times <= BACKOFF_MAX_FACTOR,
    ensures
        d == BACKOFF_SLOT_TIME * slot_times * 1000,
{
    BACKOFF_SLOT_TIME * slot_times * 1000
}

/// The duration, in microseconds, of a timer started for `timer_type`: an
/// acknowledgement wait, a random number of backoff slots (at most
/// `spec_backoff_limit(factor)`), or one microsecond.
pub fn timer_duration_us(timer_type: TimerType, factor: u64) -> (d: u64)
    requires
        timer_type == TimerType::BACKOFF ==> factor < 64,
    ensures
        timer_type == TimerType::ACK ==> d == ACK_WAIT_TIME * 1000,
        timer_type == TimerType::NoTimer ==> d == 1,
        timer_type == TimerType::BACKOFF ==> (d as int) % (BACKOFF_SLOT_TIME * 1000) == 0 && (d as int)
            / (BACKOFF_SLOT_TIME * 1000) <= spec_backoff_limit(factor),
{
    match timer_type {
        TimerType::BACKOFF => {
            let limit = if (1u64 << factor) > BACKOFF_MAX_FACTOR {
                BACKOFF_MAX_FACTOR
            } else {
                1u64 << factor
            };
            let slot_times = random_up_to(limit);
            proof {
                assert(limit <= BACKOFF_MAX_FACTOR);
                assert((BACKOFF_SLOT_TIME * slot_times * 1000) as int % 45000 == 0 && (BACKOFF_SLOT_TIME
                    * slot_times * 1000) as int / 45000 == slot_times) by (nonlinear_arith)
                    requires
                        slot_times <= 6,
                ;
            }
            backoff_duration_us(slot_times)
        },
        TimerType::ACK => ACK_WAIT_TIME * 1000,
        TimerType::NoTimer => 1,
    }
}

/// How the protocol reacts to a received frame.
#[derive(Debug, Clone, Copy, PartialEq, Eq, Structural)]
pub enum FrameReaction {
    /// The frame is for another node: nothing to do.
    Ignore,
    /// An acknowledgement arrived; if `start_backoff`, start a backoff timer
    /// (factor 0) before sending the next frame.
    AckReceived { start_backoff: bool },
    /// A data frame arrived: acknowledge it (without carrier sense); if
    /// `skip_timer_check`, skip the timer check of this round.
    SendAck { skip_timer_check: bool },
}

/// How the protocol reacts to its timer expiring while frames remain to send.
#[derive(Debug, Clone, Copy, PartialEq, Eq, Structural)]
pub enum TimerReaction {
    /// Too many acknowledgement timeouts: the link is given up.
    LinkError,
    /// Start a backoff timer with factor 0.
    StartBackoff,
    /// Sense the channel and, if it is free, send data frame `index`; then
    /// report the outcome with `on_send_result`.
    SendDataFrame { index: usize },
    /// No timer was running: nothing to do.
    Nothing,
}

/// The state of one node's transfer as plain values.
#[verifier::ext_equal]
pub struct MacTaskView {
    pub mac_address: u8,
    pub send_frame_count: usize,
    pub receive_byte_num: usize,
    pub send_pending: bool,
    pub recv_pending: bool,
    pub cur_send_frame: usize,
    pub cur_recv_frame: usize,
    pub retry_times: u64,
    pub resend_times: u64,
    pub continue_sends: u64,
    pub timer_type: TimerType,
    pub received: Seq<u8>,
}

/// Whether received frame bytes are addressed to `a` (destination read as by
/// `MACFrame::get_dst`).
pub open spec fn addressed_to(data: Seq<u8>, a: u8) -> bool {
    spec_dst_of(data) == a
}

/// The frame type of received frame bytes (read as by `MACFrame::get_type`).
pub open spec fn frame_type_of(data: Seq<u8>) -> MACType {
    spec_type_of(data)
}

/// The state after an acknowledgement arrives, and the reaction.
pub open spec fn spec_on_ack(v: MacTaskView) -> (MacTaskView, FrameReaction) {
    let c = (v.cur_send_frame + 1) as usize;
    if c == v.send_frame_count {
        (
            MacTaskView { cur_send_frame: c, send_pending: false, ..v },
            FrameReaction::AckReceived { start_backoff: false },
        )
    } else if v.send_frame_count > c {
        (
            MacTaskView {
                cur_send_frame: c,
                retry_times: 0,
                resend_times: 0,
                continue_sends: (v.continue_sends + 1) as u64,
                timer_type: TimerType::BACKOFF,
                ..v
            },
            FrameReaction::AckReceived { start_backoff: true },
        )
    } else {
        (MacTaskView { cur_send_frame: c, ..v }, FrameReaction::AckReceived { start_backoff: false })
    }
}

/// The state after a data frame addressed to this node arrives, and the
/// reaction: an expected frame (its id is the number of frames received so
/// far, modulo 64) of at least five bytes has its payload appended.
pub open spec fn spec_on_data(v: MacTaskView, data: Seq<u8>) -> (MacTaskView, FrameReaction) {
    if v.cur_recv_frame % 64 == spec_frame_id_of(data) {
        if data.len() < 5 {
            (v, FrameReaction::SendAck { skip_timer_check: true })
        } else {
            let r = v.received + data.skip(2);
            (
                MacTaskView {
                    cur_recv_frame: (v.cur_recv_frame + 1) as usize,
                    continue_sends: 0,
                    received: r,
                    recv_pending: if r.len() >= v.receive_byte_num {
                        false
                    } else {
                        v.recv_pending
                    },
                    ..v
                },
                FrameReaction::SendAck { skip_timer_check: false },
            )
        }
    } else {
        (v, FrameReaction::SendAck { skip_timer_check: false })
    }
}

/// The state after frame bytes `data` arrive, and the reaction.
pub open spec fn spec_on_frame(v: MacTaskView, data: Seq<u8>) -> (MacTaskView, FrameReaction) {
    if !addressed_to(data, v.mac_address) {
        (v, FrameReaction::Ignore)
    } else if frame_type_of(data) == MACType::Ack {
        spec_on_ack(v)
    } else {
        spec_on_data(v, data)
    }
}

/// The state after the timer expires, and the reaction.
pub open spec fn spec_on_timer_expired(v: MacTaskView) -> (MacTaskView, TimerReaction) {
    match v.timer_type {
        TimerType::ACK => {
            let r = (v.retry_times + 1) as u64;
            if r >= MAX_SEND {
                (MacTaskView { retry_times: r, ..v }, TimerReaction::LinkError)
            } else {
                (
                    MacTaskView { retry_times: r, timer_type: TimerType::BACKOFF, ..v },
                    TimerReaction::StartBackoff,
                )
            }
        },
        TimerType::BACKOFF => (v, TimerReaction::SendDataFrame { index: v.cur_send_frame }),
        TimerType::NoTimer => (v, TimerReaction::Nothing),
    }
}

/// The state after an attempt to send a data frame, and the timer to start
/// (kind and backoff factor): on a free channel the frame went out and an
/// acknowledgement is awaited; on a busy one a longer backoff follows.
pub open spec fn spec_on_send_result(v: MacTaskView, channel_empty: bool) -> (
    MacTaskView,
    (TimerType, u64),
) {
    if channel_empty {
        (MacTaskView { timer_type: TimerType::ACK, ..v }, (TimerType::ACK, 0))
    } else {
        let r = (v.resend_times + 1) as u64;
        (
            MacTaskView { resend_times: r, timer_type: TimerType::BACKOFF, ..v },
            (TimerType::BACKOFF, r),
        )
    }
}

/// One node's transfer: sending a number of data frames and receiving up to
/// a number of bytes.
pub struct MacTask {
    mac_address: u8,
    send_frame_count: usize,
    receive_byte_num: usize,
    send_pending: bool,
    recv_pending: bool,
    cur_send_frame: usize,
    cur_recv_frame: usize,
    retry_times: u64,
    resend_times: u64,
    continue_sends: u64,
    timer_type: TimerType,
    received: Vec<Byte>,
}

impl View for MacTask {
    type V = MacTaskView;

    closed spec fn view(&self) -> MacTaskView {
        MacTaskView {
            mac_address: self.mac_address,
            send_frame_count: self.send_frame_count,
            receive_byte_num: self.receive_byte_num,
            send_pending: self.send_pending,
            recv_pending: self.recv_pending,
            cur_send_frame: self.cur_send_frame,
            cur_recv_frame: self.cur_recv_frame,
            retry_times: self.retry_times,
            resend_times: self.resend_times,
            continue_sends: self.continue_sends,
            timer_type: self.timer_type,
            received: self.received@,
        }
    }
}

impl MacTaskView {
    /// While frames remain to send, the current one exists.
    pub open spec fn wf(self) -> bool {
        self.send_pending ==> self.cur_send_frame < self.send_frame_count
    }
}

impl MacTask {
    #[verifier::type_invariant]
    closed spec fn inv(self) -> bool {
        self@.wf()
    }

    /// A transfer of `send_frame_count` frames and `receive_byte_num` bytes
    /// for the node at `mac_address`. If there are frames to send, a backoff
    /// timer (factor 0) must be started first; that is the second result.
    pub fn new(mac_address: u8, send_frame_count: usize, receive_byte_num: usize) -> (r: (
        MacTask,
        bool,
    ))
        ensures
            r.0@ == (MacTaskView {
                mac_address,
                send_frame_count,
                receive_byte_num,
                send_pending: send_frame_count > 0,
                recv_pending: receive_byte_num > 0,
                cur_send_frame: 0,
                cur_recv_frame: 0,
                retry_times: 0,
                resend_times: 0,
                continue_sends: 0,
                timer_type: if send_frame_count > 0 {
                    TimerType::BACKOFF
                } else {
                    TimerType::NoTimer
                },
                received: Seq::empty(),
            }),
            r.1 == (send_frame_count > 0),
    {
        let start = send_frame_count > 0;
        let task = MacTask {
            mac_address,
            send_frame_count,
            receive_byte_num,
            send_pending: start,
            recv_pending: receive_byte_num > 0,
            cur_send_frame: 0,
            cur_recv_frame: 0,
            retry_times: 0,
            resend_times: 0,
            continue_sends: 0,
            timer_type: if start {
                TimerType::BACKOFF
            } else {
                TimerType::NoTimer
            },
            received: Vec::new(),
        };
        assert(task@ =~= MacTaskView {
            mac_address,
            send_frame_count,
            receive_byte_num,
            send_pending: send_frame_count > 0,
            recv_pending: receive_byte_num > 0,
            cur_send_frame: 0,
            cur_recv_frame: 0,
            retry_times: 0,
            resend_times: 0,
            continue_sends: 0,
            timer_type: if send_frame_count > 0 {
                TimerType::BACKOFF
            } else {
                TimerType::NoTimer
            },
            received: Seq::empty(),
        });
        (task, start)
    }

    /// Whether there is still something to send or to receive.
    pub fn is_running(&self) -> (b: bool)
        ensures
            b == (self@.send_pending || self@.recv_pending),
    {
        self.send_pending || self.recv_pending
    }

    /// Whether frames remain to send.
    pub fn is_sending(&self) -> (b: bool)
        ensures
            b == self@.send_pending,
    {
        self.send_pending
    }

    /// Index of the frame being sent.
    pub fn cur_send_frame(&self) -> (n: usize)
        ensures
            n == self@.cur_send_frame,
    {
        self.cur_send_frame
    }

    /// Number of data frames received so far.
    pub fn cur_recv_frame(&self) -> (n: usize)
        ensures
            n == self@.cur_recv_frame,
    {
        self.cur_recv_frame
    }

    /// Frames sent one after the other without receiving one in between.
    pub fn continue_sends(&self) -> (n: u64)
        ensures
            n == self@.continue_sends,
    {
        self.continue_sends
    }

    /// Acknowledgement timeouts of the current frame.
    pub fn retry_times(&self) -> (n: u64)
        ensures
            n == self@.retry_times,
    {
        self.retry_times
    }

    /// Busy-channel backoffs of the current frame.
    pub fn resend_times(&self) -> (n: u64)
        ensures
            n == self@.resend_times,
    {
        self.resend_times
    }

    /// The payload bytes received so far.
    pub fn received(&self) -> (r: &Vec<Byte>)
        ensures
            r@ == self@.received,
    {
        &self.received
    }

    /// Reacts to the frame bytes `data` received from the channel.
    pub fn on_frame(&mut self, data: &[Byte]) -> (r: FrameReaction)
        requires
            data@.len() >= 2,
            old(self)@.cur_send_frame < usize::MAX,
            old(self)@.cur_recv_frame < usize::MAX,
            old(self)@.continue_sends < u64::MAX,
        ensures
            (final(self)@, r) == spec_on_frame(old(self)@, data@),
    {
        proof {
            use_type_invariant(&*self);
        }
        if MACFrame::get_dst(data) != self.mac_address {
            return FrameReaction::Ignore;
        }
        if MACFrame::get_type(data) == MACType::Ack {
            let c = self.cur_send_frame + 1;
            if c == self.send_frame_count {
                self.send_pending = false;
                self.cur_send_frame = c;
                FrameReaction::AckReceived { start_backoff: false }
            } else if self.send_frame_count > c {
                self.cur_send_frame = c;
                self.retry_times = 0;
                self.resend_times = 0;
                self.continue_sends = self.continue_sends + 1;
                self.timer_type = TimerType::BACKOFF;
                FrameReaction::AckReceived { start_backoff: true }
            } else {
                self.cur_send_frame = c;
                FrameReaction::AckReceived { start_backoff: false }
            }
        } else {
            if self.cur_recv_frame % 64 == MACFrame::get_frame_id(data) as usize {
                if data.len() < 5 {
                    FrameReaction::SendAck { skip_timer_check: true }
                } else {
                    self.cur_recv_frame = self.cur_recv_frame + 1;
                    self.continue_sends = 0;
                    let payload = MACFrame::get_payload(data);
                    let mut received: Vec<Byte> = Vec::new();
                    std::mem::swap(&mut received, &mut self.received);
                    let mut i: usize = 0;
                    let ghost before = received@;
                    while i < payload.len()
                        invariant
                            received@ == before + payload@.take(i as int),
                            i <= payload@.len(),
                        decreases payload@.len() - i,
                    {
                        assert(payload@.take(i + 1) == payload@.take(i as int).push(payload@[i as int]));
                        received.push(payload[i]);
                        i = i + 1;
                    }
                    assert(payload@.take(payload@.len() as int) == payload@);
                    assert(payload@ == data@.skip(2));
                    self.received = received;
                    if self.received.len() >= self.receive_byte_num {
                        self.recv_pending = false;
                    }
                    FrameReaction::SendAck { skip_timer_check: false }
                }
            } else {
                FrameReaction::SendAck { skip_timer_check: false }
            }
        }
    }

    /// Reacts to the timer expiring while frames remain to send.
    pub fn on_timer_expired(&mut self) -> (r: TimerReaction)
        requires
            old(self)@.send_pending,
            old(self)@.retry_times < u64::MAX,
        ensures
            (final(self)@, r) == spec_on_timer_expired(old(self)@),
            r matches TimerReaction::SendDataFrame { index } ==> index < old(
                self,
            )@.send_frame_count,
    {
        proof {
            use_type_invariant(&*self);
        }
        match self.timer_type {
            TimerType::ACK => {
                self.retry_times = self.retry_times + 1;
                if self.retry_times >= MAX_SEND {
                    TimerReaction::LinkError
                } else {
                    self.timer_type = TimerType::BACKOFF;
                    TimerReaction::StartBackoff
                }
            },
            TimerType::BACKOFF => TimerReaction::SendDataFrame { index: self.cur_send_frame },
            TimerType::NoTimer => TimerReaction::Nothing,
        }
    }

    /// Reacts to the outcome of an attempt to send a data frame, and returns
    /// the timer to start (kind and backoff factor).
    pub fn on_send_result(&mut self, channel_empty: bool) -> (r: (TimerType, u64))
        requires
            old(self)@.resend_times < u64::MAX,
        ensures
            (final(self)@, r) == spec_on_send_result(old(self)@, channel_empty),
    {
        proof {
            use_type_invariant(&*self);
        }
        if channel_empty {
            self.timer_type = TimerType::ACK;
            (TimerType::ACK, 0)
        } else {
            self.resend_times = self.resend_times + 1;
            self.timer_type = TimerType::BACKOFF;
            (TimerType::BACKOFF, self.resend_times)
        }
    }
}

/// Every frame for this node that is not an acknowledgement is answered with
/// one, a frame for another node is ignored, and the bytes received only ever
/// grow by the payload of one frame.
pub proof fn lemma_frame_reactions(v: MacTaskView, data: Seq<u8>)
    ensures
        !addressed_to(data, v.mac_address) ==> spec_on_frame(v, data) == (v, FrameReaction::Ignore),
        addressed_to(data, v.mac_address) && frame_type_of(data) != MACType::Ack
            ==> spec_on_frame(v, data).1 is SendAck,
        spec_on_frame(v, data).0.received == v.received || spec_on_frame(v, data).0.received
            == v.received + data.skip(2),
{
}

/// Only an acknowledgement moves sending on, by exactly one frame, and it
/// ends the sending when it acknowledges the last frame.
pub proof fn lemma_ack_advances_sending(v: MacTaskView, data: Seq<u8>)
    requires
        v.wf(),
        v.cur_send_frame < usize::MAX,
    ensures
        spec_on_frame(v, data).0.cur_send_frame != v.cur_send_frame ==> (addressed_to(
            data,
            v.mac_address,
        ) && frame_type_of(data) == MACType::Ack && spec_on_frame(v, data).0.cur_send_frame
            == v.cur_send_frame + 1),
        addressed_to(data, v.mac_address) && frame_type_of(data) == MACType::Ack && v.send_pending
            && v.cur_send_frame + 1 == v.send_frame_count ==> !spec_on_frame(v, data).0.send_pending,
{
}

/// A node takes the data frame it expects next: one sent to it, whose id is
/// the number of frames it has taken so far (modulo 64), with at least three
/// payload bytes. Its payload is appended and the frame is acknowledged.
pub proof fn lemma_receiver_takes_next_frame(v: MacTaskView, f: MACFrameView)
    requires
        f.dest == v.mac_address,
        v.mac_address < 16,
        f.mac_type == 0,
        f.frame_id % 64 == v.cur_recv_frame % 64,
        f.payload.len() >= 3,
        v.cur_recv_frame < usize::MAX,
    ensures
        spec_on_frame(v, spec_frame_bytes(f)).1 == (FrameReaction::SendAck {
            skip_timer_check: false,
        }),
        spec_on_frame(v, spec_frame_bytes(f)).0.received == v.received + f.payload,
        spec_on_frame(v, spec_frame_bytes(f)).0.cur_recv_frame == v.cur_recv_frame + 1,
{
    crate::mac_frame::lemma_frame_header_roundtrip(f);
    assert(spec_frame_bytes(f).skip(2) =~= spec_frame_bytes(f).subrange(
        2,
        spec_frame_bytes(f).len() as int,
    ));
}

/// A sending node takes an acknowledgement sent to it as one.
pub proof fn lemma_sender_takes_ack(v: MacTaskView, f: MACFrameView)
    requires
        f.dest == v.mac_address,
        v.mac_address < 16,
        f.mac_type == 1,
    ensures
        spec_on_frame(v, spec_frame_bytes(f)) == spec_on_ack(v),
{
    crate::mac_frame::lemma_frame_header_roundtrip(f);
}

/// An acknowledgement that moves sending on to a further frame starts that
/// frame afresh: no acknowledgement timeouts and no busy-channel backoffs
/// counted yet, and a backoff before it is sent. So the `MAX_SEND` limit
/// counts the timeouts of one frame only.
pub proof fn lemma_ack_starts_next_frame_afresh(v: MacTaskView, data: Seq<u8>)
    requires
        spec_dst_of(data) == v.mac_address,
        spec_type_of(data) == MACType::Ack,
        v.cur_send_frame + 1 < v.send_frame_count,
    ensures
        spec_on_frame(v, data).0.cur_send_frame == v.cur_send_frame + 1,
        spec_on_frame(v, data).0.retry_times == 0,
        spec_on_frame(v, data).0.resend_times == 0,
        spec_on_frame(v, data).0.timer_type == TimerType::BACKOFF,
        spec_on_frame(v, data).1 == (FrameReaction::AckReceived { start_backoff: true }),
{
}

/// The link is given up only when an acknowledgement timeout is the
/// `MAX_SEND`-th (or later) of the current frame; any earlier timeout leads
/// to a backoff and a new attempt, with one more timeout counted.
pub proof fn lemma_link_error_only_after_max_send(v: MacTaskView)
    requires
        v.retry_times < u64::MAX,
    ensures
        spec_on_timer_expired(v).1 is LinkError <==> (v.timer_type == TimerType::ACK
            && v.retry_times + 1 >= 40),
        v.timer_type == TimerType::ACK && v.retry_times + 1 < 40 ==> spec_on_timer_expired(v)
            == (MacTaskView { retry_times: (v.retry_times + 1) as u64, timer_type: TimerType::BACKOFF, ..v },
        TimerReaction::StartBackoff),
        v.timer_type == TimerType::BACKOFF ==> spec_on_timer_expired(v) == (v,
        TimerReaction::SendDataFrame { index: v.cur_send_frame }),
{
}

/// Takes in a frame received while only listening: a data frame addressed to
/// `self_mac` has its payload (everything after the two header bytes)
/// appended to `received`; any other frame is passed over. Returns whether
/// the frame was taken.
pub fn receive_data_frame(received: &mut Vec<Byte>, data: &[Byte], self_mac: u8) -> (taken: bool)
    requires
        data@.len() >= 2,
    ensures
        taken == (addressed_to(data@, self_mac) && frame_type_of(data@) == MACType::Data),
        final(received)@ == if taken {
            old(received)@ + data@.skip(2)
        } else {
            old(received)@
        },
{
    if MACFrame::get_dst(data) == self_mac && MACFrame::get_type(data) == MACType::Data {
        let payload = MACFrame::get_payload(data);
        let n = payload.len();
        for i in 0..n
            invariant
                n == payload@.len(),
                payload@ == data@.skip(2),
                received@ == old(received)@ + payload@.take(i as int),
        {
            assert(payload@.take(i + 1) == payload@.take(i as int).push(payload@[i as int]));
            received.push(payload[i]);
        }
        assert(payload@.take(n as int) == payload@);
        true
    } else {
        false
    }
}

} // verus!
