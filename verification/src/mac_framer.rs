//! Framing of outgoing data: acknowledgement frames and the split of data
//! into numbered data frames.

use crate::bits::Byte;
use crate::mac_frame::{MACFrame, MACFrameView, MACType};
use vstd::prelude::*;

verus! {

/// Number of frames `n` bytes are split into with at most `m` bytes a frame.
pub open spec fn frame_count(n: nat, m: nat) -> nat {
    if m == 0 {
        0
    } else {
        ((n + m - 1) / (m as int)) as nat
    }
}

/// End (exclusive) of the `k`-th chunk of `n` bytes in chunks of `m`.
pub open spec fn chunk_end(n: nat, m: nat, k: nat) -> nat {
    if (k + 1) * m <= n {
        (k + 1) * m
    } else {
        n
    }
}

/// The `k`-th data frame the data `data` is split into, in chunks of `m`,
/// sent by `src` to `dest` and numbered from `first_id` on (modulo 256).
pub open spec fn spec_data_frame(
    data: Seq<u8>,
    m: nat,
    k: nat,
    dest: u8,
    src: u8,
    first_id: u8,
) -> MACFrameView {
    MACFrameView {
        frame_id: ((first_id + k) % 256) as u8,
        dest,
        src,
        mac_type: 0,
        payload: data.subrange((k * m) as int, chunk_end(data.len(), m, k) as int),
    }
}

/// The payloads of `frames`, one after the other.
pub open spec fn concat_payloads(frames: Seq<MACFrameView>) -> Seq<u8>
    decreases frames.len(),
{
    if frames.len() == 0 {
        Seq::empty()
    } else {
        concat_payloads(frames.drop_last()) + frames.last().payload
    }
}

/// The sending side of the MAC layer's framing: its own address and the id
/// of the next data frame.
pub struct MacFramer {
    address: u8,
    frame_id: u8,
}

/// The state of a framer as plain values.
pub struct MacFramerView {
    pub address: u8,
    pub frame_id: u8,
}

impl View for MacFramer {
    type V = MacFramerView;

    closed spec fn view(&self) -> MacFramerView {
        MacFramerView { address: self.address, frame_id: self.frame_id }
    }
}

proof fn lemma_count_step(n: nat, m: nat, k: nat)
    requires
        m > 0,
        k * m < n,
        n <= (k + 1) * m,
    ensures
        frame_count(n, m) == k + 1,
{
    assert((n + m - 1) / (m as int) == k + 1) by (nonlinear_arith)
        requires
            m > 0,
            k * m < n,
            n <= (k + 1) * m,
    ;
}

impl MacFramer {
    /// A framer for `address`, numbering frames from 0.
    pub fn new(address: u8) -> (f: MacFramer)
        ensures
            f@.address == address,
            f@.frame_id == 0,
    {
        MacFramer { address, frame_id: 0 }
    }

    /// Returns the current frame id and advances it, wrapping from 255 to 0.
    fn inc_frame_id(&mut self) -> (prev: u8)
        ensures
            prev == old(self)@.frame_id,
            final(self)@.frame_id == (old(self)@.frame_id + 1) % 256,
            final(self)@.address == old(self)@.address,
    {
        let prev_id = self.frame_id;
        if self.frame_id == 255 {
            self.frame_id = 0;
        } else {
            self.frame_id = self.frame_id + 1;
        }
        prev_id
    }

    /// An acknowledgement frame to `dest` (frame id 0, empty payload).
    pub fn generate_ack_frame(&mut self, dest: u8) -> (f: MACFrame)
        ensures
            final(self)@ == old(self)@,
            f@ == (MACFrameView {
                frame_id: 0,
                dest,
                src: old(self)@.address,
                mac_type: 1,
                payload: Seq::empty(),
            }),
    {
        MACFrame::new(dest, self.address, MACType::Ack, Vec::new())
    }

    /// Splits `data` into data frames to `dest` of at most
    /// `frame_max_length` payload bytes, numbered consecutively from the
    /// current frame id.
    pub fn generate_data_frames(&mut self, data: Vec<Byte>, dest: u8, frame_max_length: usize) -> (frames: Vec<MACFrame>)
        requires
            frame_max_length > 0 || data@.len() == 0,
        ensures
            frames@.len() == frame_count(data@.len(), frame_max_length as nat),
            forall|k: int|
                0 <= k < frames@.len() ==> #[trigger] frames@[k]@ == spec_data_frame(
                    data@,
                    frame_max_length as nat,
                    k as nat,
                    dest,
                    old(self)@.address,
                    old(self)@.frame_id,
                ),
            final(self)@.address == old(self)@.address,
            final(self)@.frame_id == (old(self)@.frame_id + frames@.len()) % 256,
    {
        let n = data.len();
        let m = frame_max_length;
        let ghost first_id = self.frame_id;
        let ghost address = self.address;
        let mut frames: Vec<MACFrame> = Vec::new();
        let mut offset: usize = 0;
        assert(frames@.len() * m == 0);
        while n - offset > m
            invariant
                n == data@.len(),
                m == frame_max_length,
                m > 0 || n == 0,
                offset <= n,
                offset == frames@.len() * m,
                frames@.len() == 0 || offset < n,
                self@.address == address,
                self@.frame_id == (first_id + frames@.len()) % 256,
                forall|k: int|
                    0 <= k < frames@.len() ==> #[trigger] frames@[k]@ == spec_data_frame(
                        data@,
                        m as nat,
                        k as nat,
                        dest,
                        address,
                        first_id,
                    ),
            decreases n - offset,
        {
            let ghost k = frames@.len();
            proof {
                assert((k + 1) * m == k * m + m) by (nonlinear_arith);
            }
            let payload = vstd::slice::slice_to_vec(&data.as_slice()[offset..offset + m]);
            let mut frame = MACFrame::new(dest, self.address, MACType::Data, payload);
            let id = self.inc_frame_id();
            frame.set_frame_id(id);
            proof {
                assert(chunk_end(n as nat, m as nat, k as nat) == offset + m);
                assert(frame@ =~= spec_data_frame(data@, m as nat, k as nat, dest, address, first_id));
            }
            frames.push(frame);
            offset = offset + m;
        }
        if offset < n {
            let ghost k = frames@.len();
            proof {
                assert((k + 1) * m == k * m + m) by (nonlinear_arith);
            }
            let payload = vstd::slice::slice_to_vec(&data.as_slice()[offset..n]);
            let mut frame = MACFrame::new(dest, self.address, MACType::Data, payload);
            let id = self.inc_frame_id();
            frame.set_frame_id(id);
            proof {
                assert(chunk_end(n as nat, m as nat, k as nat) == n);
                assert(frame@ =~= spec_data_frame(data@, m as nat, k as nat, dest, address, first_id));
                lemma_count_step(n as nat, m as nat, k as nat);
            }
            frames.push(frame);
        } else {
            proof {
                if m > 0 {
                    assert(n == 0);
                    assert((n + m - 1) / (m as int) == 0) by (nonlinear_arith)
                        requires
                            m > 0,
                            n == 0,
                    ;
                }
            }
        }
        frames
    }
}

/// The payloads of the data frames, one after the other, are the data.
pub proof fn lemma_data_frames_cover_data(data: Seq<u8>, m: nat, dest: u8, src: u8, first_id: u8)
    requires
        m > 0,
    ensures
        concat_payloads(
            Seq::new(frame_count(data.len(), m), |k: int| spec_data_frame(data, m, k as nat, dest, src, first_id)),
        ) == data,
{
    let n = data.len();
    let c = frame_count(n, m);
    let fs = Seq::new(c, |k: int| spec_data_frame(data, m, k as nat, dest, src, first_id));
    lemma_concat_prefix(data, m, dest, src, first_id, c);
    assert(fs.take(c as int) =~= fs);
    if c > 0 {
        assert(c * m >= n && (c - 1) * m < n) by (nonlinear_arith)
            requires
                m > 0,
                c == (n + m - 1) / (m as int),
                c > 0,
        ;
        assert(chunk_end(n, m, (c - 1) as nat) == n);
    } else {
        assert(n == 0) by (nonlinear_arith)
            requires
                m > 0,
                0 == (n + m - 1) / (m as int),
        ;
    }
    assert(data.take(n as int) =~= data);
}

/// The first `j` payloads cover the data up to the end of chunk `j - 1`.
proof fn lemma_concat_prefix(data: Seq<u8>, m: nat, dest: u8, src: u8, first_id: u8, j: nat)
    requires
        m > 0,
        j <= frame_count(data.len(), m),
    ensures
        concat_payloads(
            Seq::new(frame_count(data.len(), m), |k: int| spec_data_frame(data, m, k as nat, dest, src, first_id)).take(j as int),
        ) == data.take(if j == 0 { 0 } else { chunk_end(data.len(), m, (j - 1) as nat) as int }),
    decreases j,
{
    let n = data.len();
    let c = frame_count(n, m);
    let fs = Seq::new(c, |k: int| spec_data_frame(data, m, k as nat, dest, src, first_id));
    if j == 0 {
        assert(fs.take(0) =~= Seq::<MACFrameView>::empty());
        assert(data.take(0) =~= Seq::<u8>::empty());
    } else {
        lemma_concat_prefix(data, m, dest, src, first_id, (j - 1) as nat);
        assert(fs.take(j as int).drop_last() =~= fs.take((j - 1) as int));
        assert(fs.take(j as int).last() == spec_data_frame(data, m, (j - 1) as nat, dest, src, first_id));
        let prev_end = if j == 1 { 0 } else { chunk_end(n, m, (j - 2) as nat) as int };
        assert((j - 1) * m < n) by (nonlinear_arith)
            requires
                m > 0,
                j <= c,
                c == (n + m - 1) / (m as int),
                j >= 1,
        ;
        assert(j * m == (j - 1) * m + m) by (nonlinear_arith);
        if j >= 2 {
            assert((j - 1) * m == (j - 2 + 1) * m);
            assert(prev_end == (j - 1) * m);
        } else {
            assert((j - 1) * m == 0);
        }
        assert(data.take(prev_end) + data.subrange((j - 1) * m, chunk_end(n, m, (j - 1) as nat) as int)
            =~= data.take(chunk_end(n, m, (j - 1) as nat) as int));
    }
}

} // verus!
