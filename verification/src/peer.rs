//! Point-to-point voice transport state: the readiness handshake, the
//! monotonically increasing sequence counter stamped onto outgoing
//! packets, the receiver's volume tag, and the reorder buffer that
//! re-sequences bursts of out-of-order arrivals.
//!
//! The socket itself lives with the caller: this module decides, the
//! caller binds, transmits and polls.
use vstd::prelude::*;
use crate::wire;

verus! {

/// One voice packet waiting in the reorder buffer: the playback item
/// (payload plus trailing volume byte) keyed by its sequence number.
pub struct BufferedPacket {
    pub seq: u64,
    pub item: Vec<u8>,
}

/// A priority collection of playback items ordered ascending by
/// sequence number; drained in full whenever it holds more than one
/// entry.
pub struct ReorderBuffer {
    items: Vec<BufferedPacket>,
}

impl ReorderBuffer {
    /// The sequence numbers held, in buffer order.
    pub closed spec fn seqs(self) -> Seq<u64> {
        self.items@.map_values(|e: BufferedPacket| e.seq)
    }

    /// The playback items held, in buffer order.
    pub closed spec fn payloads(self) -> Seq<Seq<u8>> {
        self.items@.map_values(|e: BufferedPacket| e.item@)
    }

    /// The buffer keeps its entries sorted ascending by sequence number.
    pub open spec fn wf(self) -> bool {
        forall|i: int, j: int|
            0 <= i < j < self.seqs().len() ==> self.seqs()[i] <= self.seqs()[j]
    }

    pub open spec fn len_spec(self) -> nat {
        self.seqs().len()
    }

    pub fn new() -> (r: ReorderBuffer)
        ensures
            r.wf(),
            r.len_spec() == 0,
    {
        ReorderBuffer { items: Vec::new() }
    }

    pub fn len(&self) -> (r: usize)
        ensures
            r == self.len_spec(),
    {
        self.items.len()
    }

    /// Insert one packet at its position in sequence order; packets
    /// with equal sequence numbers stay in arrival order.
    pub fn insert(&mut self, seq: u64, item: Vec<u8>)
        requires
            old(self).wf(),
            old(self).len_spec() < usize::MAX,
        ensures
            final(self).wf(),
            final(self).len_spec() == old(self).len_spec() + 1,
            exists|k: int|
                0 <= k <= old(self).len_spec()
                && final(self).seqs() =~= old(self).seqs().insert(k, seq)
                && final(self).payloads() =~= old(self).payloads().insert(k, item@),
    {
        let ghost old_seqs = self.seqs();
        let ghost old_payloads = self.payloads();
        let n = self.items.len();
        let mut k: usize = 0;
        while k < n && self.items[k].seq <= seq
            invariant
                0 <= k <= n,
                n == self.len_spec(),
                self == old(self),
                forall|i: int| 0 <= i < k ==> self.seqs()[i] <= seq,
            decreases n - k,
        {
            k = k + 1;
        }
        proof {
            assert(forall|i: int| k <= i < n ==> old_seqs[k as int] <= #[trigger] old_seqs[i]);
        }
        self.items.insert(k, BufferedPacket { seq, item });
        proof {
            assert(self.seqs() =~= old_seqs.insert(k as int, seq));
            assert(self.payloads() =~= old_payloads.insert(k as int, item@));
            assert forall|i: int, j: int|
                0 <= i < j < self.seqs().len() implies self.seqs()[i] <= self.seqs()[j] by {
                if i < k && j > k {
                    assert(old_seqs[i] <= old_seqs[j - 1]);
                }
            }
        }
    }

    /// Remove every entry, returning the playback items in ascending
    /// sequence order (the buffer's own order).
    pub fn drain(&mut self) -> (r: Vec<Vec<u8>>)
        requires
            old(self).wf(),
        ensures
            final(self).wf(),
            final(self).len_spec() == 0,
            r@.map_values(|v: Vec<u8>| v@) =~= old(self).payloads(),
    {
        let mut r: Vec<Vec<u8>> = Vec::new();
        let ghost orig = self.items@;
        let n = self.items.len();
        proof {
            assert(self.items@ =~= orig.skip(0));
        }
        let mut taken: usize = 0;
        while taken < n
            invariant
                0 <= taken <= n,
                n == orig.len(),
                self.items@ == orig.skip(taken as int),
                r@.len() == taken,
                forall|i: int| 0 <= i < taken ==> r@[i]@ == #[trigger] orig[i].item@,
            decreases n - taken,
        {
            let e = self.items.remove(0);
            proof {
                assert(orig.skip(taken as int)[0] == orig[taken as int]);
                assert(orig.skip(taken as int).remove(0) =~= orig.skip(taken as int + 1));
            }
            r.push(e.item);
            taken = taken + 1;
        }
        proof {
            assert(r@.map_values(|v: Vec<u8>| v@) =~= old(self).payloads());
            assert(self.items@ =~= Seq::<BufferedPacket>::empty());
        }
        r
    }
}

/// Sending was attempted before the readiness handshake completed; the
/// caller may retry once the peer has answered the liveness byte.
#[derive(Clone, Copy, PartialEq, Eq, Structural, Debug)]
pub struct NotReadyError;

/// What the receive path asks its runner to do with one datagram.
#[derive(Clone, Copy, PartialEq, Eq, Structural, Debug)]
pub enum DatagramAction {
    /// A liveness byte arrived while not ready: answer with one
    /// liveness byte.
    ReplyLiveness,
    /// Too short to carry a sequence number (or a keepalive once
    /// ready): discarded without effect.
    Discarded,
    /// A voice packet was accepted into the reorder buffer.
    Buffered,
}

/// One end of a point-to-point voice channel. The transport starts
/// not-ready; it becomes ready when a single liveness byte arrives.
/// Outgoing packets are stamped with a monotonically increasing
/// sequence number starting at 0. Incoming voice packets are tagged
/// with the receiver's current volume and re-sequenced through the
/// reorder buffer.
pub struct AudioPeer {
    ready: bool,
    packet_count: u64,
    volume: u8,
    buffer: ReorderBuffer,
}

impl AudioPeer {
    pub closed spec fn is_ready_spec(self) -> bool {
        self.ready
    }

    pub closed spec fn packet_count_spec(self) -> u64 {
        self.packet_count
    }

    pub closed spec fn volume_spec(self) -> u8 {
        self.volume
    }

    pub closed spec fn buffer_seqs(self) -> Seq<u64> {
        self.buffer.seqs()
    }

    pub closed spec fn buffer_payloads(self) -> Seq<Seq<u8>> {
        self.buffer.payloads()
    }

    pub open spec fn wf(self) -> bool {
        self.buffer_wf()
    }

    pub closed spec fn buffer_wf(self) -> bool {
        self.buffer.wf()
    }

    /// A fresh transport: not ready, sequence counter at 0, output
    /// volume at 100 (full), empty reorder buffer. The caller binds
    /// the socket and, on connect, transmits one liveness byte `[1]`
    /// eagerly: the underlying transport busy-spins pathologically
    /// when one side's first read never arrives, and the eager byte
    /// guarantees the peer's receive loop observes traffic even in
    /// symmetric setups.
    pub fn new() -> (r: AudioPeer)
        ensures
            r.wf(),
            !r.is_ready_spec(),
            r.packet_count_spec() == 0,
            r.volume_spec() == 100,
            r.buffer_seqs().len() == 0,
    {
        AudioPeer { ready: false, packet_count: 0, volume: 100, buffer: ReorderBuffer::new() }
    }

    pub fn is_ready(&self) -> (r: bool)
        ensures
            r == self.is_ready_spec(),
    {
        self.ready
    }

    /// How many voice packets have been stamped and handed out so far;
    /// also the sequence number the next packet will carry.
    pub fn packet_count(&self) -> (r: u64)
        ensures
            r == self.packet_count_spec(),
    {
        self.packet_count
    }

    /// Set the output volume tagged onto every subsequently accepted
    /// voice packet (0-100 semantically; stored as one byte).
    pub fn change_volume(&mut self, volume: u8)
        ensures
            final(self).volume_spec() == volume,
            final(self).is_ready_spec() == old(self).is_ready_spec(),
            final(self).packet_count_spec() == old(self).packet_count_spec(),
            final(self).buffer_seqs() == old(self).buffer_seqs(),
            final(self).buffer_payloads() == old(self).buffer_payloads(),
            old(self).wf() ==> final(self).wf(),
    {
        self.volume = volume;
    }

    /// Frame one compressed payload for transmission. Before the
    /// readiness handshake completes this fails with `NotReadyError`
    /// and changes nothing; once ready it returns
    /// `payload ++ sequence_number` and advances the counter
    /// (post-increment).
    pub fn send(&mut self, data: Vec<u8>) -> (r: Result<Vec<u8>, NotReadyError>)
        requires
            old(self).packet_count_spec() < u64::MAX,
            data@.len() + wire::SEQ_WIDTH <= usize::MAX,
        ensures
            r is Ok <==> old(self).is_ready_spec(),
            r is Ok ==> r.unwrap()@ == wire::frame_spec(data@, old(self).packet_count_spec()),
            r is Ok ==> final(self).packet_count_spec() == old(self).packet_count_spec() + 1,
            r is Err ==> *final(self) == *old(self),
            final(self).is_ready_spec() == old(self).is_ready_spec(),
            final(self).volume_spec() == old(self).volume_spec(),
            final(self).buffer_seqs() == old(self).buffer_seqs(),
            final(self).buffer_payloads() == old(self).buffer_payloads(),
            old(self).wf() ==> final(self).wf(),
    {
        if !self.ready {
            return Err(NotReadyError);
        }
        let seq = self.packet_count;
        self.packet_count = self.packet_count + 1;
        Ok(wire::frame_packet(&data, seq))
    }

    /// The receive-path state machine, one datagram at a time:
    /// - a single byte while not ready completes the handshake and
    ///   asks the runner to echo one liveness byte;
    /// - a single byte while ready is a keepalive, discarded;
    /// - anything shorter than the sequence-number width is malformed,
    ///   discarded without effect;
    /// - otherwise the payload is tagged with the current volume byte
    ///   and buffered under its sequence number.
    pub fn handle_datagram(&mut self, data: &Vec<u8>) -> (r: DatagramAction)
        requires
            old(self).wf(),
            old(self).buffer_seqs().len() < usize::MAX,
    ensures
            final(self).wf(),
            final(self).volume_spec() == old(self).volume_spec(),
            final(self).packet_count_spec() == old(self).packet_count_spec(),
            data@.len() == 1 && !old(self).is_ready_spec() ==> {
                &&& r == DatagramAction::ReplyLiveness
                &&& final(self).is_ready_spec()
                &&& final(self).buffer_seqs() == old(self).buffer_seqs()
                &&& final(self).buffer_payloads() == old(self).buffer_payloads()
            },
            !(data@.len() == 1 && !old(self).is_ready_spec()) ==> final(self).is_ready_spec()
                == old(self).is_ready_spec(),
            (data@.len() != 1 || old(self).is_ready_spec()) && data@.len() < wire::SEQ_WIDTH ==> {
                &&& r == DatagramAction::Discarded
                &&& final(self).buffer_seqs() == old(self).buffer_seqs()
                &&& final(self).buffer_payloads() == old(self).buffer_payloads()
            },
            data@.len() >= wire::SEQ_WIDTH ==> {
                let (payload, seq) = wire::parse_spec(data@).unwrap();
                &&& r == DatagramAction::Buffered
                &&& final(self).buffer_seqs().len() == old(self).buffer_seqs().len() + 1
                &&& exists|k: int|
                    0 <= k <= old(self).buffer_seqs().len()
                    && final(self).buffer_seqs() =~= old(self).buffer_seqs().insert(k, seq)
                    && final(self).buffer_payloads() =~= old(self).buffer_payloads().insert(
                        k,
                        payload.push(old(self).volume_spec()),
                    )
            },
    {
        let n = data.len();
        if n == 1 && !self.ready {
            self.ready = true;
            return DatagramAction::ReplyLiveness;
        }
        if n < wire::SEQ_WIDTH {
            return DatagramAction::Discarded;
        }
        let parsed = wire::parse_packet(data);
        let (mut payload, seq) = parsed.unwrap();
        payload.push(self.volume);
        self.buffer.insert(seq, payload);
        DatagramAction::Buffered
    }

    /// How many packets the reorder buffer currently holds.
    pub fn buffered(&self) -> (r: usize)
        ensures
            r == self.buffer_seqs().len(),
    {
        self.buffer.len()
    }

    /// The batch-reorder flush, run after each socket readiness event:
    /// once the buffer holds more than one entry, every entry is
    /// released at once, in ascending sequence order, for the playback
    /// queue. Waiting for a second entry is what tolerates a burst of
    /// out-of-order arrivals, at the price of a small latency; there is
    /// no adaptive jitter window and no maximum dwell time.
    pub fn flush(&mut self) -> (r: Vec<Vec<u8>>)
        requires
            old(self).wf(),
        ensures
            final(self).wf(),
            final(self).volume_spec() == old(self).volume_spec(),
            final(self).packet_count_spec() == old(self).packet_count_spec(),
            final(self).is_ready_spec() == old(self).is_ready_spec(),
            old(self).buffer_seqs().len() <= 1 ==> {
                &&& r@.len() == 0
                &&& final(self).buffer_seqs() == old(self).buffer_seqs()
                &&& final(self).buffer_payloads() == old(self).buffer_payloads()
            },
            old(self).buffer_seqs().len() > 1 ==> {
                &&& r@.map_values(|v: Vec<u8>| v@) =~= old(self).buffer_payloads()
                &&& final(self).buffer_seqs().len() == 0
            },
            // what is released comes out in ascending sequence order
            forall|i: int, j: int|
                0 <= i < j < old(self).buffer_seqs().len() ==> old(self).buffer_seqs()[i]
                    <= old(self).buffer_seqs()[j],
    {
        if self.buffer.len() > 1 {
            self.buffer.drain()
        } else {
            Vec::new()
        }
    }
}

} // verus!
