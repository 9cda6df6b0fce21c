//! The voice datagram format: a variable-length compressed payload
//! followed by the sender's sequence number as an 8-byte little-endian
//! integer. A datagram shorter than the sequence-number width is
//! malformed and carries nothing.
use vstd::prelude::*;
use vstd::bytes::*;

verus! {

/// Width in bytes of the trailing sequence number of a voice datagram.
pub const SEQ_WIDTH: usize = 8;

/// The bytes of a voice datagram carrying `payload` with sequence
/// number `seq`: the payload followed by the 8-byte little-endian
/// encoding of `seq`.
pub open spec fn frame_spec(payload: Seq<u8>, seq: u64) -> Seq<u8> {
    payload + spec_u64_to_le_bytes(seq)
}

/// What a receiver reconstructs from the bytes of a datagram:
/// `None` when the datagram is shorter than the sequence-number width,
/// otherwise the payload and the sequence number.
pub open spec fn parse_spec(data: Seq<u8>) -> Option<(Seq<u8>, u64)> {
    if data.len() < SEQ_WIDTH {
        None
    } else {
        let cut = data.len() - SEQ_WIDTH;
        Some((data.take(cut as int), spec_u64_from_le_bytes(data.skip(cut as int))))
    }
}

/// Copy `v[from..to]` into a fresh vector.
pub fn sub_vec(v: &Vec<u8>, from: usize, to: usize) -> (r: Vec<u8>)
    requires
        from <= to <= v@.len(),
    ensures
        r@ == v@.subrange(from as int, to as int),
{
    let mut r: Vec<u8> = Vec::new();
    let mut i: usize = from;
    while i < to
        invariant
            from <= i <= to <= v@.len(),
            r@ == v@.subrange(from as int, i as int),
        decreases to - i,
    {
        r.push(v[i]);
        i = i + 1;
        proof {
            assert(r@ =~= v@.subrange(from as int, i as int));
        }
    }
    r
}

/// Frame one compressed payload for transmission: append the 8-byte
/// little-endian sequence number.
pub fn frame_packet(payload: &Vec<u8>, seq: u64) -> (r: Vec<u8>)
    requires
        payload@.len() + SEQ_WIDTH <= usize::MAX,
    ensures
        r@ == frame_spec(payload@, seq),
{
    let mut r: Vec<u8> = Vec::new();
    r.extend_from_slice(payload.as_slice());
    let mut tail = u64_to_le_bytes(seq);
    r.append(&mut tail);
    proof {
        assert(r@ =~= frame_spec(payload@, seq));
    }
    r
}

/// Split a received datagram into its payload and its sequence number;
/// a datagram shorter than the sequence-number width is rejected.
pub fn parse_packet(data: &Vec<u8>) -> (r: Option<(Vec<u8>, u64)>)
    ensures
        r is Some <==> parse_spec(data@) is Some,
        r is Some ==> {
            let (payload, seq) = r.unwrap();
            let (spayload, sseq) = parse_spec(data@).unwrap();
            payload@ == spayload && seq == sseq
        },
{
    let n = data.len();
    if n < SEQ_WIDTH {
        return None;
    }
    let cut = n - SEQ_WIDTH;
    let payload = sub_vec(data, 0, cut);
    let tail = sub_vec(data, cut, n);
    let seq = u64_from_le_bytes(tail.as_slice());
    proof {
        assert(payload@ =~= data@.take(cut as int));
        assert(tail@ =~= data@.skip(cut as int));
    }
    Some((payload, seq))
}

/// Framing then parsing loses nothing: a receiver reconstructs exactly
/// the payload and the sequence number the sender framed.
pub proof fn lemma_parse_frame_round_trip(payload: Seq<u8>, seq: u64)
    ensures
        parse_spec(frame_spec(payload, seq)) == Some((payload, seq)),
{
    lemma_auto_spec_u64_to_from_le_bytes();
    let framed = frame_spec(payload, seq);
    assert(framed.len() == payload.len() + 8);
    assert(framed.take(payload.len() as int) =~= payload);
    assert(framed.skip(payload.len() as int) =~= spec_u64_to_le_bytes(seq));
}

} // verus!
