//! The playback step: consume reordered, volume-tagged compressed
//! frames one per device callback. The queue always retains one item
//! of lookahead; the popped item splits into payload and volume byte,
//! the caller's codec decodes the payload, and every decoded sample is
//! scaled by `volume/100` (saturating at the 16-bit bounds).
use vstd::prelude::*;

verus! {

/// One decoded sample scaled by `vol/100`, truncated toward zero and
/// saturated at the 16-bit bounds (a volume byte above 100 amplifies).
pub open spec fn scale_spec(x: i16, vol: u8) -> i16 {
    if x >= 0 {
        let p = (x as int) * (vol as int) / 100;
        if p > 32767 {
            32767i16
        } else {
            p as i16
        }
    } else {
        let p = (-(x as int)) * (vol as int) / 100;
        if p > 32768 {
            -32768i16
        } else {
            (-p) as i16
        }
    }
}

/// Scale one sample by `vol/100`.
pub fn scale_sample(x: i16, vol: u8) -> (r: i16)
    ensures
        r == scale_spec(x, vol),
{
    if x >= 0 {
        proof {
            assert(0 <= (x as int) * (vol as int) <= 32767 * 255) by (nonlinear_arith)
                requires
                    0 <= x as int <= 32767,
                    0 <= vol as int <= 255,
            ;
        }
        let p = (x as i32) * (vol as i32) / 100;
        if p > 32767 {
            32767
        } else {
            p as i16
        }
    } else {
        proof {
            assert(0 <= (-(x as int)) * (vol as int) <= 32768 * 255) by (nonlinear_arith)
                requires
                    0 < -(x as int) <= 32768,
                    0 <= vol as int <= 255,
            ;
        }
        let p = (-(x as i32)) * (vol as i32) / 100;
        if p > 32768 {
            -32768
        } else {
            (-p) as i16
        }
    }
}

/// Scale the first `out_len` decoded samples by `vol/100`, filling one
/// device callback's output buffer.
pub fn render_frame(decoded: &Vec<i16>, vol: u8, out_len: usize) -> (r: Vec<i16>)
    requires
        out_len <= decoded@.len(),
    ensures
        r@.len() == out_len,
        forall|i: int| 0 <= i < out_len ==> r@[i] == scale_spec(decoded@[i], vol),
{
    let mut r: Vec<i16> = Vec::new();
    let mut i: usize = 0;
    while i < out_len
        invariant
            0 <= i <= out_len <= decoded@.len(),
            r@.len() == i,
            forall|j: int| 0 <= j < i ==> r@[j] == scale_spec(decoded@[j], vol),
        decreases out_len - i,
    {
        r.push(scale_sample(decoded[i], vol));
        i = i + 1;
    }
    r
}

/// Pop the oldest queued playback item, but only while more than one
/// is waiting: the single remaining item is always preserved as a
/// lookahead buffer, and that cycle plays silence instead.
pub fn pop_for_playback(queue: &mut Vec<Vec<u8>>) -> (r: Option<Vec<u8>>)
    ensures
        old(queue)@.len() <= 1 ==> r is None && final(queue)@ == old(queue)@,
        old(queue)@.len() > 1 ==> {
            &&& r == Some(old(queue)@[0])
            &&& final(queue)@ == old(queue)@.skip(1)
        },
{
    if queue.len() > 1 {
        let item = queue.remove(0);
        proof {
            assert(queue@ =~= old(queue)@.skip(1));
        }
        Some(item)
    } else {
        None
    }
}

/// Split a playback item into its compressed payload and its trailing
/// volume byte; an empty item is malformed and yields nothing (the
/// playback thread must not crash on it).
pub fn split_volume(item: Vec<u8>) -> (r: Option<(Vec<u8>, u8)>)
    ensures
        item@.len() == 0 ==> r is None,
        item@.len() > 0 ==> {
            &&& r is Some
            &&& r.unwrap().0@ == item@.drop_last()
            &&& r.unwrap().1 == item@.last()
        },
{
    let n = item.len();
    if n == 0 {
        return None;
    }
    let mut payload = item;
    let ghost orig = payload@;
    let vol = payload.remove(n - 1);
    proof {
        assert(payload@ =~= orig.drop_last());
    }
    Some((payload, vol))
}

/// One playback callback's queue decision: with more than one item
/// waiting, take the oldest and split it; with one or none, leave the
/// lookahead untouched and report silence for this cycle. A malformed
/// (empty) item is consumed and skipped.
pub fn next_playback_item(queue: &mut Vec<Vec<u8>>) -> (r: Option<(Vec<u8>, u8)>)
    ensures
        old(queue)@.len() <= 1 ==> r is None && final(queue)@ == old(queue)@,
        old(queue)@.len() > 1 ==> {
            &&& final(queue)@ == old(queue)@.skip(1)
            &&& old(queue)@[0]@.len() == 0 ==> r is None
            &&& old(queue)@[0]@.len() > 0 ==> {
                &&& r is Some
                &&& r.unwrap().0@ == old(queue)@[0]@.drop_last()
                &&& r.unwrap().1 == old(queue)@[0]@.last()
            }
        },
{
    match pop_for_playback(queue) {
        None => None,
        Some(item) => split_volume(item),
    }
}

} // verus!
