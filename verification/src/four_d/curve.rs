use vstd::prelude::*;
use crate::four_d::engine::strictly_increasing;

verus! {

/// Interpolation algorithm used between keyframes.
#[derive(Debug, Clone, Copy, PartialEq, Eq, Structural)]
pub enum Interpolation {
    /// Holds the previous keyframe value until the next keyframe is reached.
    Step,
    /// Linearly ramps from current keyframe value to the next keyframe value.
    Linear,
    /// Smooth cubic S-curve (Hermite smoothstep) for organic transitions.
    Smooth,
}

impl Default for Interpolation {
    fn default() -> (i: Self)
        ensures
            i == Interpolation::Linear,
    {
        Interpolation::Linear
    }
}

/// Value of a track's `enabled` flag when a saved track does not mention it.
pub fn default_true() -> (b: bool)
    ensures
        b,
{
    true
}

/// Where a keyframe goes in a track's keyframe list, which is kept in strictly increasing
/// time order.
#[derive(Debug, Clone, Copy, PartialEq, Eq, Structural)]
pub enum KeyframeSlot {
    /// A keyframe already sits at this time, at this position; it is replaced.
    Replace(usize),
    /// No keyframe sits at this time; the new one is inserted at this position.
    Insert(usize),
}

/// Binary search for time `t` among strictly increasing keyframe times: the position of
/// the keyframe at `t`, or the position where one at `t` would be inserted to keep the
/// order.
pub fn keyframe_slot(times: &Vec<u64>, t: u64) -> (r: KeyframeSlot)
    requires
        strictly_increasing(times@),
    ensures
        match r {
            KeyframeSlot::Replace(i) => i < times@.len() && times@[i as int] == t,
            KeyframeSlot::Insert(i) => i <= times@.len()
                && (forall|j: int| 0 <= j < i ==> times@[j] < t)
                && (forall|j: int| i <= j < times@.len() ==> times@[j] > t),
        },
{
    let mut lo: usize = 0;
    let mut hi: usize = times.len();
    while lo < hi
        invariant
            lo <= hi <= times@.len(),
            strictly_increasing(times@),
            forall|j: int| 0 <= j < lo ==> times@[j] < t,
            forall|j: int| hi <= j < times@.len() ==> times@[j] > t,
        decreases hi - lo,
    {
        let mid = lo + (hi - lo) / 2;
        let v = times[mid];
        if v == t {
            return KeyframeSlot::Replace(mid);
        } else if v < t {
            assert forall|j: int| 0 <= j < mid + 1 implies times@[j] < t by {
                if j < mid {
                    assert(times@[j] < times@[mid as int]);
                }
            }
            lo = mid + 1;
        } else {
            assert forall|j: int| mid <= j < times@.len() implies times@[j] > t by {
                if j > mid {
                    assert(times@[mid as int] < times@[j]);
                }
            }
            hi = mid;
        }
    }
    KeyframeSlot::Insert(lo)
}

/// Adds time `t` to a track's keyframe times (see `keyframe_slot`): the list is unchanged
/// when a keyframe already sits at `t`, otherwise `t` is inserted in order. Returns the
/// slot, so that the keyframe itself can be stored at the same position.
pub fn add_keyframe_time(times: &mut Vec<u64>, t: u64) -> (r: KeyframeSlot)
    requires
        strictly_increasing(old(times)@),
    ensures
        strictly_increasing(final(times)@),
        final(times)@.contains(t),
        match r {
            KeyframeSlot::Replace(i) => i < old(times)@.len() && old(times)@[i as int] == t && final(times)@ == old(times)@,
            KeyframeSlot::Insert(i) => i <= old(times)@.len()
                && (forall|j: int| 0 <= j < i ==> old(times)@[j] < t)
                && (forall|j: int| i <= j < old(times)@.len() ==> old(times)@[j] > t)
                && final(times)@ == old(times)@.insert(i as int, t),
        },
{
    let r = keyframe_slot(times, t);
    match r {
        KeyframeSlot::Replace(i) => {
            assert(times@[i as int] == t);
        },
        KeyframeSlot::Insert(i) => {
            let ghost before = times@;
            times.insert(i, t);
            assert(times@[i as int] == t);
            assert forall|a: int, b: int| 0 <= a < b < times@.len() implies times@[a] < times@[b] by {
                if b < i {
                    assert(times@[a] == before[a] && times@[b] == before[b]);
                } else if b == i {
                    assert(times@[a] == before[a]);
                } else if a < i {
                    assert(times@[a] == before[a] && times@[b] == before[b - 1]);
                } else if a == i {
                    assert(times@[b] == before[b - 1]);
                } else {
                    assert(times@[a] == before[a - 1] && times@[b] == before[b - 1]);
                }
            }
        },
    }
    r
}

/// Removes the keyframe time `t` if present, returning the position it had.
pub fn remove_keyframe_time(times: &mut Vec<u64>, t: u64) -> (r: Option<usize>)
    requires
        strictly_increasing(old(times)@),
    ensures
        strictly_increasing(final(times)@),
        !final(times)@.contains(t),
        match r {
            Some(i) => i < old(times)@.len() && old(times)@[i as int] == t && final(times)@ == old(times)@.remove(i as int),
            None => final(times)@ == old(times)@,
        },
{
    match keyframe_slot(times, t) {
        KeyframeSlot::Replace(i) => {
            let ghost before = times@;
            times.remove(i);
            assert forall|a: int, b: int| 0 <= a < b < times@.len() implies times@[a] < times@[b] by {
                if b < i {
                    assert(times@[a] == before[a] && times@[b] == before[b]);
                } else if a < i {
                    assert(times@[a] == before[a] && times@[b] == before[b + 1]);
                } else {
                    assert(times@[a] == before[a + 1] && times@[b] == before[b + 1]);
                }
            }
            assert forall|k: int| 0 <= k < times@.len() implies times@[k] != t by {
                if k < i {
                    assert(times@[k] == before[k]);
                    assert(before[k] < before[i as int]);
                } else {
                    assert(times@[k] == before[k + 1]);
                    assert(before[i as int] < before[k + 1]);
                }
            }
            Some(i)
        },
        KeyframeSlot::Insert(i) => {
            assert forall|k: int| 0 <= k < times@.len() implies times@[k] != t by {
                if k < i {
                    assert(times@[k] < t);
                } else {
                    assert(times@[k] > t);
                }
            }
            None
        },
    }
}

/// Times `lo..=hi` spanned by a recording: the earliest and the latest sample time.
pub open spec fn is_span(times: Seq<u64>, lo: u64, hi: u64) -> bool {
    &&& (exists|i: int| 0 <= i < times.len() && times[i] == lo)
    &&& (exists|i: int| 0 <= i < times.len() && times[i] == hi)
    &&& forall|i: int| 0 <= i < times.len() ==> lo <= #[trigger] times[i] <= hi
}

/// The span of a recording's sample times; `None` when nothing was recorded.
pub fn sample_span(times: &Vec<u64>) -> (r: Option<(u64, u64)>)
    ensures
        match r {
            None => times@.len() == 0,
            Some((lo, hi)) => is_span(times@, lo, hi),
        },
{
    if times.len() == 0 {
        return None;
    }
    let mut lo = times[0];
    let mut hi = times[0];
    let mut lo_at: usize = 0;
    let mut hi_at: usize = 0;
    let mut k: usize = 1;
    while k < times.len()
        invariant
            1 <= k <= times.len(),
            lo_at < k && hi_at < k,
            times@[lo_at as int] == lo,
            times@[hi_at as int] == hi,
            forall|i: int| 0 <= i < k ==> lo <= #[trigger] times@[i] <= hi,
        decreases times.len() - k,
    {
        if times[k] < lo {
            lo = times[k];
            lo_at = k;
        }
        if times[k] > hi {
            hi = times[k];
            hi_at = k;
        }
        k = k + 1;
    }
    Some((lo, hi))
}

/// Positions of the keyframe times outside `lo..=hi`, in order: the keyframes that a
/// punch-in recording over that span keeps (those inside are replaced by the recording).
pub open spec fn kept_outside(times: Seq<u64>, lo: u64, hi: u64) -> Seq<usize>
    decreases times.len(),
{
    if times.len() == 0 {
        Seq::empty()
    } else {
        let rest = kept_outside(times.drop_last(), lo, hi);
        let t = times.last();
        if t < lo || t > hi {
            rest.push((times.len() - 1) as usize)
        } else {
            rest
        }
    }
}

/// The positions of the keyframes that a punch-in over `lo..=hi` keeps (see
/// `kept_outside`).
pub fn punch_in_kept(times: &Vec<u64>, lo: u64, hi: u64) -> (kept: Vec<usize>)
    ensures
        kept@ == kept_outside(times@, lo, hi),
{
    let mut kept: Vec<usize> = Vec::new();
    let mut k: usize = 0;
    assert(times@.take(0) =~= Seq::<u64>::empty());
    while k < times.len()
        invariant
            k <= times.len(),
            kept@ == kept_outside(times@.take(k as int), lo, hi),
        decreases times.len() - k,
    {
        assert(times@.take(k + 1).drop_last() =~= times@.take(k as int));
        if times[k] < lo || times[k] > hi {
            kept.push(k);
        }
        k = k + 1;
    }
    assert(times@.take(k as int) =~= times@);
    kept
}

} // verus!
