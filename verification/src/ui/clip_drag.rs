use vstd::prelude::*;
use crate::app::{constant_on, find_instance_index, instance_index, rescaled_actions, update_effect_duration};
use crate::four_d::models::{AtomicAction, Effect, EffectInstance};
use crate::four_d::patterns::generate_constant;
use crate::four_d::models::{Timeline, compatible_spec, find_template_index, template_index, lemma_template_index};

verus! {

/// A time is close enough to a snap target when they are at most this many milliseconds
/// apart.
pub const SNAP_DISTANCE_MS: u64 = 100;

/// A resize never leaves a clip shorter than this many milliseconds.
pub const MIN_CLIP_MS: u64 = 100;

/// `v` lies within the snap distance of target `t`.
pub open spec fn near(v: int, t: u64) -> bool {
    v - t <= SNAP_DISTANCE_MS && t - v <= SNAP_DISTANCE_MS
}

/// The first target, in list order, that `v` is near.
pub open spec fn first_snap(v: int, targets: Seq<u64>) -> Option<u64>
    decreases targets.len(),
{
    if targets.len() == 0 {
        None
    } else if near(v, targets[0]) {
        Some(targets[0])
    } else {
        first_snap(v, targets.drop_first())
    }
}

/// `v` moved onto the first target it is near, or left as it is.
pub open spec fn snapped(v: int, targets: Seq<u64>) -> int {
    match first_snap(v, targets) {
        Some(t) => t as int,
        None => v,
    }
}

/// A snap moves a time by at most the snap distance, onto one of the targets, and only
/// when no earlier target was near.
pub proof fn lemma_snap_is_near(v: int, targets: Seq<u64>)
    ensures
        match first_snap(v, targets) {
            Some(t) => near(v, t) && exists|i: int|
                0 <= i < targets.len() && targets[i] == t && forall|j: int| 0 <= j < i ==> !near(v, #[trigger] targets[j]),
            None => forall|j: int| 0 <= j < targets.len() ==> !near(v, #[trigger] targets[j]),
        },
    decreases targets.len(),
{
    if targets.len() > 0 {
        lemma_snap_is_near(v, targets.drop_first());
        if !near(v, targets[0]) {
            match first_snap(v, targets.drop_first()) {
                Some(t) => {
                    let i = choose|i: int|
                        0 <= i < targets.drop_first().len() && targets.drop_first()[i] == t && forall|j: int|
                            0 <= j < i ==> !near(v, #[trigger] targets.drop_first()[j]);
                    assert(targets[i + 1] == t);
                    assert forall|j: int| 0 <= j < i + 1 implies !near(v, #[trigger] targets[j]) by {
                        if j > 0 {
                            assert(targets[j] == targets.drop_first()[j - 1]);
                        }
                    }
                },
                None => {
                    assert forall|j: int| 0 <= j < targets.len() implies !near(v, #[trigger] targets[j]) by {
                        if j > 0 {
                            assert(targets[j] == targets.drop_first()[j - 1]);
                        }
                    }
                },
            }
        } else {
            assert(targets[0] == targets[0]);
        }
    }
}

/// The first target that `v` is near, if any.
fn find_snap(v: i128, targets: &Vec<u64>) -> (r: Option<u64>)
    requires
        i64::MIN <= v <= 2 * (u64::MAX as int),
    ensures
        r == first_snap(v as int, targets@),
{
    let mut i: usize = 0;
    assert(targets@.skip(0) =~= targets@);
    while i < targets.len()
        invariant
            i <= targets.len(),
            i64::MIN <= v <= 2 * (u64::MAX as int),
            first_snap(v as int, targets@) == first_snap(v as int, targets@.skip(i as int)),
        decreases targets.len() - i,
    {
        let t = targets[i];
        assert(targets@.skip(i as int)[0] == t);
        assert(targets@.skip(i as int).drop_first() =~= targets@.skip(i + 1));
        if v - (t as i128) <= 100 && (t as i128) - v <= 100 {
            return Some(t);
        }
        i = i + 1;
    }
    assert(targets@.skip(i as int).len() == 0);
    None
}

/// The end of every placed instance fits in `u64`.
pub open spec fn spans_fit<A>(tl: Timeline<A>) -> bool {
    forall|i: int| 0 <= i < tl.instances@.len() ==> match #[trigger] template_index(tl.templates@, tl.instances@[i].effect_id) {
        Some(k) => tl.instances@[i].start_time_ms + tl.templates@[k].duration_ms <= u64::MAX,
        None => true,
    }
}

/// A timeline whose times all fit in `u64` has spans that fit too.
pub proof fn lemma_timeline_fits_spans<A>(tl: Timeline<A>)
    requires
        crate::four_d::engine::timeline_fits(tl),
    ensures
        spans_fit(tl),
{
    assert forall|i: int| 0 <= i < tl.instances@.len() implies match #[trigger] template_index(
        tl.templates@,
        tl.instances@[i].effect_id,
    ) {
        Some(k) => tl.instances@[i].start_time_ms + tl.templates@[k].duration_ms <= u64::MAX,
        None => true,
    } by {
        assert(crate::four_d::engine::instance_fits(tl.templates@, tl.instances@[i]));
    }
}

/// The start and end of each instance, in timeline order, leaving out the dragged one,
/// the selected ones and those whose template is missing.
pub open spec fn instance_edges<A>(tl: Timeline<A>, n: int, dragged: u128, selected: Seq<u128>) -> Seq<u64>
    decreases n,
{
    if n <= 0 {
        Seq::empty()
    } else {
        let rest = instance_edges(tl, n - 1, dragged, selected);
        let inst = tl.instances@[n - 1];
        if inst.id == dragged || selected.contains(inst.id) {
            rest
        } else {
            match template_index(tl.templates@, inst.effect_id) {
                None => rest,
                Some(k) => rest + seq![
                    inst.start_time_ms,
                    (inst.start_time_ms + tl.templates@[k].duration_ms) as u64,
                ],
            }
        }
    }
}

/// Where a dragged clip may snap: the timeline start, the playhead, and the edges of the
/// other instances that are not being dragged along.
pub open spec fn snap_targets_spec<A>(tl: Timeline<A>, dragged: u128, selected: Seq<u128>, playhead_ms: u64) -> Seq<u64> {
    seq![0u64, playhead_ms] + instance_edges(tl, tl.instances@.len() as int, dragged, selected)
}

fn contains_id(ids: &Vec<u128>, id: u128) -> (r: bool)
    ensures
        r == ids@.contains(id),
{
    let mut i: usize = 0;
    while i < ids.len()
        invariant
            i <= ids.len(),
            forall|j: int| 0 <= j < i ==> ids@[j] != id,
        decreases ids.len() - i,
    {
        if ids[i] == id {
            assert(ids@[i as int] == id);
            return true;
        }
        i = i + 1;
    }
    false
}

/// Builds the snap targets for a clip drag (see `snap_targets_spec`).
pub fn snap_targets<A>(timeline: &Timeline<A>, dragged_id: u128, selected: &Vec<u128>, playhead_ms: u64) -> (targets: Vec<u64>)
    requires
        spans_fit(*timeline),
    ensures
        targets@ == snap_targets_spec(*timeline, dragged_id, selected@, playhead_ms),
{
    let mut targets: Vec<u64> = Vec::new();
    targets.push(0);
    targets.push(playhead_ms);
    let mut i: usize = 0;
    while i < timeline.instances.len()
        invariant
            i <= timeline.instances.len(),
            spans_fit(*timeline),
            targets@ == seq![0u64, playhead_ms] + instance_edges(*timeline, i as int, dragged_id, selected@),
        decreases timeline.instances.len() - i,
    {
        let inst = timeline.instances[i];
        if !(inst.id == dragged_id || contains_id(selected, inst.id)) {
            proof {
                lemma_template_index(timeline.templates@, inst.effect_id);
            }
            match find_template_index(&timeline.templates, inst.effect_id) {
                Some(k) => {
                    assert(template_index(timeline.templates@, timeline.instances@[i as int].effect_id) == Some(k as int));
                    let end = inst.start_time_ms + timeline.templates[k].duration_ms;
                    targets.push(inst.start_time_ms);
                    targets.push(end);
                },
                None => {},
            }
        }
        i = i + 1;
        assert(targets@ =~= seq![0u64, playhead_ms] + instance_edges(*timeline, i as int, dragged_id, selected@));
    }
    targets
}

/// New duration of a clip dragged by its right edge by `delta` milliseconds: the new end
/// snaps to the first target it is near when snapping is on, and the clip keeps at least
/// the minimum length.
pub open spec fn resize_right_spec(start: u64, dur: u64, delta: i64, targets: Seq<u64>, snap: bool) -> u64 {
    let raw = start + dur + delta;
    let end = if snap { snapped(raw, targets) } else { raw };
    if end - start >= MIN_CLIP_MS {
        (end - start) as u64
    } else {
        MIN_CLIP_MS
    }
}

/// Resizes a clip by its right edge (see `resize_right_spec`); the result is never below
/// the minimum clip length.
pub fn resize_right_duration(start: u64, dur: u64, delta: i64, targets: &Vec<u64>, snap: bool) -> (new_dur: u64)
    requires
        start + dur + delta <= i64::MAX,
        start + dur <= i64::MAX,
    ensures
        new_dur == resize_right_spec(start, dur, delta, targets@, snap),
        new_dur >= MIN_CLIP_MS,
{
    let raw: i128 = start as i128 + dur as i128 + delta as i128;
    let mut end: i128 = raw;
    if snap {
        if let Some(t) = find_snap(raw, targets) {
            end = t as i128;
        }
    }
    let d: i128 = end - start as i128;
    if d >= 100 {
        d as u64
    } else {
        100
    }
}

/// Start and duration of a clip dragged by its left edge by `delta` milliseconds: the new
/// start (never before zero) snaps to the first target it is near when snapping is on, and
/// is then kept at least the minimum length before the fixed right edge (or at zero when
/// the clip ends earlier than that).
pub open spec fn resize_left_spec(start: u64, dur: u64, delta: i64, targets: Seq<u64>, snap: bool) -> (u64, u64) {
    let anchor = start + dur;
    let raw = if start + delta >= 0 { start + delta } else { 0 };
    let s1 = if snap { snapped(raw, targets) } else { raw };
    let limit = if anchor >= MIN_CLIP_MS { anchor - MIN_CLIP_MS } else { 0 };
    let s2 = if s1 <= limit { s1 } else { limit };
    (s2 as u64, (anchor - s2) as u64)
}

/// Resizes a clip by its left edge (see `resize_left_spec`); the right edge stays where
/// it was.
pub fn resize_left_bounds(start: u64, dur: u64, delta: i64, targets: &Vec<u64>, snap: bool) -> (r: (u64, u64))
    requires
        start + dur <= u64::MAX,
        start + delta <= i64::MAX,
    ensures
        r == resize_left_spec(start, dur, delta, targets@, snap),
        r.0 + r.1 == start + dur,
{
    let anchor: u64 = start + dur;
    let raw: i128 = start as i128 + delta as i128;
    let raw: i128 = if raw >= 0 { raw } else { 0 };
    let mut s1: i128 = raw;
    if snap {
        if let Some(t) = find_snap(raw, targets) {
            s1 = t as i128;
        }
    }
    let limit: u64 = if anchor >= 100 { anchor - 100 } else { 0 };
    let s2: u64 = if s1 <= limit as i128 { s1 as u64 } else { limit };
    (s2, anchor - s2)
}

/// New start of a clip dragged along the timeline by `delta` milliseconds (never before
/// zero): with snapping on, the start snaps to the first target it is near; failing that,
/// the end snaps to the first target it is near and the start follows (not before zero).
pub open spec fn move_start_spec(start: u64, dur: u64, delta: i64, targets: Seq<u64>, snap: bool) -> u64 {
    let raw = if start + delta >= 0 { start + delta } else { 0 };
    if !snap {
        raw as u64
    } else {
        match first_snap(raw, targets) {
            Some(t) => t,
            None => match first_snap(raw + dur, targets) {
                Some(t) => if t >= dur { (t - dur) as u64 } else { 0 },
                None => raw as u64,
            },
        }
    }
}

/// Moves a clip along the timeline (see `move_start_spec`).
pub fn move_start_time(start: u64, dur: u64, delta: i64, targets: &Vec<u64>, snap: bool) -> (new_start: u64)
    requires
        start + delta <= i64::MAX,
        start + delta + dur <= u64::MAX,
    ensures
        new_start == move_start_spec(start, dur, delta, targets@, snap),
{
    let raw: i128 = start as i128 + delta as i128;
    let raw: u64 = if raw >= 0 { raw as u64 } else { 0 };
    if !snap {
        return raw;
    }
    match find_snap(raw as i128, targets) {
        Some(t) => t,
        None => match find_snap(raw as i128 + dur as i128, targets) {
            Some(t) => if t >= dur { t - dur } else { 0 },
            None => raw,
        },
    }
}

/// The relay track a moved clip switches to when the pointer is over timeline row
/// `track_index`: a relay row (2..=9) whose track is unlocked and suits the hardware target
/// of the clip's template (any relay when the template is missing).
pub open spec fn move_target_relay_spec<A>(tl: Timeline<A>, instance_id: u128, track_index: i32, track_locked: Seq<bool>) -> Option<u8> {
    if 2 <= track_index <= 9 && !track_locked[track_index - 1] {
        let r = (track_index - 1) as u8;
        let ok = match instance_index(tl.instances@, instance_id) {
            None => true,
            Some(i) => match template_index(tl.templates@, tl.instances@[i].effect_id) {
                None => true,
                Some(k) => compatible_spec(tl.templates@[k].target, r),
            },
        };
        if ok {
            Some(r)
        } else {
            None
        }
    } else {
        None
    }
}

/// Chooses the relay track a moved clip switches to (see `move_target_relay_spec`).
pub fn move_target_relay<A>(timeline: &Timeline<A>, instance_id: u128, track_index: i32, track_locked: &[bool; 9]) -> (r: Option<u8>)
    ensures
        r == move_target_relay_spec(*timeline, instance_id, track_index, track_locked@),
{
    if !(track_index >= 2 && track_index <= 9) {
        return None;
    }
    let r = (track_index - 1) as u8;
    if track_locked[r as usize] {
        return None;
    }
    let ok = match find_instance_index(&timeline.instances, instance_id) {
        None => true,
        Some(i) => {
            proof {
                lemma_template_index(timeline.templates@, timeline.instances@[i as int].effect_id);
            }
            match find_template_index(&timeline.templates, timeline.instances[i].effect_id) {
                None => true,
                Some(k) => timeline.templates[k].target.is_compatible_with_relay(r),
            }
        },
    };
    if ok {
        Some(r)
    } else {
        None
    }
}

/// The instances after a group move: each listed (id, initial start), in list order, puts
/// the first instance with that id at its initial start shifted by `delta` (not before
/// zero).
pub open spec fn apply_moves(insts: Seq<EffectInstance>, positions: Seq<(u128, u64)>, delta: int) -> Seq<EffectInstance>
    decreases positions.len(),
{
    if positions.len() == 0 {
        insts
    } else {
        let prev = apply_moves(insts, positions.drop_last(), delta);
        let (id, init) = positions.last();
        match instance_index(prev, id) {
            None => prev,
            Some(i) => prev.update(
                i,
                EffectInstance { start_time_ms: (if init + delta >= 0 { init + delta } else { 0 }) as u64, ..prev[i] },
            ),
        }
    }
}

/// A template with a new duration and its actions rescaled to it.
pub open spec fn resized_template(t: Effect, new_dur: u64, r: Effect) -> bool {
    &&& r.id == t.id
    &&& r.name == t.name
    &&& r.icon == t.icon
    &&& r.target == t.target
    &&& r.duration_ms == new_dur
    &&& r.actions@ == rescaled_actions(t.actions@, t.duration_ms, new_dur)
}

/// `c` is template `t` moved onto `relay` by the effect inspector: an empty template
/// becomes a constant ON for its duration, any other keeps its actions with each one
/// addressed to `relay`.
pub open spec fn relabelled(t: Effect, relay: u8, c: Effect) -> bool {
    &&& c.id == t.id
    &&& c.name == t.name
    &&& c.icon == t.icon
    &&& c.target == t.target
    &&& c.duration_ms == t.duration_ms
    &&& c.actions@ == if t.actions@.len() == 0 {
        constant_on(relay, t.duration_ms)
    } else {
        t.actions@.map_values(|a: AtomicAction| AtomicAction { relay_id: relay, ..a })
    }
}

/// The actions with each one addressed to `relay`.
fn readdressed(actions: &Vec<AtomicAction>, relay: u8) -> (r: Vec<AtomicAction>)
    ensures
        r@ == actions@.map_values(|a: AtomicAction| AtomicAction { relay_id: relay, ..a }),
{
    let mut r: Vec<AtomicAction> = Vec::new();
    let mut k: usize = 0;
    while k < actions.len()
        invariant
            k <= actions.len(),
            r@ == actions@.take(k as int).map_values(|a: AtomicAction| AtomicAction { relay_id: relay, ..a }),
        decreases actions.len() - k,
    {
        let a = actions[k];
        r.push(AtomicAction { relay_id: relay, state: a.state, offset_ms: a.offset_ms });
        k = k + 1;
        assert(r@ =~= actions@.take(k as int).map_values(|a: AtomicAction| AtomicAction { relay_id: relay, ..a }));
    }
    assert(actions@.take(k as int) =~= actions@);
    r
}

impl<A> Timeline<A> {
    /// Puts the first instance with this id at `start`; nothing changes when there is none.
    pub fn set_instance_start(&mut self, instance_id: u128, start: u64)
        ensures
            final(self).templates == old(self).templates,
            final(self).analog_tracks == old(self).analog_tracks,
            final(self).instances@ == match instance_index(old(self).instances@, instance_id) {
                None => old(self).instances@,
                Some(i) => old(self).instances@.update(
                    i,
                    EffectInstance { start_time_ms: start, ..old(self).instances@[i] },
                ),
            },
    {
        match find_instance_index(&self.instances, instance_id) {
            Some(i) => {
                let inst = self.instances[i];
                self.instances.set(i, EffectInstance { id: inst.id, effect_id: inst.effect_id, start_time_ms: start });
            },
            None => {},
        }
    }

    /// Moves a group of dragged instances: each listed (id, initial start) moves its
    /// instance to the initial start shifted by `delta`, not before zero.
    pub fn move_instances(&mut self, positions: &Vec<(u128, u64)>, delta: i64)
        ensures
            final(self).templates == old(self).templates,
            final(self).analog_tracks == old(self).analog_tracks,
            final(self).instances@ == apply_moves(old(self).instances@, positions@, delta as int),
    {
        let mut j: usize = 0;
        while j < positions.len()
            invariant
                j <= positions.len(),
                self.templates == old(self).templates,
                self.analog_tracks == old(self).analog_tracks,
                self.instances@ == apply_moves(old(self).instances@, positions@.take(j as int), delta as int),
            decreases positions.len() - j,
        {
            let (id, init) = positions[j];
            assert(positions@.take(j + 1).drop_last() =~= positions@.take(j as int));
            let moved: i128 = init as i128 + delta as i128;
            let new_start: u64 = if moved >= 0 { moved as u64 } else { 0 };
            self.set_instance_start(id, new_start);
            j = j + 1;
        }
        assert(positions@.take(j as int) =~= positions@);
    }

    /// Gives the template of the first instance with this id a new duration, rescaling its
    /// actions (see `update_effect_duration`); nothing changes when the instance or its
    /// template is missing.
    pub fn set_instance_duration(&mut self, instance_id: u128, new_dur: u64)
        ensures
            final(self).instances == old(self).instances,
            final(self).analog_tracks == old(self).analog_tracks,
            final(self).templates@.len() == old(self).templates@.len(),
            match instance_index(old(self).instances@, instance_id) {
                None => final(self).templates@ == old(self).templates@,
                Some(i) => match template_index(old(self).templates@, old(self).instances@[i].effect_id) {
                    None => final(self).templates@ == old(self).templates@,
                    Some(k) => {
                        &&& resized_template(old(self).templates@[k], new_dur, final(self).templates@[k])
                        &&& forall|j: int| 0 <= j < old(self).templates@.len() && j != k ==> final(self).templates@[j] == old(self).templates@[j]
                    },
                },
            },
    {
        let i = match find_instance_index(&self.instances, instance_id) {
            Some(i) => i,
            None => {
                return;
            },
        };
        let effect_id = self.instances[i].effect_id;
        proof {
            lemma_template_index(self.templates@, effect_id);
        }
        let k = match find_template_index(&self.templates, effect_id) {
            Some(k) => k,
            None => {
                return;
            },
        };
        let mut e = self.templates[k].copy_with_id(self.templates[k].id);
        let ghost before = e;
        update_effect_duration(&mut e, new_dur);
        assert(before.actions@ == old(self).templates@[k as int].actions@);
        self.templates.set(k, e);
    }

    /// Moves the template of the first instance with this id onto `relay` as a constant ON
    /// for its duration (what a clip dragged to another relay track becomes); nothing
    /// changes when the instance or its template is missing.
    pub fn retarget_instance(&mut self, instance_id: u128, relay: u8)
        ensures
            final(self).instances == old(self).instances,
            final(self).analog_tracks == old(self).analog_tracks,
            final(self).templates@.len() == old(self).templates@.len(),
            match instance_index(old(self).instances@, instance_id) {
                None => final(self).templates@ == old(self).templates@,
                Some(i) => match template_index(old(self).templates@, old(self).instances@[i].effect_id) {
                    None => final(self).templates@ == old(self).templates@,
                    Some(k) => {
                        let t = old(self).templates@[k];
                        let c = final(self).templates@[k];
                        &&& c.id == t.id && c.name == t.name && c.icon == t.icon && c.target == t.target
                            && c.duration_ms == t.duration_ms
                        &&& c.actions@ == seq![
                            AtomicAction { relay_id: relay, state: true, offset_ms: 0 },
                            AtomicAction { relay_id: relay, state: false, offset_ms: t.duration_ms },
                        ]
                        &&& forall|j: int| 0 <= j < old(self).templates@.len() && j != k ==> final(self).templates@[j] == old(self).templates@[j]
                    },
                },
            },
    {
        let i = match find_instance_index(&self.instances, instance_id) {
            Some(i) => i,
            None => {
                return;
            },
        };
        let effect_id = self.instances[i].effect_id;
        proof {
            lemma_template_index(self.templates@, effect_id);
        }
        let k = match find_template_index(&self.templates, effect_id) {
            Some(k) => k,
            None => {
                return;
            },
        };
        let t = &self.templates[k];
        let e = Effect {
            id: t.id,
            name: t.name.clone(),
            icon: t.icon.clone(),
            duration_ms: t.duration_ms,
            target: t.target,
            actions: generate_constant(relay, true, t.duration_ms),
        };
        self.templates.set(k, e);
    }

    /// The effect inspector's relay choice: the template of the first instance with this
    /// id moves onto `relay` (see `relabelled`); nothing changes when the instance or its
    /// template is missing.
    pub fn set_instance_relay(&mut self, instance_id: u128, relay: u8)
        ensures
            final(self).instances == old(self).instances,
            final(self).analog_tracks == old(self).analog_tracks,
            final(self).templates@.len() == old(self).templates@.len(),
            match instance_index(old(self).instances@, instance_id) {
                None => final(self).templates@ == old(self).templates@,
                Some(i) => match template_index(old(self).templates@, old(self).instances@[i].effect_id) {
                    None => final(self).templates@ == old(self).templates@,
                    Some(k) => {
                        &&& relabelled(old(self).templates@[k], relay, final(self).templates@[k])
                        &&& forall|j: int| 0 <= j < old(self).templates@.len() && j != k ==> final(self).templates@[j] == old(self).templates@[j]
                    },
                },
            },
    {
        let i = match find_instance_index(&self.instances, instance_id) {
            Some(i) => i,
            None => {
                return;
            },
        };
        let effect_id = self.instances[i].effect_id;
        proof {
            lemma_template_index(self.templates@, effect_id);
        }
        let k = match find_template_index(&self.templates, effect_id) {
            Some(k) => k,
            None => {
                return;
            },
        };
        let t = &self.templates[k];
        let actions = if t.actions.len() == 0 {
            generate_constant(relay, true, t.duration_ms)
        } else {
            readdressed(&t.actions, relay)
        };
        let e = Effect {
            id: t.id,
            name: t.name.clone(),
            icon: t.icon.clone(),
            duration_ms: t.duration_ms,
            target: t.target,
            actions,
        };
        self.templates.set(k, e);
    }
}

} // verus!
