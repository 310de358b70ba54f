use vstd::prelude::*;
use crate::four_d::protocol::{Command, frame_spec};
use crate::four_d::models::{
    AtomicAction, Effect, EffectInstance, Timeline, find_template_index, template_index,
    lemma_template_index,
};

verus! {

/// One relay transition of the compiled playback queue.
#[derive(Debug, Clone, Copy, PartialEq, Eq, Structural)]
pub struct CompiledAction {
    pub time_ms: u64,
    pub relay_id: u8,
    pub state: bool,
}

/// Messages from the user interface to the hardware engine.
#[derive(Debug, Clone, PartialEq, Eq)]
pub enum EngineMessage {
    /// Replaces the playback queue.
    UpdateQueue(Vec<CompiledAction>),
    /// Emitted when user seeks, to clear current active queue and reset hardware
    Seek(u64),
    /// Bypasses the playback queue and immediately transmits a PWM duty value.
    LiveActuatorOverride { channel: u8, value: u8 },
}

/// State (offset, state) of the action of `relay` that wins at `off` milliseconds into an
/// effect: among the actions of that relay whose offset is at most `off`, the one with the
/// greatest offset, the later one in the list on a tie.
pub open spec fn latest_action(acts: Seq<AtomicAction>, relay: u8, off: int) -> Option<(u64, bool)>
    decreases acts.len(),
{
    if acts.len() == 0 {
        None
    } else {
        let prev = latest_action(acts.drop_last(), relay, off);
        let a = acts.last();
        if a.relay_id == relay && a.offset_ms <= off && match prev {
            Some(p) => a.offset_ms >= p.0,
            None => true,
        } {
            Some((a.offset_ms, a.state))
        } else {
            prev
        }
    }
}

/// What one placed instance says of `relay` at time `t`: nothing when its template is
/// missing, when `t` lies outside `[start, start + duration)`, or when no action of the
/// relay has happened yet within the effect.
pub open spec fn instance_state(templates: Seq<Effect>, inst: EffectInstance, relay: u8, t: int) -> Option<bool> {
    match template_index(templates, inst.effect_id) {
        None => None,
        Some(k) => {
            let e = templates[k];
            if inst.start_time_ms <= t < inst.start_time_ms + e.duration_ms {
                match latest_action(e.actions@, relay, t - inst.start_time_ms) {
                    Some(p) => Some(p.1),
                    None => None,
                }
            } else {
                None
            }
        },
    }
}

/// Relay state from the layered instances: the topmost (latest placed) instance that
/// says something of the relay decides; OFF when none does.
pub open spec fn layered_state(instances: Seq<EffectInstance>, templates: Seq<Effect>, relay: u8, t: int) -> bool
    decreases instances.len(),
{
    if instances.len() == 0 {
        false
    } else {
        match instance_state(templates, instances.last(), relay, t) {
            Some(s) => s,
            None => layered_state(instances.drop_last(), templates, relay, t),
        }
    }
}

proof fn lemma_no_relay_action(acts: Seq<AtomicAction>, relay: u8, off: int)
    requires
        forall|j: int| 0 <= j < acts.len() ==> #[trigger] acts[j].relay_id != relay,
    ensures
        latest_action(acts, relay, off) is None,
    decreases acts.len(),
{
    if acts.len() > 0 {
        assert forall|j: int| 0 <= j < acts.drop_last().len() implies #[trigger] acts.drop_last()[j].relay_id != relay by {
            assert(acts.drop_last()[j] == acts[j]);
        }
        lemma_no_relay_action(acts.drop_last(), relay, off);
        assert(acts.last().relay_id != relay);
    }
}

/// An effect on other relays never changes a relay: an instance whose template (when it
/// has one) holds no action for `relay` says nothing of it, so putting that instance on
/// top of the others leaves the relay's state, at every time, as the others make it.
pub proof fn lemma_other_relay_instance_transparent(
    instances: Seq<EffectInstance>,
    templates: Seq<Effect>,
    inst: EffectInstance,
    relay: u8,
    t: int,
)
    requires
        match template_index(templates, inst.effect_id) {
            None => true,
            Some(k) => forall|j: int|
                0 <= j < templates[k].actions@.len() ==> #[trigger] templates[k].actions@[j].relay_id != relay,
        },
    ensures
        layered_state(instances.push(inst), templates, relay, t) == layered_state(instances, templates, relay, t),
{
    match template_index(templates, inst.effect_id) {
        None => {},
        Some(k) => {
            lemma_no_relay_action(templates[k].actions@, relay, t - inst.start_time_ms);
        },
    }
    assert(instances.push(inst).drop_last() =~= instances);
}

/// Whether any track is soloed.
pub open spec fn any_solo(soloed: Seq<bool>) -> bool {
    exists|k: int| 0 <= k < soloed.len() && soloed[k]
}

/// A relay is ignored when it is muted, or when some track is soloed and this one is not.
pub open spec fn relay_ignored(muted: Seq<bool>, soloed: Seq<bool>, relay: u8) -> bool {
    muted[relay as int] || (any_solo(soloed) && !soloed[relay as int])
}

/// Desired state of `relay` at time `t` under the track mute/solo switches.
pub open spec fn relay_state_spec<A>(tl: Timeline<A>, muted: Seq<bool>, soloed: Seq<bool>, relay: u8, t: int) -> bool {
    if relay_ignored(muted, soloed, relay) {
        false
    } else {
        layered_state(tl.instances@, tl.templates@, relay, t)
    }
}

/// Placing an instance whose template holds no action for `relay` on top of a timeline
/// leaves that relay's desired state (what `evaluate_relay_state` reports and the compiled
/// queue replays) unchanged at every time, whatever is muted or soloed.
pub proof fn lemma_other_relay_placement_keeps_state<A>(
    before: Timeline<A>,
    after: Timeline<A>,
    inst: EffectInstance,
    muted: Seq<bool>,
    soloed: Seq<bool>,
    relay: u8,
    t: int,
)
    requires
        after.instances@ == before.instances@.push(inst),
        after.templates@ == before.templates@,
        match template_index(before.templates@, inst.effect_id) {
            None => true,
            Some(k) => forall|j: int|
                0 <= j < before.templates@[k].actions@.len() ==> #[trigger] before.templates@[k].actions@[j].relay_id
                    != relay,
        },
    ensures
        relay_state_spec(after, muted, soloed, relay, t) == relay_state_spec(before, muted, soloed, relay, t),
{
    lemma_other_relay_instance_transparent(before.instances@, before.templates@, inst, relay, t);
}

/// The times at which one instance may change something: its start, its end, and the
/// time of each of its actions.
pub open spec fn instance_times(templates: Seq<Effect>, inst: EffectInstance, x: int) -> bool {
    match template_index(templates, inst.effect_id) {
        None => false,
        Some(k) => {
            let e = templates[k];
            x == inst.start_time_ms || x == inst.start_time_ms + e.duration_ms || exists|j: int|
                0 <= j < e.actions@.len() && x == inst.start_time_ms + e.actions@[j].offset_ms
        },
    }
}

/// The interesting times of the first `m` instances.
pub open spec fn times_of_prefix<A>(tl: Timeline<A>, m: int, x: int) -> bool {
    exists|i: int| 0 <= i < m && instance_times(tl.templates@, tl.instances@[i], x)
}

/// The interesting times of the whole timeline.
pub open spec fn interesting_time<A>(tl: Timeline<A>, x: int) -> bool {
    times_of_prefix(tl, tl.instances@.len() as int, x)
}

/// The start, end and action times of one instance fit in `u64`.
pub open spec fn instance_fits(templates: Seq<Effect>, inst: EffectInstance) -> bool {
    match template_index(templates, inst.effect_id) {
        None => true,
        Some(k) => inst.start_time_ms + templates[k].duration_ms <= u64::MAX && forall|j: int|
            0 <= j < templates[k].actions@.len() ==> inst.start_time_ms
                + #[trigger] templates[k].actions@[j].offset_ms <= u64::MAX,
    }
}

/// All start, end and action times of the timeline fit in `u64`.
pub open spec fn timeline_fits<A>(tl: Timeline<A>) -> bool {
    forall|i: int| 0 <= i < tl.instances@.len() ==> instance_fits(tl.templates@, #[trigger] tl.instances@[i])
}

/// Whether all start, end and action times of one instance fit in `u64`.
fn instance_fits_check(templates: &Vec<Effect>, inst: EffectInstance) -> (r: bool)
    ensures
        r == instance_fits(templates@, inst),
{
    proof {
        lemma_template_index(templates@, inst.effect_id);
    }
    let k = match find_template_index(templates, inst.effect_id) {
        None => {
            return true;
        },
        Some(k) => k,
    };
    let t = &templates[k];
    if inst.start_time_ms.checked_add(t.duration_ms).is_none() {
        return false;
    }
    let mut j: usize = 0;
    while j < t.actions.len()
        invariant
            j <= t.actions@.len(),
            k < templates@.len(),
            *t == templates@[k as int],
            template_index(templates@, inst.effect_id) == Some(k as int),
            forall|q: int| 0 <= q < j ==> inst.start_time_ms + #[trigger] t.actions@[q].offset_ms <= u64::MAX,
        decreases t.actions.len() - j,
    {
        if inst.start_time_ms.checked_add(t.actions[j].offset_ms).is_none() {
            return false;
        }
        j = j + 1;
    }
    true
}

/// Whether all start, end and action times of the timeline fit in `u64`: what
/// `compile_timeline` asks of its input.
pub fn timeline_times_fit<A>(timeline: &Timeline<A>) -> (r: bool)
    ensures
        r == timeline_fits(*timeline),
{
    let mut i: usize = 0;
    while i < timeline.instances.len()
        invariant
            i <= timeline.instances@.len(),
            forall|q: int| 0 <= q < i ==> instance_fits(timeline.templates@, #[trigger] timeline.instances@[q]),
        decreases timeline.instances.len() - i,
    {
        if !instance_fits_check(&timeline.templates, timeline.instances[i]) {
            return false;
        }
        i = i + 1;
    }
    true
}

pub open spec fn strictly_increasing(s: Seq<u64>) -> bool {
    forall|i: int, j: int| 0 <= i < j < s.len() ==> s[i] < s[j]
}

/// State of `relay` just before `times[i]`: OFF before the first time, else the desired
/// state at the previous time.
pub open spec fn state_before<A>(tl: Timeline<A>, muted: Seq<bool>, soloed: Seq<bool>, times: Seq<u64>, i: int, relay: u8) -> bool {
    if i == 0 {
        false
    } else {
        relay_state_spec(tl, muted, soloed, relay, times[i - 1] as int)
    }
}

/// The transitions of relays `r..=8` at `times[i]`, in relay order.
pub open spec fn changes_from<A>(tl: Timeline<A>, muted: Seq<bool>, soloed: Seq<bool>, times: Seq<u64>, i: int, r: int) -> Seq<CompiledAction>
    decreases 9 - r,
{
    if r > 8 || r < 1 {
        Seq::empty()
    } else {
        let now = relay_state_spec(tl, muted, soloed, r as u8, times[i] as int);
        let rest = changes_from(tl, muted, soloed, times, i, r + 1);
        if now != state_before(tl, muted, soloed, times, i, r as u8) {
            seq![CompiledAction { time_ms: times[i], relay_id: r as u8, state: now }] + rest
        } else {
            rest
        }
    }
}

/// The compiled queue over the first `n` interesting times: at each time, in relay order
/// 1..=8, one action for every relay whose desired state differs from the one before.
pub open spec fn compiled_spec<A>(tl: Timeline<A>, muted: Seq<bool>, soloed: Seq<bool>, times: Seq<u64>, n: int) -> Seq<CompiledAction>
    decreases n,
{
    if n <= 0 {
        Seq::empty()
    } else {
        compiled_spec(tl, muted, soloed, times, n - 1) + changes_from(tl, muted, soloed, times, n - 1, 1)
    }
}

/// The sorted, duplicate-free list of all interesting times of the timeline.
pub open spec fn is_time_list<A>(tl: Timeline<A>, times: Seq<u64>) -> bool {
    &&& strictly_increasing(times)
    &&& forall|x: int| interesting_time(tl, x) <==> exists|k: int| 0 <= k < times.len() && times[k] == x
}

proof fn lemma_latest_action_step(acts: Seq<AtomicAction>, relay: u8, off: int, i: int)
    requires
        0 <= i < acts.len(),
    ensures
        latest_action(acts.take(i + 1), relay, off) == ({
            let prev = latest_action(acts.take(i), relay, off);
            let a = acts[i];
            if a.relay_id == relay && a.offset_ms <= off && match prev {
            Some(p) => a.offset_ms >= p.0,
            None => true,
        } {
                Some((a.offset_ms, a.state))
            } else {
                prev
            }
        }),
{
    assert(acts.take(i + 1).drop_last() =~= acts.take(i));
}

/// What one placed instance says of `relay` at `t` (see `instance_state`).
fn instance_layer_state(templates: &Vec<Effect>, inst: &EffectInstance, relay_id: u8, t_ms: u64) -> (r: Option<bool>)
    ensures
        r == instance_state(templates@, *inst, relay_id, t_ms as int),
{
    let k = match find_template_index(templates, inst.effect_id) {
        Some(k) => k,
        None => {
            return None;
        },
    };
    proof {
        lemma_template_index(templates@, inst.effect_id);
    }
    let effect = &templates[k];
    let end_time: u128 = inst.start_time_ms as u128 + effect.duration_ms as u128;
    if !(t_ms >= inst.start_time_ms && (t_ms as u128) < end_time) {
        return None;
    }
    let offset_t = t_ms - inst.start_time_ms;
    let mut latest_action_state: Option<bool> = None;
    let mut max_offset: u64 = 0;
    let mut j: usize = 0;
    while j < effect.actions.len()
        invariant
            j <= effect.actions.len(),
            match latest_action(effect.actions@.take(j as int), relay_id, offset_t as int) {
                None => latest_action_state is None,
                Some(p) => latest_action_state == Some(p.1) && max_offset == p.0,
            },
        decreases effect.actions.len() - j,
    {
        proof {
            lemma_latest_action_step(effect.actions@, relay_id, offset_t as int, j as int);
        }
        let action = effect.actions[j];
        if action.relay_id == relay_id && action.offset_ms <= offset_t {
            if latest_action_state.is_none() || action.offset_ms >= max_offset {
                max_offset = action.offset_ms;
                latest_action_state = Some(action.state);
            }
        }
        j = j + 1;
    }
    assert(effect.actions@.take(j as int) =~= effect.actions@);
    latest_action_state
}

/// Whether any of the nine track switches is on.
fn any_soloed(soloed: &[bool; 9]) -> (r: bool)
    ensures
        r == any_solo(soloed@),
{
    let mut k: usize = 0;
    while k < 9
        invariant
            k <= 9,
            soloed@.len() == 9,
            forall|j: int| 0 <= j < k ==> !soloed@[j],
        decreases 9 - k,
    {
        if soloed[k] {
            return true;
        }
        k = k + 1;
    }
    false
}

/// State of the stacked instances for a relay at `t`, ignoring mute and solo.
pub(crate) fn layered_relay_state<A>(timeline: &Timeline<A>, relay_id: u8, t_ms: u64) -> (r: bool)
    ensures
        r == layered_state(timeline.instances@, timeline.templates@, relay_id, t_ms as int),
{
    let mut idx: usize = timeline.instances.len();
    assert(timeline.instances@.take(idx as int) =~= timeline.instances@);
    while idx > 0
        invariant
            idx <= timeline.instances.len(),
            layered_state(timeline.instances@, timeline.templates@, relay_id, t_ms as int)
                == layered_state(timeline.instances@.take(idx as int), timeline.templates@, relay_id, t_ms as int),
        decreases idx,
    {
        let inst = &timeline.instances[idx - 1];
        assert(timeline.instances@.take(idx as int).drop_last() =~= timeline.instances@.take(idx - 1));
        if let Some(state) = instance_layer_state(&timeline.templates, inst, relay_id, t_ms) {
            return state;
        }
        idx = idx - 1;
    }
    false
}

/// Desired state of one relay at `t_ms`: the topmost active instance that has acted on
/// the relay decides; muted relays, and relays left out by a solo, are OFF.
pub fn evaluate_relay_state<A>(
    timeline: &Timeline<A>,
    relay_id: u8,
    t_ms: u64,
    muted: &[bool; 9],
    soloed: &[bool; 9],
) -> (r: bool)
    requires
        relay_id < 9,
    ensures
        r == relay_state_spec(*timeline, muted@, soloed@, relay_id, t_ms as int),
{
    let has_solo = any_soloed(soloed);
    if muted[relay_id as usize] || (has_solo && !soloed[relay_id as usize]) {
        return false;
    }
    layered_relay_state(timeline, relay_id, t_ms)
}


/// `y` is the time of one of the first `j` actions of `e` placed at `start`.
spec fn action_time_below(e: Effect, start: u64, j: int, y: u64) -> bool {
    exists|q: int| 0 <= q < j && y == start + e.actions@[q].offset_ms
}

proof fn lemma_action_time_below_step(e: Effect, start: u64, j: int, y: u64)
    requires
        0 <= j < e.actions@.len(),
    ensures
        action_time_below(e, start, j + 1, y) <==> (action_time_below(e, start, j, y) || y == start
            + e.actions@[j].offset_ms),
{
    if action_time_below(e, start, j + 1, y) {
        let q = choose|q: int| 0 <= q < j + 1 && y == start + e.actions@[q].offset_ms;
        if q < j {
            assert(action_time_below(e, start, j, y));
        }
    }
    if action_time_below(e, start, j, y) {
        let q = choose|q: int| 0 <= q < j && y == start + e.actions@[q].offset_ms;
        assert(0 <= q < j + 1 && y == start + e.actions@[q].offset_ms);
    }
    if y == start + e.actions@[j].offset_ms {
        assert(0 <= j < j + 1 && y == start + e.actions@[j].offset_ms);
    }
}

/// Inserts `x` into a strictly increasing list unless it is already there.
fn insert_time(times: &mut Vec<u64>, x: u64)
    requires
        strictly_increasing(old(times)@),
    ensures
        strictly_increasing(final(times)@),
        forall|y: u64| final(times)@.contains(y) <==> (old(times)@.contains(y) || y == x),
{
    let mut p: usize = 0;
    while p < times.len() && times[p] < x
        invariant
            p <= times.len(),
            times@ == old(times)@,
            forall|j: int| 0 <= j < p ==> times@[j] < x,
        decreases times.len() - p,
    {
        p = p + 1;
    }
    if p < times.len() && times[p] == x {
        assert(times@.contains(times@[p as int]));
        return;
    }
    let ghost before = times@;
    times.insert(p, x);
    assert forall|i: int, j: int| 0 <= i < j < times@.len() implies times@[i] < times@[j] by {
        if j < p {
            assert(times@[i] == before[i] && times@[j] == before[j]);
        } else if j == p {
            assert(times@[i] == before[i]);
        } else if i < p {
            assert(times@[i] == before[i] && times@[j] == before[j - 1]);
            assert(before[j - 1] >= x) by {
                if j - 1 > p {
                    assert(before[p as int] < before[j - 1]);
                }
            }
        } else if i == p {
            assert(times@[j] == before[j - 1]);
            assert(before[j - 1] >= x) by {
                if j - 1 > p {
                    assert(before[p as int] < before[j - 1]);
                }
            }
        } else {
            assert(times@[i] == before[i - 1] && times@[j] == before[j - 1]);
        }
    }
    assert(before == old(times)@);
    assert forall|y: u64| #[trigger] times@.contains(y) <==> (old(times)@.contains(y) || y == x) by {
        if times@.contains(y) {
            let k = choose|k: int| 0 <= k < times@.len() && times@[k] == y;
            if k < p {
                assert(before[k] == y);
            } else if k > p {
                assert(before[k - 1] == y);
            }
        }
        if before.contains(y) {
            let k = choose|k: int| 0 <= k < before.len() && before[k] == y;
            if k < p {
                assert(times@[k] == y);
            } else {
                assert(times@[k + 1] == y);
            }
        }
        if y == x {
            assert(times@[p as int] == y);
        }
    }
}

/// Compiles the timeline into a time-ordered queue of relay transitions: at every start,
/// end and action time of any placed instance (in increasing order, each once), one action
/// for each relay 1..=8 (in that order) whose desired state differs from its state at the
/// previous such time (OFF before the first).
pub fn compile_timeline<A>(timeline: &Timeline<A>, muted: &[bool; 9], soloed: &[bool; 9]) -> (compiled: Vec<CompiledAction>)
    requires
        timeline_fits(*timeline),
    ensures
        exists|times: Seq<u64>|
            is_time_list(*timeline, times) && compiled@ == compiled_spec(
                *timeline,
                muted@,
                soloed@,
                times,
                times.len() as int,
            ),
{
    let mut times: Vec<u64> = Vec::new();
    let ghost tl = *timeline;
    let mut i: usize = 0;
    while i < timeline.instances.len()
        invariant
            i <= timeline.instances.len(),
            tl == *timeline,
            timeline_fits(tl),
            strictly_increasing(times@),
            forall|x: int|
                times_of_prefix(tl, i as int, x) <==> exists|k: int| 0 <= k < times@.len() && times@[k] == x,
        decreases timeline.instances.len() - i,
    {
        let instance = timeline.instances[i];
        assert(instance_fits(tl.templates@, tl.instances@[i as int]));
        let ghost before = times@;
        let ghost next: int = i + 1;
        match find_template_index(&timeline.templates, instance.effect_id) {
            Some(k) => {
                proof {
                    lemma_template_index(tl.templates@, instance.effect_id);
                }
                let effect = &timeline.templates[k];
                insert_time(&mut times, instance.start_time_ms);
                insert_time(&mut times, instance.start_time_ms + effect.duration_ms);
                let mut j: usize = 0;
                while j < effect.actions.len()
                    invariant
                        j <= effect.actions.len(),
                        k < tl.templates@.len(),
                        instance_fits(tl.templates@, instance),
                        template_index(tl.templates@, instance.effect_id) == Some(k as int),
                        *effect == tl.templates@[k as int],
                        strictly_increasing(times@),
                        forall|y: u64|
                            #[trigger] times@.contains(y) <==> (before.contains(y) || y == instance.start_time_ms
                                || y == instance.start_time_ms + effect.duration_ms
                                || action_time_below(*effect, instance.start_time_ms, j as int, y)),
                    decreases effect.actions.len() - j,
                {
                    assert(instance.start_time_ms + effect.actions@[j as int].offset_ms <= u64::MAX);
                    let ghost mid = times@;
                    let y0 = instance.start_time_ms + effect.actions[j].offset_ms;
                    insert_time(&mut times, y0);
                    assert forall|y: u64|
                        #[trigger] times@.contains(y) <==> (before.contains(y) || y == instance.start_time_ms
                            || y == instance.start_time_ms + effect.duration_ms
                            || action_time_below(*effect, instance.start_time_ms, j + 1, y)) by {
                        lemma_action_time_below_step(*effect, instance.start_time_ms, j as int, y);
                        assert(times@.contains(y) <==> (mid.contains(y) || y == y0));
                    }
                    j = j + 1;
                }
                assert forall|x: int|
                    #[trigger] times_of_prefix(tl, next, x) <==> exists|q: int| 0 <= q < times@.len() && times@[q] == x by {
                    if times_of_prefix(tl, next, x) {
                        let w = choose|w: int| 0 <= w < next && instance_times(tl.templates@, tl.instances@[w], x);
                        if w < i {
                            assert(times_of_prefix(tl, i as int, x));
                            let q = choose|q: int| 0 <= q < before.len() && before[q] == x;
                            assert(before.contains(before[q]));
                            assert(times@.contains(before[q]));
                            let q2 = choose|q2: int| 0 <= q2 < times@.len() && times@[q2] == before[q];
                            assert(times@[q2] == x);
                        } else {
                            assert(w == i);
                            let start = instance.start_time_ms;
                            let y: u64 = if x == start {
                                start
                            } else if x == start + effect.duration_ms {
                                (start + effect.duration_ms) as u64
                            } else {
                                let jj = choose|jj: int| 0 <= jj < effect.actions@.len() && x == start + effect.actions@[jj].offset_ms;
                                assert(start + effect.actions@[jj].offset_ms <= u64::MAX);
                                let yy = (start + effect.actions@[jj].offset_ms) as u64;
                                assert(action_time_below(*effect, start, effect.actions@.len() as int, yy));
                                yy
                            };
                            assert(y == x);
                            assert(times@.contains(y));
                            let q2 = choose|q2: int| 0 <= q2 < times@.len() && times@[q2] == y;
                        }
                    }
                    if exists|q: int| 0 <= q < times@.len() && times@[q] == x {
                        let q = choose|q: int| 0 <= q < times@.len() && times@[q] == x;
                        assert(times@.contains(times@[q]));
                        if before.contains(times@[q]) {
                            let r = choose|r: int| 0 <= r < before.len() && before[r] == times@[q];
                            assert(times_of_prefix(tl, i as int, x));
                            let w = choose|w: int| 0 <= w < i && instance_times(tl.templates@, tl.instances@[w], x);
                            assert(times_of_prefix(tl, next, x));
                        } else {
                            let yq = times@[q];
                            if action_time_below(*effect, instance.start_time_ms, effect.actions@.len() as int, yq) {
                                let jj = choose|jj: int| 0 <= jj < effect.actions@.len() && yq == instance.start_time_ms + effect.actions@[jj].offset_ms;
                            }
                            assert(instance_times(tl.templates@, tl.instances@[i as int], x));
                            assert(times_of_prefix(tl, next, x));
                        }
                    }
                }
            },
            None => {
                assert forall|x: int|
                    #[trigger] times_of_prefix(tl, next, x) <==> exists|q: int| 0 <= q < times@.len() && times@[q] == x by {
                    if times_of_prefix(tl, next, x) {
                        let w = choose|w: int| 0 <= w < next && instance_times(tl.templates@, tl.instances@[w], x);
                        assert(w != i);
                        assert(times_of_prefix(tl, i as int, x));
                    }
                    if exists|q: int| 0 <= q < times@.len() && times@[q] == x {
                        assert(times_of_prefix(tl, i as int, x));
                        let w = choose|w: int| 0 <= w < i && instance_times(tl.templates@, tl.instances@[w], x);
                        assert(times_of_prefix(tl, next, x));
                    }
                }
            },
        }
        i = i + 1;
    }
    assert(is_time_list(tl, times@));

    let mut compiled: Vec<CompiledAction> = Vec::new();
    let mut current: Vec<bool> = Vec::new();
    let mut q: usize = 0;
    while q < 9
        invariant
            q <= 9,
            current@.len() == q,
            forall|r: int| 0 <= r < q ==> !current@[r],
        decreases 9 - q,
    {
        current.push(false);
        q = q + 1;
    }
    let mut ti: usize = 0;
    while ti < times.len()
        invariant
            ti <= times.len(),
            tl == *timeline,
            current@.len() == 9,
            is_time_list(tl, times@),
            compiled@ == compiled_spec(tl, muted@, soloed@, times@, ti as int),
            forall|r: int| 1 <= r <= 8 ==> current@[r] == state_before(tl, muted@, soloed@, times@, ti as int, r as u8),
        decreases times.len() - ti,
    {
        let t = times[ti];
        let ghost base = compiled@;
        let mut relay_id: u8 = 1;
        while relay_id <= 8
            invariant
                1 <= relay_id <= 9,
                ti < times.len(),
                t == times@[ti as int],
                tl == *timeline,
                current@.len() == 9,
                base == compiled_spec(tl, muted@, soloed@, times@, ti as int),
                compiled@ + changes_from(tl, muted@, soloed@, times@, ti as int, relay_id as int)
                    == base + changes_from(tl, muted@, soloed@, times@, ti as int, 1),
                forall|r: int| 1 <= r < relay_id ==> current@[r] == relay_state_spec(tl, muted@, soloed@, r as u8, t as int),
                forall|r: int| relay_id <= r <= 8 ==> current@[r] == state_before(tl, muted@, soloed@, times@, ti as int, r as u8),
            decreases 9 - relay_id,
        {
            let desired_state = evaluate_relay_state(timeline, relay_id, t, muted, soloed);
            let ghost rest = changes_from(tl, muted@, soloed@, times@, ti as int, relay_id + 1);
            if desired_state != current[relay_id as usize] {
                let act = CompiledAction { time_ms: t, relay_id, state: desired_state };
                compiled.push(act);
                current.set(relay_id as usize, desired_state);
                assert(changes_from(tl, muted@, soloed@, times@, ti as int, relay_id as int) == seq![act] + rest);
                assert(compiled@ + rest =~= compiled@.drop_last() + (seq![act] + rest));
            } else {
                assert(changes_from(tl, muted@, soloed@, times@, ti as int, relay_id as int) == rest);
            }
            relay_id = relay_id + 1;
        }
        assert(changes_from(tl, muted@, soloed@, times@, ti as int, 9) =~= Seq::<CompiledAction>::empty());
        assert(compiled@ =~= compiled@ + Seq::<CompiledAction>::empty());
        assert(compiled@ == compiled_spec(tl, muted@, soloed@, times@, ti + 1));
        ti = ti + 1;
    }
    compiled
}


/// State of `relay` once every queued action for it whose time is at most `t` has been
/// applied in queue order; OFF when there is none.
pub open spec fn replay_state(queue: Seq<CompiledAction>, relay: u8, t: int) -> bool
    decreases queue.len(),
{
    if queue.len() == 0 {
        false
    } else {
        let a = queue.last();
        if a.relay_id == relay && a.time_ms <= t {
            a.state
        } else {
            replay_state(queue.drop_last(), relay, t)
        }
    }
}

/// Desired state of `relay` at the last of the first `n` listed times that is not after `t`.
spec fn state_at_list<A>(tl: Timeline<A>, muted: Seq<bool>, soloed: Seq<bool>, times: Seq<u64>, n: int, relay: u8, t: int) -> bool
    decreases n,
{
    if n <= 0 {
        false
    } else if times[n - 1] <= t {
        relay_state_spec(tl, muted, soloed, relay, times[n - 1] as int)
    } else {
        state_at_list(tl, muted, soloed, times, n - 1, relay, t)
    }
}

proof fn lemma_replay_changes<A>(tl: Timeline<A>, muted: Seq<bool>, soloed: Seq<bool>, times: Seq<u64>, i: int, q: int, x: Seq<CompiledAction>, relay: u8, t: int)
    requires
        1 <= q <= 9,
        0 <= i < times.len(),
        1 <= relay <= 8,
    ensures
        replay_state(x + changes_from(tl, muted, soloed, times, i, q), relay, t) == (if q <= relay
            && relay_state_spec(tl, muted, soloed, relay, times[i] as int) != state_before(tl, muted, soloed, times, i, relay)
            && times[i] <= t {
            relay_state_spec(tl, muted, soloed, relay, times[i] as int)
        } else {
            replay_state(x, relay, t)
        }),
    decreases 9 - q,
{
    if q > 8 {
        assert(x + changes_from(tl, muted, soloed, times, i, q) =~= x);
    } else {
        let now = relay_state_spec(tl, muted, soloed, q as u8, times[i] as int);
        let rest = changes_from(tl, muted, soloed, times, i, q + 1);
        if now != state_before(tl, muted, soloed, times, i, q as u8) {
            let a = CompiledAction { time_ms: times[i], relay_id: q as u8, state: now };
            assert(x + changes_from(tl, muted, soloed, times, i, q) =~= x.push(a) + rest);
            lemma_replay_changes(tl, muted, soloed, times, i, q + 1, x.push(a), relay, t);
            assert(x.push(a).drop_last() =~= x);
        } else {
            lemma_replay_changes(tl, muted, soloed, times, i, q + 1, x, relay, t);
        }
    }
}

proof fn lemma_replay_is_state_at_list<A>(tl: Timeline<A>, muted: Seq<bool>, soloed: Seq<bool>, times: Seq<u64>, n: int, relay: u8, t: int)
    requires
        0 <= n <= times.len(),
        strictly_increasing(times),
        1 <= relay <= 8,
    ensures
        replay_state(compiled_spec(tl, muted, soloed, times, n), relay, t) == state_at_list(tl, muted, soloed, times, n, relay, t),
    decreases n,
{
    if n > 0 {
        lemma_replay_is_state_at_list(tl, muted, soloed, times, n - 1, relay, t);
        lemma_replay_changes(tl, muted, soloed, times, n - 1, 1, compiled_spec(tl, muted, soloed, times, n - 1), relay, t);
        if times[n - 1] <= t && n >= 2 {
            assert(times[n - 2] < times[n - 1]);
            assert(state_at_list(tl, muted, soloed, times, n - 1, relay, t) == relay_state_spec(tl, muted, soloed, relay, times[n - 2] as int));
        }
    }
}

proof fn lemma_state_at_list_last<A>(tl: Timeline<A>, muted: Seq<bool>, soloed: Seq<bool>, times: Seq<u64>, n: int, relay: u8, t: int)
    requires
        0 <= n <= times.len(),
        strictly_increasing(times),
    ensures
        (forall|k: int| 0 <= k < n ==> times[k] > t) ==> !state_at_list(tl, muted, soloed, times, n, relay, t),
        (exists|k: int| 0 <= k < n && times[k] <= t) ==> exists|k: int|
            0 <= k < n && times[k] <= t && (forall|j: int| k < j < n ==> times[j] > t)
                && state_at_list(tl, muted, soloed, times, n, relay, t) == relay_state_spec(tl, muted, soloed, relay, times[k] as int),
    decreases n,
{
    if n > 0 {
        lemma_state_at_list_last(tl, muted, soloed, times, n - 1, relay, t);
        if times[n - 1] <= t {
            assert(forall|j: int| n - 1 < j < n ==> times[j] > t);
        } else {
            if exists|k: int| 0 <= k < n && times[k] <= t {
                let k = choose|k: int| 0 <= k < n && times[k] <= t;
                assert(k < n - 1);
                assert(exists|k: int| 0 <= k < n - 1 && times[k] <= t);
            }
        }
    }
}

proof fn lemma_latest_action_constant(acts: Seq<AtomicAction>, relay: u8, o1: int, o2: int)
    requires
        o1 <= o2,
        forall|j: int| 0 <= j < acts.len() ==> !(o1 < #[trigger] acts[j].offset_ms <= o2),
    ensures
        latest_action(acts, relay, o1) == latest_action(acts, relay, o2),
    decreases acts.len(),
{
    if acts.len() > 0 {
        assert forall|j: int| 0 <= j < acts.drop_last().len() implies !(o1 < #[trigger] acts.drop_last()[j].offset_ms <= o2) by {
            assert(acts.drop_last()[j] == acts[j]);
        }
        lemma_latest_action_constant(acts.drop_last(), relay, o1, o2);
        assert(!(o1 < acts[acts.len() - 1].offset_ms <= o2));
    }
}

proof fn lemma_instance_state_constant(templates: Seq<Effect>, inst: EffectInstance, relay: u8, t1: int, t2: int)
    requires
        t1 <= t2,
        forall|x: int| instance_times(templates, inst, x) ==> !(t1 < x <= t2),
    ensures
        instance_state(templates, inst, relay, t1) == instance_state(templates, inst, relay, t2),
{
    match template_index(templates, inst.effect_id) {
        None => {},
        Some(k) => {
            let e = templates[k];
            let s = inst.start_time_ms as int;
            let end = s + e.duration_ms;
            assert(instance_times(templates, inst, s));
            assert(instance_times(templates, inst, end));
            assert forall|j: int| 0 <= j < e.actions@.len() implies !(t1 - s < #[trigger] e.actions@[j].offset_ms <= t2 - s) by {
                assert(instance_times(templates, inst, s + e.actions@[j].offset_ms));
            }
            lemma_latest_action_constant(e.actions@, relay, t1 - s, t2 - s);
        },
    }
}

proof fn lemma_layered_constant(insts: Seq<EffectInstance>, templates: Seq<Effect>, relay: u8, t1: int, t2: int)
    requires
        t1 <= t2,
        forall|i: int, x: int| 0 <= i < insts.len() && #[trigger] instance_times(templates, insts[i], x) ==> !(t1 < x <= t2),
    ensures
        layered_state(insts, templates, relay, t1) == layered_state(insts, templates, relay, t2),
    decreases insts.len(),
{
    if insts.len() > 0 {
        let last = insts.last();
        assert forall|x: int| instance_times(templates, last, x) implies !(t1 < x <= t2) by {
            assert(insts[insts.len() - 1] == last);
        }
        lemma_instance_state_constant(templates, last, relay, t1, t2);
        assert forall|i: int, x: int| 0 <= i < insts.drop_last().len() && #[trigger] instance_times(templates, insts.drop_last()[i], x) implies !(t1 < x <= t2) by {
            assert(insts.drop_last()[i] == insts[i]);
        }
        lemma_layered_constant(insts.drop_last(), templates, relay, t1, t2);
    }
}

/// The desired state of a relay can only change at an interesting time.
pub proof fn lemma_relay_state_piecewise_constant<A>(tl: Timeline<A>, muted: Seq<bool>, soloed: Seq<bool>, relay: u8, t1: int, t2: int)
    requires
        t1 <= t2,
        forall|x: int| interesting_time(tl, x) ==> !(t1 < x <= t2),
    ensures
        relay_state_spec(tl, muted, soloed, relay, t1) == relay_state_spec(tl, muted, soloed, relay, t2),
{
    assert forall|i: int, x: int| 0 <= i < tl.instances@.len() && #[trigger] instance_times(tl.templates@, tl.instances@[i], x) implies !(t1 < x <= t2) by {
        assert(interesting_time(tl, x));
    }
    lemma_layered_constant(tl.instances@, tl.templates@, relay, t1, t2);
}

proof fn lemma_layered_before_start(insts: Seq<EffectInstance>, templates: Seq<Effect>, relay: u8)
    ensures
        !layered_state(insts, templates, relay, -1),
    decreases insts.len(),
{
    if insts.len() > 0 {
        lemma_layered_before_start(insts.drop_last(), templates, relay);
    }
}

/// Replaying the compiled queue in order reproduces, for every relay 1..=8 and at every
/// millisecond, the state that `evaluate_relay_state` gives for that relay and time.
pub proof fn lemma_compiled_queue_faithful<A>(tl: Timeline<A>, muted: Seq<bool>, soloed: Seq<bool>, times: Seq<u64>, relay: u8, t: u64)
    requires
        is_time_list(tl, times),
        1 <= relay <= 8,
    ensures
        replay_state(compiled_spec(tl, muted, soloed, times, times.len() as int), relay, t as int)
            == relay_state_spec(tl, muted, soloed, relay, t as int),
{
    let n = times.len() as int;
    lemma_replay_is_state_at_list(tl, muted, soloed, times, n, relay, t as int);
    lemma_state_at_list_last(tl, muted, soloed, times, n, relay, t as int);
    if exists|k: int| 0 <= k < n && times[k] <= t {
        let k = choose|k: int|
            0 <= k < n && times[k] <= t && (forall|j: int| k < j < n ==> times[j] > t)
                && state_at_list(tl, muted, soloed, times, n, relay, t as int) == relay_state_spec(tl, muted, soloed, relay, times[k] as int);
        assert forall|x: int| interesting_time(tl, x) implies !(times[k] < x <= t) by {
            let j = choose|j: int| 0 <= j < times.len() && times[j] == x;
            if times[k] < x {
                if j <= k {
                    if j < k {
                        assert(times[j] < times[k]);
                    }
                }
            }
        }
        lemma_relay_state_piecewise_constant(tl, muted, soloed, relay, times[k] as int, t as int);
    } else {
        assert forall|x: int| interesting_time(tl, x) implies !(-1 < x <= t) by {
            let j = choose|j: int| 0 <= j < times.len() && times[j] == x;
        }
        lemma_relay_state_piecewise_constant(tl, muted, soloed, relay, -1, t as int);
        lemma_layered_before_start(tl.instances@, tl.templates@, relay);
    }
}


proof fn lemma_changes_shape<A>(tl: Timeline<A>, muted: Seq<bool>, soloed: Seq<bool>, times: Seq<u64>, i: int, q: int)
    requires
        1 <= q <= 9,
        0 <= i < times.len(),
    ensures
        forall|k: int| 0 <= k < changes_from(tl, muted, soloed, times, i, q).len() ==> {
            let a = #[trigger] changes_from(tl, muted, soloed, times, i, q)[k];
            a.time_ms == times[i] && q <= a.relay_id <= 8
        },
    decreases 9 - q,
{
    if q <= 8 {
        lemma_changes_shape(tl, muted, soloed, times, i, q + 1);
        let rest = changes_from(tl, muted, soloed, times, i, q + 1);
        let c = changes_from(tl, muted, soloed, times, i, q);
        assert forall|k: int| 0 <= k < c.len() implies {
            let a = #[trigger] c[k];
            a.time_ms == times[i] && q <= a.relay_id <= 8
        } by {
            if c.len() > rest.len() && k > 0 {
                assert(c[k] == rest[k - 1]);
            }
        }
    }
}

/// The compiled queue is ordered by time, and each of its actions names a relay 1..=8 at
/// one of the listed times.
pub proof fn lemma_compiled_queue_ordered<A>(tl: Timeline<A>, muted: Seq<bool>, soloed: Seq<bool>, times: Seq<u64>, n: int)
    requires
        0 <= n <= times.len(),
        strictly_increasing(times),
    ensures
        forall|a: int, b: int| 0 <= a < b < compiled_spec(tl, muted, soloed, times, n).len()
            ==> compiled_spec(tl, muted, soloed, times, n)[a].time_ms <= compiled_spec(tl, muted, soloed, times, n)[b].time_ms,
        forall|a: int| 0 <= a < compiled_spec(tl, muted, soloed, times, n).len() ==> {
            let c = #[trigger] compiled_spec(tl, muted, soloed, times, n)[a];
            1 <= c.relay_id <= 8 && exists|k: int| 0 <= k < n && c.time_ms == times[k]
        },
    decreases n,
{
    if n > 0 {
        lemma_compiled_queue_ordered(tl, muted, soloed, times, n - 1);
        lemma_changes_shape(tl, muted, soloed, times, n - 1, 1);
        let prev = compiled_spec(tl, muted, soloed, times, n - 1);
        let ch = changes_from(tl, muted, soloed, times, n - 1, 1);
        let q = compiled_spec(tl, muted, soloed, times, n);
        assert(q == prev + ch);
        assert forall|a: int| 0 <= a < q.len() implies {
            let c = #[trigger] q[a];
            1 <= c.relay_id <= 8 && exists|k: int| 0 <= k < n && c.time_ms == times[k]
        } by {
            if a < prev.len() {
                assert(q[a] == prev[a]);
                let c = prev[a];
                let k = choose|k: int| 0 <= k < n - 1 && c.time_ms == times[k];
            } else {
                assert(q[a] == ch[a - prev.len()]);
                assert(q[a].time_ms == times[n - 1]);
            }
        }
        assert forall|a: int, b: int| 0 <= a < b < q.len() implies q[a].time_ms <= q[b].time_ms by {
            if b < prev.len() {
                assert(q[a] == prev[a] && q[b] == prev[b]);
            } else if a >= prev.len() {
                assert(q[a] == ch[a - prev.len()] && q[b] == ch[b - prev.len()]);
            } else {
                assert(q[a] == prev[a] && q[b] == ch[b - prev.len()]);
                let c = prev[a];
                let k = choose|k: int| 0 <= k < n - 1 && c.time_ms == times[k];
                assert(times[k] < times[n - 1]);
            }
        }
    }
}


/// Why the engine switches every relay off.
#[derive(Debug, Clone, Copy, PartialEq, Eq, Structural)]
pub enum OffReason {
    Disconnect,
    Seek,
    EmergencyStop,
    Pause,
}

/// What the engine asks its serial side to do.
#[derive(Debug, Clone, Copy, PartialEq, Eq, Structural)]
pub enum EngineEffect {
    /// Switch relays 1..=8 off.
    AllRelaysOff(OffReason),
    /// Apply one queued relay transition.
    Relay(CompiledAction),
    /// Send a live PWM duty value, bypassing the queue.
    Pwm { channel: u8, value: u8 },
}

/// Decision state of the playback engine: the compiled queue, the position of the next
/// action to play, the playing and emergency-stop states seen at the previous tick, and the
/// last live value taken for each of the 16 PWM channels (`None` before the first).
pub struct EngineState {
    pub queue: Vec<CompiledAction>,
    pub index: usize,
    pub was_playing: bool,
    pub was_estop: bool,
    pub last_pwm: [Option<u8>; 16],
}

/// Whether a live override changes a channel: the channel exists and its value differs
/// from the last one taken.
pub open spec fn override_changes(last_pwm: Seq<Option<u8>>, channel: u8, value: u8) -> bool {
    channel < 16 && last_pwm[channel as int] != Some(value)
}

/// Position of the first queued action at or after `t` (the queue length when none is).
pub open spec fn first_not_before(queue: Seq<CompiledAction>, t: int) -> int
    decreases queue.len(),
{
    if queue.len() == 0 {
        0
    } else if queue[0].time_ms >= t {
        0
    } else {
        1 + first_not_before(queue.drop_first(), t)
    }
}

/// End of the run of actions from `start` on that are due at `t`.
pub open spec fn due_end(queue: Seq<CompiledAction>, start: int, t: int) -> int
    decreases queue.len() - start,
{
    if start >= queue.len() || queue[start].time_ms > t {
        start
    } else {
        due_end(queue, start + 1, t)
    }
}

proof fn lemma_first_not_before_bound(queue: Seq<CompiledAction>, t: int)
    ensures
        0 <= first_not_before(queue, t) <= queue.len(),
        forall|j: int| 0 <= j < first_not_before(queue, t) ==> queue[j].time_ms < t,
        first_not_before(queue, t) < queue.len() ==> queue[first_not_before(queue, t)].time_ms >= t,
    decreases queue.len(),
{
    if queue.len() > 0 && queue[0].time_ms < t {
        lemma_first_not_before_bound(queue.drop_first(), t);
        assert forall|j: int| 1 <= j < first_not_before(queue, t) implies queue[j].time_ms < t by {
            assert(queue[j] == queue.drop_first()[j - 1]);
        }
    }
}

/// Position of the first queued action at or after `t`.
fn find_first_not_before(queue: &Vec<CompiledAction>, t: u64) -> (r: usize)
    ensures
        r == first_not_before(queue@, t as int),
{
    let mut i: usize = 0;
    assert(queue@.skip(0) =~= queue@);
    while i < queue.len() && queue[i].time_ms < t
        invariant
            i <= queue.len(),
            first_not_before(queue@, t as int) == i + first_not_before(queue@.skip(i as int), t as int),
        decreases queue.len() - i,
    {
        assert(queue@.skip(i as int).drop_first() =~= queue@.skip(i + 1));
        i = i + 1;
    }
    i
}

/// Effects of switching everything off for a reason, only when connected.
pub open spec fn off_if(connected: bool, reason: OffReason) -> Seq<EngineEffect> {
    if connected {
        seq![EngineEffect::AllRelaysOff(reason)]
    } else {
        Seq::empty()
    }
}

/// Queued actions as the effects that play them.
pub open spec fn relay_effects(actions: Seq<CompiledAction>) -> Seq<EngineEffect> {
    actions.map_values(|a: CompiledAction| EngineEffect::Relay(a))
}

/// Where the engine resumes after a tick: past the actions that are due at `t` when it
/// plays (playing and no emergency stop), where it was otherwise.
pub open spec fn tick_end(s: EngineState, estop: bool, playing: bool, t: u64) -> int {
    if playing && !estop {
        due_end(s.queue@, s.index as int, t as int)
    } else {
        s.index as int
    }
}

/// What a tick sends: all relays off on a rising emergency stop, then all relays off when
/// playback stops (both only when connected), then, when connected and playing, the due
/// queued actions in order.
pub open spec fn tick_effects(s: EngineState, estop: bool, playing: bool, connected: bool, t: u64) -> Seq<EngineEffect> {
    let playing_now = playing && !estop;
    let start = s.index as int;
    let played = if connected && playing_now && start <= s.queue@.len() {
        relay_effects(s.queue@.subrange(start, tick_end(s, estop, playing, t)))
    } else {
        Seq::<EngineEffect>::empty()
    };
    (if estop && !s.was_estop {
        off_if(connected, OffReason::EmergencyStop)
    } else {
        Seq::<EngineEffect>::empty()
    }) + (if s.was_playing && !playing_now {
        off_if(connected, OffReason::Pause)
    } else {
        Seq::<EngineEffect>::empty()
    }) + played
}

/// The emergency stop only ever switches relays off: while it is held, a tick sends
/// nothing but all-relays-off commands and plays no queued action, and on a connected rig
/// the tick where it is pressed starts with switching every relay off.
pub proof fn lemma_estop_only_switches_off(s: EngineState, playing: bool, connected: bool, t: u64)
    ensures
        forall|i: int|
            0 <= i < tick_effects(s, true, playing, connected, t).len() ==> #[trigger] tick_effects(
                s,
                true,
                playing,
                connected,
                t,
            )[i] is AllRelaysOff,
        tick_end(s, true, playing, t) == s.index,
        connected && !s.was_estop ==> tick_effects(s, true, playing, connected, t)[0] == EngineEffect::AllRelaysOff(
            OffReason::EmergencyStop,
        ),
{
    let e = tick_effects(s, true, playing, connected, t);
    let a = if !s.was_estop {
        off_if(connected, OffReason::EmergencyStop)
    } else {
        Seq::<EngineEffect>::empty()
    };
    let b = if s.was_playing {
        off_if(connected, OffReason::Pause)
    } else {
        Seq::<EngineEffect>::empty()
    };
    assert(e == a + b + Seq::<EngineEffect>::empty());
    assert forall|i: int| 0 <= i < e.len() implies #[trigger] e[i] is AllRelaysOff by {
        if i < a.len() {
            assert(e[i] == a[i]);
        } else {
            assert(e[i] == b[i - a.len()]);
        }
    }
    if connected && !s.was_estop {
        assert(e[0] == a[0]);
    }
}

/// A paused engine plays nothing: a tick without playback sends nothing but
/// all-relays-off commands and stays at its place in the queue, and on a connected rig the
/// tick where playback stops switches every relay off.
pub proof fn lemma_paused_tick_only_switches_off(s: EngineState, estop: bool, connected: bool, t: u64)
    ensures
        forall|i: int|
            0 <= i < tick_effects(s, estop, false, connected, t).len() ==> #[trigger] tick_effects(
                s,
                estop,
                false,
                connected,
                t,
            )[i] is AllRelaysOff,
        tick_end(s, estop, false, t) == s.index,
        connected && s.was_playing ==> tick_effects(s, estop, false, connected, t).contains(
            EngineEffect::AllRelaysOff(OffReason::Pause),
        ),
{
    let e = tick_effects(s, estop, false, connected, t);
    let a = if estop && !s.was_estop {
        off_if(connected, OffReason::EmergencyStop)
    } else {
        Seq::<EngineEffect>::empty()
    };
    let b = if s.was_playing {
        off_if(connected, OffReason::Pause)
    } else {
        Seq::<EngineEffect>::empty()
    };
    assert(e == a + b + Seq::<EngineEffect>::empty());
    assert forall|i: int| 0 <= i < e.len() implies #[trigger] e[i] is AllRelaysOff by {
        if i < a.len() {
            assert(e[i] == a[i]);
        } else {
            assert(e[i] == b[i - a.len()]);
        }
    }
    if connected && s.was_playing {
        assert(e[a.len() as int] == b[0]);
    }
}

impl EngineState {
    /// An idle engine with an empty queue.
    pub fn new() -> (s: Self)
        ensures
            s.queue@.len() == 0,
            s.index == 0,
            !s.was_playing,
            !s.was_estop,
            s.last_pwm@ == seq![None::<u8>; 16],
    {
        let s = EngineState { queue: Vec::new(), index: 0, was_playing: false, was_estop: false, last_pwm: [None; 16] };
        assert(s.last_pwm@ =~= seq![None::<u8>; 16]);
        s
    }

    /// The serial link changed: when it is dropped while a port is open, every relay is
    /// switched off first.
    pub fn connection_changed(&self, connected: bool, port_open: bool) -> (effects: Vec<EngineEffect>)
        ensures
            effects@ == if !connected && port_open {
                seq![EngineEffect::AllRelaysOff(OffReason::Disconnect)]
            } else {
                Seq::<EngineEffect>::empty()
            },
    {
        let mut effects: Vec<EngineEffect> = Vec::new();
        if !connected && port_open {
            effects.push(EngineEffect::AllRelaysOff(OffReason::Disconnect));
        }
        assert(effects@ =~= if !connected && port_open {
            seq![EngineEffect::AllRelaysOff(OffReason::Disconnect)]
        } else {
            Seq::<EngineEffect>::empty()
        });
        effects
    }

    /// Handles one message from the user interface. A new queue resumes at the first
    /// action not before the current playback time; a seek switches everything off (when
    /// connected) and resumes at the first action not before the seek time; a live
    /// override of one of the 16 channels with a value other than the last one taken for
    /// it is taken, and sent at once when connected; any other override is dropped.
    pub fn handle_message(&mut self, msg: EngineMessage, current_time_ms: u64, connected: bool) -> (effects: Vec<EngineEffect>)
        ensures
            final(self).was_playing == old(self).was_playing,
            final(self).was_estop == old(self).was_estop,
            match msg {
                EngineMessage::UpdateQueue(q) => final(self).queue@ == q@ && final(self).index == first_not_before(q@, current_time_ms as int)
                    && effects@ == Seq::<EngineEffect>::empty() && final(self).last_pwm == old(self).last_pwm,
                EngineMessage::Seek(t) => final(self).queue@ == old(self).queue@ && final(self).index == first_not_before(old(self).queue@, t as int)
                    && effects@ == off_if(connected, OffReason::Seek) && final(self).last_pwm == old(self).last_pwm,
                EngineMessage::LiveActuatorOverride { channel, value } => final(self).queue@ == old(self).queue@
                    && final(self).index == old(self).index
                    && final(self).last_pwm@ == if override_changes(old(self).last_pwm@, channel, value) {
                        old(self).last_pwm@.update(channel as int, Some(value))
                    } else {
                        old(self).last_pwm@
                    }
                    && effects@ == if connected && override_changes(old(self).last_pwm@, channel, value) {
                        seq![EngineEffect::Pwm { channel, value }]
                    } else {
                        Seq::<EngineEffect>::empty()
                    },
            },
    {
        let mut effects: Vec<EngineEffect> = Vec::new();
        match msg {
            EngineMessage::UpdateQueue(new_queue) => {
                self.queue = new_queue;
                self.index = find_first_not_before(&self.queue, current_time_ms);
            },
            EngineMessage::Seek(time) => {
                if connected {
                    effects.push(EngineEffect::AllRelaysOff(OffReason::Seek));
                }
                self.index = find_first_not_before(&self.queue, time);
            },
            EngineMessage::LiveActuatorOverride { channel, value } => {
                if channel < 16 && self.last_pwm[channel as usize] != Some(value) {
                    self.last_pwm[channel as usize] = Some(value);
                    if connected {
                        effects.push(EngineEffect::Pwm { channel, value });
                    }
                }
            },
        }
        assert(effects@ =~= match msg {
            EngineMessage::UpdateQueue(q) => Seq::<EngineEffect>::empty(),
            EngineMessage::Seek(t) => off_if(connected, OffReason::Seek),
            EngineMessage::LiveActuatorOverride { channel, value } => if connected && override_changes(old(self).last_pwm@, channel, value) {
                seq![EngineEffect::Pwm { channel, value }]
            } else {
                Seq::<EngineEffect>::empty()
            },
        });
        effects
    }

    /// One tick of the playback loop. On a rising emergency stop, and when playback stops
    /// (paused or stopped by the emergency stop), every relay is switched off (when
    /// connected). While playing, every queued action that is due at the current time is
    /// played in order (sent only when connected) and the position moves past it.
    pub fn tick(&mut self, estop: bool, playing: bool, connected: bool, current_time_ms: u64) -> (effects: Vec<EngineEffect>)
        ensures
            final(self).queue@ == old(self).queue@,
            final(self).last_pwm == old(self).last_pwm,
            final(self).was_estop == estop,
            final(self).was_playing == (playing && !estop),
            final(self).index == tick_end(*old(self), estop, playing, current_time_ms),
            effects@ == tick_effects(*old(self), estop, playing, connected, current_time_ms),
    {
        let mut effects: Vec<EngineEffect> = Vec::new();
        if estop && !self.was_estop && connected {
            effects.push(EngineEffect::AllRelaysOff(OffReason::EmergencyStop));
        }
        self.was_estop = estop;
        let playing_now = playing && !estop;
        if self.was_playing && !playing_now && connected {
            effects.push(EngineEffect::AllRelaysOff(OffReason::Pause));
        }
        self.was_playing = playing_now;
        let ghost prefix = effects@;
        let ghost start = self.index as int;
        if playing_now {
            while self.index < self.queue.len() && self.queue[self.index].time_ms <= current_time_ms
                invariant
                    start <= self.index <= self.queue@.len() || self.index == start,
                    self.queue@ == old(self).queue@,
                    self.last_pwm == old(self).last_pwm,
                    self.was_estop == estop,
                    self.was_playing == playing_now,
                    start == old(self).index as int,
                    due_end(self.queue@, start, current_time_ms as int) == due_end(self.queue@, self.index as int, current_time_ms as int),
                    effects@ == prefix + if connected && start <= self.queue@.len() {
                        relay_effects(self.queue@.subrange(start, self.index as int))
                    } else {
                        Seq::<EngineEffect>::empty()
                    },
                decreases self.queue.len() - self.index,
            {
                let action = self.queue[self.index];
                if connected {
                    effects.push(EngineEffect::Relay(action));
                }
                self.index = self.index + 1;
                assert(self.queue@.subrange(start, self.index as int) =~= self.queue@.subrange(start, self.index - 1).push(action));
                assert(effects@ =~= prefix + if connected && start <= self.queue@.len() {
                    relay_effects(self.queue@.subrange(start, self.index as int))
                } else {
                    Seq::<EngineEffect>::empty()
                });
            }
        }
        proof {
            if !(start <= self.queue@.len()) {
                assert(self.index as int == start);
            }
        }
        assert(effects@ =~= (if estop && !old(self).was_estop {
            off_if(connected, OffReason::EmergencyStop)
        } else {
            Seq::<EngineEffect>::empty()
        }) + (if old(self).was_playing && !playing_now {
            off_if(connected, OffReason::Pause)
        } else {
            Seq::<EngineEffect>::empty()
        }) + if connected && playing_now && start <= old(self).queue@.len() {
            relay_effects(old(self).queue@.subrange(start, self.index as int))
        } else {
            Seq::<EngineEffect>::empty()
        });
        effects
    }
}

/// The queue is in time order.
pub open spec fn time_ordered(queue: Seq<CompiledAction>) -> bool {
    forall|a: int, b: int| 0 <= a <= b < queue.len() ==> queue[a].time_ms <= queue[b].time_ms
}

proof fn lemma_due_end_exact(queue: Seq<CompiledAction>, start: int, t: int)
    requires
        0 <= start <= queue.len(),
    ensures
        start <= due_end(queue, start, t) <= queue.len(),
        forall|k: int| start <= k < due_end(queue, start, t) ==> queue[k].time_ms <= t,
        due_end(queue, start, t) < queue.len() ==> queue[due_end(queue, start, t)].time_ms > t,
    decreases queue.len() - start,
{
    if !(start >= queue.len() || queue[start].time_ms > t) {
        lemma_due_end_exact(queue, start + 1, t);
    }
}

/// Seeking and then playing: after a seek to `s` (which resumes at
/// `first_not_before(queue, s)`), the next playing tick at `t` plays the queue positions
/// up to `due_end` from there. For a queue in time order, as `compile_timeline` makes
/// it, those are exactly the queued actions timed from `s` to `t`, in queue order: none
/// before the seek time is replayed and none that is due is skipped.
pub proof fn lemma_seek_then_tick_plays_window(queue: Seq<CompiledAction>, s: u64, t: u64)
    requires
        time_ordered(queue),
    ensures
        ({
            let from = first_not_before(queue, s as int);
            let to = due_end(queue, from, t as int);
            &&& 0 <= from <= to <= queue.len()
            &&& forall|k: int| from <= k < to ==> s <= #[trigger] queue[k].time_ms <= t
            &&& forall|k: int| 0 <= k < queue.len() && s <= #[trigger] queue[k].time_ms <= t ==> from <= k < to
        }),
{
    let from = first_not_before(queue, s as int);
    lemma_first_not_before_bound(queue, s as int);
    lemma_due_end_exact(queue, from, t as int);
    let to = due_end(queue, from, t as int);
    assert forall|k: int| from <= k < to implies s <= #[trigger] queue[k].time_ms <= t by {
        assert(queue[from].time_ms <= queue[k].time_ms);
    }
    assert forall|k: int| 0 <= k < queue.len() && s <= #[trigger] queue[k].time_ms <= t implies from <= k < to by {
        if k < from {
            assert(queue[k].time_ms < s);
        }
        if k >= to {
            assert(queue[to].time_ms <= queue[k].time_ms);
        }
    }
}

/// The engine after a tick (see `EngineState::tick`).
pub open spec fn after_tick(s: EngineState, estop: bool, playing: bool, t: u64) -> EngineState {
    EngineState {
        index: tick_end(s, estop, playing, t) as usize,
        was_playing: playing && !estop,
        was_estop: estop,
        ..s
    }
}

/// A run of ticks at the given playback times on a connected rig, playing and without
/// emergency stop and with no message in between: the engine at the end and everything
/// the ticks sent, in order.
pub open spec fn playing_run(s: EngineState, times: Seq<u64>) -> (EngineState, Seq<EngineEffect>)
    decreases times.len(),
{
    if times.len() == 0 {
        (s, Seq::empty())
    } else {
        let (m, e) = playing_run(s, times.drop_last());
        let t = times.last();
        (after_tick(m, false, true, t), e + tick_effects(m, false, true, true, t))
    }
}

proof fn lemma_due_end_compose(queue: Seq<CompiledAction>, start: int, t1: int, t2: int)
    requires
        0 <= start,
        t1 <= t2,
    ensures
        due_end(queue, due_end(queue, start, t1), t2) == due_end(queue, start, t2),
    decreases queue.len() - start,
{
    if !(start >= queue.len() || queue[start].time_ms > t1) {
        lemma_due_end_compose(queue, start + 1, t1, t2);
    }
}

proof fn lemma_playing_run(s: EngineState, times: Seq<u64>)
    requires
        s.index <= s.queue@.len(),
        times.len() >= 1,
        forall|i: int, j: int| 0 <= i <= j < times.len() ==> times[i] <= times[j],
    ensures
        playing_run(s, times).0.queue == s.queue,
        playing_run(s, times).0.index as int == due_end(s.queue@, s.index as int, times.last() as int),
        playing_run(s, times).1 == relay_effects(
            s.queue@.subrange(s.index as int, due_end(s.queue@, s.index as int, times.last() as int)),
        ),
    decreases times.len(),
{
    let q = s.queue@;
    assert(q.len() == s.queue.len());
    let from = s.index as int;
    let t = times.last();
    let (m, e) = playing_run(s, times.drop_last());
    let mid: int = if times.len() == 1 {
        from
    } else {
        lemma_playing_run(s, times.drop_last());
        due_end(q, from, times.drop_last().last() as int)
    };
    lemma_due_end_exact(q, from, t as int);
    if times.len() == 1 {
        assert(m == s);
        assert(e == Seq::<EngineEffect>::empty());
    } else {
        lemma_due_end_exact(q, from, times.drop_last().last() as int);
        assert(times.drop_last().last() <= t);
        lemma_due_end_compose(q, from, times.drop_last().last() as int, t as int);
    }
    assert(m.index as int == mid);
    lemma_due_end_exact(q, mid, t as int);
    let to = due_end(q, from, t as int);
    assert(due_end(q, mid, t as int) == to);
    assert(tick_effects(m, false, true, true, t) == relay_effects(q.subrange(mid, to)));
    assert(q.subrange(from, mid) + q.subrange(mid, to) =~= q.subrange(from, to));
    assert(relay_effects(q.subrange(from, mid)) + relay_effects(q.subrange(mid, to)) =~= relay_effects(
        q.subrange(from, to),
    ));
    assert(e + tick_effects(m, false, true, true, t) =~= relay_effects(q.subrange(from, to)));
}

/// Playing through the queue sends each due action exactly once, in queue order. After a
/// queue update or a seek at `start_ms` (which resume at `first_not_before(queue,
/// start_ms)`), any run of ticks at non-decreasing playback times on a connected rig,
/// playing and without emergency stop, sends exactly the queued actions, each once and in
/// queue order, from the resume position up to the last tick's due end; for a queue in
/// time order those are exactly the actions timed from `start_ms` to the last tick's
/// time.
pub proof fn lemma_each_due_action_plays_once(s: EngineState, start_ms: u64, times: Seq<u64>)
    requires
        time_ordered(s.queue@),
        s.index as int == first_not_before(s.queue@, start_ms as int),
        times.len() >= 1,
        forall|i: int, j: int| 0 <= i <= j < times.len() ==> times[i] <= times[j],
    ensures
        ({
            let q = s.queue@;
            let from = s.index as int;
            let to = due_end(q, from, times.last() as int);
            &&& playing_run(s, times).1 == relay_effects(q.subrange(from, to))
            &&& playing_run(s, times).0.index as int == to
            &&& forall|k: int| from <= k < to ==> start_ms <= #[trigger] q[k].time_ms <= times.last()
            &&& forall|k: int|
                0 <= k < q.len() && start_ms <= #[trigger] q[k].time_ms <= times.last() ==> from <= k < to
        }),
{
    lemma_first_not_before_bound(s.queue@, start_ms as int);
    lemma_playing_run(s, times);
    lemma_seek_then_tick_plays_window(s.queue@, start_ms, times.last());
}

/// ASCII decimal digits of a number.
pub open spec fn decimal(n: nat) -> Seq<u8>
    decreases n,
{
    if n < 10 {
        seq![(48 + n) as u8]
    } else {
        decimal(n / 10).push((48 + n % 10) as u8)
    }
}

/// The serial text line that sets one relay: `R{relay_id}:1\n` or `R{relay_id}:0\n`.
pub open spec fn relay_line_spec(relay_id: u8, state: bool) -> Seq<u8> {
    seq![82u8] + decimal(relay_id as nat) + seq![58u8, if state { 49u8 } else { 48u8 }, 10u8]
}

/// Builds the serial text line `R{relay_id}:{1|0}\n` that switches one relay.
pub fn relay_line(relay_id: u8, state: bool) -> (line: Vec<u8>)
    ensures
        line@ == relay_line_spec(relay_id, state),
{
    let mut line: Vec<u8> = Vec::new();
    line.push(82u8);
    if relay_id >= 100 {
        line.push(48u8 + relay_id / 100);
        line.push(48u8 + (relay_id / 10) % 10);
    } else if relay_id >= 10 {
        line.push(48u8 + relay_id / 10);
    }
    line.push(48u8 + relay_id % 10);
    line.push(58u8);
    line.push(if state { 49u8 } else { 48u8 });
    line.push(10u8);
    proof {
        reveal_with_fuel(decimal, 3);
        let n = relay_id as nat;
        if n >= 100 {
            assert(decimal(n) == decimal(n / 10).push((48 + n % 10) as u8));
            assert(decimal(n / 10) == decimal(n / 100).push((48 + (n / 10) % 10) as u8));
            assert(decimal(n / 100) == seq![(48 + n / 100) as u8]);
        } else if n >= 10 {
            assert(decimal(n) == decimal(n / 10).push((48 + n % 10) as u8));
            assert(decimal(n / 10) == seq![(48 + n / 10) as u8]);
        }
    }
    assert(line@ =~= relay_line_spec(relay_id, state));
    line
}

/// The OFF lines of relays 1..=n, in relay order.
pub open spec fn off_lines(n: nat) -> Seq<u8>
    decreases n,
{
    if n == 0 {
        Seq::empty()
    } else {
        off_lines((n - 1) as nat) + relay_line_spec(n as u8, false)
    }
}

/// The bytes the serial side writes for an effect: the eight lines `R1:0\n` .. `R8:0\n`
/// in relay order to switch everything off, the line of a queued action, or the framed
/// `PwmSet` command of a live PWM value.
pub open spec fn effect_bytes(e: EngineEffect) -> Seq<u8> {
    match e {
        EngineEffect::AllRelaysOff(_) => off_lines(8),
        EngineEffect::Relay(a) => relay_line_spec(a.relay_id, a.state),
        EngineEffect::Pwm { channel, value } => frame_spec(Command::PwmSet { channel, value }),
    }
}

impl EngineEffect {
    /// The bytes to write to the serial port for this effect (see `effect_bytes`).
    pub fn serial_bytes(&self) -> (b: Vec<u8>)
        ensures
            b@ == effect_bytes(*self),
    {
        match self {
            EngineEffect::AllRelaysOff(_) => {
                let mut b: Vec<u8> = Vec::new();
                let mut r: u8 = 1;
                assert(b@ =~= off_lines(0));
                while r <= 8
                    invariant
                        1 <= r <= 9,
                        b@ == off_lines((r - 1) as nat),
                    decreases 9 - r,
                {
                    let mut line = relay_line(r, false);
                    b.append(&mut line);
                    assert(b@ =~= off_lines(r as nat));
                    r = r + 1;
                }
                b
            },
            EngineEffect::Relay(a) => relay_line(a.relay_id, a.state),
            EngineEffect::Pwm { channel, value } => Command::PwmSet { channel: *channel, value: *value }.to_frame(),
        }
    }
}

} // verus!
