use vstd::prelude::*;
use crate::four_d::models::{
    AtomicAction, Effect, EffectInstance, HardwareTarget, Timeline, compatible_spec,
    find_template_index, new_uuid, primary_relay_spec, template_index, lemma_template_index,
};
use crate::four_d::history::TimelineSnapshot;
use crate::four_d::patterns::generate_constant;
use crate::paths::{is_same_path, same_path};
use crate::text::{decimal_chars, decimal_text, push_all, push_char, push_decimal};
use vstd::string::*;

verus! {

/// Which part of a timeline clip a pointer drag acts on.
#[derive(Clone, Copy, Debug, PartialEq, Eq, Structural)]
pub enum DragMode {
    Move,
    ResizeLeft,
    ResizeRight,
}

/// An entry of the effects library.
#[derive(Debug, Clone)]
pub struct EffectPreset {
    pub category: String,
    pub effect: Effect,
}

/// What the effects library hands to the timeline when an effect is dragged onto it.
#[derive(Debug, Clone)]
pub struct EffectDragPayload {
    pub name: String,
    pub icon: String,
    pub duration_ms: u64,
    pub target: HardwareTarget,
    pub actions: Vec<AtomicAction>,
}

#[derive(Clone, Debug, PartialEq)]
pub struct SubtitleTrack {
    pub id: i64,
    pub title: Option<String>,
    pub lang: Option<String>,
}

#[derive(Clone, Debug, PartialEq)]
pub struct AudioTrack {
    pub id: i64,
    pub title: Option<String>,
    pub lang: Option<String>,
}

/// The text of an optional string, empty when there is none.
pub open spec fn opt_text(o: Option<String>) -> Seq<char> {
    match o {
        Some(s) => s@,
        None => Seq::empty(),
    }
}

/// A whole number in decimal, with a leading `-` when it is negative.
pub open spec fn signed_decimal(n: int) -> Seq<char> {
    if n < 0 {
        seq!['-'] + decimal_text((-n) as nat)
    } else {
        decimal_text(n as nat)
    }
}

/// Label of a subtitle or audio track in the track menus: `Track <id>`, followed, in
/// parentheses and joined by ` - `, by the track's language and title that are not empty.
pub open spec fn track_label_spec(id: i64, lang: Seq<char>, title: Seq<char>) -> Seq<char> {
    let base = "Track "@ + signed_decimal(id as int);
    if lang.len() == 0 && title.len() == 0 {
        base
    } else if lang.len() == 0 {
        base + " ("@ + title + ")"@
    } else if title.len() == 0 {
        base + " ("@ + lang + ")"@
    } else {
        base + " ("@ + lang + " - "@ + title + ")"@
    }
}

/// The label of a subtitle or audio track (see `track_label_spec`).
pub fn track_label(id: i64, lang: &Option<String>, title: &Option<String>) -> (t: String)
    ensures
        t@ == track_label_spec(id, opt_text(*lang), opt_text(*title)),
{
    let mut t = String::from_str("Track ");
    if id < 0 {
        push_char(&mut t, '-');
    }
    let mag: u64 = if id < 0 {
        (0i128 - id as i128) as u64
    } else {
        id as u64
    };
    push_all(&mut t, &decimal_chars(mag));
    let ghost base = t@;
    assert(base =~= "Track "@ + signed_decimal(id as int));
    let has_lang = match lang {
        Some(s) => !s.as_str().is_empty(),
        None => false,
    };
    let has_title = match title {
        Some(s) => !s.as_str().is_empty(),
        None => false,
    };
    if has_lang || has_title {
        t.append(" (");
        if has_lang {
            match lang {
                Some(s) => t.append(s.as_str()),
                None => {},
            }
        }
        if has_lang && has_title {
            t.append(" - ");
        }
        if has_title {
            match title {
                Some(s) => t.append(s.as_str()),
                None => {},
            }
        }
        t.append(")");
    }
    proof {
        let l = opt_text(*lang);
        let ti = opt_text(*title);
        assert(has_lang == (l.len() > 0));
        assert(has_title == (ti.len() > 0));
        if has_lang && has_title {
            assert(t@ =~= base + " ("@ + l + " - "@ + ti + ")"@);
        } else if has_lang {
            assert(t@ =~= base + " ("@ + l + ")"@);
        } else if has_title {
            assert(t@ =~= base + " ("@ + ti + ")"@);
        }
    }
    t
}

/// One entry of the player's track list as the player reports it; a property that could
/// not be read is `None`.
#[derive(Clone, Debug)]
pub struct TrackListEntry {
    pub track_type: Option<String>,
    pub id: Option<i64>,
    pub title: Option<String>,
    pub lang: Option<String>,
}

/// An entry is a track of the given type (`sub`, `audio`) when its type reads as that
/// type and its id can be read.
pub open spec fn is_track_of_kind(e: TrackListEntry, kind: Seq<char>) -> bool {
    &&& e.track_type matches Some(t) && t@ == kind
    &&& e.id is Some
}

/// Id, title and language of each track of the given type, in list order.
pub open spec fn tracks_of_kind(entries: Seq<TrackListEntry>, kind: Seq<char>) -> Seq<
    (i64, Option<String>, Option<String>),
>
    decreases entries.len(),
{
    if entries.len() == 0 {
        Seq::empty()
    } else {
        let rest = tracks_of_kind(entries.drop_last(), kind);
        let e = entries.last();
        if is_track_of_kind(e, kind) {
            rest.push((e.id->0, e.title, e.lang))
        } else {
            rest
        }
    }
}

fn clone_text(o: &Option<String>) -> (r: Option<String>)
    ensures
        r == *o,
{
    match o {
        Some(s) => Some(s.clone()),
        None => None,
    }
}

fn select_tracks(entries: &Vec<TrackListEntry>, kind: &str) -> (r: Vec<(i64, Option<String>, Option<String>)>)
    ensures
        r@ == tracks_of_kind(entries@, kind@),
{
    let mut r: Vec<(i64, Option<String>, Option<String>)> = Vec::new();
    let mut i: usize = 0;
    assert(entries@.take(0) =~= Seq::<TrackListEntry>::empty());
    while i < entries.len()
        invariant
            i <= entries.len(),
            r@ == tracks_of_kind(entries@.take(i as int), kind@),
        decreases entries.len() - i,
    {
        let e = &entries[i];
        assert(entries@.take(i + 1).drop_last() =~= entries@.take(i as int));
        assert(entries@.take(i + 1).last() == *e);
        let kind_matches = match &e.track_type {
            Some(t) => crate::text::same_text(t.as_str(), kind),
            None => false,
        };
        if kind_matches {
            if let Some(id) = e.id {
                r.push((id, clone_text(&e.title), clone_text(&e.lang)));
            }
        }
        i = i + 1;
    }
    assert(entries@.take(i as int) =~= entries@);
    r
}

/// The subtitle tracks of a track list: the entries of type `sub` that have an id, in order.
pub fn subtitle_tracks_from(entries: &Vec<TrackListEntry>) -> (r: Vec<SubtitleTrack>)
    ensures
        r.len() == tracks_of_kind(entries@, "sub"@).len(),
        forall|i: int|
            0 <= i < r.len() ==> (#[trigger] r@[i].id, r@[i].title, r@[i].lang) == tracks_of_kind(
                entries@,
                "sub"@,
            )[i],
{
    let sel = select_tracks(entries, "sub");
    let mut r: Vec<SubtitleTrack> = Vec::new();
    let mut i: usize = 0;
    while i < sel.len()
        invariant
            i <= sel.len(),
            r.len() == i,
            forall|j: int| 0 <= j < i ==> (#[trigger] r@[j].id, r@[j].title, r@[j].lang) == sel@[j],
        decreases sel.len() - i,
    {
        let (id, title, lang) = &sel[i];
        r.push(SubtitleTrack { id: *id, title: clone_text(title), lang: clone_text(lang) });
        i = i + 1;
    }
    r
}

/// The audio tracks of a track list: the entries of type `audio` that have an id, in order.
pub fn audio_tracks_from(entries: &Vec<TrackListEntry>) -> (r: Vec<AudioTrack>)
    ensures
        r.len() == tracks_of_kind(entries@, "audio"@).len(),
        forall|i: int|
            0 <= i < r.len() ==> (#[trigger] r@[i].id, r@[i].title, r@[i].lang) == tracks_of_kind(
                entries@,
                "audio"@,
            )[i],
{
    let sel = select_tracks(entries, "audio");
    let mut r: Vec<AudioTrack> = Vec::new();
    let mut i: usize = 0;
    while i < sel.len()
        invariant
            i <= sel.len(),
            r.len() == i,
            forall|j: int| 0 <= j < i ==> (#[trigger] r@[j].id, r@[j].title, r@[j].lang) == sel@[j],
        decreases sel.len() - i,
    {
        let (id, title, lang) = &sel[i];
        r.push(AudioTrack { id: *id, title: clone_text(title), lang: clone_text(lang) });
        i = i + 1;
    }
    r
}

/// An offset scaled from an old to a new effect duration, rounded to the nearest
/// millisecond (halves up) and kept within `u64`; unchanged when the old duration is zero.
pub open spec fn scaled_offset(offset: u64, old_dur: u64, new_dur: u64) -> u64 {
    if old_dur == 0 {
        offset
    } else {
        let v = (offset * new_dur + old_dur / 2) / (old_dur as int);
        if v > u64::MAX {
            u64::MAX
        } else {
            v as u64
        }
    }
}

/// The actions of an effect stretched to a new duration: with two or more actions the last
/// one moves to the new end and the others keep their proportional place; a single action
/// keeps its proportional place.
pub open spec fn rescaled_actions(acts: Seq<AtomicAction>, old_dur: u64, new_dur: u64) -> Seq<AtomicAction> {
    Seq::new(
        acts.len(),
        |k: int|
            if acts.len() >= 2 && k == acts.len() - 1 {
                AtomicAction { offset_ms: new_dur, ..acts[k] }
            } else {
                AtomicAction { offset_ms: scaled_offset(acts[k].offset_ms, old_dur, new_dur), ..acts[k] }
            },
    )
}

fn scale_offset(offset: u64, old_dur: u64, new_dur: u64) -> (r: u64)
    ensures
        r == scaled_offset(offset, old_dur, new_dur),
{
    if old_dur == 0 {
        return offset;
    }
    assert(offset * new_dur <= 0xFFFF_FFFF_FFFF_FFFFint * 0xFFFF_FFFF_FFFF_FFFFint) by (nonlinear_arith)
        requires
            0 <= offset <= 0xFFFF_FFFF_FFFF_FFFFint,
            0 <= new_dur <= 0xFFFF_FFFF_FFFF_FFFFint,
    ;
    let prod: u128 = offset as u128 * new_dur as u128;
    let v: u128 = (prod + (old_dur / 2) as u128) / (old_dur as u128);
    if v > u64::MAX as u128 {
        u64::MAX
    } else {
        v as u64
    }
}

/// Changes an effect's duration while keeping its choreography: pulse patterns are scaled
/// proportionally and the final action moves to the new end.
pub fn update_effect_duration(effect: &mut Effect, new_dur: u64)
    ensures
        final(effect).duration_ms == new_dur,
        final(effect).actions@ == rescaled_actions(old(effect).actions@, old(effect).duration_ms, new_dur),
        final(effect).id == old(effect).id,
        final(effect).name == old(effect).name,
        final(effect).icon == old(effect).icon,
        final(effect).target == old(effect).target,
{
    let old_dur = effect.duration_ms;
    let n = effect.actions.len();
    let ghost acts = effect.actions@;
    let mut k: usize = 0;
    while k < n
        invariant
            k <= n,
            n == acts.len(),
            effect.duration_ms == old_dur,
            effect.actions@.len() == n,
            forall|j: int| 0 <= j < k ==> effect.actions@[j] == rescaled_actions(acts, old_dur, new_dur)[j],
            forall|j: int| k <= j < n ==> effect.actions@[j] == acts[j],
            effect.id == old(effect).id,
            effect.name == old(effect).name,
            effect.icon == old(effect).icon,
            effect.target == old(effect).target,
            acts == old(effect).actions@,
            old_dur == old(effect).duration_ms,
        decreases n - k,
    {
        let a = effect.actions[k];
        let new_offset = if n >= 2 && k == n - 1 {
            new_dur
        } else {
            scale_offset(a.offset_ms, old_dur, new_dur)
        };
        effect.actions.set(k, AtomicAction { relay_id: a.relay_id, state: a.state, offset_ms: new_offset });
        k = k + 1;
    }
    effect.duration_ms = new_dur;
    assert(effect.actions@ =~= rescaled_actions(acts, old_dur, new_dur));
}

proof fn lemma_scaled_offset_ordered(a: u64, b: u64, old_dur: u64, new_dur: u64)
    requires
        old_dur > 0,
        a <= b <= old_dur,
    ensures
        scaled_offset(a, old_dur, new_dur) <= scaled_offset(b, old_dur, new_dur) <= new_dur,
        a == 0 ==> scaled_offset(a, old_dur, new_dur) == 0,
        b == old_dur ==> scaled_offset(b, old_dur, new_dur) == new_dur,
{
    let d = old_dur as int;
    let n = new_dur as int;
    let h = d / 2;
    assert(a * n <= b * n <= d * n) by (nonlinear_arith)
        requires
            0 <= a <= b <= d,
            0 <= n,
    ;
    vstd::arithmetic::div_mod::lemma_div_is_ordered(a * n + h, b * n + h, d);
    vstd::arithmetic::div_mod::lemma_div_is_ordered(b * n + h, d * n + h, d);
    assert((d * n + h) / d == n) by (nonlinear_arith)
        requires
            d > 0,
            0 <= h < d,
            n >= 0,
    {
        vstd::arithmetic::div_mod::lemma_fundamental_div_mod_converse(d * n + h, d, n, h);
    }
    assert(h / d == 0) by (nonlinear_arith)
        requires
            d > 0,
            0 <= h < d,
    ;
}

/// Stretching an effect keeps its choreography. For actions in time order that lie within
/// the effect, every action keeps its relay and state, the actions stay in time order,
/// an action at the start that is not the last one stays at the start, and an action
/// at the old end (the last one, or the only one) lands on the new end.
pub proof fn lemma_rescaling_preserves_choreography(acts: Seq<AtomicAction>, old_dur: u64, new_dur: u64)
    requires
        old_dur > 0,
        forall|i: int, j: int| 0 <= i <= j < acts.len() ==> acts[i].offset_ms <= acts[j].offset_ms,
        forall|i: int| 0 <= i < acts.len() ==> acts[i].offset_ms <= old_dur,
    ensures
        rescaled_actions(acts, old_dur, new_dur).len() == acts.len(),
        forall|i: int|
            0 <= i < acts.len() ==> #[trigger] rescaled_actions(acts, old_dur, new_dur)[i].relay_id == acts[i].relay_id
                && rescaled_actions(acts, old_dur, new_dur)[i].state == acts[i].state,
        forall|i: int, j: int|
            0 <= i <= j < acts.len() ==> #[trigger] rescaled_actions(acts, old_dur, new_dur)[i].offset_ms
                <= #[trigger] rescaled_actions(acts, old_dur, new_dur)[j].offset_ms,
        forall|i: int|
            0 <= i < acts.len() && acts[i].offset_ms == 0 && !(acts.len() >= 2 && i == acts.len() - 1)
                ==> #[trigger] rescaled_actions(acts, old_dur, new_dur)[i].offset_ms == 0,
        acts.len() >= 1 && acts.last().offset_ms == old_dur ==> rescaled_actions(acts, old_dur, new_dur).last().offset_ms
            == new_dur,
{
    let r = rescaled_actions(acts, old_dur, new_dur);
    let n = acts.len() as int;
    assert forall|i: int, j: int| 0 <= i <= j < n implies #[trigger] r[i].offset_ms <= #[trigger] r[j].offset_ms by {
        if n >= 2 && j == n - 1 {
            lemma_scaled_offset_ordered(acts[i].offset_ms, old_dur, old_dur, new_dur);
        } else if !(n >= 2 && i == n - 1) {
            lemma_scaled_offset_ordered(acts[i].offset_ms, acts[j].offset_ms, old_dur, new_dur);
        }
    }
    assert forall|i: int|
        0 <= i < n && acts[i].offset_ms == 0 && !(n >= 2 && i == n - 1) implies #[trigger] r[i].offset_ms == 0 by {
        lemma_scaled_offset_ordered(0, old_dur, old_dur, new_dur);
    }
    if n >= 1 && acts.last().offset_ms == old_dur {
        lemma_scaled_offset_ordered(old_dur, old_dur, old_dur, new_dur);
    }
}

/// Where a dropped library effect goes, given the timeline row it was released on.
#[derive(Clone, Copy, Debug, PartialEq, Eq, Structural)]
pub enum DropDecision {
    /// Placed on the relay track it was dropped on.
    Place(u8),
    /// Dropped on neutral space and sent to the target's primary relay track.
    AutoRoute(u8),
    /// The relay track it was dropped on is locked.
    TrackLocked(u8),
    /// The relay track it was dropped on does not suit the effect's hardware target.
    Incompatible(u8),
    /// Dropped on neutral space, but the primary relay track is locked.
    PrimaryLocked(u8),
    /// Dropped on neutral space, and the target has no primary relay track.
    NoPrimaryTrack,
}

/// Drop rules: rows 2..=9 are relays 1..=8 (locked tracks and incompatible relays refuse
/// the effect); anything else (the media track headers, empty space, the ruler) routes the
/// effect to the primary relay of its hardware target unless that track is locked.
pub open spec fn drop_decision_spec(target: HardwareTarget, track_index: i32, track_locked: Seq<bool>) -> DropDecision {
    if 2 <= track_index <= 9 {
        let relay = (track_index - 1) as u8;
        if track_locked[relay as int] {
            DropDecision::TrackLocked(relay)
        } else if !compatible_spec(target, relay) {
            DropDecision::Incompatible(relay)
        } else {
            DropDecision::Place(relay)
        }
    } else {
        match primary_relay_spec(target) {
            Some(p) => if track_locked[p as int] {
                DropDecision::PrimaryLocked(p)
            } else {
                DropDecision::AutoRoute(p)
            },
            None => DropDecision::NoPrimaryTrack,
        }
    }
}

/// A drop never puts an effect where its hardware cannot go: whenever a drop places or
/// auto-routes an effect on relay `r`, `r` is one of the eight relays, suits the effect's
/// hardware target, and its track is not locked.
pub proof fn lemma_drop_respects_hardware(target: HardwareTarget, track_index: i32, track_locked: Seq<bool>)
    requires
        track_locked.len() == 9,
    ensures
        match drop_decision_spec(target, track_index, track_locked) {
            DropDecision::Place(r) => 1 <= r <= 8 && compatible_spec(target, r) && !track_locked[r as int],
            DropDecision::AutoRoute(r) => 1 <= r <= 8 && compatible_spec(target, r) && !track_locked[r as int],
            _ => true,
        },
{
}

/// Decides where an effect dropped on timeline row `track_index` goes.
pub fn decide_effect_drop(target: HardwareTarget, track_index: i32, track_locked: &[bool; 9]) -> (d: DropDecision)
    ensures
        d == drop_decision_spec(target, track_index, track_locked@),
{
    if track_index >= 2 && track_index <= 9 {
        let relay = (track_index - 1) as u8;
        if track_locked[relay as usize] {
            return DropDecision::TrackLocked(relay);
        }
        if !target.is_compatible_with_relay(relay) {
            return DropDecision::Incompatible(relay);
        }
        DropDecision::Place(relay)
    } else {
        match target.primary_relay_id() {
            Some(primary) => {
                if track_locked[primary as usize] {
                    DropDecision::PrimaryLocked(primary)
                } else {
                    DropDecision::AutoRoute(primary)
                }
            },
            None => DropDecision::NoPrimaryTrack,
        }
    }
}

/// The relay a template drives, judged by its first action (relay 1 when it has none).
pub open spec fn first_relay(e: Effect) -> u8 {
    if e.actions@.len() > 0 {
        e.actions@[0].relay_id
    } else {
        1u8
    }
}

/// A template that a dropped payload may reuse on `relay`.
pub open spec fn reusable_template(e: Effect, payload: EffectDragPayload, relay: u8) -> bool {
    &&& e.name@ == payload.name@
    &&& e.duration_ms == payload.duration_ms
    &&& e.target == payload.target
    &&& first_relay(e) == relay
}

/// The payload's actions moved onto `relay`, or a constant ON for the payload's duration
/// when it has none.
pub open spec fn payload_actions_on(payload: EffectDragPayload, relay: u8) -> Seq<AtomicAction> {
    if payload.actions@.len() > 0 {
        payload.actions@.map_values(|a: AtomicAction| AtomicAction { relay_id: relay, ..a })
    } else {
        seq![
            AtomicAction { relay_id: relay, state: true, offset_ms: 0 },
            AtomicAction { relay_id: relay, state: false, offset_ms: payload.duration_ms },
        ]
    }
}

/// `after` is `before` with a dropped payload placed on `relay` at `start`, as a new
/// top-most instance with id `id`: the first template with the payload's name, duration
/// and target that already drives `relay` is reused; otherwise a new template (with a fresh
/// id) whose actions are moved onto `relay` is added at the end.
pub open spec fn placed_on<A>(
    before: Timeline<A>,
    after: Timeline<A>,
    payload: EffectDragPayload,
    relay: u8,
    start: u64,
    id: u128,
) -> bool {
    &&& after.analog_tracks == before.analog_tracks
    &&& after.instances@.len() == before.instances@.len() + 1
    &&& after.instances@.drop_last() == before.instances@
    &&& after.instances@.last().id == id
    &&& after.instances@.last().start_time_ms == start
    &&& ({
        let tmpl_id = after.instances@.last().effect_id;
        if exists|j: int| 0 <= j < before.templates@.len() && reusable_template(before.templates@[j], payload, relay) {
            &&& after.templates@ == before.templates@
            &&& exists|j: int|
                0 <= j < before.templates@.len() && reusable_template(before.templates@[j], payload, relay)
                    && (forall|i: int| 0 <= i < j ==> !reusable_template(before.templates@[i], payload, relay))
                    && before.templates@[j].id == tmpl_id
        } else {
            &&& after.templates@.drop_last() == before.templates@
            &&& after.templates@.len() == before.templates@.len() + 1
            &&& after.templates@.last().id == tmpl_id
            &&& after.templates@.last().name == payload.name
            &&& after.templates@.last().icon == payload.icon
            &&& after.templates@.last().duration_ms == payload.duration_ms
            &&& after.templates@.last().target == payload.target
            &&& after.templates@.last().actions@ == payload_actions_on(payload, relay)
        }
    })
}

/// A placed clip lasts as long as the dropped library effect: whether a template is reused
/// or created, the new instance plays a template carrying the payload's name, duration and
/// hardware target, driving `relay` first.
pub proof fn lemma_placed_clip_matches_payload<A>(
    before: Timeline<A>,
    after: Timeline<A>,
    payload: EffectDragPayload,
    relay: u8,
    start: u64,
    id: u128,
)
    requires
        placed_on(before, after, payload, relay, start, id),
    ensures
        exists|k: int|
            0 <= k < after.templates@.len() && #[trigger] after.templates@[k].id == after.instances@.last().effect_id
                && after.templates@[k].duration_ms == payload.duration_ms && after.templates@[k].name@
                == payload.name@ && after.templates@[k].target == payload.target,
{
    let tmpl_id = after.instances@.last().effect_id;
    if exists|j: int| 0 <= j < before.templates@.len() && reusable_template(before.templates@[j], payload, relay) {
        let j = choose|j: int|
            0 <= j < before.templates@.len() && reusable_template(before.templates@[j], payload, relay)
                && (forall|i: int| 0 <= i < j ==> !reusable_template(before.templates@[i], payload, relay))
                && before.templates@[j].id == tmpl_id;
        assert(after.templates@[j] == before.templates@[j]);
    } else {
        let k = after.templates@.len() - 1;
        assert(after.templates@[k] == after.templates@.last());
    }
}

/// Index of the first reusable template for a payload on a relay.
fn find_reusable_template(templates: &Vec<Effect>, payload: &EffectDragPayload, relay: u8) -> (r: Option<usize>)
    ensures
        match r {
            Some(i) => i < templates@.len() && reusable_template(templates@[i as int], *payload, relay)
                && forall|j: int| 0 <= j < i ==> !reusable_template(templates@[j], *payload, relay),
            None => forall|j: int| 0 <= j < templates@.len() ==> !reusable_template(templates@[j], *payload, relay),
        },
{
    let mut k: usize = 0;
    while k < templates.len()
        invariant
            k <= templates.len(),
            forall|j: int| 0 <= j < k ==> !reusable_template(templates@[j], *payload, relay),
        decreases templates.len() - k,
    {
        let t = &templates[k];
        let first = if t.actions.len() > 0 {
            t.actions[0].relay_id
        } else {
            1
        };
        if t.name == payload.name && t.duration_ms == payload.duration_ms && t.target == payload.target
            && first == relay {
            return Some(k);
        }
        k = k + 1;
    }
    None
}

impl<A> Timeline<A> {
    /// Places a dropped library effect on `relay` at `start_time_ms`: it reuses the first
    /// template with the payload's name, duration and target that already drives `relay`,
    /// or adds a new template (with a fresh id) whose actions are moved onto `relay`.
    /// Returns the id of the new instance, which is added on top of all others.
    pub fn place_effect(&mut self, payload: &EffectDragPayload, relay: u8, start_time_ms: u64) -> (instance_id: u128)
        ensures
            placed_on(*old(self), *final(self), *payload, relay, start_time_ms, instance_id),
    {
        let template_id = new_uuid();
        let instance_id = new_uuid();
        self.place_effect_with_ids(payload, relay, start_time_ms, template_id, instance_id);
        instance_id
    }

    /// `place_effect` with the ids given: a new template (when one is needed) carries
    /// `template_id` and the instance carries `instance_id`. When `template_id` is not the id
    /// of a template yet, the placed instance's template is found by its id: the reused
    /// template's id is found, and a new template is the one found by `template_id`.
    pub fn place_effect_with_ids(
        &mut self,
        payload: &EffectDragPayload,
        relay: u8,
        start_time_ms: u64,
        template_id: u128,
        instance_id: u128,
    )
        ensures
            placed_on(*old(self), *final(self), *payload, relay, start_time_ms, instance_id),
            final(self).templates@.len() > old(self).templates@.len() ==> final(self).templates@.last().id
                == template_id,
            (forall|j: int| 0 <= j < old(self).templates@.len() ==> old(self).templates@[j].id != template_id)
                ==> template_index(final(self).templates@, final(self).instances@.last().effect_id) is Some,
            (forall|j: int| 0 <= j < old(self).templates@.len() ==> old(self).templates@[j].id != template_id)
                && final(self).templates@.len() > old(self).templates@.len() ==> template_index(
                final(self).templates@,
                template_id,
            ) == Some(old(self).templates@.len() as int),
    {
        let new_template_id = template_id;
        let template_id = match find_reusable_template(&self.templates, payload, relay) {
            Some(k) => self.templates[k].id,
            None => {
                let actions = if payload.actions.len() > 0 {
                    let mut acts: Vec<AtomicAction> = Vec::new();
                    let mut i: usize = 0;
                    while i < payload.actions.len()
                        invariant
                            i <= payload.actions.len(),
                            acts@ == payload.actions@.take(i as int).map_values(
                                |a: AtomicAction| AtomicAction { relay_id: relay, ..a },
                            ),
                        decreases payload.actions.len() - i,
                    {
                        let a = payload.actions[i];
                        acts.push(AtomicAction { relay_id: relay, state: a.state, offset_ms: a.offset_ms });
                        i = i + 1;
                        assert(acts@ =~= payload.actions@.take(i as int).map_values(
                            |a: AtomicAction| AtomicAction { relay_id: relay, ..a },
                        ));
                    }
                    assert(payload.actions@.take(i as int) =~= payload.actions@);
                    acts
                } else {
                    generate_constant(relay, true, payload.duration_ms)
                };
                let new_effect = Effect::with_id(
                    new_template_id,
                    payload.name.clone(),
                    payload.icon.clone(),
                    payload.duration_ms,
                    payload.target,
                    actions,
                );
                let id = new_effect.id;
                self.templates.push(new_effect);
                id
            },
        };
        let ghost mid = self.templates@;
        let new_instance = EffectInstance::with_id(instance_id, template_id, start_time_ms);
        self.instances.push(new_instance);
        assert(self.instances@.drop_last() =~= old(self).instances@);
        assert(mid == old(self).templates@ || mid.drop_last() =~= old(self).templates@);
        proof {
            lemma_template_index(self.templates@, template_id);
            if mid.len() > old(self).templates@.len() {
                if forall|j: int| 0 <= j < old(self).templates@.len() ==> old(self).templates@[j].id != new_template_id {
                    match template_index(self.templates@, template_id) {
                        Some(x) => {
                            if x < old(self).templates@.len() {
                                assert(self.templates@[x] == old(self).templates@[x]);
                            }
                        },
                        None => {
                            assert(self.templates@[old(self).templates@.len() as int].id == template_id);
                        },
                    }
                }
            } else {
                let j = choose|j: int|
                    0 <= j < old(self).templates@.len() && reusable_template(old(self).templates@[j], *payload, relay)
                        && (forall|i: int| 0 <= i < j ==> !reusable_template(old(self).templates@[i], *payload, relay))
                        && old(self).templates@[j].id == template_id;
                assert(self.templates@[j].id == template_id);
            }
        }
    }
}


/// Position of the first instance with the given id.
pub open spec fn instance_index(insts: Seq<EffectInstance>, id: u128) -> Option<int>
    decreases insts.len(),
{
    if insts.len() == 0 {
        None
    } else if insts[0].id == id {
        Some(0)
    } else {
        match instance_index(insts.drop_first(), id) {
            Some(i) => Some(i + 1),
            None => None,
        }
    }
}

pub proof fn lemma_instance_index(insts: Seq<EffectInstance>, id: u128)
    ensures
        match instance_index(insts, id) {
            Some(i) => 0 <= i < insts.len() && insts[i].id == id && forall|j: int|
                0 <= j < i ==> insts[j].id != id,
            None => forall|j: int| 0 <= j < insts.len() ==> insts[j].id != id,
        },
    decreases insts.len(),
{
    if insts.len() > 0 && insts[0].id != id {
        lemma_instance_index(insts.drop_first(), id);
        assert forall|j: int| 1 <= j < insts.len() implies insts[j] == insts.drop_first()[j - 1] by {}
    }
}

/// Position of the first instance with the given id.
pub fn find_instance_index(insts: &Vec<EffectInstance>, id: u128) -> (r: Option<usize>)
    ensures
        match r {
            Some(i) => i < insts@.len() && insts@[i as int].id == id && instance_index(insts@, id) == Some(i as int),
            None => instance_index(insts@, id) is None,
        },
{
    proof {
        lemma_instance_index(insts@, id);
    }
    let mut i: usize = 0;
    while i < insts.len()
        invariant
            i <= insts.len(),
            forall|j: int| 0 <= j < i ==> insts@[j].id != id,
        decreases insts.len() - i,
    {
        if insts[i].id == id {
            proof {
                lemma_instance_index(insts@, id);
                match instance_index(insts@, id) {
                    Some(x) => {
                        assert(!(x < i as int));
                        assert(!(x > i as int));
                    },
                    None => {
                        assert(insts@[i as int].id == id);
                    },
                }
            }
            return Some(i);
        }
        i = i + 1;
    }
    proof {
        match instance_index(insts@, id) {
            Some(x) => {
                assert(insts@[x].id == id);
            },
            None => {},
        }
    }
    None
}

/// Number of instances that use the template `effect_id`.
pub open spec fn count_uses(insts: Seq<EffectInstance>, effect_id: u128) -> nat
    decreases insts.len(),
{
    if insts.len() == 0 {
        0
    } else {
        count_uses(insts.drop_last(), effect_id) + if insts.last().effect_id == effect_id {
            1nat
        } else {
            0nat
        }
    }
}

proof fn lemma_count_uses_update(insts: Seq<EffectInstance>, i: int, new_id: u128, old_id: u128)
    requires
        0 <= i < insts.len(),
        insts[i].effect_id == old_id,
        old_id != new_id,
        forall|j: int| 0 <= j < insts.len() ==> insts[j].effect_id != new_id,
    ensures
        count_uses(insts.update(i, EffectInstance { effect_id: new_id, ..insts[i] }), new_id) == 1,
    decreases insts.len(),
{
    let u = insts.update(i, EffectInstance { effect_id: new_id, ..insts[i] });
    if i == insts.len() - 1 {
        assert(u.drop_last() =~= insts.drop_last());
        lemma_count_zero(insts.drop_last(), new_id);
    } else {
        assert(u.drop_last() =~= insts.drop_last().update(i, EffectInstance { effect_id: new_id, ..insts[i] }));
        lemma_count_uses_update(insts.drop_last(), i, new_id, old_id);
    }
}

proof fn lemma_count_zero(insts: Seq<EffectInstance>, id: u128)
    requires
        forall|j: int| 0 <= j < insts.len() ==> insts[j].effect_id != id,
    ensures
        count_uses(insts, id) == 0,
    decreases insts.len(),
{
    if insts.len() > 0 {
        lemma_count_zero(insts.drop_last(), id);
    }
}

/// Two templates that agree in every field.
pub open spec fn same_template(a: Effect, b: Effect) -> bool {
    &&& a.id == b.id
    &&& a.name == b.name
    &&& a.icon == b.icon
    &&& a.duration_ms == b.duration_ms
    &&& a.target == b.target
    &&& a.actions@ == b.actions@
}

/// Two template lists that agree entry by entry.
pub open spec fn same_templates(a: Seq<Effect>, b: Seq<Effect>) -> bool {
    a.len() == b.len() && forall|i: int| 0 <= i < a.len() ==> same_template(a[i], b[i])
}

/// `after` is `before` with every action of the first template with id `effect_id`
/// moved onto `relay`, keeping the pattern (a template without actions gets a constant ON
/// for its duration); nothing else changes, and nothing at all when no template has the id.
pub open spec fn relocated_to<A>(before: Timeline<A>, after: Timeline<A>, effect_id: u128, relay: u8) -> bool {
    &&& after.analog_tracks == before.analog_tracks
    &&& after.instances@ == before.instances@
    &&& after.templates@.len() == before.templates@.len()
    &&& match template_index(before.templates@, effect_id) {
        None => after.templates@ == before.templates@,
        Some(k) => {
            let t = before.templates@[k];
            let c = after.templates@[k];
            &&& forall|j: int| 0 <= j < before.templates@.len() && j != k ==> after.templates@[j] == before.templates@[j]
            &&& c.id == t.id && c.name == t.name && c.icon == t.icon && c.duration_ms == t.duration_ms
                && c.target == t.target
            &&& c.actions@ == if t.actions@.len() == 0 {
                seq![
                    AtomicAction { relay_id: relay, state: true, offset_ms: 0 },
                    AtomicAction { relay_id: relay, state: false, offset_ms: t.duration_ms },
                ]
            } else {
                t.actions@.map_values(|a: AtomicAction| AtomicAction { relay_id: relay, ..a })
            }
        },
    }
}

/// The timeline after giving instance `instance_id` its own template (see
/// `Timeline::isolate_template_for_instance`); `r` is the template id the instance uses
/// afterwards.
pub open spec fn isolated<A>(before: Timeline<A>, after: Timeline<A>, instance_id: u128, r: Option<u128>) -> bool {
    &&& after.analog_tracks == before.analog_tracks
    &&& match instance_index(before.instances@, instance_id) {
        None => r is None && after.instances@ == before.instances@
            && after.templates@ == before.templates@,
        Some(i) => {
            let eid = before.instances@[i].effect_id;
            if count_uses(before.instances@, eid) <= 1 {
                r == Some(eid) && after.instances@ == before.instances@
                    && after.templates@ == before.templates@
            } else {
                match template_index(before.templates@, eid) {
                    None => r is None && after.instances@ == before.instances@
                        && after.templates@ == before.templates@,
                    Some(k) => {
                        let nid = r.unwrap();
                        let t = before.templates@[k];
                        let c = after.templates@.last();
                        &&& r is Some
                        &&& after.instances@ == before.instances@.update(
                            i,
                            EffectInstance { effect_id: nid, ..before.instances@[i] },
                        )
                        &&& after.templates@.drop_last() == before.templates@
                        &&& after.templates@.len() == before.templates@.len() + 1
                        &&& c.id == nid && c.name == t.name && c.icon == t.icon
                            && c.duration_ms == t.duration_ms && c.target == t.target
                            && c.actions@ == t.actions@
                        &&& (forall|j: int| 0 <= j < before.templates@.len() ==> before.templates@[j].id != nid)
                            ==> template_index(after.templates@, nid) == Some(before.templates@.len() as int)
                        &&& (forall|j: int| 0 <= j < before.instances@.len() ==> before.instances@[j].effect_id != nid)
                            ==> count_uses(after.instances@, nid) == 1
                    },
                }
            }
        },
    }
}

impl<A> Timeline<A> {
    /// Gives the instance its own template when it shares one: the template is copied under
    /// a fresh random id, appended, and the instance is moved onto the copy. Returns the
    /// template id the instance uses afterwards; `None` when there is no such instance, or
    /// when its shared template is missing.
    pub fn isolate_template_for_instance(&mut self, instance_id: u128) -> (r: Option<u128>)
        ensures
            isolated(*old(self), *final(self), instance_id, r),
    {
        let new_id = new_uuid();
        self.isolate_template_with_id(instance_id, new_id)
    }

    /// `isolate_template_for_instance` with the id of the copy given: when a copy is made it
    /// carries `new_id`.
    pub fn isolate_template_with_id(&mut self, instance_id: u128, new_id: u128) -> (r: Option<u128>)
        ensures
            isolated(*old(self), *final(self), instance_id, r),
            final(self).templates@.len() > old(self).templates@.len() ==> r == Some(new_id),
    {
        let mut i: usize = 0;
        while i < self.instances.len() && self.instances[i].id != instance_id
            invariant
                i <= self.instances.len(),
                forall|j: int| 0 <= j < i ==> self.instances@[j].id != instance_id,
            decreases self.instances.len() - i,
        {
            i = i + 1;
        }
        proof {
            lemma_instance_index(self.instances@, instance_id);
        }
        if i >= self.instances.len() {
            proof {
                match instance_index(self.instances@, instance_id) {
                    Some(x) => {
                        assert(self.instances@[x].id == instance_id);
                    },
                    None => {},
                }
            }
            return None;
        }
        proof {
            match instance_index(self.instances@, instance_id) {
                Some(x) => {
                    assert(!(x < i as int));
                    assert(!(x > i as int));
                },
                None => {
                    assert(self.instances@[i as int].id == instance_id);
                },
            }
        }
        let effect_id = self.instances[i].effect_id;
        let mut share_count: usize = 0;
        let mut j: usize = 0;
        while j < self.instances.len()
            invariant
                j <= self.instances.len(),
                share_count == count_uses(self.instances@.take(j as int), effect_id),
                share_count <= j,
            decreases self.instances.len() - j,
        {
            assert(self.instances@.take(j + 1).drop_last() =~= self.instances@.take(j as int));
            if self.instances[j].effect_id == effect_id {
                share_count = share_count + 1;
            }
            j = j + 1;
        }
        assert(self.instances@.take(j as int) =~= self.instances@);
        if share_count <= 1 {
            return Some(effect_id);
        }
        let k = match find_template_index(&self.templates, effect_id) {
            Some(k) => k,
            None => {
                return None;
            },
        };
        proof {
            lemma_template_index(self.templates@, effect_id);
        }
        let ghost old_templates = self.templates@;
        let ghost old_instances = self.instances@;
        let copy = self.templates[k].copy_with_id(new_id);
        self.templates.push(copy);
        let inst = self.instances[i];
        self.instances.set(i, EffectInstance { id: inst.id, effect_id: new_id, start_time_ms: inst.start_time_ms });
        assert(self.templates@.drop_last() =~= old_templates);
        proof {
            if forall|q: int| 0 <= q < old_templates.len() ==> old_templates[q].id != new_id {
                lemma_template_index(self.templates@, new_id);
                match template_index(self.templates@, new_id) {
                    Some(x) => {
                        if x < old_templates.len() {
                            assert(self.templates@[x] == old_templates[x]);
                        }
                    },
                    None => {
                        assert(self.templates@[old_templates.len() as int].id == new_id);
                    },
                }
            }
            if forall|q: int| 0 <= q < old_instances.len() ==> old_instances[q].effect_id != new_id {
                lemma_count_uses_update(old_instances, i as int, new_id, effect_id);
            }
        }
        Some(new_id)
    }

    /// The primary relay that a template would be moved to by a relocation: the primary
    /// relay of the first template with this id, if it has one.
    pub fn relocation_target(&self, effect_id: u128) -> (r: Option<u8>)
        ensures
            r == match template_index(self.templates@, effect_id) {
                None => None,
                Some(k) => primary_relay_spec(self.templates@[k].target),
            },
    {
        proof {
            lemma_template_index(self.templates@, effect_id);
        }
        match find_template_index(&self.templates, effect_id) {
            Some(k) => self.templates[k].target.primary_relay_id(),
            None => None,
        }
    }

    /// Moves every action of the first template with this id onto `relay`, keeping the
    /// pattern; a template without actions gets a constant ON for its duration.
    pub fn relocate_template(&mut self, effect_id: u128, relay: u8)
        ensures
            relocated_to(*old(self), *final(self), effect_id, relay),
    {
        let k = match find_template_index(&self.templates, effect_id) {
            Some(k) => k,
            None => {
                return;
            },
        };
        proof {
            lemma_template_index(self.templates@, effect_id);
        }
        let t = &self.templates[k];
        let new_actions = if t.actions.len() == 0 {
            generate_constant(relay, true, t.duration_ms)
        } else {
            let mut acts: Vec<AtomicAction> = Vec::new();
            let mut j: usize = 0;
            while j < t.actions.len()
                invariant
                    j <= t.actions.len(),
                    acts@ == t.actions@.take(j as int).map_values(
                        |a: AtomicAction| AtomicAction { relay_id: relay, ..a },
                    ),
                decreases t.actions.len() - j,
            {
                let a = t.actions[j];
                acts.push(AtomicAction { relay_id: relay, state: a.state, offset_ms: a.offset_ms });
                j = j + 1;
                assert(acts@ =~= t.actions@.take(j as int).map_values(
                    |a: AtomicAction| AtomicAction { relay_id: relay, ..a },
                ));
            }
            assert(t.actions@.take(j as int) =~= t.actions@);
            acts
        };
        let e = Effect {
            id: t.id,
            name: t.name.clone(),
            icon: t.icon.clone(),
            duration_ms: t.duration_ms,
            target: t.target,
            actions: new_actions,
        };
        self.templates.set(k, e);
    }

    /// Puts back the instances, templates and analog tracks of a snapshot.
    pub fn restore_timeline_snapshot(&mut self, snapshot: TimelineSnapshot<A>)
        ensures
            final(self).instances == snapshot.instances,
            final(self).templates == snapshot.templates,
            final(self).analog_tracks == snapshot.analog_tracks,
    {
        self.instances = snapshot.instances;
        self.templates = snapshot.templates;
        self.analog_tracks = snapshot.analog_tracks;
    }
}

impl<A: Clone> Timeline<A> {
    /// Copies the user-editable state of the timeline for the undo history.
    pub fn snapshot_timeline(&self) -> (s: TimelineSnapshot<A>)
        ensures
            s.instances@ == self.instances@,
            same_templates(s.templates@, self.templates@),
            s.analog_tracks@.len() == self.analog_tracks@.len(),
            forall|i: int| 0 <= i < self.analog_tracks@.len() ==> cloned::<A>(self.analog_tracks@[i], s.analog_tracks@[i]),
    {
        let mut instances: Vec<EffectInstance> = Vec::new();
        let mut i: usize = 0;
        while i < self.instances.len()
            invariant
                i <= self.instances.len(),
                instances@ == self.instances@.take(i as int),
            decreases self.instances.len() - i,
        {
            instances.push(self.instances[i]);
            i = i + 1;
            assert(instances@ =~= self.instances@.take(i as int));
        }
        assert(self.instances@.take(i as int) =~= self.instances@);
        let mut templates: Vec<Effect> = Vec::new();
        let mut j: usize = 0;
        while j < self.templates.len()
            invariant
                j <= self.templates.len(),
                templates@.len() == j,
                forall|q: int| 0 <= q < j ==> same_template(templates@[q], self.templates@[q]),
            decreases self.templates.len() - j,
        {
            let t = self.templates[j].copy_with_id(self.templates[j].id);
            templates.push(t);
            j = j + 1;
        }
        TimelineSnapshot { instances, analog_tracks: self.analog_tracks.clone(), templates }
    }
}

/// The recent-media list after opening `path`: the path moves to the front, earlier
/// entries naming the same path (see `same_path`) are dropped, and at most ten entries are kept.
pub open spec fn recent_after_add(list: Seq<String>, path: String) -> Seq<String> {
    let full = seq![path] + list.filter(|p: String| !same_path(p@, path@));
    if full.len() > 10 {
        full.take(10)
    } else {
        full
    }
}

/// Records an opened file or URL at the front of the recent-media list.
pub fn add_recent_media(recent: &mut Vec<String>, path: String)
    ensures
        final(recent)@ == recent_after_add(old(recent)@, path),
{
    let ghost pred = |p: String| !same_path(p@, path@);
    let mut kept: Vec<String> = Vec::new();
    let mut i: usize = 0;
    while i < recent.len()
        invariant
            i <= recent.len(),
            kept@ == recent@.take(i as int).filter(pred),
            pred == (|p: String| !same_path(p@, path@)),
        decreases recent.len() - i,
    {
        proof {
            reveal(Seq::filter);
            assert(recent@.take(i + 1).drop_last() =~= recent@.take(i as int));
            assert(recent@.take(i + 1).last() == recent@[i as int]);
        }
        if !is_same_path(recent[i].as_str(), path.as_str()) {
            kept.push(recent[i].clone());
        }
        i = i + 1;
    }
    assert(recent@.take(i as int) =~= recent@);
    let mut result: Vec<String> = Vec::new();
    result.push(path);
    let mut j: usize = 0;
    while j < kept.len()
        invariant
            j <= kept.len(),
            result@ == seq![path] + kept@.take(j as int),
        decreases kept.len() - j,
    {
        result.push(kept[j].clone());
        j = j + 1;
        assert(result@ =~= seq![path] + kept@.take(j as int));
    }
    assert(kept@.take(j as int) =~= kept@);
    if result.len() > 10 {
        result.truncate(10);
    }
    *recent = result;
}

/// The two actions of a relay switched ON at the start and OFF after `dur` milliseconds.
pub open spec fn constant_on(relay: u8, dur: u64) -> Seq<AtomicAction> {
    seq![
        AtomicAction { relay_id: relay, state: true, offset_ms: 0 },
        AtomicAction { relay_id: relay, state: false, offset_ms: dur },
    ]
}

impl<A> Timeline<A> {
    /// A macro key for `relay` was pressed at `start_ms`: a new template "Recorded Relay N"
    /// holding the relay ON for the shortest span (100 ms) is added, with a new instance of
    /// it on top at `start_ms`. Returns the instance's id.
    pub fn start_relay_recording(&mut self, relay: u8, start_ms: u64) -> (instance_id: u128)
        ensures
            final(self).analog_tracks == old(self).analog_tracks,
            final(self).templates@.drop_last() == old(self).templates@,
            final(self).templates@.len() == old(self).templates@.len() + 1,
            final(self).templates@.last().name@ == "Recorded Relay "@ + decimal_text(relay as nat),
            final(self).templates@.last().icon@ == "🔴"@,
            final(self).templates@.last().duration_ms == 100,
            final(self).templates@.last().target == HardwareTarget::Any,
            final(self).templates@.last().actions@ == constant_on(relay, 100),
            final(self).instances@.drop_last() == old(self).instances@,
            final(self).instances@.len() == old(self).instances@.len() + 1,
            final(self).instances@.last().id == instance_id,
            final(self).instances@.last().effect_id == final(self).templates@.last().id,
            final(self).instances@.last().start_time_ms == start_ms,
    {
        let template_id = new_uuid();
        let instance_id = new_uuid();
        self.start_relay_recording_with_ids(relay, start_ms, template_id, instance_id);
        instance_id
    }

    /// `start_relay_recording` with the ids of the new template and instance given.
    pub fn start_relay_recording_with_ids(&mut self, relay: u8, start_ms: u64, template_id: u128, instance_id: u128)
        ensures
            final(self).analog_tracks == old(self).analog_tracks,
            final(self).templates@.drop_last() == old(self).templates@,
            final(self).templates@.len() == old(self).templates@.len() + 1,
            final(self).templates@.last().name@ == "Recorded Relay "@ + decimal_text(relay as nat),
            final(self).templates@.last().icon@ == "🔴"@,
            final(self).templates@.last().duration_ms == 100,
            final(self).templates@.last().target == HardwareTarget::Any,
            final(self).templates@.last().actions@ == constant_on(relay, 100),
            final(self).instances@.drop_last() == old(self).instances@,
            final(self).instances@.len() == old(self).instances@.len() + 1,
            final(self).instances@.last().id == instance_id,
            final(self).instances@.last().effect_id == final(self).templates@.last().id,
            final(self).templates@.last().id == template_id,
            final(self).instances@.last().start_time_ms == start_ms,
    {
        let mut name = String::from_str("Recorded Relay ");
        push_decimal(&mut name, relay);
        let template = Effect::with_id(
            template_id,
            name,
            String::from_str("🔴"),
            100,
            HardwareTarget::Any,
            generate_constant(relay, true, 100),
        );
        self.templates.push(template);
        let instance = EffectInstance::with_id(instance_id, template_id, start_ms);
        self.instances.push(instance);
        assert(self.templates@.drop_last() =~= old(self).templates@);
        assert(self.instances@.drop_last() =~= old(self).instances@);
    }

    /// The macro key for `relay` was released `elapsed_ms` after it was pressed: the
    /// template of the recorded instance gets that duration (at least 100 ms) and holds the
    /// relay ON for all of it. Nothing changes when the instance or its template is gone.
    pub fn finish_relay_recording(&mut self, instance_id: u128, relay: u8, elapsed_ms: u64)
        ensures
            final(self).instances == old(self).instances,
            final(self).analog_tracks == old(self).analog_tracks,
            final(self).templates@.len() == old(self).templates@.len(),
            match instance_index(old(self).instances@, instance_id) {
                None => final(self).templates@ == old(self).templates@,
                Some(i) => match template_index(old(self).templates@, old(self).instances@[i].effect_id) {
                    None => final(self).templates@ == old(self).templates@,
                    Some(k) => {
                        let t = old(self).templates@[k];
                        let c = final(self).templates@[k];
                        let dur = if elapsed_ms < 100 { 100 } else { elapsed_ms };
                        &&& c.id == t.id && c.name == t.name && c.icon == t.icon && c.target == t.target
                        &&& c.duration_ms == dur
                        &&& c.actions@ == constant_on(relay, dur)
                        &&& forall|j: int| 0 <= j < old(self).templates@.len() && j != k ==> final(self).templates@[j] == old(self).templates@[j]
                    },
                },
            },
    {
        let i = match find_instance_index(&self.instances, instance_id) {
            Some(i) => i,
            None => {
                return;
            },
        };
        let effect_id = self.instances[i].effect_id;
        proof {
            lemma_template_index(self.templates@, effect_id);
        }
        let k = match find_template_index(&self.templates, effect_id) {
            Some(k) => k,
            None => {
                return;
            },
        };
        let duration: u64 = if elapsed_ms < 100 { 100 } else { elapsed_ms };
        let t = &self.templates[k];
        let e = Effect {
            id: t.id,
            name: t.name.clone(),
            icon: t.icon.clone(),
            duration_ms: duration,
            target: t.target,
            actions: generate_constant(relay, true, duration),
        };
        self.templates.set(k, e);
    }
}

/// No two entries of the list name the same path.
pub open spec fn distinct_paths(s: Seq<String>) -> bool {
    forall|i: int, j: int| 0 <= i < j < s.len() ==> !same_path((#[trigger] s[i])@, (#[trigger] s[j])@)
}

proof fn lemma_filter_keeps_distinct(s: Seq<String>, path: String, pred: spec_fn(String) -> bool)
    requires
        distinct_paths(s),
        forall|p: String| #[trigger] pred(p) == !same_path(p@, path@),
    ensures
        distinct_paths(s.filter(pred)),
        forall|k: int| 0 <= k < s.filter(pred).len() ==> !same_path((#[trigger] s.filter(pred)[k])@, path@)
            && s.contains(s.filter(pred)[k]),
    decreases s.len(),
{
    reveal(Seq::filter);
    if s.len() > 0 {
        let t = s.drop_last();
        assert(distinct_paths(t)) by {
            assert forall|i: int, j: int| 0 <= i < j < t.len() implies !same_path((#[trigger] t[i])@, (#[trigger] t[j])@) by {
                assert(t[i] == s[i] && t[j] == s[j]);
            }
        }
        lemma_filter_keeps_distinct(t, path, pred);
        let f = t.filter(pred);
        assert forall|k: int| 0 <= k < f.len() implies s.contains(#[trigger] f[k]) by {
            let q = choose|q: int| 0 <= q < t.len() && t[q] == f[k];
            assert(s[q] == f[k]);
        }
        if pred(s.last()) {
            let g = f.push(s.last());
            assert forall|i: int, j: int| 0 <= i < j < g.len() implies !same_path((#[trigger] g[i])@, (#[trigger] g[j])@) by {
                if j == f.len() {
                    let q = choose|q: int| 0 <= q < t.len() && t[q] == f[i];
                    assert(s[q] == g[i]);
                    assert(s[s.len() - 1] == g[j]);
                } else {
                    assert(g[i] == f[i] && g[j] == f[j]);
                }
            }
            assert forall|k: int| 0 <= k < g.len() implies !same_path((#[trigger] g[k])@, path@) && s.contains(g[k]) by {
                if k < f.len() {
                    assert(g[k] == f[k]);
                } else {
                    assert(g[k] == s[s.len() - 1]);
                }
            }
        }
    }
}

/// The recent-media list never grows beyond ten entries, starts with the path just
/// opened, and (when it started without repeats) lists no path twice.
pub proof fn lemma_recent_media_bounded(list: Seq<String>, path: String)
    requires
        distinct_paths(list),
    ensures
        recent_after_add(list, path).len() <= 10,
        recent_after_add(list, path)[0] == path,
        distinct_paths(recent_after_add(list, path)),
{
    let pred = |p: String| !same_path(p@, path@);
    let f = list.filter(pred);
    lemma_filter_keeps_distinct(list, path, pred);
    let full = seq![path] + f;
    assert forall|i: int, j: int| 0 <= i < j < full.len() implies !same_path((#[trigger] full[i])@, (#[trigger] full[j])@) by {
        if i == 0 {
            assert(full[j] == f[j - 1]);
        } else {
            assert(full[i] == f[i - 1] && full[j] == f[j - 1]);
        }
    }
}

} // verus!
