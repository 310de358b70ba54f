use vstd::prelude::*;
use vstd::string::*;
use crate::app::{
    DropDecision, EffectDragPayload, decide_effect_drop, drop_decision_spec, placed_on,
    relocated_to, same_templates,
};
use crate::four_d::history::{TimelineSnapshot, UndoStack, pushed_with_cap};
use crate::four_d::models::{
    HardwareTarget, Timeline, display_name_spec, primary_relay_spec, template_index,
    lemma_template_index,
};
use crate::text::{decimal_chars, decimal_text, push_char, push_decimal};

verus! {

/// The dockable panels of the main window.
#[derive(Debug, Clone, Copy, PartialEq, Eq, Structural)]
pub enum PealayerTab {
    ProgramMonitor,
    EffectControls,
    EffectsLibrary,
    HardwareMonitor,
    Timeline,
}

/// Caption shown on each panel's tab.
pub open spec fn tab_title_spec(tab: PealayerTab) -> Seq<char> {
    match tab {
        PealayerTab::ProgramMonitor => "Program Monitor 🎬"@,
        PealayerTab::EffectControls => "Effect Controls ⚙"@,
        PealayerTab::EffectsLibrary => "Effects Library 📚"@,
        PealayerTab::HardwareMonitor => "Hardware Monitor 🖥"@,
        PealayerTab::Timeline => "Timeline ⏱"@,
    }
}

impl PealayerTab {
    /// The panel's tab caption.
    pub fn title(&self) -> (t: String)
        ensures
            t@ == tab_title_spec(*self),
    {
        match self {
            PealayerTab::ProgramMonitor => String::from_str("Program Monitor 🎬"),
            PealayerTab::EffectControls => String::from_str("Effect Controls ⚙"),
            PealayerTab::EffectsLibrary => String::from_str("Effects Library 📚"),
            PealayerTab::HardwareMonitor => String::from_str("Hardware Monitor 🖥"),
            PealayerTab::Timeline => String::from_str("Timeline ⏱"),
        }
    }
}

/// A number with at least two digits, zero-padded.
pub open spec fn two_digits(n: nat) -> Seq<char> {
    if n < 10 {
        seq!['0'] + decimal_text(n)
    } else {
        decimal_text(n)
    }
}

fn push_two_digits(s: &mut String, n: u64)
    ensures
        final(s)@ == old(s)@ + two_digits(n as nat),
{
    if n < 10 {
        push_char(s, '0');
    }
    let d = decimal_chars(n);
    let mut k: usize = 0;
    let ghost start = s@;
    while k < d.len()
        invariant
            k <= d.len(),
            s@ == start + d@.take(k as int),
        decreases d.len() - k,
    {
        push_char(s, d[k]);
        k = k + 1;
        assert(s@ =~= start + d@.take(k as int));
    }
    assert(d@.take(k as int) =~= d@);
    assert(final(s)@ =~= old(s)@ + two_digits(n as nat));
}

/// Timecode `HH:MM:SS:FF` of a whole number of seconds and a frame number, each field at
/// least two digits.
pub open spec fn timecode_spec(secs: u64, frames: u64) -> Seq<char> {
    two_digits((secs / 3600) as nat) + seq![':'] + two_digits(((secs % 3600) / 60) as nat) + seq![':']
        + two_digits((secs % 60) as nat) + seq![':'] + two_digits(frames as nat)
}

/// Formats a playback position, given as whole seconds and a frame number, as a
/// timecode (see `timecode_spec`).
pub fn timecode_text(secs: u64, frames: u64) -> (t: String)
    ensures
        t@ == timecode_spec(secs, frames),
{
    let mut t = String::new();
    push_two_digits(&mut t, secs / 3600);
    push_char(&mut t, ':');
    push_two_digits(&mut t, (secs % 3600) / 60);
    push_char(&mut t, ':');
    push_two_digits(&mut t, secs % 60);
    push_char(&mut t, ':');
    push_two_digits(&mut t, frames);
    assert(t@ =~= timecode_spec(secs, frames));
    t
}

/// The control bar's clock for a whole number of seconds: `MM:SS`, or `HH:MM:SS` in the
/// long form (used when the video lasts an hour or more), each field at least two digits,
/// with a leading `-` for a negative (remaining) time.
pub open spec fn clock_spec(secs: u64, long: bool, negative: bool) -> Seq<char> {
    let body = if long {
        two_digits((secs / 3600) as nat) + seq![':'] + two_digits(((secs / 60) % 60) as nat) + seq![':']
            + two_digits((secs % 60) as nat)
    } else {
        two_digits(((secs / 60) % 60) as nat) + seq![':'] + two_digits((secs % 60) as nat)
    };
    if negative {
        seq!['-'] + body
    } else {
        body
    }
}

/// Formats the control bar's clock (see `clock_spec`).
pub fn clock_text(secs: u64, long: bool, negative: bool) -> (t: String)
    ensures
        t@ == clock_spec(secs, long, negative),
{
    let mut t = String::new();
    if negative {
        push_char(&mut t, '-');
    }
    if long {
        push_two_digits(&mut t, secs / 3600);
        push_char(&mut t, ':');
    }
    push_two_digits(&mut t, (secs / 60) % 60);
    push_char(&mut t, ':');
    push_two_digits(&mut t, secs % 60);
    assert(t@ =~= clock_spec(secs, long, negative));
    t
}

/// Whether a relay's lamp on the hardware monitor is lit: never during an emergency stop;
/// otherwise when the relay is forced ON, or when it is not overridden and the timeline
/// has it ON.
pub open spec fn monitor_lit_spec(estop: bool, forced: Option<bool>, timeline_on: bool) -> bool {
    !estop && (forced == Some(true) || (forced is None && timeline_on))
}

/// The monitor never shows a relay ON that the hardware has switched off: during an
/// emergency stop every lamp is dark, whatever the override and the timeline say.
/// Outside one, a relay forced ON is lit and one forced OFF is dark, whatever the
/// timeline says, and without an override the lamp follows the timeline.
pub proof fn lemma_monitor_lamp(forced: Option<bool>, timeline_on: bool)
    ensures
        !monitor_lit_spec(true, forced, timeline_on),
        monitor_lit_spec(false, Some(true), timeline_on),
        !monitor_lit_spec(false, Some(false), timeline_on),
        monitor_lit_spec(false, None, timeline_on) == timeline_on,
{
}

/// Lamp state of one relay on the hardware monitor (see `monitor_lit_spec`).
pub fn relay_monitor_lit(estop: bool, forced: Option<bool>, timeline_on: bool) -> (lit: bool)
    ensures
        lit == monitor_lit_spec(estop, forced, timeline_on),
{
    if estop {
        false
    } else {
        match forced {
            Some(v) => v,
            None => timeline_on,
        }
    }
}

/// Status text of one relay on the hardware monitor.
pub open spec fn monitor_status_spec(forced: Option<bool>, timeline_on: bool) -> Seq<char> {
    if forced == Some(true) {
        "Override ON"@
    } else if timeline_on {
        "Timeline ON"@
    } else {
        "Idle (OFF)"@
    }
}

/// Status text of one relay on the hardware monitor (see `monitor_status_spec`).
pub fn relay_monitor_status(forced: Option<bool>, timeline_on: bool) -> (text: &'static str)
    ensures
        text@ == monitor_status_spec(forced, timeline_on),
{
    if forced == Some(true) {
        "Override ON"
    } else if timeline_on {
        "Timeline ON"
    } else {
        "Idle (OFF)"
    }
}

/// The "Force ON" button of a relay: a forced relay is released, any other is forced ON.
/// Ids beyond the last relay are ignored.
pub fn toggle_relay_override(overrides: &mut [Option<bool>; 9], relay_id: u8)
    ensures
        final(overrides)@ == if relay_id < 9 {
            old(overrides)@.update(
                relay_id as int,
                if old(overrides)@[relay_id as int] == Some(true) { None } else { Some(true) },
            )
        } else {
            old(overrides)@
        },
{
    if relay_id < 9 {
        let i = relay_id as usize;
        if overrides[i] == Some(true) {
            overrides[i] = None;
        } else {
            overrides[i] = Some(true);
        }
    }
}

/// The on-screen message that a drop decision leaves, if any.
pub open spec fn drop_message_spec(d: DropDecision, name: Seq<char>, target: HardwareTarget) -> Option<Seq<char>> {
    match d {
        DropDecision::Place(_) => None,
        DropDecision::NoPrimaryTrack => None,
        DropDecision::TrackLocked(r) => Some(
            "Cannot place '"@ + name + "': track R"@ + decimal_text(r as nat) + " is locked"@,
        ),
        DropDecision::Incompatible(r) => Some(
            "Placement Rejected: '"@ + name + "' cannot be placed on R"@ + decimal_text(r as nat),
        ),
        DropDecision::PrimaryLocked(p) => Some(
            "Cannot place '"@ + name + "': primary track R"@ + decimal_text(p as nat) + " is locked"@,
        ),
        DropDecision::AutoRoute(p) => Some(
            "Auto-routed '"@ + name + "' to R"@ + decimal_text(p as nat) + ": "@ + display_name_spec(target),
        ),
    }
}

/// The on-screen message of a drop decision.
pub fn drop_message(d: DropDecision, name: &str, target: HardwareTarget) -> (m: Option<String>)
    ensures
        match m {
            Some(s) => drop_message_spec(d, name@, target) == Some(s@),
            None => drop_message_spec(d, name@, target) is None,
        },
{
    match d {
        DropDecision::Place(_) => None,
        DropDecision::NoPrimaryTrack => None,
        DropDecision::TrackLocked(r) => {
            let mut m = String::from_str("Cannot place '");
            m.append(name);
            m.append("': track R");
            push_decimal(&mut m, r);
            m.append(" is locked");
            Some(m)
        },
        DropDecision::Incompatible(r) => {
            let mut m = String::from_str("Placement Rejected: '");
            m.append(name);
            m.append("' cannot be placed on R");
            push_decimal(&mut m, r);
            Some(m)
        },
        DropDecision::PrimaryLocked(p) => {
            let mut m = String::from_str("Cannot place '");
            m.append(name);
            m.append("': primary track R");
            push_decimal(&mut m, p);
            m.append(" is locked");
            Some(m)
        },
        DropDecision::AutoRoute(p) => {
            let mut m = String::from_str("Auto-routed '");
            m.append(name);
            m.append("' to R");
            push_decimal(&mut m, p);
            m.append(": ");
            m.append(target.display_name());
            Some(m)
        },
    }
}

/// The editing state of the player's 4D timeline: the timeline, its undo history, the
/// per-track mute, solo and lock switches (indexed by relay id; index 0 is unused), the
/// selected instances and the last on-screen message.
pub struct TimelineEditor<A> {
    pub timeline: Timeline<A>,
    pub undo_stack: UndoStack<TimelineSnapshot<A>>,
    pub track_muted: [bool; 9],
    pub track_soloed: [bool; 9],
    pub track_locked: [bool; 9],
    pub selected_instance_ids: Vec<u128>,
    pub osd_message: Option<String>,
}

/// The text of an optional message.
pub open spec fn osd_text(m: Option<String>) -> Option<Seq<char>> {
    match m {
        Some(s) => Some(s@),
        None => None,
    }
}

/// `s` holds a copy of the user-editable state of `tl`, as `Timeline::snapshot_timeline`
/// makes it.
pub open spec fn is_snapshot_of<A: Clone>(s: TimelineSnapshot<A>, tl: Timeline<A>) -> bool {
    &&& s.instances@ == tl.instances@
    &&& same_templates(s.templates@, tl.templates@)
    &&& s.analog_tracks@.len() == tl.analog_tracks@.len()
    &&& forall|i: int| 0 <= i < tl.analog_tracks@.len() ==> cloned::<A>(tl.analog_tracks@[i], s.analog_tracks@[i])
}

/// The undo history gained one snapshot of `tl` (and lost its redo side).
pub open spec fn recorded_undo<A: Clone>(
    before: UndoStack<TimelineSnapshot<A>>,
    after: UndoStack<TimelineSnapshot<A>>,
    tl: Timeline<A>,
) -> bool {
    &&& after.capacity() == before.capacity()
    &&& after.redo_items() == Seq::<TimelineSnapshot<A>>::empty()
    &&& exists|s: TimelineSnapshot<A>|
        is_snapshot_of(s, tl) && after.undo_items() == pushed_with_cap(before.undo_items(), s, before.capacity())
}

/// The editor state after a library effect was dropped on row `track_index` at `start`
/// (see `TimelineEditor::handle_effect_drop`); `placed` tells whether an instance was
/// created.
pub open spec fn drop_applied<A: Clone>(
    before: TimelineEditor<A>,
    after: TimelineEditor<A>,
    payload: EffectDragPayload,
    track_index: i32,
    start: u64,
    placed: bool,
) -> bool {
    let d = drop_decision_spec(payload.target, track_index, before.track_locked@);
    let relay = match d {
        DropDecision::Place(r) => r,
        DropDecision::AutoRoute(r) => r,
        _ => 0u8,
    };
    &&& after.track_muted == before.track_muted
    &&& after.track_soloed == before.track_soloed
    &&& after.track_locked == before.track_locked
    &&& osd_text(after.osd_message) == match drop_message_spec(d, payload.name@, payload.target) {
        Some(m) => Some(m),
        None => osd_text(before.osd_message),
    }
    &&& placed == (d is Place || d is AutoRoute)
    &&& placed ==> {
        &&& after.selected_instance_ids@.len() == 1
        &&& placed_on(before.timeline, after.timeline, payload, relay, start, after.selected_instance_ids@[0])
        &&& recorded_undo(before.undo_stack, after.undo_stack, before.timeline)
    }
    &&& !placed ==> {
        &&& after.timeline == before.timeline
        &&& after.undo_stack == before.undo_stack
        &&& after.selected_instance_ids == before.selected_instance_ids
    }
}

/// The editor state after one undo step: when the history has something to undo, the
/// latest recorded timeline comes back, a copy of the current one is kept for redo and
/// nothing stays selected; otherwise nothing changes. The switches and the message stay
/// as they were.
pub open spec fn undo_applied<A: Clone>(before: TimelineEditor<A>, after: TimelineEditor<A>, done: bool) -> bool {
    let items = before.undo_stack.undo_items();
    &&& after.track_muted == before.track_muted
    &&& after.track_soloed == before.track_soloed
    &&& after.track_locked == before.track_locked
    &&& after.osd_message == before.osd_message
    &&& after.undo_stack.capacity() == before.undo_stack.capacity()
    &&& done == (items.len() > 0)
    &&& !done ==> {
        &&& after.selected_instance_ids == before.selected_instance_ids
        &&& after.timeline == before.timeline
        &&& after.undo_stack.undo_items() == items
        &&& after.undo_stack.redo_items() == before.undo_stack.redo_items()
    }
    &&& done ==> {
        &&& after.selected_instance_ids@.len() == 0
        &&& after.timeline.instances == items.last().instances
        &&& after.timeline.templates == items.last().templates
        &&& after.timeline.analog_tracks == items.last().analog_tracks
        &&& after.undo_stack.undo_items() == items.drop_last()
        &&& exists|c: TimelineSnapshot<A>|
            is_snapshot_of(c, before.timeline) && after.undo_stack.redo_items() == before.undo_stack.redo_items().push(c)
    }
}

/// The editor state after one redo step, the mirror image of `undo_applied`.
pub open spec fn redo_applied<A: Clone>(before: TimelineEditor<A>, after: TimelineEditor<A>, done: bool) -> bool {
    let items = before.undo_stack.redo_items();
    &&& after.track_muted == before.track_muted
    &&& after.track_soloed == before.track_soloed
    &&& after.track_locked == before.track_locked
    &&& after.osd_message == before.osd_message
    &&& after.undo_stack.capacity() == before.undo_stack.capacity()
    &&& done == (items.len() > 0)
    &&& !done ==> {
        &&& after.selected_instance_ids == before.selected_instance_ids
        &&& after.timeline == before.timeline
        &&& after.undo_stack.redo_items() == items
        &&& after.undo_stack.undo_items() == before.undo_stack.undo_items()
    }
    &&& done ==> {
        &&& after.selected_instance_ids@.len() == 0
        &&& after.timeline.instances == items.last().instances
        &&& after.timeline.templates == items.last().templates
        &&& after.timeline.analog_tracks == items.last().analog_tracks
        &&& after.undo_stack.redo_items() == items.drop_last()
        &&& exists|c: TimelineSnapshot<A>|
            is_snapshot_of(c, before.timeline) && after.undo_stack.undo_items() == before.undo_stack.undo_items().push(c)
    }
}

/// Every edit that records the timeline in the history (a placed drop, a relocation, a
/// deletion) is reverted by the next undo: the instances come back as they were, the
/// templates as field-by-field copies, and the analog tracks as clones.
pub proof fn lemma_undo_reverts_recorded_edit<A: Clone>(
    history_before: UndoStack<TimelineSnapshot<A>>,
    timeline_before: Timeline<A>,
    edited: TimelineEditor<A>,
    undone: TimelineEditor<A>,
    done: bool,
)
    requires
        recorded_undo(history_before, edited.undo_stack, timeline_before),
        undo_applied(edited, undone, done),
    ensures
        done,
        undone.timeline.instances@ == timeline_before.instances@,
        same_templates(undone.timeline.templates@, timeline_before.templates@),
        undone.timeline.analog_tracks@.len() == timeline_before.analog_tracks@.len(),
        forall|i: int| 0 <= i < timeline_before.analog_tracks@.len() ==> cloned::<A>(
            timeline_before.analog_tracks@[i], #[trigger] undone.timeline.analog_tracks@[i]),
        undone.undo_stack.undo_items() == (if history_before.undo_items().len() >= history_before.capacity() {
            history_before.undo_items().drop_first()
        } else {
            history_before.undo_items()
        }),
{
    let s = choose|s: TimelineSnapshot<A>|
        is_snapshot_of(s, timeline_before) && edited.undo_stack.undo_items() == pushed_with_cap(
            history_before.undo_items(), s, history_before.capacity());
    let items = edited.undo_stack.undo_items();
    assert(items.last() == s);
    assert(items.drop_last() =~= (if history_before.undo_items().len() >= history_before.capacity() {
        history_before.undo_items().drop_first()
    } else {
        history_before.undo_items()
    }));
}

impl<A> TimelineEditor<A> {
    /// The undo history is well formed.
    pub open spec fn wf(&self) -> bool {
        self.undo_stack.inv()
    }

    /// An empty timeline over the given analog tracks, with an empty history of at most
    /// fifty steps, every track unmuted, unsoloed and unlocked, nothing selected and no
    /// message.
    pub fn new(analog_tracks: Vec<A>) -> (e: Self)
        ensures
            e.wf(),
            e.timeline.instances@.len() == 0,
            e.timeline.templates@.len() == 0,
            e.timeline.analog_tracks == analog_tracks,
            e.undo_stack.undo_items().len() == 0,
            e.undo_stack.redo_items().len() == 0,
            e.undo_stack.capacity() == 50,
            e.track_muted@ == seq![false; 9],
            e.track_soloed@ == seq![false; 9],
            e.track_locked@ == seq![false; 9],
            e.selected_instance_ids@.len() == 0,
            e.osd_message is None,
    {
        let e = TimelineEditor {
            timeline: Timeline::new(analog_tracks),
            undo_stack: UndoStack::new(50),
            track_muted: [false; 9],
            track_soloed: [false; 9],
            track_locked: [false; 9],
            selected_instance_ids: Vec::new(),
            osd_message: None,
        };
        assert(e.track_muted@ =~= seq![false; 9]);
        assert(e.track_soloed@ =~= seq![false; 9]);
        assert(e.track_locked@ =~= seq![false; 9]);
        e
    }

    /// Shows a message on screen.
    pub fn set_osd(&mut self, msg: String)
        ensures
            final(self).osd_message == Some(msg),
            final(self).timeline == old(self).timeline,
            final(self).undo_stack == old(self).undo_stack,
            final(self).track_muted == old(self).track_muted,
            final(self).track_soloed == old(self).track_soloed,
            final(self).track_locked == old(self).track_locked,
            final(self).selected_instance_ids == old(self).selected_instance_ids,
    {
        self.osd_message = Some(msg);
    }

    /// Returns the latest OSD message text, if any.
    pub fn last_osd_message(&self) -> (m: Option<String>)
        ensures
            osd_text(m) == osd_text(self.osd_message),
    {
        match &self.osd_message {
            Some(s) => Some(s.clone()),
            None => None,
        }
    }

    /// Locks or unlocks a relay track; ids beyond the last track are ignored.
    pub fn lock_track(&mut self, relay_id: u8, locked: bool)
        ensures
            final(self).track_locked@ == if relay_id < 9 {
                old(self).track_locked@.update(relay_id as int, locked)
            } else {
                old(self).track_locked@
            },
            final(self).timeline == old(self).timeline,
            final(self).undo_stack == old(self).undo_stack,
            final(self).track_muted == old(self).track_muted,
            final(self).track_soloed == old(self).track_soloed,
            final(self).selected_instance_ids == old(self).selected_instance_ids,
            final(self).osd_message == old(self).osd_message,
    {
        if relay_id < 9 {
            self.track_locked[relay_id as usize] = locked;
        }
    }
}

impl<A: Clone> TimelineEditor<A> {
    /// Steps back in the history (see `undo_applied`); returns whether there was anything
    /// to undo.
    pub fn undo(&mut self) -> (done: bool)
        requires
            old(self).wf(),
        ensures
            final(self).wf(),
            undo_applied(*old(self), *final(self), done),
    {
        let current = self.timeline.snapshot_timeline();
        let ghost c = current;
        match self.undo_stack.undo(current) {
            Some(prev) => {
                assert(is_snapshot_of(c, old(self).timeline));
                self.timeline.restore_timeline_snapshot(prev);
                self.selected_instance_ids = Vec::new();
                true
            },
            None => false,
        }
    }

    /// Steps forward again (see `redo_applied`); returns whether there was anything to
    /// redo.
    pub fn redo(&mut self) -> (done: bool)
        requires
            old(self).wf(),
        ensures
            final(self).wf(),
            redo_applied(*old(self), *final(self), done),
    {
        let current = self.timeline.snapshot_timeline();
        let ghost c = current;
        match self.undo_stack.redo(current) {
            Some(next) => {
                assert(is_snapshot_of(c, old(self).timeline));
                self.timeline.restore_timeline_snapshot(next);
                self.selected_instance_ids = Vec::new();
                true
            },
            None => false,
        }
    }

    /// Deletes every instance with this id from the timeline, after recording it in the
    /// history, and drops the id from the selection.
    pub fn delete_instance(&mut self, instance_id: u128)
        requires
            old(self).wf(),
        ensures
            final(self).wf(),
            recorded_undo(old(self).undo_stack, final(self).undo_stack, old(self).timeline),
            final(self).timeline.instances@ == old(self).timeline.instances@.filter(
                |i: crate::four_d::models::EffectInstance| i.id != instance_id,
            ),
            final(self).timeline.templates == old(self).timeline.templates,
            final(self).timeline.analog_tracks == old(self).timeline.analog_tracks,
            final(self).selected_instance_ids@ == old(self).selected_instance_ids@.filter(|x: u128| x != instance_id),
            final(self).track_muted == old(self).track_muted,
            final(self).track_soloed == old(self).track_soloed,
            final(self).track_locked == old(self).track_locked,
            final(self).osd_message == old(self).osd_message,
    {
        let snapshot = self.timeline.snapshot_timeline();
        let ghost snap = snapshot;
        self.undo_stack.push(snapshot);
        assert(is_snapshot_of(snap, old(self).timeline));
        let ghost keep = |i: crate::four_d::models::EffectInstance| i.id != instance_id;
        let mut kept: Vec<crate::four_d::models::EffectInstance> = Vec::new();
        let mut j: usize = 0;
        while j < self.timeline.instances.len()
            invariant
                j <= self.timeline.instances.len(),
                self.timeline.instances == old(self).timeline.instances,
                keep == (|i: crate::four_d::models::EffectInstance| i.id != instance_id),
                kept@ == self.timeline.instances@.take(j as int).filter(keep),
            decreases self.timeline.instances.len() - j,
        {
            proof {
                reveal(Seq::filter);
                assert(self.timeline.instances@.take(j + 1).drop_last() =~= self.timeline.instances@.take(j as int));
            }
            let inst = self.timeline.instances[j];
            if inst.id != instance_id {
                kept.push(inst);
            }
            j = j + 1;
        }
        assert(self.timeline.instances@.take(j as int) =~= self.timeline.instances@);
        self.timeline.instances = kept;
        let ghost keep_id = |x: u128| x != instance_id;
        let mut sel: Vec<u128> = Vec::new();
        let mut q: usize = 0;
        while q < self.selected_instance_ids.len()
            invariant
                q <= self.selected_instance_ids.len(),
                self.selected_instance_ids == old(self).selected_instance_ids,
                keep_id == (|x: u128| x != instance_id),
                sel@ == self.selected_instance_ids@.take(q as int).filter(keep_id),
            decreases self.selected_instance_ids.len() - q,
        {
            proof {
                reveal(Seq::filter);
                assert(self.selected_instance_ids@.take(q + 1).drop_last() =~= self.selected_instance_ids@.take(q as int));
            }
            let x = self.selected_instance_ids[q];
            if x != instance_id {
                sel.push(x);
            }
            q = q + 1;
        }
        assert(self.selected_instance_ids@.take(q as int) =~= self.selected_instance_ids@);
        self.selected_instance_ids = sel;
    }

    /// Handles dropping a library effect on timeline row `track_index` at `start_time_ms`.
    /// On a relay row (2..=9) the effect is placed on that relay unless the track is locked
    /// or does not suit the effect's hardware target; anywhere else it is routed to the
    /// target's primary relay unless that track is locked or the target has none. A placed
    /// effect is recorded in the undo history first, becomes the only selected instance,
    /// and the message for the decision (rejection, lock or auto-routing) is shown.
    /// Returns whether an instance was created.
    pub fn handle_effect_drop(&mut self, payload: &EffectDragPayload, track_index: i32, start_time_ms: u64) -> (placed: bool)
        requires
            old(self).wf(),
        ensures
            final(self).wf(),
            drop_applied(*old(self), *final(self), *payload, track_index, start_time_ms, placed),
    {
        let d = decide_effect_drop(payload.target, track_index, &self.track_locked);
        if let Some(m) = drop_message(d, payload.name.as_str(), payload.target) {
            self.osd_message = Some(m);
        }
        let relay = match d {
            DropDecision::Place(r) => r,
            DropDecision::AutoRoute(r) => r,
            _ => {
                return false;
            },
        };
        let snapshot = self.timeline.snapshot_timeline();
        let ghost snap = snapshot;
        self.undo_stack.push(snapshot);
        assert(is_snapshot_of(snap, old(self).timeline));
        let id = self.timeline.place_effect(payload, relay, start_time_ms);
        let mut selected: Vec<u128> = Vec::new();
        selected.push(id);
        self.selected_instance_ids = selected;
        true
    }

    /// One-click relocation: moves the actions of the template with this id onto the
    /// primary relay of its hardware target, after recording the timeline in the undo
    /// history, and says so on screen. Nothing happens, and `false` is returned, when no
    /// template has the id or its target has no primary relay.
    pub fn relocate_effect_to_primary(&mut self, effect_id: u128) -> (done: bool)
        requires
            old(self).wf(),
        ensures
            final(self).wf(),
            final(self).track_muted == old(self).track_muted,
            final(self).track_soloed == old(self).track_soloed,
            final(self).track_locked == old(self).track_locked,
            final(self).selected_instance_ids == old(self).selected_instance_ids,
            match template_index(old(self).timeline.templates@, effect_id) {
                Some(k) if primary_relay_spec(old(self).timeline.templates@[k].target) is Some => {
                    let t = old(self).timeline.templates@[k];
                    let p = primary_relay_spec(t.target)->0;
                    &&& done
                    &&& relocated_to(old(self).timeline, final(self).timeline, effect_id, p)
                    &&& recorded_undo(old(self).undo_stack, final(self).undo_stack, old(self).timeline)
                    &&& osd_text(final(self).osd_message) == Some(
                        "Relocated '"@ + t.name@ + "' to R"@ + decimal_text(p as nat) + ": "@
                            + display_name_spec(t.target),
                    )
                },
                _ => {
                    &&& !done
                    &&& final(self).timeline == old(self).timeline
                    &&& final(self).undo_stack == old(self).undo_stack
                    &&& final(self).osd_message == old(self).osd_message
                },
            },
    {
        proof {
            lemma_template_index(self.timeline.templates@, effect_id);
        }
        let primary = match self.timeline.relocation_target(effect_id) {
            Some(p) => p,
            None => {
                return false;
            },
        };
        let k = match crate::four_d::models::find_template_index(&self.timeline.templates, effect_id) {
            Some(k) => k,
            None => {
                return false;
            },
        };
        let mut m = String::from_str("Relocated '");
        m.append(self.timeline.templates[k].name.as_str());
        m.append("' to R");
        push_decimal(&mut m, primary);
        m.append(": ");
        m.append(self.timeline.templates[k].target.display_name());
        let snapshot = self.timeline.snapshot_timeline();
        let ghost snap = snapshot;
        self.undo_stack.push(snapshot);
        assert(is_snapshot_of(snap, old(self).timeline));
        self.timeline.relocate_template(effect_id, primary);
        self.osd_message = Some(m);
        true
    }
}

} // verus!
