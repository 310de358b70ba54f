use pealayer::four_d::curve::{add_keyframe_time, Interpolation, KeyframeSlot};
use pealayer::ui::layout::TimelineEditor;
use uuid::Uuid;

/// A stand-in for an analog curve keyframe.
#[derive(Debug, Clone, PartialEq)]
struct Keyframe {
    time_ms: u64,
    value: f32,
    interpolation: Interpolation,
}

impl Keyframe {
    fn new(time_ms: u64, value: f32, interpolation: Interpolation) -> Self {
        Keyframe { time_ms, value: value.clamp(0.0, 1.0), interpolation }
    }
}

/// A stand-in for an analog curve track whose keyframes stay sorted by time, one per
/// millisecond, through the library's keyframe placement.
#[derive(Debug, Clone, PartialEq)]
struct AnalogTrack {
    id: Uuid,
    name: String,
    channel: u8,
    keyframes: Vec<Keyframe>,
}

impl AnalogTrack {
    fn new(name: &str, channel: u8) -> Self {
        AnalogTrack { id: Uuid::new_v4(), name: name.to_string(), channel, keyframes: Vec::new() }
    }

    fn add_keyframe(&mut self, keyframe: Keyframe) {
        let mut times: Vec<u64> = self.keyframes.iter().map(|k| k.time_ms).collect();
        match add_keyframe_time(&mut times, keyframe.time_ms) {
            KeyframeSlot::Insert(i) => self.keyframes.insert(i, keyframe),
            KeyframeSlot::Replace(i) => self.keyframes[i] = keyframe,
        }
    }
}

/// The editor as the player starts it, with its two default analog tracks.
fn default_editor() -> TimelineEditor<AnalogTrack> {
    TimelineEditor::new(vec![AnalogTrack::new("Wind Turbine", 0), AnalogTrack::new("Seat Rumble", 1)])
}

#[test]
fn test_undo_redo_timeline_keyframe_deletion() {
    let mut app = default_editor();
    // Add keyframe to existing track 0
    app.timeline.analog_tracks[0].add_keyframe(Keyframe::new(1000, 0.5, Interpolation::Linear));

    // Save initial state
    let snap0 = app.timeline.snapshot_timeline();
    app.undo_stack.push(snap0);

    // Modify (delete keyframe)
    app.timeline.analog_tracks[0].keyframes.clear();
    assert_eq!(app.timeline.analog_tracks[0].keyframes.len(), 0);

    // Undo
    let snap1 = app.timeline.snapshot_timeline();
    let prev = app.undo_stack.undo(snap1).expect("Failed to undo");
    app.timeline.restore_timeline_snapshot(prev);
    assert_eq!(app.timeline.analog_tracks[0].keyframes.len(), 1);
    assert_eq!(app.timeline.analog_tracks[0].keyframes[0].time_ms, 1000);

    // Redo
    let snap2 = app.timeline.snapshot_timeline();
    if let Some(next) = app.undo_stack.redo(snap2) {
        app.timeline.restore_timeline_snapshot(next);
    }
    assert_eq!(app.timeline.analog_tracks[0].keyframes.len(), 0);
}

#[test]
fn test_keyframe_drag_undo_snapshot_commit() {
    let mut app = default_editor();
    let mut track = AnalogTrack::new("Volume", 0);
    track.add_keyframe(Keyframe::new(1000, 0.5, Interpolation::Linear));
    let tid = track.id;
    app.timeline.analog_tracks.push(track);

    // The dragged group: (track, keyframe index, original time, original value).
    let group_originals: Vec<(Uuid, usize, u64, f32)> = vec![(tid, 0, 1000, 0.5)];

    // Simulate keyframe moved to 2500ms, 0.9 value
    let t = app.timeline.analog_tracks.iter_mut().find(|t| t.id == tid).unwrap();
    t.keyframes[0].time_ms = 2500;
    t.keyframes[0].value = 0.9;

    // Commit pre-drag snapshot reconstructed from group_originals
    let mut pre_snap = app.timeline.snapshot_timeline();
    for &(ptid, pkid, orig_t, orig_v) in &group_originals {
        if let Some(t) = pre_snap.analog_tracks.iter_mut().find(|t| t.id == ptid) {
            if let Some(k) = t.keyframes.get_mut(pkid) {
                k.time_ms = orig_t;
                k.value = orig_v;
            }
        }
    }
    app.undo_stack.push(pre_snap);

    assert!(app.undo_stack.can_undo());

    // Perform Undo
    let current_snap = app.timeline.snapshot_timeline();
    let restored = app.undo_stack.undo(current_snap).expect("Undo must succeed");
    app.timeline.restore_timeline_snapshot(restored);

    // Verify keyframe returned to original pre-drag state
    let t = app.timeline.analog_tracks.iter().find(|t| t.id == tid).unwrap();
    assert_eq!(t.keyframes[0].time_ms, 1000);
    assert_eq!(t.keyframes[0].value, 0.5);
}

#[test]
fn test_keyframe_sorting_and_deduplication() {
    let mut track = AnalogTrack::new("Rumble Chair", 1);
    track.add_keyframe(Keyframe::new(3000, 0.3, Interpolation::Linear));
    track.add_keyframe(Keyframe::new(1000, 0.1, Interpolation::Linear));
    track.add_keyframe(Keyframe::new(2000, 0.2, Interpolation::Linear));

    // Must be sorted by time_ms
    assert_eq!(track.keyframes.len(), 3);
    assert_eq!(track.keyframes[0].time_ms, 1000);
    assert_eq!(track.keyframes[1].time_ms, 2000);
    assert_eq!(track.keyframes[2].time_ms, 3000);

    // Overwriting existing time_ms updates value
    track.add_keyframe(Keyframe::new(2000, 0.9, Interpolation::Step));
    assert_eq!(track.keyframes.len(), 3);
    assert_eq!(track.keyframes[1].time_ms, 2000);
    assert_eq!(track.keyframes[1].value, 0.9);
    assert_eq!(track.keyframes[1].interpolation, Interpolation::Step);
}
