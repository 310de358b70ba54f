use pealayer::four_d::curve::{punch_in_kept, sample_span};
use pealayer::app::EffectDragPayload;
use pealayer::four_d::engine::timeline_times_fit;
use pealayer::four_d::protocol::Command;
use pealayer::app::{
    add_recent_media, audio_tracks_from, subtitle_tracks_from, track_label, update_effect_duration, AudioTrack,
    SubtitleTrack, TrackListEntry,
};
use pealayer::four_d::curve::{add_keyframe_time, default_true, remove_keyframe_time, Interpolation, KeyframeSlot};
use pealayer::four_d::engine::{
    compile_timeline, evaluate_relay_state, relay_line, CompiledAction, EngineEffect, EngineMessage, EngineState,
    OffReason,
};
use pealayer::four_d::models::{AtomicAction, Effect, EffectInstance, HardwareTarget, Timeline};
use pealayer::four_d::patterns::generate_blink;
use pealayer::platform::association::{desktop_entry, extension_key, open_command};
use pealayer::ui::four_d::is_relay_active;
use pealayer::ui::layout::{
    clock_text, relay_monitor_lit, relay_monitor_status, timecode_text, toggle_relay_override, PealayerTab,
};

#[test]
fn keyframe_times_stay_sorted_and_unique() {
    let mut times: Vec<u64> = Vec::new();
    assert_eq!(add_keyframe_time(&mut times, 2000), KeyframeSlot::Insert(0));
    assert_eq!(add_keyframe_time(&mut times, 1000), KeyframeSlot::Insert(0));
    assert_eq!(add_keyframe_time(&mut times, 3000), KeyframeSlot::Insert(2));
    assert_eq!(add_keyframe_time(&mut times, 2000), KeyframeSlot::Replace(1));
    assert_eq!(times, vec![1000, 2000, 3000]);
    assert_eq!(remove_keyframe_time(&mut times, 2500), None);
    assert_eq!(remove_keyframe_time(&mut times, 2000), Some(1));
    assert_eq!(times, vec![1000, 3000]);
    assert_eq!(Interpolation::default(), Interpolation::Linear);
    assert!(default_true());
}

#[test]
fn recent_media_never_repeats_a_path() {
    let mut list: Vec<String> = Vec::new();
    for p in ["/a", "/b", "/a", "/c", "/b"] {
        add_recent_media(&mut list, p.to_string());
    }
    assert_eq!(list, vec!["/b", "/c", "/a"]);
}

#[test]
fn rescaling_rounds_to_nearest_millisecond() {
    let mut e = Effect::with_target(
        "Pulse".to_string(),
        "⚡".to_string(),
        3,
        HardwareTarget::Auxiliary,
        vec![
            AtomicAction { relay_id: 5, state: true, offset_ms: 1 },
            AtomicAction { relay_id: 5, state: false, offset_ms: 2 },
            AtomicAction { relay_id: 5, state: false, offset_ms: 3 },
        ],
    );
    update_effect_duration(&mut e, 4);
    let offsets: Vec<u64> = e.actions.iter().map(|a| a.offset_ms).collect();
    // 1 * 4 / 3 = 1.33 -> 1, 2 * 4 / 3 = 2.67 -> 3, last -> 4
    assert_eq!(offsets, vec![1, 3, 4]);
}

#[test]
fn blink_pattern_alternates() {
    let acts = generate_blink(3, 200, 600);
    let states: Vec<(u64, bool)> = acts.iter().map(|a| (a.offset_ms, a.state)).collect();
    assert!(acts.iter().all(|a| a.relay_id == 3));
    assert_eq!(states[0], (0, true));
    assert_eq!(states[1], (200, false));
    assert_eq!(states[2], (400, true));
    // The last toggle (at 400) is ON, so the pattern closes with an OFF at the duration.
    assert_eq!(states, vec![(0, true), (200, false), (400, true), (600, false)]);
}

#[test]
fn blink_pattern_ends_off() {
    let pairs = |acts: Vec<AtomicAction>| acts.iter().map(|a| (a.offset_ms, a.state)).collect::<Vec<_>>();
    // One toggle, ON: closed by an OFF at the duration.
    assert_eq!(pairs(generate_blink(1, 100, 100)), vec![(0, true), (100, false)]);
    // Two toggles ending OFF: nothing is added.
    assert_eq!(pairs(generate_blink(1, 100, 200)), vec![(0, true), (100, false)]);
    // Partial last interval: toggles at 0, 100, 200 end ON and are closed at 250.
    assert_eq!(pairs(generate_blink(1, 100, 250)), vec![(0, true), (100, false), (200, true), (250, false)]);
    // No toggle at all: a single OFF.
    assert_eq!(pairs(generate_blink(1, 100, 0)), vec![(0, false)]);
    assert_eq!(pairs(generate_blink(1, 0, 0)), vec![(0, false)]);
}

#[test]
fn compiled_queue_replays_relay_state() {
    let mut tl = Timeline::<()>::new(vec![]);
    let e = Effect::new("Blink".to_string(), "⚡".to_string(), 1000, generate_blink(2, 250, 1000));
    let id = e.id;
    tl.templates.push(e);
    tl.instances.push(EffectInstance::new(id, 100));
    tl.instances.push(EffectInstance::new(id, 600));
    let muted = [false; 9];
    let soloed = [false; 9];
    let queue = compile_timeline(&tl, &muted, &soloed);
    assert!(queue.windows(2).all(|w| w[0].time_ms <= w[1].time_ms));
    for t in (0..2000).step_by(25) {
        let replay = queue.iter().filter(|a| a.relay_id == 2 && a.time_ms <= t).last().map(|a| a.state).unwrap_or(false);
        assert_eq!(replay, evaluate_relay_state(&tl, 2, t, &muted, &soloed), "time {}", t);
        assert_eq!(is_relay_active(&tl, 2, t), evaluate_relay_state(&tl, 2, t, &muted, &soloed));
    }
}

#[test]
fn engine_switches_off_on_seek_estop_and_pause() {
    let mut engine = EngineState::new();
    let queue = vec![
        CompiledAction { time_ms: 100, relay_id: 1, state: true },
        CompiledAction { time_ms: 300, relay_id: 1, state: false },
    ];
    assert!(engine.handle_message(EngineMessage::UpdateQueue(queue), 0, true).is_empty());
    assert_eq!(
        engine.tick(false, true, true, 150),
        vec![EngineEffect::Relay(CompiledAction { time_ms: 100, relay_id: 1, state: true })]
    );
    assert_eq!(engine.tick(false, false, true, 160), vec![EngineEffect::AllRelaysOff(OffReason::Pause)]);
    assert_eq!(
        engine.handle_message(EngineMessage::Seek(0), 0, true),
        vec![EngineEffect::AllRelaysOff(OffReason::Seek)]
    );
    assert_eq!(engine.index, 0);
    assert_eq!(engine.tick(true, true, true, 400), vec![EngineEffect::AllRelaysOff(OffReason::EmergencyStop)]);
    assert!(engine.tick(true, true, true, 500).is_empty());
    assert_eq!(
        engine.handle_message(EngineMessage::LiveActuatorOverride { channel: 2, value: 180 }, 0, true),
        vec![EngineEffect::Pwm { channel: 2, value: 180 }]
    );
    // The same value again is not sent twice.
    assert!(engine.handle_message(EngineMessage::LiveActuatorOverride { channel: 2, value: 180 }, 0, true).is_empty());
    // A new value taken while disconnected is remembered but not sent.
    assert!(engine.handle_message(EngineMessage::LiveActuatorOverride { channel: 2, value: 90 }, 0, false).is_empty());
    assert_eq!(engine.last_pwm[2], Some(90));
    assert!(engine.handle_message(EngineMessage::LiveActuatorOverride { channel: 2, value: 90 }, 0, true).is_empty());
    // Channels beyond the sixteenth are dropped.
    assert!(engine.handle_message(EngineMessage::LiveActuatorOverride { channel: 16, value: 1 }, 0, true).is_empty());
    assert_eq!(
        engine.handle_message(EngineMessage::LiveActuatorOverride { channel: 0, value: 0 }, 0, true),
        vec![EngineEffect::Pwm { channel: 0, value: 0 }]
    );
    assert_eq!(engine.connection_changed(false, true), vec![EngineEffect::AllRelaysOff(OffReason::Disconnect)]);
    assert!(engine.connection_changed(true, true).is_empty());
}

#[test]
fn relay_lines_are_ascii_commands() {
    assert_eq!(relay_line(3, true), b"R3:1\n".to_vec());
    assert_eq!(relay_line(12, false), b"R12:0\n".to_vec());
}

#[test]
fn timecodes_are_zero_padded() {
    assert_eq!(timecode_text(0, 0), "00:00:00:00");
    assert_eq!(timecode_text(3661, 5), "01:01:01:05");
    assert_eq!(timecode_text(360_000, 23), "100:00:00:23");
}

#[test]
fn platform_registration_texts() {
    assert_eq!(open_command("/usr/bin/pealayer"), "\"/usr/bin/pealayer\" \"%1\"");
    assert_eq!(extension_key("mkv"), "Software\\Classes\\.mkv");
    let entry = desktop_entry("/opt/pealayer");
    assert!(entry.starts_with("[Desktop Entry]\nType=Application\nName=Pealayer\n"));
    assert!(entry.contains("Exec=\"/opt/pealayer\" %f\n"));
    assert!(entry.ends_with("video/x-flv;\n"));
}

#[test]
fn hardware_monitor_lamps_and_overrides() {
    assert!(!relay_monitor_lit(true, Some(true), true));
    assert!(relay_monitor_lit(false, Some(true), false));
    assert!(relay_monitor_lit(false, None, true));
    assert!(!relay_monitor_lit(false, Some(false), true));
    assert_eq!(relay_monitor_status(Some(true), false), "Override ON");
    assert_eq!(relay_monitor_status(None, true), "Timeline ON");
    assert_eq!(relay_monitor_status(None, false), "Idle (OFF)");
    let mut overrides = [None; 9];
    toggle_relay_override(&mut overrides, 4);
    assert_eq!(overrides[4], Some(true));
    toggle_relay_override(&mut overrides, 4);
    assert_eq!(overrides[4], None);
    toggle_relay_override(&mut overrides, 20);
    assert_eq!(overrides, [None; 9]);
}

#[test]
fn tab_titles() {
    assert_eq!(PealayerTab::Timeline.title(), "Timeline ⏱");
    assert_eq!(PealayerTab::ProgramMonitor.title(), "Program Monitor 🎬");
}

#[test]
fn macro_key_recording_creates_and_stretches_a_clip() {
    let mut tl = Timeline::<()>::new(vec![]);
    let id = tl.start_relay_recording(4, 12_000);
    assert_eq!(tl.templates[0].name, "Recorded Relay 4");
    assert_eq!(tl.templates[0].duration_ms, 100);
    assert_eq!(tl.instances[0].start_time_ms, 12_000);
    tl.finish_relay_recording(id, 4, 40);
    assert_eq!(tl.templates[0].duration_ms, 100);
    tl.finish_relay_recording(id, 4, 2500);
    assert_eq!(tl.templates[0].duration_ms, 2500);
    assert_eq!(tl.templates[0].actions[1], AtomicAction { relay_id: 4, state: false, offset_ms: 2500 });
}

fn entry(kind: Option<&str>, id: Option<i64>, title: Option<&str>, lang: Option<&str>) -> TrackListEntry {
    TrackListEntry {
        track_type: kind.map(|k| k.to_string()),
        id,
        title: title.map(|t| t.to_string()),
        lang: lang.map(|l| l.to_string()),
    }
}

#[test]
fn track_list_splits_into_subtitle_and_audio_tracks() {
    let entries = vec![
        entry(Some("video"), Some(1), None, None),
        entry(Some("audio"), Some(1), Some("Stereo"), Some("eng")),
        entry(Some("sub"), Some(1), Some("Full"), Some("eng")),
        entry(Some("sub"), None, Some("No id"), None),
        entry(None, Some(9), None, None),
        entry(Some("subtitle"), Some(4), None, None),
        entry(Some("sub"), Some(2), None, Some("fra")),
        entry(Some("audio"), Some(2), None, None),
    ];
    assert_eq!(
        subtitle_tracks_from(&entries),
        vec![
            SubtitleTrack { id: 1, title: Some("Full".to_string()), lang: Some("eng".to_string()) },
            SubtitleTrack { id: 2, title: None, lang: Some("fra".to_string()) },
        ]
    );
    assert_eq!(
        audio_tracks_from(&entries),
        vec![
            AudioTrack { id: 1, title: Some("Stereo".to_string()), lang: Some("eng".to_string()) },
            AudioTrack { id: 2, title: None, lang: None },
        ]
    );
    assert!(subtitle_tracks_from(&Vec::new()).is_empty());
}

#[test]
fn control_bar_clock_text() {
    assert_eq!(clock_text(75, false, false), "01:15");
    assert_eq!(clock_text(5, false, true), "-00:05");
    assert_eq!(clock_text(3725, true, false), "01:02:05");
    assert_eq!(clock_text(3725, false, false), "02:05");
    assert_eq!(clock_text(360_000, true, true), "-100:00:00");
}

#[test]
fn track_labels_join_language_and_title() {
    let s = |t: &str| Some(t.to_string());
    assert_eq!(track_label(1, &None, &None), "Track 1");
    assert_eq!(track_label(2, &s("eng"), &None), "Track 2 (eng)");
    assert_eq!(track_label(3, &None, &s("Commentary")), "Track 3 (Commentary)");
    assert_eq!(track_label(4, &s("fra"), &s("Forced")), "Track 4 (fra - Forced)");
    assert_eq!(track_label(5, &s(""), &s("")), "Track 5");
    assert_eq!(track_label(-7, &s(""), &s("x")), "Track -7 (x)");
}

#[test]
fn seek_then_tick_plays_exactly_the_window() {
    let action = |time_ms: u64, relay_id: u8, state: bool| CompiledAction { time_ms, relay_id, state };
    let queue = vec![
        action(100, 1, true),
        action(200, 2, true),
        action(300, 1, false),
        action(300, 3, true),
        action(400, 2, false),
    ];
    let mut engine = EngineState::new();
    assert!(engine.handle_message(EngineMessage::UpdateQueue(queue), 0, true).is_empty());
    assert_eq!(
        engine.handle_message(EngineMessage::Seek(150), 0, true),
        vec![EngineEffect::AllRelaysOff(OffReason::Seek)]
    );
    assert_eq!(
        engine.tick(false, true, true, 300),
        vec![
            EngineEffect::Relay(action(200, 2, true)),
            EngineEffect::Relay(action(300, 1, false)),
            EngineEffect::Relay(action(300, 3, true)),
        ]
    );
    // Held emergency stop: only switching off, no queued action, position kept.
    assert_eq!(engine.tick(true, true, true, 500), vec![EngineEffect::AllRelaysOff(OffReason::EmergencyStop), EngineEffect::AllRelaysOff(OffReason::Pause)]);
    assert_eq!(engine.index, 4);
    assert!(engine.tick(true, true, true, 600).is_empty());
    // Released and playing again: the rest of the window plays.
    assert_eq!(engine.tick(false, true, true, 600), vec![EngineEffect::Relay(action(400, 2, false))]);
}

#[test]
fn timeline_times_fit_detects_overflow() {
    let mut tl = Timeline::<()>::new(vec![]);
    assert!(timeline_times_fit(&tl));
    let e = Effect::new("Pulse".to_string(), "⚡".to_string(), 1000, generate_blink(1, 250, 1000));
    let id = e.id;
    tl.templates.push(e);
    tl.instances.push(EffectInstance::new(id, 5000));
    tl.instances.push(EffectInstance::new(id ^ 1, u64::MAX));
    assert!(timeline_times_fit(&tl), "an instance without template adds no time");
    tl.instances.push(EffectInstance::new(id, u64::MAX - 1000));
    assert!(timeline_times_fit(&tl));
    tl.instances.push(EffectInstance::new(id, u64::MAX - 999));
    assert!(!timeline_times_fit(&tl));
}

#[test]
fn effects_become_serial_lines() {
    assert_eq!(
        EngineEffect::AllRelaysOff(OffReason::Pause).serial_bytes(),
        b"R1:0\nR2:0\nR3:0\nR4:0\nR5:0\nR6:0\nR7:0\nR8:0\n".to_vec()
    );
    let cue = CompiledAction { time_ms: 5, relay_id: 3, state: true };
    assert_eq!(EngineEffect::Relay(cue).serial_bytes(), b"R3:1\n".to_vec());
    assert_eq!(
        EngineEffect::Pwm { channel: 2, value: 180 }.serial_bytes(),
        Command::PwmSet { channel: 2, value: 180 }.to_frame()
    );
}

#[test]
fn ticks_play_each_action_once() {
    let action = |time_ms: u64| CompiledAction { time_ms, relay_id: 1, state: time_ms % 200 == 0 };
    let queue: Vec<CompiledAction> = (1..=6).map(|k| action(k * 100)).collect();
    let mut engine = EngineState::new();
    assert!(engine.handle_message(EngineMessage::UpdateQueue(queue.clone()), 150, true).is_empty());
    let mut played = Vec::new();
    for t in [150, 180, 250, 250, 420, 600, 700] {
        played.extend(engine.tick(false, true, true, t));
    }
    let expected: Vec<EngineEffect> = queue[1..].iter().map(|a| EngineEffect::Relay(*a)).collect();
    assert_eq!(played, expected);
}

#[test]
fn placement_with_given_ids() {
    let payload = EffectDragPayload {
        name: "Fog".to_string(),
        icon: "🌫".to_string(),
        duration_ms: 800,
        target: HardwareTarget::Smoke,
        actions: vec![],
    };
    let mut tl = Timeline::<()>::new(vec![]);
    tl.place_effect_with_ids(&payload, 4, 1000, 77, 501);
    assert_eq!(tl.templates.len(), 1);
    assert_eq!(tl.templates[0].id, 77);
    assert_eq!(tl.instances[0], EffectInstance::with_id(501, 77, 1000));
    // The same payload on the same relay reuses the template; the offered id goes unused.
    tl.place_effect_with_ids(&payload, 4, 3000, 78, 502);
    assert_eq!(tl.templates.len(), 1);
    assert_eq!(tl.instances[1], EffectInstance::with_id(502, 77, 3000));
    // Two instances share template 77: isolating the second copies it under id 90.
    assert_eq!(tl.isolate_template_with_id(502, 90), Some(90));
    assert_eq!(tl.templates[1].id, 90);
    assert_eq!(tl.instances[1].effect_id, 90);
    // Now alone on its template: nothing to copy.
    assert_eq!(tl.isolate_template_with_id(502, 91), Some(90));
    tl.start_relay_recording_with_ids(6, 2000, 120, 503);
    assert_eq!(tl.templates[2].id, 120);
    assert_eq!(tl.instances[2], EffectInstance::with_id(503, 120, 2000));
    let e = Effect::with_id(5, "A".to_string(), "x".to_string(), 10, HardwareTarget::Any, vec![]);
    assert_eq!(e.id, 5);
}

#[test]
fn punch_in_keeps_keyframes_outside_the_recording() {
    assert_eq!(sample_span(&vec![]), None);
    assert_eq!(sample_span(&vec![1500, 1200, 1900, 1300]), Some((1200, 1900)));
    let times = vec![1000, 1200, 1500, 1900, 2000];
    assert_eq!(punch_in_kept(&times, 1200, 1900), vec![0, 4]);
    assert_eq!(punch_in_kept(&times, 3000, 4000), vec![0, 1, 2, 3, 4]);
    assert!(punch_in_kept(&times, 0, 5000).is_empty());
}
