use pealayer::four_d::models::{AtomicAction, Effect, EffectInstance, HardwareTarget, Timeline};
use pealayer::ui::clip_drag::{
    move_start_time, move_target_relay, resize_left_bounds, resize_right_duration, snap_targets,
};

fn water(duration: u64) -> Effect {
    Effect::with_target(
        "Water Cue".to_string(),
        "💧".to_string(),
        duration,
        HardwareTarget::Water,
        vec![
            AtomicAction { relay_id: 1, state: true, offset_ms: 0 },
            AtomicAction { relay_id: 1, state: false, offset_ms: duration },
        ],
    )
}

#[test]
fn snap_targets_list_playhead_and_other_clips() {
    let mut tl = Timeline::<()>::new(vec![]);
    let t = water(1000);
    let tid = t.id;
    tl.templates.push(t);
    let a = EffectInstance::new(tid, 1000);
    let b = EffectInstance::new(tid, 2500);
    let c = EffectInstance::new(tid, 6000);
    let (a_id, c_id) = (a.id, c.id);
    tl.instances.push(a);
    tl.instances.push(b);
    tl.instances.push(c);
    tl.instances.push(EffectInstance::new(tid ^ 1, 9000));
    let targets = snap_targets(&tl, a_id, &vec![c_id], 2150);
    assert_eq!(targets, vec![0, 2150, 2500, 3500]);
}

#[test]
fn resize_right_snaps_and_keeps_minimum() {
    let targets = vec![0, 2150, 2500, 3500];
    assert_eq!(resize_right_duration(1000, 1000, 480, &targets, true), 1500);
    assert_eq!(resize_right_duration(1000, 1000, 480, &targets, false), 1480);
    assert_eq!(resize_right_duration(1000, 1000, 130, &targets, true), 1150);
    assert_eq!(resize_right_duration(1000, 1000, -990, &targets, false), 100);
    assert_eq!(resize_right_duration(1000, 1000, -5000, &targets, true), 100);
}

#[test]
fn resize_left_keeps_right_edge() {
    let targets = vec![0, 2150, 1000, 2000];
    assert_eq!(resize_left_bounds(2500, 1000, -480, &targets, true), (2000, 1500));
    assert_eq!(resize_left_bounds(2500, 1000, -480, &targets, false), (2020, 1480));
    assert_eq!(resize_left_bounds(2500, 1000, 2000, &targets, true), (3400, 100));
    assert_eq!(resize_left_bounds(2500, 1000, -9000, &targets, false), (0, 3500));
    assert_eq!(resize_left_bounds(20, 50, 10, &targets, false), (0, 70));
}

#[test]
fn move_snaps_start_then_end() {
    let targets = vec![0, 5000, 8000];
    // start near 5000
    assert_eq!(move_start_time(1000, 1000, 3950, &targets, true), 5000);
    // start 6000 is not near, end 7000+... 6950 + 1000 = 7950 near 8000
    assert_eq!(move_start_time(1000, 1000, 5950, &targets, true), 7000);
    // snapping off
    assert_eq!(move_start_time(1000, 1000, 5950, &targets, false), 6950);
    // never before zero
    assert_eq!(move_start_time(1000, 1000, -4000, &targets, false), 0);
    // end snaps to a target earlier than the duration: start stays at zero
    assert_eq!(move_start_time(0, 3000, 0, &vec![2950], true), 0);
}

#[test]
fn moving_to_another_relay_row_checks_lock_and_target() {
    let mut tl = Timeline::<()>::new(vec![]);
    let t = water(1000);
    let tid = t.id;
    tl.templates.push(t);
    let inst = EffectInstance::new(tid, 0);
    let id = inst.id;
    tl.instances.push(inst);
    let mut locked = [false; 9];
    assert_eq!(move_target_relay(&tl, id, 6, &locked), Some(5));
    assert_eq!(move_target_relay(&tl, id, 3, &locked), None);
    assert_eq!(move_target_relay(&tl, id, 1, &locked), None);
    locked[5] = true;
    assert_eq!(move_target_relay(&tl, id, 6, &locked), None);
    assert_eq!(move_target_relay(&tl, id ^ 1, 3, &locked), Some(2));
}

#[test]
fn group_move_resize_and_retarget_on_timeline() {
    let mut tl = Timeline::<()>::new(vec![]);
    let t = water(1000);
    let tid = t.id;
    tl.templates.push(t);
    let a = EffectInstance::new(tid, 1000);
    let b = EffectInstance::new(tid, 3000);
    let (a_id, b_id) = (a.id, b.id);
    tl.instances.push(a);
    tl.instances.push(b);
    tl.move_instances(&vec![(a_id, 1000), (b_id, 3000)], -1500);
    assert_eq!(tl.instances[0].start_time_ms, 0);
    assert_eq!(tl.instances[1].start_time_ms, 1500);
    tl.set_instance_duration(b_id, 2000);
    assert_eq!(tl.templates[0].duration_ms, 2000);
    assert_eq!(tl.templates[0].actions[1].offset_ms, 2000);
    tl.retarget_instance(a_id, 6);
    assert_eq!(
        tl.templates[0].actions,
        vec![
            AtomicAction { relay_id: 6, state: true, offset_ms: 0 },
            AtomicAction { relay_id: 6, state: false, offset_ms: 2000 },
        ]
    );
    tl.set_instance_start(b_id, 42);
    assert_eq!(tl.instances[1].start_time_ms, 42);
}
