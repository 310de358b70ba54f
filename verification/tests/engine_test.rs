use pealayer::four_d::engine::{compile_timeline, evaluate_relay_state};
use pealayer::four_d::models::{AtomicAction, Effect, EffectInstance, Timeline};

#[test]
fn test_compile_timeline_basic() {
    let mut timeline = Timeline::<()>::new(vec![]);
    let effect = Effect::new(
        "Test Constant".to_string(),
        "🧪".to_string(),
        1000,
        vec![
            AtomicAction { relay_id: 1, state: true, offset_ms: 0 },
            AtomicAction { relay_id: 1, state: false, offset_ms: 1000 },
        ],
    );
    let effect_id = effect.id;
    timeline.templates.push(effect);

    let instance = EffectInstance::new(effect_id, 500);
    timeline.instances.push(instance);

    let muted = [false; 9];
    let soloed = [false; 9];
    let compiled = compile_timeline(&timeline, &muted, &soloed);

    assert_eq!(compiled.len(), 2);
    assert_eq!(compiled[0].time_ms, 500);
    assert_eq!(compiled[0].relay_id, 1);
    assert_eq!(compiled[0].state, true);

    assert_eq!(compiled[1].time_ms, 1500);
    assert_eq!(compiled[1].relay_id, 1);
    assert_eq!(compiled[1].state, false);
}

#[test]
fn test_compile_timeline_overlap() {
    let mut timeline = Timeline::<()>::new(vec![]);

    // Effect A: relay 1 ON at 0, OFF at 1000
    let effect_a = Effect::new(
        "Effect A".to_string(),
        "A".to_string(),
        1000,
        vec![
            AtomicAction { relay_id: 1, state: true, offset_ms: 0 },
            AtomicAction { relay_id: 1, state: false, offset_ms: 1000 },
        ],
    );
    let id_a = effect_a.id;
    timeline.templates.push(effect_a);

    // Effect B: relay 1 OFF at 0, ON at 500, OFF at 1000 (effectively starts OFF then turns ON)
    let effect_b = Effect::new(
        "Effect B".to_string(),
        "B".to_string(),
        1000,
        vec![
            AtomicAction { relay_id: 1, state: false, offset_ms: 0 },
            AtomicAction { relay_id: 1, state: true, offset_ms: 500 },
            AtomicAction { relay_id: 1, state: false, offset_ms: 1000 },
        ],
    );
    let id_b = effect_b.id;
    timeline.templates.push(effect_b);

    // Instance A placed at 0ms.
    timeline.instances.push(EffectInstance::new(id_a, 0));
    // Instance B placed at 200ms. Since it is pushed later, it has higher Z-index.
    timeline.instances.push(EffectInstance::new(id_b, 200));

    let muted = [false; 9];
    let soloed = [false; 9];

    // Let's verify state at 300ms.
    // For Instance A (offset 300): it should be ON.
    // For Instance B (offset 100): it should be OFF.
    // Since Instance B has higher Z-index, the state at 300ms should be OFF.
    let state_300 = evaluate_relay_state(&timeline, 1, 300, &muted, &soloed);
    assert_eq!(state_300, false);

    // At 800ms:
    // Instance A (offset 800): ON
    // Instance B (offset 600): ON
    let state_800 = evaluate_relay_state(&timeline, 1, 800, &muted, &soloed);
    assert_eq!(state_800, true);
}

#[test]
fn test_compile_timeline_muted_soloed() {
    let mut timeline = Timeline::<()>::new(vec![]);
    let effect = Effect::new(
        "Test Constant".to_string(),
        "🧪".to_string(),
        1000,
        vec![
            AtomicAction { relay_id: 1, state: true, offset_ms: 0 },
            AtomicAction { relay_id: 2, state: true, offset_ms: 0 },
        ],
    );
    let effect_id = effect.id;
    timeline.templates.push(effect);
    timeline.instances.push(EffectInstance::new(effect_id, 500));

    // Mute Relay 1
    let mut muted = [false; 9];
    muted[1] = true;
    let soloed = [false; 9];

    let compiled = compile_timeline(&timeline, &muted, &soloed);
    // Only Relay 2 should produce compiled actions
    assert!(compiled.iter().all(|act| act.relay_id != 1));
    assert!(compiled.iter().any(|act| act.relay_id == 2));

    // Solo Relay 1
    let muted = [false; 9];
    let mut soloed = [false; 9];
    soloed[1] = true;

    let compiled = compile_timeline(&timeline, &muted, &soloed);
    // Only Relay 1 should produce compiled actions since it is soloed
    assert!(compiled.iter().any(|act| act.relay_id == 1));
    assert!(compiled.iter().all(|act| act.relay_id != 2));
}
