use pealayer::four_d::models::{AtomicAction, Effect, EffectInstance, HardwareTarget};
use pealayer::four_d::patterns::generate_constant;
use pealayer::ui::layout::TimelineEditor;

/// An editor with one shared template (`shared`) played by two instances and one
/// template (`solo`) played by a third.
fn editor_with_three_clips() -> (TimelineEditor<()>, [u128; 3]) {
    let mut editor = TimelineEditor::<()>::new(vec![]);
    let shared = Effect::with_target(
        "Water Splash".to_string(),
        "💧".to_string(),
        1500,
        HardwareTarget::Water,
        generate_constant(1, true, 1500),
    );
    let solo = Effect::with_target(
        "Gust".to_string(),
        "💨".to_string(),
        800,
        HardwareTarget::Wind,
        vec![
            AtomicAction { relay_id: 2, state: true, offset_ms: 0 },
            AtomicAction { relay_id: 2, state: false, offset_ms: 300 },
            AtomicAction { relay_id: 2, state: true, offset_ms: 500 },
        ],
    );
    let a = EffectInstance::new(shared.id, 0);
    let b = EffectInstance::new(shared.id, 4000);
    let c = EffectInstance::new(solo.id, 2000);
    editor.timeline.templates.push(shared);
    editor.timeline.templates.push(solo);
    editor.timeline.instances.push(a);
    editor.timeline.instances.push(b);
    editor.timeline.instances.push(c);
    (editor, [a.id, b.id, c.id])
}

#[test]
fn plain_click_selects_one_and_keeps_a_selected_group() {
    let (mut editor, [a, b, c]) = editor_with_three_clips();
    editor.click_instance(a, false);
    assert_eq!(editor.selected_instance_ids, vec![a]);
    editor.click_instance(b, false);
    assert_eq!(editor.selected_instance_ids, vec![b]);
    editor.click_instance(c, true);
    assert_eq!(editor.selected_instance_ids, vec![b, c]);
    // A plain click on a member of the selection keeps the group for dragging.
    editor.click_instance(c, false);
    assert_eq!(editor.selected_instance_ids, vec![b, c]);
}

#[test]
fn ctrl_click_toggles_membership() {
    let (mut editor, [a, b, _]) = editor_with_three_clips();
    editor.click_instance(a, true);
    editor.click_instance(b, true);
    assert_eq!(editor.selected_instance_ids, vec![a, b]);
    editor.click_instance(a, true);
    assert_eq!(editor.selected_instance_ids, vec![b]);
    editor.click_instance(a, true);
    editor.click_instance(a, true);
    assert_eq!(editor.selected_instance_ids, vec![b]);
    assert_eq!(editor.undo_stack.undo_len(), 0, "selection is not recorded in the history");
}

#[test]
fn grabbing_an_unselected_clip_replaces_or_extends_the_selection() {
    let (mut editor, [a, b, c]) = editor_with_three_clips();
    editor.grab_instance(a, false);
    assert_eq!(editor.selected_instance_ids, vec![a]);
    editor.grab_instance(b, true);
    assert_eq!(editor.selected_instance_ids, vec![a, b]);
    editor.grab_instance(a, false);
    assert_eq!(editor.selected_instance_ids, vec![a, b]);
    editor.grab_instance(c, false);
    assert_eq!(editor.selected_instance_ids, vec![c]);
}

#[test]
fn select_all_then_escape() {
    let (mut editor, [a, b, c]) = editor_with_three_clips();
    editor.select_all();
    assert_eq!(editor.selected_instance_ids, vec![a, b, c]);
    editor.clear_selection();
    assert!(editor.selected_instance_ids.is_empty());
}

#[test]
fn selected_positions_follow_timeline_order() {
    let (mut editor, [a, _, c]) = editor_with_three_clips();
    editor.click_instance(c, true);
    editor.click_instance(a, true);
    assert_eq!(editor.selected_positions(), vec![(a, 0), (c, 2000)]);
    editor.clear_selection();
    assert!(editor.selected_positions().is_empty());
}

#[test]
fn delete_key_removes_selection_with_history() {
    let (mut editor, [a, b, c]) = editor_with_three_clips();
    assert!(!editor.delete_selection(false), "nothing selected: nothing happens");
    assert_eq!(editor.undo_stack.undo_len(), 0);
    editor.click_instance(a, true);
    editor.click_instance(c, true);
    assert!(editor.delete_selection(false));
    assert_eq!(editor.timeline.instances.len(), 1);
    assert_eq!(editor.timeline.instances[0].id, b);
    assert!(editor.selected_instance_ids.is_empty());
    assert!(editor.undo());
    assert_eq!(editor.timeline.instances.len(), 3);
    // Selected keyframes alone still record a step.
    assert!(editor.delete_selection(true));
    assert_eq!(editor.timeline.instances.len(), 3);
    assert_eq!(editor.undo_stack.undo_len(), 1);
}

#[test]
fn bulk_delete_skips_the_history() {
    let (mut editor, [a, b, c]) = editor_with_three_clips();
    editor.click_instance(b, false);
    editor.remove_selected_instances();
    let left: Vec<u128> = editor.timeline.instances.iter().map(|i| i.id).collect();
    assert_eq!(left, vec![a, c]);
    assert!(editor.selected_instance_ids.is_empty());
    assert_eq!(editor.undo_stack.undo_len(), 0);
}

#[test]
fn bulk_retarget_rewrites_each_used_template() {
    let (mut editor, [a, _, _]) = editor_with_three_clips();
    editor.click_instance(a, false);
    editor.retarget_selected(5);
    assert_eq!(
        editor.timeline.templates[0].actions,
        vec![
            AtomicAction { relay_id: 5, state: true, offset_ms: 0 },
            AtomicAction { relay_id: 5, state: false, offset_ms: 1500 },
        ]
    );
    assert_eq!(editor.timeline.templates[0].duration_ms, 1500);
    assert_eq!(editor.timeline.templates[1].actions.len(), 3, "templates of unselected clips stay");
    assert_eq!(editor.timeline.templates[1].actions[0].relay_id, 2);
    assert_eq!(editor.undo_stack.undo_len(), 0);
}

#[test]
fn inspector_relay_choice_readdresses_actions() {
    let (mut editor, [_, _, c]) = editor_with_three_clips();
    editor.timeline.set_instance_relay(c, 7);
    assert_eq!(
        editor.timeline.templates[1].actions,
        vec![
            AtomicAction { relay_id: 7, state: true, offset_ms: 0 },
            AtomicAction { relay_id: 7, state: false, offset_ms: 300 },
            AtomicAction { relay_id: 7, state: true, offset_ms: 500 },
        ]
    );
    // An empty template becomes a constant ON for its duration.
    editor.timeline.templates[1].actions.clear();
    editor.timeline.set_instance_relay(c, 4);
    assert_eq!(editor.timeline.templates[1].actions, generate_constant(4, true, 800));
    // Unknown instances change nothing.
    let before = editor.timeline.templates.clone();
    editor.timeline.set_instance_relay(c ^ 1, 3);
    assert_eq!(editor.timeline.templates, before);
}

#[test]
fn undo_clears_the_selection() {
    let (mut editor, [a, b, _]) = editor_with_three_clips();
    editor.click_instance(a, true);
    assert!(editor.delete_selection(false));
    editor.click_instance(b, false);
    assert!(editor.undo());
    assert!(editor.selected_instance_ids.is_empty());
    editor.click_instance(b, false);
    assert!(editor.redo());
    assert!(editor.selected_instance_ids.is_empty());
    editor.click_instance(b, false);
    assert!(!editor.redo());
    assert_eq!(editor.selected_instance_ids, vec![b]);
}
