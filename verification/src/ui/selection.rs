use vstd::prelude::*;
use crate::app::constant_on;
use crate::four_d::models::{
    AtomicAction, Effect, EffectInstance, find_template_index, template_index, lemma_template_index,
};
use crate::four_d::patterns::generate_constant;
use crate::ui::layout::{TimelineEditor, is_snapshot_of, recorded_undo};

verus! {

/// Every id but `id`.
pub open spec fn other_than(id: u128) -> spec_fn(u128) -> bool {
    |x: u128| x != id
}

/// The selection after a click on instance `id`. With the toggle modifier (Ctrl or Cmd) the
/// instance leaves the selection when it was in it and joins it otherwise. Without it, a
/// click on an unselected instance makes it the only selected one, and a click on a
/// selected one keeps the selection as it is (so that a group can be dragged).
pub open spec fn clicked_selection(sel: Seq<u128>, id: u128, toggle: bool) -> Seq<u128> {
    if toggle {
        if sel.contains(id) {
            sel.filter(other_than(id))
        } else {
            sel.push(id)
        }
    } else if sel.contains(id) {
        sel
    } else {
        seq![id]
    }
}

/// The selection when a drag starts on instance `id`: a selected instance keeps the
/// selection; an unselected one joins it with the additive modifier and replaces it
/// without.
pub open spec fn grabbed_selection(sel: Seq<u128>, id: u128, additive: bool) -> Seq<u128> {
    if sel.contains(id) {
        sel
    } else if additive {
        sel.push(id)
    } else {
        seq![id]
    }
}

/// Id and start of each selected instance, in timeline order: what a group drag moves.
pub open spec fn selected_positions_spec(insts: Seq<EffectInstance>, sel: Seq<u128>) -> Seq<(u128, u64)>
    decreases insts.len(),
{
    if insts.len() == 0 {
        Seq::empty()
    } else {
        let rest = selected_positions_spec(insts.drop_last(), sel);
        let i = insts.last();
        if sel.contains(i.id) {
            rest.push((i.id, i.start_time_ms))
        } else {
            rest
        }
    }
}

/// The instances that are not selected.
pub open spec fn unselected(insts: Seq<EffectInstance>, sel: Seq<u128>) -> Seq<EffectInstance> {
    insts.filter(|i: EffectInstance| !sel.contains(i.id))
}

/// Template `k` is the one that some selected instance plays (the first template with
/// that instance's effect id).
pub open spec fn used_by_selection(insts: Seq<EffectInstance>, sel: Seq<u128>, templates: Seq<Effect>, k: int) -> bool {
    exists|j: int|
        0 <= j < insts.len() && sel.contains(#[trigger] insts[j].id) && template_index(templates, insts[j].effect_id)
            == Some(k)
}

/// `c` is template `t` moved onto `relay` as a constant ON for its whole duration.
pub open spec fn retargeted(t: Effect, relay: u8, c: Effect) -> bool {
    &&& c.id == t.id
    &&& c.name == t.name
    &&& c.icon == t.icon
    &&& c.target == t.target
    &&& c.duration_ms == t.duration_ms
    &&& c.actions@ == constant_on(relay, t.duration_ms)
}

/// Selection changes alone: everything but the selection stays as it was.
pub open spec fn only_selection_changed<A>(before: TimelineEditor<A>, after: TimelineEditor<A>) -> bool {
    &&& after.timeline == before.timeline
    &&& after.undo_stack == before.undo_stack
    &&& after.track_muted == before.track_muted
    &&& after.track_soloed == before.track_soloed
    &&& after.track_locked == before.track_locked
    &&& after.osd_message == before.osd_message
}

proof fn lemma_filter_keeps_distinct(s: Seq<u128>, p: spec_fn(u128) -> bool)
    requires
        s.no_duplicates(),
    ensures
        s.filter(p).no_duplicates(),
    decreases s.len(),
{
    reveal(Seq::filter);
    if s.len() > 0 {
        let init = s.drop_last();
        assert(init.no_duplicates());
        lemma_filter_keeps_distinct(init, p);
        if p(s.last()) {
            let f = init.filter(p);
            if f.contains(s.last()) {
                init.lemma_filter_contains_rev(p, s.last());
                let k = choose|k: int| 0 <= k < init.len() && init[k] == s.last();
                assert(s[k] == s[s.len() - 1]);
            }
            assert forall|a: int, b: int| 0 <= a < b < f.push(s.last()).len() implies f.push(s.last())[a]
                != f.push(s.last())[b] by {
                if b == f.len() {
                    assert(f.contains(f[a]));
                }
            }
        }
    }
}

proof fn lemma_filter_membership(s: Seq<u128>, id: u128, x: u128)
    ensures
        s.filter(other_than(id)).contains(x) == (s.contains(x) && x != id),
{
    let p = other_than(id);
    if s.filter(p).contains(x) {
        s.lemma_filter_contains_rev(p, x);
        let k = choose|k: int| 0 <= k < s.filter(p).len() && s.filter(p)[k] == x;
        s.lemma_filter_pred(p, k);
    }
    if s.contains(x) && x != id {
        let k = choose|k: int| 0 <= k < s.len() && s[k] == x;
        s.lemma_filter_contains(p, k);
    }
}

/// The selection never holds an id twice: a click and the start of a drag each leave a
/// duplicate-free selection duplicate-free.
pub proof fn lemma_selection_stays_distinct(sel: Seq<u128>, id: u128, modifier: bool)
    requires
        sel.no_duplicates(),
    ensures
        clicked_selection(sel, id, modifier).no_duplicates(),
        grabbed_selection(sel, id, modifier).no_duplicates(),
{
    lemma_filter_keeps_distinct(sel, other_than(id));
    if !sel.contains(id) {
        assert forall|a: int, b: int| 0 <= a < b < sel.push(id).len() implies sel.push(id)[a] != sel.push(id)[b] by {
            if b == sel.len() {
                assert(sel.push(id)[a] == sel[a]);
            }
        }
    }
}

/// Ctrl-clicking an instance twice leaves the set of selected instances as it was.
pub proof fn lemma_toggle_twice(sel: Seq<u128>, id: u128)
    ensures
        clicked_selection(clicked_selection(sel, id, true), id, true).to_set() == sel.to_set(),
{
    let once = clicked_selection(sel, id, true);
    let twice = clicked_selection(once, id, true);
    assert forall|x: u128| twice.contains(x) == sel.contains(x) by {
        if sel.contains(id) {
            lemma_filter_membership(sel, id, x);
            lemma_filter_membership(sel, id, id);
            assert(twice == once.push(id));
            if x == id {
                assert(twice[once.len() as int] == id);
            } else if twice.contains(x) {
                let k = choose|k: int| 0 <= k < twice.len() && twice[k] == x;
                assert(once[k] == x);
            } else if once.contains(x) {
                let k = choose|k: int| 0 <= k < once.len() && once[k] == x;
                assert(twice[k] == x);
            }
        } else {
            assert(once == sel.push(id));
            assert(once[sel.len() as int] == id);
            lemma_filter_membership(once, id, x);
            if x != id {
                if once.contains(x) {
                    let k = choose|k: int| 0 <= k < once.len() && once[k] == x;
                    assert(sel[k] == x);
                } else if sel.contains(x) {
                    let k = choose|k: int| 0 <= k < sel.len() && sel[k] == x;
                    assert(once[k] == x);
                }
            }
        }
    }
    assert(twice.to_set() =~= sel.to_set());
}

/// Whether `id` is among `ids`.
fn holds_id(ids: &Vec<u128>, id: u128) -> (r: bool)
    ensures
        r == ids@.contains(id),
{
    let mut k: usize = 0;
    while k < ids.len()
        invariant
            k <= ids.len(),
            forall|j: int| 0 <= j < k ==> ids@[j] != id,
        decreases ids.len() - k,
    {
        if ids[k] == id {
            assert(ids@[k as int] == id);
            return true;
        }
        k = k + 1;
    }
    false
}

/// The ids other than `id`, in order.
fn ids_without(ids: &Vec<u128>, id: u128) -> (r: Vec<u128>)
    ensures
        r@ == ids@.filter(other_than(id)),
{
    let ghost keep = other_than(id);
    let mut r: Vec<u128> = Vec::new();
    let mut k: usize = 0;
    while k < ids.len()
        invariant
            k <= ids.len(),
            keep == other_than(id),
            r@ == ids@.take(k as int).filter(keep),
        decreases ids.len() - k,
    {
        proof {
            reveal(Seq::filter);
            assert(ids@.take(k + 1).drop_last() =~= ids@.take(k as int));
        }
        if ids[k] != id {
            r.push(ids[k]);
        }
        k = k + 1;
    }
    assert(ids@.take(k as int) =~= ids@);
    r
}

/// The instances whose ids are not among `ids`, in order.
fn instances_without(insts: &Vec<EffectInstance>, ids: &Vec<u128>) -> (r: Vec<EffectInstance>)
    ensures
        r@ == unselected(insts@, ids@),
{
    let ghost keep = |i: EffectInstance| !ids@.contains(i.id);
    let mut r: Vec<EffectInstance> = Vec::new();
    let mut k: usize = 0;
    while k < insts.len()
        invariant
            k <= insts.len(),
            keep == (|i: EffectInstance| !ids@.contains(i.id)),
            r@ == insts@.take(k as int).filter(keep),
        decreases insts.len() - k,
    {
        proof {
            reveal(Seq::filter);
            assert(insts@.take(k + 1).drop_last() =~= insts@.take(k as int));
        }
        let inst = insts[k];
        if !holds_id(ids, inst.id) {
            r.push(inst);
        }
        k = k + 1;
    }
    assert(insts@.take(k as int) =~= insts@);
    r
}

impl<A> TimelineEditor<A> {
    /// A click on instance `id`, with or without the toggle modifier (see
    /// `clicked_selection`).
    pub fn click_instance(&mut self, id: u128, toggle: bool)
        ensures
            final(self).selected_instance_ids@ == clicked_selection(old(self).selected_instance_ids@, id, toggle),
            only_selection_changed(*old(self), *final(self)),
    {
        let selected = holds_id(&self.selected_instance_ids, id);
        if toggle {
            if selected {
                self.selected_instance_ids = ids_without(&self.selected_instance_ids, id);
            } else {
                self.selected_instance_ids.push(id);
            }
        } else if !selected {
            self.selected_instance_ids = vec![id];
            assert(self.selected_instance_ids@ =~= seq![id]);
        }
    }

    /// The start of a drag on instance `id`, with or without the additive modifier (see
    /// `grabbed_selection`).
    pub fn grab_instance(&mut self, id: u128, additive: bool)
        ensures
            final(self).selected_instance_ids@ == grabbed_selection(old(self).selected_instance_ids@, id, additive),
            only_selection_changed(*old(self), *final(self)),
    {
        if !holds_id(&self.selected_instance_ids, id) {
            if additive {
                self.selected_instance_ids.push(id);
            } else {
                self.selected_instance_ids = vec![id];
                assert(self.selected_instance_ids@ =~= seq![id]);
            }
        }
    }

    /// Selects every instance of the timeline.
    pub fn select_all(&mut self)
        ensures
            final(self).selected_instance_ids@ == old(self).timeline.instances@.map_values(|i: EffectInstance| i.id),
            only_selection_changed(*old(self), *final(self)),
    {
        let mut ids: Vec<u128> = Vec::new();
        let mut k: usize = 0;
        while k < self.timeline.instances.len()
            invariant
                k <= self.timeline.instances.len(),
                ids@ == self.timeline.instances@.take(k as int).map_values(|i: EffectInstance| i.id),
            decreases self.timeline.instances.len() - k,
        {
            ids.push(self.timeline.instances[k].id);
            k = k + 1;
            assert(ids@ =~= self.timeline.instances@.take(k as int).map_values(|i: EffectInstance| i.id));
        }
        assert(self.timeline.instances@.take(k as int) =~= self.timeline.instances@);
        self.selected_instance_ids = ids;
    }

    /// Deselects everything.
    pub fn clear_selection(&mut self)
        ensures
            final(self).selected_instance_ids@.len() == 0,
            only_selection_changed(*old(self), *final(self)),
    {
        self.selected_instance_ids = Vec::new();
    }

    /// Id and start of each selected instance, in timeline order.
    pub fn selected_positions(&self) -> (r: Vec<(u128, u64)>)
        ensures
            r@ == selected_positions_spec(self.timeline.instances@, self.selected_instance_ids@),
    {
        let mut r: Vec<(u128, u64)> = Vec::new();
        let mut k: usize = 0;
        while k < self.timeline.instances.len()
            invariant
                k <= self.timeline.instances.len(),
                r@ == selected_positions_spec(self.timeline.instances@.take(k as int), self.selected_instance_ids@),
            decreases self.timeline.instances.len() - k,
        {
            let inst = self.timeline.instances[k];
            assert(self.timeline.instances@.take(k + 1).drop_last() =~= self.timeline.instances@.take(k as int));
            if holds_id(&self.selected_instance_ids, inst.id) {
                r.push((inst.id, inst.start_time_ms));
            }
            k = k + 1;
        }
        assert(self.timeline.instances@.take(k as int) =~= self.timeline.instances@);
        r
    }

    /// Removes every selected instance and clears the selection, without recording the
    /// change in the history (the bulk "Delete All Selected" action).
    pub fn remove_selected_instances(&mut self)
        ensures
            final(self).timeline.instances@ == unselected(
                old(self).timeline.instances@,
                old(self).selected_instance_ids@,
            ),
            final(self).timeline.templates == old(self).timeline.templates,
            final(self).timeline.analog_tracks == old(self).timeline.analog_tracks,
            final(self).selected_instance_ids@.len() == 0,
            final(self).undo_stack == old(self).undo_stack,
            final(self).track_muted == old(self).track_muted,
            final(self).track_soloed == old(self).track_soloed,
            final(self).track_locked == old(self).track_locked,
            final(self).osd_message == old(self).osd_message,
    {
        self.timeline.instances = instances_without(&self.timeline.instances, &self.selected_instance_ids);
        self.selected_instance_ids = Vec::new();
    }

    /// Gives every template that a selected instance plays a constant ON on `relay` for
    /// its whole duration (the bulk "Set R1".."Set R8" actions), without recording the
    /// change in the history.
    pub fn retarget_selected(&mut self, relay: u8)
        ensures
            final(self).timeline.instances == old(self).timeline.instances,
            final(self).timeline.analog_tracks == old(self).timeline.analog_tracks,
            final(self).timeline.templates@.len() == old(self).timeline.templates@.len(),
            forall|k: int|
                0 <= k < old(self).timeline.templates@.len() ==> if used_by_selection(
                    old(self).timeline.instances@,
                    old(self).selected_instance_ids@,
                    old(self).timeline.templates@,
                    k,
                ) {
                    retargeted(old(self).timeline.templates@[k], relay, #[trigger] final(self).timeline.templates@[k])
                } else {
                    final(self).timeline.templates@[k] == old(self).timeline.templates@[k]
                },
            final(self).selected_instance_ids == old(self).selected_instance_ids,
            final(self).undo_stack == old(self).undo_stack,
            final(self).track_muted == old(self).track_muted,
            final(self).track_soloed == old(self).track_soloed,
            final(self).track_locked == old(self).track_locked,
            final(self).osd_message == old(self).osd_message,
    {
        let ghost insts = old(self).timeline.instances@;
        let ghost sel = old(self).selected_instance_ids@;
        let ghost orig = old(self).timeline.templates@;
        let mut j: usize = 0;
        while j < self.timeline.instances.len()
            invariant
                j <= self.timeline.instances.len(),
                self.timeline.instances@ == insts,
                self.timeline.instances == old(self).timeline.instances,
                self.timeline.analog_tracks == old(self).timeline.analog_tracks,
                self.selected_instance_ids@ == sel,
                self.selected_instance_ids == old(self).selected_instance_ids,
                self.undo_stack == old(self).undo_stack,
                self.track_muted == old(self).track_muted,
                self.track_soloed == old(self).track_soloed,
                self.track_locked == old(self).track_locked,
                self.osd_message == old(self).osd_message,
                self.timeline.templates@.len() == orig.len(),
                forall|k: int| 0 <= k < orig.len() ==> #[trigger] self.timeline.templates@[k].id == orig[k].id,
                forall|k: int|
                    0 <= k < orig.len() ==> if used_by_selection(insts.take(j as int), sel, orig, k) {
                        retargeted(orig[k], relay, #[trigger] self.timeline.templates@[k])
                    } else {
                        self.timeline.templates@[k] == orig[k]
                    },
            decreases self.timeline.instances.len() - j,
        {
            let inst = self.timeline.instances[j];
            proof {
                lemma_template_index(orig, inst.effect_id);
                lemma_template_index(self.timeline.templates@, inst.effect_id);
                assert(template_index(self.timeline.templates@, inst.effect_id) == template_index(orig, inst.effect_id))
                    by {
                    lemma_same_ids_same_index(self.timeline.templates@, orig, inst.effect_id);
                }
            }
            if holds_id(&self.selected_instance_ids, inst.id) {
                if let Some(k) = find_template_index(&self.timeline.templates, inst.effect_id) {
                    let t = &self.timeline.templates[k];
                    let c = Effect {
                        id: t.id,
                        name: t.name.clone(),
                        icon: t.icon.clone(),
                        duration_ms: t.duration_ms,
                        target: t.target,
                        actions: generate_constant(relay, true, t.duration_ms),
                    };
                    self.timeline.templates.set(k, c);
                }
            }
            proof {
                let next = insts.take(j + 1);
                assert(next.drop_last() =~= insts.take(j as int));
                assert forall|k: int| 0 <= k < orig.len() implies used_by_selection(next, sel, orig, k) == (
                used_by_selection(insts.take(j as int), sel, orig, k) || (sel.contains(inst.id) && template_index(
                    orig,
                    inst.effect_id,
                ) == Some(k))) by {
                    if used_by_selection(next, sel, orig, k) {
                        let w = choose|w: int|
                            0 <= w < next.len() && sel.contains(#[trigger] next[w].id) && template_index(
                                orig,
                                next[w].effect_id,
                            ) == Some(k);
                        if w < j {
                            assert(insts.take(j as int)[w] == next[w]);
                        }
                    }
                    if used_by_selection(insts.take(j as int), sel, orig, k) {
                        let w = choose|w: int|
                            0 <= w < j && sel.contains(#[trigger] insts.take(j as int)[w].id) && template_index(
                                orig,
                                insts.take(j as int)[w].effect_id,
                            ) == Some(k);
                        assert(next[w] == insts.take(j as int)[w]);
                    }
                    if sel.contains(inst.id) && template_index(orig, inst.effect_id) == Some(k) {
                        assert(next[j as int] == inst);
                    }
                }
            }
            j = j + 1;
        }
        assert(insts.take(j as int) =~= insts);
    }

}

impl<A: Clone> TimelineEditor<A> {
    /// Deletes the selection (the Delete key): when instances are selected, or the
    /// caller has keyframes selected, the timeline is first recorded in the history, then
    /// the selected instances are removed and nothing stays selected. Returns whether it
    /// did so; otherwise nothing changes.
    pub fn delete_selection(&mut self, keyframes_selected: bool) -> (done: bool)
        requires
            old(self).wf(),
        ensures
            final(self).wf(),
            done == (old(self).selected_instance_ids@.len() > 0 || keyframes_selected),
            done ==> {
                &&& recorded_undo(old(self).undo_stack, final(self).undo_stack, old(self).timeline)
                &&& final(self).timeline.instances@ == unselected(
                    old(self).timeline.instances@,
                    old(self).selected_instance_ids@,
                )
                &&& final(self).timeline.templates == old(self).timeline.templates
                &&& final(self).timeline.analog_tracks == old(self).timeline.analog_tracks
                &&& final(self).selected_instance_ids@.len() == 0
            },
            !done ==> {
                &&& final(self).timeline == old(self).timeline
                &&& final(self).undo_stack == old(self).undo_stack
                &&& final(self).selected_instance_ids == old(self).selected_instance_ids
            },
            final(self).track_muted == old(self).track_muted,
            final(self).track_soloed == old(self).track_soloed,
            final(self).track_locked == old(self).track_locked,
            final(self).osd_message == old(self).osd_message,
    {
        if self.selected_instance_ids.len() == 0 && !keyframes_selected {
            return false;
        }
        let snapshot = self.timeline.snapshot_timeline();
        let ghost snap = snapshot;
        self.undo_stack.push(snapshot);
        assert(is_snapshot_of(snap, old(self).timeline));
        self.remove_selected_instances();
        true
    }
}

proof fn lemma_same_ids_same_index(a: Seq<Effect>, b: Seq<Effect>, id: u128)
    requires
        a.len() == b.len(),
        forall|k: int| 0 <= k < b.len() ==> #[trigger] a[k].id == b[k].id,
    ensures
        template_index(a, id) == template_index(b, id),
    decreases a.len(),
{
    if a.len() > 0 && a[0].id != id {
        assert forall|k: int| 0 <= k < b.drop_first().len() implies #[trigger] a.drop_first()[k].id
            == b.drop_first()[k].id by {
            assert(a.drop_first()[k] == a[k + 1]);
            assert(b.drop_first()[k] == b[k + 1]);
        }
        lemma_same_ids_same_index(a.drop_first(), b.drop_first(), id);
    }
}

} // verus!
