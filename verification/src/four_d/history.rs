use vstd::prelude::*;
use std::collections::VecDeque;
use crate::four_d::models::{Effect, EffectInstance};

verus! {

/// Represents a point-in-time state of user-editable timeline elements. `A` is the type of
/// the analog curve tracks.
#[derive(Clone, Debug, PartialEq)]
pub struct TimelineSnapshot<A> {
    pub instances: Vec<EffectInstance>,
    pub analog_tracks: Vec<A>,
    pub templates: Vec<Effect>,
}

/// Bounded undo/redo history stack.
#[derive(Debug)]
pub struct UndoStack<T> {
    undo_stack: VecDeque<T>,
    redo_stack: VecDeque<T>,
    max_history: usize,
}

/// The undo stack after recording `s` with room for `cap` entries: the oldest entry is
/// dropped when the stack is full.
pub open spec fn pushed_with_cap<T>(undo: Seq<T>, s: T, cap: nat) -> Seq<T> {
    if undo.len() >= cap {
        undo.drop_first().push(s)
    } else {
        undo.push(s)
    }
}

/// One undo step over (undo side, redo side) with the current state `cur`: the latest
/// undo entry is handed out and `cur` goes to the redo side; nothing happens when the undo
/// side is empty.
pub open spec fn undo_step<T>(undo: Seq<T>, redo: Seq<T>, cur: T) -> (Seq<T>, Seq<T>, Option<T>) {
    if undo.len() == 0 {
        (undo, redo, None)
    } else {
        (undo.drop_last(), redo.push(cur), Some(undo.last()))
    }
}

/// One redo step, the mirror image of `undo_step`.
pub open spec fn redo_step<T>(undo: Seq<T>, redo: Seq<T>, cur: T) -> (Seq<T>, Seq<T>, Option<T>) {
    if redo.len() == 0 {
        (undo, redo, None)
    } else {
        (undo.push(cur), redo.drop_last(), Some(redo.last()))
    }
}

/// Redoing right after an undo hands back the state that was current before the undo and
/// restores both sides of the history; likewise undoing right after a redo.
pub proof fn lemma_undo_redo_inverse<T>(undo: Seq<T>, redo: Seq<T>, cur: T)
    ensures
        undo.len() > 0 ==> {
            let (u1, r1, prev) = undo_step(undo, redo, cur);
            redo_step(u1, r1, prev.unwrap()) == (undo, redo, Some(cur))
        },
        redo.len() > 0 ==> {
            let (u1, r1, next) = redo_step(undo, redo, cur);
            undo_step(u1, r1, next.unwrap()) == (undo, redo, Some(cur))
        },
{
    if undo.len() > 0 {
        assert(undo.drop_last().push(undo.last()) =~= undo);
        assert(redo.push(cur).drop_last() =~= redo);
    }
    if redo.len() > 0 {
        assert(redo.drop_last().push(redo.last()) =~= redo);
        assert(undo.push(cur).drop_last() =~= undo);
    }
}

/// Undoing right after recording a state hands that state back, and the undo side never
/// holds more than the capacity.
pub proof fn lemma_undo_after_push<T>(undo: Seq<T>, redo: Seq<T>, s: T, cap: nat, cur: T)
    requires
        cap >= 1,
        undo.len() <= cap,
    ensures
        pushed_with_cap(undo, s, cap).len() <= cap,
        undo_step(pushed_with_cap(undo, s, cap), Seq::<T>::empty(), cur) == (
            pushed_with_cap(undo, s, cap).drop_last(),
            seq![cur],
            Some(s),
        ),
{
    assert(Seq::<T>::empty().push(cur) =~= seq![cur]);
}

/// The undo side after recording `items` in order, starting from `undo`.
pub open spec fn pushed_all<T>(undo: Seq<T>, items: Seq<T>, cap: nat) -> Seq<T>
    decreases items.len(),
{
    if items.len() == 0 {
        undo
    } else {
        pushed_with_cap(pushed_all(undo, items.drop_last(), cap), items.last(), cap)
    }
}

/// A run of undo steps, one for each state in `currents` (the state current at that
/// step): the two sides at the end and what each step handed out, in order.
pub open spec fn undo_run<T>(undo: Seq<T>, redo: Seq<T>, currents: Seq<T>) -> (Seq<T>, Seq<T>, Seq<Option<T>>)
    decreases currents.len(),
{
    if currents.len() == 0 {
        (undo, redo, Seq::empty())
    } else {
        let (u, r, outs) = undo_run(undo, redo, currents.drop_last());
        let (u2, r2, o) = undo_step(u, r, currents.last());
        (u2, r2, outs.push(o))
    }
}

proof fn lemma_pushed_all<T>(items: Seq<T>, cap: nat)
    requires
        cap >= 1,
    ensures
        pushed_all(Seq::<T>::empty(), items, cap) == items.subrange(
            items.len() - (if items.len() <= cap { items.len() as int } else { cap as int }),
            items.len() as int,
        ),
    decreases items.len(),
{
    if items.len() > 0 {
        let k = items.len() as int;
        let init = items.drop_last();
        lemma_pushed_all(init, cap);
        let prev = pushed_all(Seq::<T>::empty(), init, cap);
        if k - 1 >= cap {
            assert(prev.drop_first().push(items.last()) =~= items.subrange(k - cap, k));
        } else {
            assert(prev.push(items.last()) =~= items.subrange(0, k));
        }
    }
}

proof fn lemma_undo_run<T>(undo: Seq<T>, redo: Seq<T>, currents: Seq<T>)
    ensures
        undo_run(undo, redo, currents).0 == undo.take(
            if currents.len() <= undo.len() { undo.len() - currents.len() } else { 0 },
        ),
        undo_run(undo, redo, currents).2.len() == currents.len(),
        forall|i: int|
            0 <= i < currents.len() ==> #[trigger] undo_run(undo, redo, currents).2[i] == if i < undo.len() {
                Some(undo[undo.len() - 1 - i])
            } else {
                None
            },
    decreases currents.len(),
{
    if currents.len() > 0 {
        let n = currents.len() as int;
        lemma_undo_run(undo, redo, currents.drop_last());
        let (u, r, outs) = undo_run(undo, redo, currents.drop_last());
        let full = undo_run(undo, redo, currents);
        if n - 1 < undo.len() {
            assert(u.last() == undo[undo.len() - 1 - (n - 1)]);
            assert(u.drop_last() =~= undo.take(undo.len() - n));
        }
        assert forall|i: int| 0 <= i < n implies #[trigger] full.2[i] == if i < undo.len() {
            Some(undo[undo.len() - 1 - i])
        } else {
            None
        } by {
            if i < n - 1 {
                assert(full.2[i] == outs[i]);
            }
        }
    }
}

/// The depth of the history: recording `k` states on a fresh history of capacity `cap`
/// keeps the newest `min(k, cap)` of them, oldest first, and the undo steps that follow
/// hand them out newest first, then nothing.
pub proof fn lemma_history_depth<T>(items: Seq<T>, cap: nat, currents: Seq<T>)
    requires
        cap >= 1,
    ensures
        ({
            let k = items.len() as int;
            let m = if k <= cap { k } else { cap as int };
            let undo = pushed_all(Seq::<T>::empty(), items, cap);
            let outs = undo_run(undo, Seq::<T>::empty(), currents).2;
            &&& undo == items.subrange(k - m, k)
            &&& undo.len() == m
            &&& outs.len() == currents.len()
            &&& forall|i: int|
                0 <= i < currents.len() ==> #[trigger] outs[i] == if i < m {
                    Some(items[k - 1 - i])
                } else {
                    None
                }
        }),
{
    lemma_pushed_all(items, cap);
    let undo = pushed_all(Seq::<T>::empty(), items, cap);
    lemma_undo_run(undo, Seq::<T>::empty(), currents);
}

impl<T> UndoStack<T> {
    /// Entries that undo can restore, oldest first.
    pub closed spec fn undo_items(&self) -> Seq<T> {
        self.undo_stack@
    }

    /// Entries that redo can restore, oldest first.
    pub closed spec fn redo_items(&self) -> Seq<T> {
        self.redo_stack@
    }

    /// Number of entries the undo side keeps at most.
    pub closed spec fn capacity(&self) -> nat {
        self.max_history as nat
    }

    /// The capacity is at least one, and the two sides together never exceed it.
    pub closed spec fn inv(&self) -> bool {
        &&& self.max_history >= 1
        &&& self.undo_stack@.len() + self.redo_stack@.len() <= self.max_history
    }

    /// What the well-formedness of a history gives its users: room for at least one entry,
    /// and never more entries on the undo and redo sides together than the capacity. Every
    /// operation keeps a history well formed, so the bound holds after any sequence of
    /// them.
    pub proof fn lemma_within_capacity(&self)
        requires
            self.inv(),
        ensures
            self.capacity() >= 1,
            self.undo_items().len() + self.redo_items().len() <= self.capacity(),
    {
    }

    /// An empty history keeping at most `max_history` (at least one) entries.
    pub fn new(max_history: usize) -> (s: Self)
        ensures
            s.inv(),
            s.undo_items() == Seq::<T>::empty(),
            s.redo_items() == Seq::<T>::empty(),
            s.capacity() == if max_history >= 1 { max_history as nat } else { 1 },
    {
        UndoStack {
            undo_stack: VecDeque::new(),
            redo_stack: VecDeque::new(),
            max_history: if max_history >= 1 { max_history } else { 1 },
        }
    }

    pub fn can_undo(&self) -> (b: bool)
        ensures
            b == (self.undo_items().len() > 0),
    {
        self.undo_stack.len() > 0
    }

    pub fn can_redo(&self) -> (b: bool)
        ensures
            b == (self.redo_items().len() > 0),
    {
        self.redo_stack.len() > 0
    }

    pub fn undo_len(&self) -> (n: usize)
        ensures
            n == self.undo_items().len(),
    {
        self.undo_stack.len()
    }

    pub fn redo_len(&self) -> (n: usize)
        ensures
            n == self.redo_items().len(),
    {
        self.redo_stack.len()
    }

    /// Records a state before an edit; the redo side is discarded.
    pub fn push(&mut self, snapshot: T)
        requires
            old(self).inv(),
        ensures
            final(self).inv(),
            final(self).undo_items() == pushed_with_cap(old(self).undo_items(), snapshot, old(self).capacity()),
            final(self).redo_items() == Seq::<T>::empty(),
            final(self).capacity() == old(self).capacity(),
            final(self).undo_items().len() <= final(self).capacity(),
    {
        if self.undo_stack.len() >= self.max_history {
            let _ = self.undo_stack.pop_front();
        }
        self.redo_stack.clear();
        self.undo_stack.push_back(snapshot);
    }

    /// Steps back: hands out the latest recorded state and keeps `current` for redo.
    pub fn undo(&mut self, current: T) -> (r: Option<T>)
        requires
            old(self).inv(),
        ensures
            final(self).inv(),
            final(self).capacity() == old(self).capacity(),
            (final(self).undo_items(), final(self).redo_items(), r) == undo_step(
                old(self).undo_items(),
                old(self).redo_items(),
                current,
            ),
    {
        if let Some(prev) = self.undo_stack.pop_back() {
            self.redo_stack.push_back(current);
            Some(prev)
        } else {
            None
        }
    }

    /// Steps forward again: hands out the latest undone state and keeps `current` for undo.
    pub fn redo(&mut self, current: T) -> (r: Option<T>)
        requires
            old(self).inv(),
        ensures
            final(self).inv(),
            final(self).capacity() == old(self).capacity(),
            (final(self).undo_items(), final(self).redo_items(), r) == redo_step(
                old(self).undo_items(),
                old(self).redo_items(),
                current,
            ),
    {
        if let Some(next) = self.redo_stack.pop_back() {
            self.undo_stack.push_back(current);
            Some(next)
        } else {
            None
        }
    }

    /// Forgets the whole history.
    pub fn clear(&mut self)
        requires
            old(self).inv(),
        ensures
            final(self).inv(),
            final(self).undo_items() == Seq::<T>::empty(),
            final(self).redo_items() == Seq::<T>::empty(),
            final(self).capacity() == old(self).capacity(),
    {
        self.undo_stack.clear();
        self.redo_stack.clear();
    }
}

impl<T> Default for UndoStack<T> {
    fn default() -> (s: Self)
        ensures
            s.inv(),
            s.undo_items() == Seq::<T>::empty(),
            s.redo_items() == Seq::<T>::empty(),
            s.capacity() == 50,
    {
        Self::new(50)
    }
}

} // verus!
