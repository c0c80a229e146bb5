//! Undo / redo of a document: snapshots of the document taken before each
//! recorded edit, and the snapshots that undo has set aside for redo.

use vstd::prelude::*;

verus! {

/// At most this many undo steps are kept per document.
pub const UNDO_CAP: usize = 200;

/// The undo steps after pushing `s` onto `u`: the oldest goes once there
/// are more than [`UNDO_CAP`].
pub open spec fn capped_push<T>(u: Seq<T>, s: T) -> Seq<T> {
    let v = u.push(s);
    if v.len() > UNDO_CAP {
        v.drop_first()
    } else {
        v
    }
}

/// One document's history: undo steps (newest last) and redo steps (newest
/// last).
pub struct History<T> {
    undo: Vec<T>,
    redo: Vec<T>,
}

impl<T> View for History<T> {
    type V = (Seq<T>, Seq<T>);

    closed spec fn view(&self) -> (Seq<T>, Seq<T>) {
        (self.undo@, self.redo@)
    }
}

/// The state after a successful undo of `doc` with `h`, if there is a step.
pub open spec fn undo_step<T>(h: (Seq<T>, Seq<T>), doc: T) -> Option<((Seq<T>, Seq<T>), T)> {
    if h.0.len() == 0 {
        None
    } else {
        Some(((h.0.drop_last(), h.1.push(doc)), h.0.last()))
    }
}

/// The state after a successful redo of `doc` with `h`, if there is a step.
pub open spec fn redo_step<T>(h: (Seq<T>, Seq<T>), doc: T) -> Option<((Seq<T>, Seq<T>), T)> {
    if h.1.len() == 0 {
        None
    } else {
        Some(((h.0.push(doc), h.1.drop_last()), h.1.last()))
    }
}

impl<T> History<T> {
    /// Nothing to undo or redo.
    pub fn new() -> (r: History<T>)
        ensures
            r@ == (Seq::<T>::empty(), Seq::<T>::empty()),
    {
        History { undo: Vec::new(), redo: Vec::new() }
    }

    /// Record `snapshot`, the document as it was before an edit: it becomes
    /// the newest undo step (the oldest drops out past [`UNDO_CAP`]), and
    /// the redo steps are forgotten.
    pub fn record(&mut self, snapshot: T)
        ensures
            final(self)@.0 == capped_push(old(self)@.0, snapshot),
            final(self)@.1 == Seq::<T>::empty(),
    {
        self.undo.push(snapshot);
        self.redo.clear();
        if self.undo.len() > UNDO_CAP {
            self.undo.remove(0);
            assert(self.undo@ =~= old(self).undo@.push(snapshot).drop_first());
        }
    }

    /// Step `doc` back to the newest undo step; the current document
    /// becomes the newest redo step. `false`, changing nothing, when there
    /// is nothing to undo.
    pub fn undo(&mut self, doc: &mut T) -> (r: bool)
        ensures
            match undo_step(old(self)@, *old(doc)) {
                Some((h, d)) => r && final(self)@ == h && *final(doc) == d,
                None => !r && final(self)@ == old(self)@ && *final(doc) == *old(doc),
            },
    {
        match self.undo.pop() {
            None => false,
            Some(mut prev) => {
                core::mem::swap(doc, &mut prev);
                self.redo.push(prev);
                true
            },
        }
    }

    /// Step `doc` forward to the newest redo step; the current document
    /// becomes the newest undo step. `false`, changing nothing, when there
    /// is nothing to redo.
    pub fn redo(&mut self, doc: &mut T) -> (r: bool)
        ensures
            match redo_step(old(self)@, *old(doc)) {
                Some((h, d)) => r && final(self)@ == h && *final(doc) == d,
                None => !r && final(self)@ == old(self)@ && *final(doc) == *old(doc),
            },
    {
        match self.redo.pop() {
            None => false,
            Some(mut next) => {
                core::mem::swap(doc, &mut next);
                self.undo.push(next);
                true
            },
        }
    }

    /// How many undo steps there are.
    pub fn undo_len(&self) -> (r: usize)
        ensures
            r == self@.0.len(),
    {
        self.undo.len()
    }

    /// How many redo steps there are.
    pub fn redo_len(&self) -> (r: usize)
        ensures
            r == self@.1.len(),
    {
        self.redo.len()
    }
}

/// Undo right after recording gives back the recorded snapshot, and the
/// edited document waits as the redo step.
pub proof fn lemma_undo_after_record<T>(h: (Seq<T>, Seq<T>), snapshot: T, edited: T)
    ensures
        undo_step((capped_push(h.0, snapshot), Seq::<T>::empty()), edited) matches Some((h2, d)) && d
            == snapshot && h2.1 == seq![edited],
{
    let u = capped_push(h.0, snapshot);
    assert(u.last() == snapshot);
    assert(Seq::<T>::empty().push(edited) =~= seq![edited]);
}

/// Redo undoes an undo: the document and both stacks are as before.
pub proof fn lemma_redo_after_undo<T>(h: (Seq<T>, Seq<T>), doc: T)
    requires
        h.0.len() > 0,
    ensures
        undo_step(h, doc) matches Some((h2, d)) && redo_step(h2, d) == Some((h, doc)),
{
    assert(h.0.drop_last().push(h.0.last()) =~= h.0);
    assert(h.1.push(doc).drop_last() =~= h.1);
}

/// Undo undoes a redo.
pub proof fn lemma_undo_after_redo<T>(h: (Seq<T>, Seq<T>), doc: T)
    requires
        h.1.len() > 0,
    ensures
        redo_step(h, doc) matches Some((h2, d)) && undo_step(h2, d) == Some((h, doc)),
{
    assert(h.0.push(doc).drop_last() =~= h.0);
    assert(h.1.drop_last().push(h.1.last()) =~= h.1);
}

/// Whether the edit stream is inside a drag (successive position or
/// vertex edits of one drag share one undo step).
pub struct DragChain {
    pub in_chain: bool,
}

impl DragChain {
    /// Note an edit; `true` when it starts a new undo step: anything but a
    /// drag edit that continues a drag.
    pub fn note_edit(&mut self, is_drag_edit: bool) -> (record: bool)
        ensures
            record == !(is_drag_edit && old(self).in_chain),
            final(self).in_chain == is_drag_edit,
    {
        let record = !(is_drag_edit && self.in_chain);
        self.in_chain = is_drag_edit;
        record
    }

    /// Undo and redo end any drag chain.
    pub fn reset(&mut self)
        ensures
            !final(self).in_chain,
    {
        self.in_chain = false;
    }
}

} // verus!
