//! Snapshot-based undo/redo.
//!
//! Before each change the caller stores a snapshot of the whole document;
//! undo swaps the document with the newest snapshot, redo swaps it back.
use std::collections::VecDeque;
use vstd::prelude::*;

verus! {

/// The change counter after one more change (it wraps after `u64::MAX`).
pub open spec fn bumped(v: u64) -> u64 {
    if v == u64::MAX { 0 } else { (v + 1) as u64 }
}

/// The undo stack after storing `s`: pushed on top, and the oldest entry
/// dropped when the stack then holds more than `max` entries.
pub open spec fn pushed_capped<T>(stack: Seq<T>, s: T, max: usize) -> Seq<T> {
    if stack.push(s).len() > max {
        stack.push(s).drop_first()
    } else {
        stack.push(s)
    }
}

/// The history after storing snapshot `s`.
pub open spec fn after_snapshot<T>(h: HistoryView<T>, s: T) -> HistoryView<T> {
    HistoryView {
        undo: pushed_capped(h.undo, s, h.max_entries),
        redo: Seq::empty(),
        version: bumped(h.version),
        max_entries: h.max_entries,
    }
}

/// The history and document after undoing, when there is a snapshot.
pub open spec fn after_undo<T>(h: HistoryView<T>, current: T) -> (HistoryView<T>, T) {
    (
        HistoryView {
            undo: h.undo.drop_last(),
            redo: h.redo.push(current),
            version: bumped(h.version),
            max_entries: h.max_entries,
        },
        h.undo.last(),
    )
}

/// The history and document after redoing, when there is an undone state.
pub open spec fn after_redo<T>(h: HistoryView<T>, current: T) -> (HistoryView<T>, T) {
    (
        HistoryView {
            undo: h.undo.push(current),
            redo: h.redo.drop_last(),
            version: bumped(h.version),
            max_entries: h.max_entries,
        },
        h.redo.last(),
    )
}

/// Undo/redo stacks of document snapshots, newest last.
pub struct History<T> {
    undo_stack: VecDeque<T>,
    redo_stack: VecDeque<T>,
    /// Counts snapshots, undos, redos and other changes; it wraps after `u64::MAX`.
    pub version: u64,
    max_entries: usize,
}

/// The mathematical content of a history.
pub struct HistoryView<T> {
    pub undo: Seq<T>,
    pub redo: Seq<T>,
    pub version: u64,
    pub max_entries: usize,
}

impl<T> View for History<T> {
    type V = HistoryView<T>;

    closed spec fn view(&self) -> HistoryView<T> {
        HistoryView {
            undo: self.undo_stack@,
            redo: self.redo_stack@,
            version: self.version,
            max_entries: self.max_entries,
        }
    }
}

impl<T> History<T> {
    /// The history is well formed: at least one snapshot can be kept and the
    /// two stacks together never hold more than the limit.
    pub open spec fn wf(&self) -> bool {
        &&& self@.max_entries == 100
        &&& self@.undo.len() + self@.redo.len() <= self@.max_entries
    }

    /// An empty history keeping at most 100 snapshots.
    pub fn new() -> (r: Self)
        ensures
            r.wf(),
            r@.undo.len() == 0,
            r@.redo.len() == 0,
            r@.version == 0,
            r@.max_entries == 100,
    {
        History { undo_stack: VecDeque::new(), redo_stack: VecDeque::new(), version: 0, max_entries: 100 }
    }

    fn bump(&mut self)
        ensures
            final(self).version == bumped(old(self).version),
            final(self).undo_stack@ == old(self).undo_stack@,
            final(self).redo_stack@ == old(self).redo_stack@,
            final(self).max_entries == old(self).max_entries,
    {
        self.version = if self.version == u64::MAX { 0 } else { self.version + 1 };
    }

    /// Stores `state` (the document as it is before a change) as the newest
    /// snapshot, dropping the oldest one beyond the limit, and forgets the redo stack.
    pub fn snapshot(&mut self, state: T)
        requires
            old(self).wf(),
        ensures
            final(self).wf(),
            final(self)@ == after_snapshot(old(self)@, state),
    {
        self.undo_stack.push_back(state);
        if self.undo_stack.len() > self.max_entries {
            self.undo_stack.pop_front();
        }
        self.redo_stack.clear();
        self.bump();
        assert(self.undo_stack@ =~= pushed_capped(old(self)@.undo, state, old(self)@.max_entries));
    }

    /// Replaces `current` by the newest snapshot, which moves `current` onto
    /// the redo stack. Returns `false`, changing nothing, when there is no snapshot.
    pub fn undo(&mut self, current: &mut T) -> (r: bool)
        requires
            old(self).wf(),
        ensures
            final(self).wf(),
            r == (old(self)@.undo.len() > 0),
            r ==> (final(self)@, *final(current)) == after_undo(old(self)@, *old(current)),
            !r ==> final(self)@ == old(self)@ && *final(current) == *old(current),
    {
        match self.undo_stack.pop_back() {
            Some(prev) => {
                let mut cur = prev;
                std::mem::swap(current, &mut cur);
                self.redo_stack.push_back(cur);
                self.bump();
                assert(self.undo_stack@ =~= old(self)@.undo.drop_last());
                true
            },
            None => false,
        }
    }

    /// Replaces `current` by the newest redo entry, which moves `current`
    /// back onto the undo stack. Returns `false`, changing nothing, when there is none.
    pub fn redo(&mut self, current: &mut T) -> (r: bool)
        requires
            old(self).wf(),
        ensures
            final(self).wf(),
            r == (old(self)@.redo.len() > 0),
            r ==> (final(self)@, *final(current)) == after_redo(old(self)@, *old(current)),
            !r ==> final(self)@ == old(self)@ && *final(current) == *old(current),
    {
        match self.redo_stack.pop_back() {
            Some(next) => {
                let mut cur = next;
                std::mem::swap(current, &mut cur);
                self.undo_stack.push_back(cur);
                self.bump();
                assert(self.redo_stack@ =~= old(self)@.redo.drop_last());
                true
            },
            None => false,
        }
    }

    /// The change counter.
    pub fn version(&self) -> (r: u64)
        ensures
            r == self@.version,
    {
        self.version
    }

    /// There is a snapshot to go back to.
    pub fn can_undo(&self) -> (r: bool)
        ensures
            r == (self@.undo.len() > 0),
    {
        self.undo_stack.len() > 0
    }

    /// There is an undone state to go forward to.
    pub fn can_redo(&self) -> (r: bool)
        ensures
            r == (self@.redo.len() > 0),
    {
        self.redo_stack.len() > 0
    }

    /// Counts a change that is not undoable.
    pub fn mark_dirty(&mut self)
        ensures
            final(self)@ == (HistoryView { version: bumped(old(self)@.version), ..old(self)@ }),
    {
        self.bump();
    }
}

/// Undoing and then redoing gives back the document and both stacks (only
/// the change counter moves on, by two).
pub proof fn undo_then_redo_restores<T>(h: HistoryView<T>, current: T)
    requires
        h.undo.len() > 0,
    ensures
        ({
            let (h1, c1) = after_undo(h, current);
            let (h2, c2) = after_redo(h1, c1);
            &&& c2 == current
            &&& h2.undo == h.undo
            &&& h2.redo == h.redo
            &&& h2.max_entries == h.max_entries
            &&& h2.version == bumped(bumped(h.version))
        }),
{
    assert(h.undo.drop_last().push(h.undo.last()) =~= h.undo);
    assert(h.redo.push(current).drop_last() =~= h.redo);
}

/// Redoing and then undoing gives back the document and both stacks.
pub proof fn redo_then_undo_restores<T>(h: HistoryView<T>, current: T)
    requires
        h.redo.len() > 0,
    ensures
        ({
            let (h1, c1) = after_redo(h, current);
            let (h2, c2) = after_undo(h1, c1);
            &&& c2 == current
            &&& h2.undo == h.undo
            &&& h2.redo == h.redo
            &&& h2.max_entries == h.max_entries
            &&& h2.version == bumped(bumped(h.version))
        }),
{
    assert(h.redo.drop_last().push(h.redo.last()) =~= h.redo);
    assert(h.undo.push(current).drop_last() =~= h.undo);
}

/// Undoing right after a snapshot gives back the document the snapshot
/// stored, and makes the then-current document the only redo entry.
pub proof fn undo_after_snapshot_restores<T>(h: HistoryView<T>, saved: T, current: T)
    requires
        h.max_entries >= 1,
    ensures
        ({
            let h1 = after_snapshot(h, saved);
            let (h2, c2) = after_undo(h1, current);
            &&& h1.undo.len() > 0
            &&& c2 == saved
            &&& h2.redo == seq![current]
            &&& h.undo.len() < h.max_entries ==> h2.undo == h.undo
        }),
{
    let u = h.undo.push(saved);
    if u.len() > h.max_entries {
        assert(u.drop_first().last() == saved);
    }
    assert(h.undo.push(saved).drop_last() =~= h.undo);
    assert(Seq::<T>::empty().push(current) =~= seq![current]);
}

/// A snapshot puts the stored document on top of the undo stack, which then
/// holds one entry more, or as many as before when it was full (the oldest
/// entry goes), so never more than the limit; the redo stack is emptied and
/// the change counter moves on.
pub proof fn snapshot_respects_limit<T>(h: HistoryView<T>, s: T)
    requires
        h.max_entries >= 1,
        h.undo.len() <= h.max_entries,
    ensures
        after_snapshot(h, s).undo.len() == if h.undo.len() + 1 <= h.max_entries {
            h.undo.len() + 1int
        } else {
            h.max_entries as int
        },
        after_snapshot(h, s).undo.len() <= h.max_entries,
        after_snapshot(h, s).undo.last() == s,
        h.undo.len() < h.max_entries ==> after_snapshot(h, s).undo == h.undo.push(s),
        h.undo.len() == h.max_entries ==> after_snapshot(h, s).undo == h.undo.drop_first().push(s),
        after_snapshot(h, s).redo.len() == 0,
        after_snapshot(h, s).version == bumped(h.version),
        after_snapshot(h, s).max_entries == h.max_entries,
{
    if h.undo.len() == h.max_entries {
        assert(h.undo.push(s).drop_first() =~= h.undo.drop_first().push(s));
    }
}

/// On a history as every history is (`wf`: at most 100 snapshots), storing
/// a snapshot leaves `min(n + 1, 100)` of them with the stored document on
/// top, the oldest one gone when there were already 100; the redo stack is
/// emptied, the change counter moves on and the history stays well formed.
pub proof fn snapshot_keeps_one_hundred<T>(h: History<T>, s: T)
    requires
        h.wf(),
    ensures
        after_snapshot(h@, s).undo.len() == if h@.undo.len() < 100 { h@.undo.len() + 1int } else { 100int },
        after_snapshot(h@, s).undo.len() <= 100,
        after_snapshot(h@, s).undo.last() == s,
        h@.undo.len() < 100 ==> after_snapshot(h@, s).undo == h@.undo.push(s),
        h@.undo.len() == 100 ==> after_snapshot(h@, s).undo == h@.undo.drop_first().push(s),
        after_snapshot(h@, s).redo.len() == 0,
        after_snapshot(h@, s).version == bumped(h@.version),
        after_snapshot(h@, s).max_entries == 100,
{
    snapshot_respects_limit(h@, s);
}

} // verus!
