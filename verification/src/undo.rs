//! Snapshot-based undo and redo history.
//!
//! The editor widget keeps no history of its own, so the whole text (and the
//! cursor) is recorded every few edits and restored from there.
use vstd::prelude::*;

verus! {

/// Most snapshots kept; the oldest one is dropped beyond this.
pub const MAX_SNAPSHOTS: usize = 100;

/// Number of recorded edits after which a snapshot is taken.
pub const SNAPSHOT_THRESHOLD: usize = 10;

/// A cursor position: zero-based line and column.
#[derive(Debug, Clone, Copy, PartialEq, Eq, Structural)]
pub struct CursorPos {
    pub line: usize,
    pub col: usize,
}

/// A recorded text with its cursor, as a mathematical value.
pub ghost struct Snap {
    pub text: Seq<char>,
    pub cursor: CursorPos,
}

/// The abstract state of an [`UndoStack`]: the snapshots, the index of the
/// current one, the edits recorded since the last snapshot, and whether the
/// text was changed wholesale since the current snapshot was taken (so that
/// the next undo keeps the text showing even when it reads the same).
pub ghost struct History {
    pub snapshots: Seq<Snap>,
    pub current: int,
    pub pending: int,
    pub changed: bool,
}

pub open spec fn origin() -> CursorPos {
    CursorPos { line: 0, col: 0 }
}

impl History {
    pub open spec fn wf(self) -> bool {
        &&& 1 <= self.snapshots.len() <= MAX_SNAPSHOTS
        &&& 0 <= self.current < self.snapshots.len()
        &&& 0 <= self.pending < SNAPSHOT_THRESHOLD
    }

    /// A history that holds `text` alone, with the cursor at the origin.
    pub open spec fn fresh(text: Seq<char>) -> History {
        History { snapshots: seq![Snap { text, cursor: origin() }], current: 0, pending: 0, changed: false }
    }

    /// Drops the redo branch, appends `snap`, evicts the oldest snapshot when
    /// over capacity, and makes the new snapshot current.
    pub open spec fn pushed(self, snap: Snap) -> History {
        let kept = self.snapshots.take(self.current + 1).push(snap);
        let snaps = if kept.len() > MAX_SNAPSHOTS {
            kept.drop_first()
        } else {
            kept
        };
        History { snapshots: snaps, current: snaps.len() - 1, pending: 0, changed: false }
    }

    /// Whether recording one more edit takes a snapshot.
    pub open spec fn takes_snapshot(self) -> bool {
        self.pending + 1 >= SNAPSHOT_THRESHOLD
    }

    /// The history after one recorded edit of `snap`.
    pub open spec fn recorded(self, snap: Snap) -> History {
        if self.takes_snapshot() {
            self.pushed(snap)
        } else {
            History { pending: self.pending + 1, ..self }
        }
    }

    pub open spec fn can_undo(self) -> bool {
        self.current > 0
    }

    pub open spec fn can_redo(self) -> bool {
        self.current + 1 < self.snapshots.len()
    }

    pub open spec fn undone(self) -> History {
        if self.can_undo() {
            History { current: self.current - 1, changed: false, ..self }
        } else {
            self
        }
    }

    pub open spec fn redone(self) -> History {
        if self.can_redo() {
            History { current: self.current + 1, ..self }
        } else {
            self
        }
    }

    /// The history after the current snapshot was taken just before a
    /// wholesale change of the text.
    pub open spec fn marked(self) -> History {
        History { changed: true, ..self }
    }

    /// The history once the text showing (`snap`) is kept: unchanged when
    /// it is the text of the current snapshot and the text was not changed
    /// wholesale since, else taken as a snapshot.
    pub open spec fn shown(self, snap: Snap) -> History {
        if snap.text == self.snapshots[self.current].text && !self.changed {
            self
        } else {
            self.pushed(snap)
        }
    }

    /// What `undo` hands back: the snapshot before the current one.
    pub open spec fn undo_result(self) -> Option<Snap> {
        if self.can_undo() {
            Some(self.snapshots[self.current - 1])
        } else {
            None
        }
    }

    /// What `redo` hands back: the snapshot after the current one.
    pub open spec fn redo_result(self) -> Option<Snap> {
        if self.can_redo() {
            Some(self.snapshots[self.current + 1])
        } else {
            None
        }
    }
}

struct Snapshot {
    text: String,
    cursor: CursorPos,
}

impl Snapshot {
    spec fn model(self) -> Snap {
        Snap { text: self.text@, cursor: self.cursor }
    }
}

/// Undo and redo history of one tab.
pub struct UndoStack {
    snapshots: Vec<Snapshot>,
    current: usize,
    max_size: usize,
    edits_since_snapshot: usize,
    snapshot_threshold: usize,
    changed: bool,
}

impl View for UndoStack {
    type V = History;

    closed spec fn view(&self) -> History {
        History {
            snapshots: self.snapshots@.map_values(|s: Snapshot| s.model()),
            current: self.current as int,
            pending: self.edits_since_snapshot as int,
            changed: self.changed,
        }
    }
}

impl UndoStack {
    /// The stack's fields agree with its abstract state, which is well formed.
    pub closed spec fn wf(&self) -> bool {
        &&& self@.wf()
        &&& self.max_size == MAX_SNAPSHOTS
        &&& self.snapshot_threshold == SNAPSHOT_THRESHOLD
    }

    /// A well-formed stack has a well-formed history.
    pub proof fn lemma_wf_history(&self)
        requires
            self.wf(),
        ensures
            self@.wf(),
    {
    }

    /// An empty text at the origin.
    pub fn new() -> (s: Self)
        ensures
            s.wf(),
            s@ == History::fresh(Seq::empty()),
    {
        let text = String::new();
        let s = UndoStack {
            snapshots: vec![Snapshot { text, cursor: CursorPos { line: 0, col: 0 } }],
            current: 0,
            max_size: MAX_SNAPSHOTS,
            edits_since_snapshot: 0,
            snapshot_threshold: SNAPSHOT_THRESHOLD,
            changed: false,
        };
        assert(s@.snapshots =~= History::fresh(Seq::empty()).snapshots);
        s
    }

    /// A history that starts from `text`.
    pub fn from_text(text: &str) -> (s: Self)
        ensures
            s.wf(),
            s@ == History::fresh(text@),
    {
        let s = UndoStack {
            snapshots: vec![Snapshot { text: text.to_owned(), cursor: CursorPos { line: 0, col: 0 } }],
            current: 0,
            max_size: MAX_SNAPSHOTS,
            edits_since_snapshot: 0,
            snapshot_threshold: SNAPSHOT_THRESHOLD,
            changed: false,
        };
        assert(s@.snapshots =~= History::fresh(text@).snapshots);
        s
    }

    /// Counts one edit; every `SNAPSHOT_THRESHOLD`-th edit takes a snapshot of
    /// `text` and `cursor`. Returns whether a snapshot was taken.
    pub fn record_edit(&mut self, text: &str, cursor: CursorPos) -> (taken: bool)
        requires
            old(self).wf(),
        ensures
            final(self).wf(),
            taken == old(self)@.takes_snapshot(),
            final(self)@ == old(self)@.recorded(Snap { text: text@, cursor }),
    {
        self.edits_since_snapshot = self.edits_since_snapshot + 1;
        if self.edits_since_snapshot >= self.snapshot_threshold {
            self.push_snapshot(text, cursor);
            true
        } else {
            proof {
                assert(self@.snapshots =~= old(self)@.snapshots);
            }
            false
        }
    }

    /// Takes a snapshot now (before saving, on paste, before an undo):
    /// the redo branch is dropped and the snapshot becomes current.
    pub fn push(&mut self, text: &str, cursor: CursorPos)
        requires
            old(self).wf(),
        ensures
            final(self).wf(),
            final(self)@ == old(self)@.pushed(Snap { text: text@, cursor }),
    {
        self.push_snapshot(text, cursor);
    }

    fn push_snapshot(&mut self, text: &str, cursor: CursorPos)
        requires
            old(self).max_size == MAX_SNAPSHOTS,
            old(self).snapshot_threshold == SNAPSHOT_THRESHOLD,
            1 <= old(self)@.snapshots.len() <= MAX_SNAPSHOTS,
            0 <= old(self)@.current < old(self)@.snapshots.len(),
        ensures
            final(self).wf(),
            final(self)@ == old(self)@.pushed(Snap { text: text@, cursor }),
    {
        let ghost before = self@;
        self.edits_since_snapshot = 0;
        self.snapshots.truncate(self.current + 1);
        let snap = Snapshot { text: text.to_owned(), cursor };
        self.snapshots.push(snap);
        let ghost kept = before.snapshots.take(before.current + 1).push(Snap { text: text@, cursor });
        assert(self.snapshots@.map_values(|s: Snapshot| s.model()) =~= kept);
        if self.snapshots.len() > self.max_size {
            self.snapshots.remove(0);
            assert(self.snapshots@.map_values(|s: Snapshot| s.model()) =~= kept.drop_first());
        }
        self.current = self.snapshots.len() - 1;
        self.changed = false;
    }

    /// The text of the current snapshot.
    pub fn current_text(&self) -> (t: &str)
        requires
            self.wf(),
        ensures
            t@ == self@.snapshots[self@.current].text,
    {
        self.snapshots[self.current].text.as_str()
    }

    /// Records that the text is about to be changed wholesale, right after
    /// the current snapshot was taken of it.
    pub fn mark_changed(&mut self)
        requires
            old(self).wf(),
        ensures
            final(self).wf(),
            final(self)@ == old(self)@.marked(),
    {
        self.changed = true;
    }

    /// Whether the text was changed wholesale since the current snapshot.
    pub fn is_changed(&self) -> (b: bool)
        ensures
            b == self@.changed,
    {
        self.changed
    }

    /// Steps back to the previous snapshot and hands it out, or `None` at
    /// the oldest one.
    pub fn undo(&mut self) -> (r: Option<(&str, &CursorPos)>)
        requires
            old(self).wf(),
        ensures
            final(self).wf(),
            final(self)@ == old(self)@.undone(),
            r is Some <==> old(self)@.can_undo(),
            r matches Some((t, c)) ==> old(self)@.undo_result() == Some(Snap { text: t@, cursor: *c }),
    {
        if self.current > 0 {
            self.current = self.current - 1;
            self.changed = false;
            let snap = &self.snapshots[self.current];
            Some((snap.text.as_str(), &snap.cursor))
        } else {
            None
        }
    }

    /// Steps forward to the next snapshot and hands it out, or `None` at
    /// the newest one.
    pub fn redo(&mut self) -> (r: Option<(&str, &CursorPos)>)
        requires
            old(self).wf(),
        ensures
            final(self).wf(),
            final(self)@ == old(self)@.redone(),
            r is Some <==> old(self)@.can_redo(),
            r matches Some((t, c)) ==> old(self)@.redo_result() == Some(Snap { text: t@, cursor: *c }),
    {
        if self.current + 1 < self.snapshots.len() {
            self.current = self.current + 1;
            let snap = &self.snapshots[self.current];
            Some((snap.text.as_str(), &snap.cursor))
        } else {
            None
        }
    }

    /// Forgets all history and starts again from `text`.
    pub fn reset(&mut self, text: &str)
        requires
            old(self).wf(),
        ensures
            final(self).wf(),
            final(self)@ == History::fresh(text@),
    {
        self.snapshots.clear();
        self.snapshots.push(Snapshot { text: text.to_owned(), cursor: CursorPos { line: 0, col: 0 } });
        self.current = 0;
        self.edits_since_snapshot = 0;
        self.changed = false;
        assert(self@.snapshots =~= History::fresh(text@).snapshots);
    }
}

/// The history after recording the edits `snaps` one by one.
pub open spec fn record_all(h: History, snaps: Seq<Snap>) -> History
    decreases snaps.len(),
{
    if snaps.len() == 0 {
        h
    } else {
        record_all(h.recorded(snaps[0]), snaps.drop_first())
    }
}

/// Undo followed by redo restores the history (apart from a pending mark of
/// a wholesale change, which the undo uses up), and the redo hands back the
/// snapshot that was current before the undo.
pub proof fn law_redo_undoes_undo(h: History)
    requires
        h.wf(),
        h.can_undo(),
    ensures
        h.undone().wf(),
        h.undone().redone() == (History { changed: false, ..h }),
        h.undone().redo_result() == Some(h.snapshots[h.current]),
{
}

/// Redo followed by undo restores the history (apart from a pending mark of
/// a wholesale change, which the undo uses up), and the undo hands back the
/// snapshot that was current before the redo.
pub proof fn law_undo_undoes_redo(h: History)
    requires
        h.wf(),
        h.can_redo(),
    ensures
        h.redone().wf(),
        h.redone().undone() == (History { changed: false, ..h }),
        h.redone().undo_result() == Some(h.snapshots[h.current]),
{
}

/// After a snapshot is pushed it is the newest and current one, nothing is
/// left to redo, and undo hands back the snapshot that was current before.
pub proof fn law_push_then_undo(h: History, snap: Snap)
    requires
        h.wf(),
    ensures
        h.pushed(snap).wf(),
        h.pushed(snap).snapshots.last() == snap,
        !h.pushed(snap).can_redo(),
        h.pushed(snap).undo_result() == Some(h.snapshots[h.current]),
{
    let kept = h.snapshots.take(h.current + 1).push(snap);
    if kept.len() > MAX_SNAPSHOTS {
        assert(kept.drop_first()[kept.len() - 3] == kept[kept.len() - 2]);
    }
}

/// Undo as the editor performs it (keep the text showing, then step back),
/// followed by redo, shows again the text that was showing before the undo
/// and returns to the history right after that text was kept.
pub proof fn law_undo_then_redo_restores(h: History, snap: Snap)
    requires
        h.wf(),
        h.shown(snap).can_undo(),
    ensures
        h.shown(snap).wf(),
        h.shown(snap).undone().redo_result()->0.text == snap.text,
        h.shown(snap).undone().redone() == h.shown(snap),
{
    law_push_then_undo(h, snap);
}

/// Undo with the text of the current snapshot showing, and no wholesale
/// change since it was taken, keeps nothing new; an undo leaves no such
/// change pending, so repeated undos step back through the kept snapshots
/// one by one.
pub proof fn law_undo_steps_back(h: History, cursor: CursorPos)
    requires
        h.wf(),
        !h.changed,
    ensures
        h.shown(Snap { text: h.snapshots[h.current].text, cursor }) == h,
        h.can_undo() ==> h.undone().wf() && h.undo_result() == Some(h.snapshots[h.current - 1]),
        h.can_undo() ==> !h.undone().changed,
        h.can_undo() ==> h.undone().snapshots[h.undone().current] == h.snapshots[h.current - 1],
{
}

/// The text kept before a wholesale replacement is what the next undo
/// shows, whatever text the replacement gave (the same one too), and redo
/// then shows the replacement again.
pub proof fn law_undo_after_replace_restores(h: History, before: Snap, after: Snap)
    requires
        h.wf(),
    ensures
        h.pushed(before).marked().wf(),
        h.pushed(before).marked().shown(after).can_undo(),
        h.pushed(before).marked().shown(after).undo_result()->0.text == before.text,
        h.pushed(before).marked().shown(after).undone().redo_result()->0.text == after.text,
{
    law_push_then_undo(h, before);
    law_push_then_undo(h.pushed(before), after);
}

/// A pushed snapshot restarts the count of edits: the next
/// `SNAPSHOT_THRESHOLD - 1` recorded edits take no snapshot, whatever was
/// recorded before the push.
pub proof fn law_push_restarts_edit_count(h: History, snap: Snap, snaps: Seq<Snap>)
    requires
        h.wf(),
        snaps.len() == SNAPSHOT_THRESHOLD,
    ensures
        h.pushed(snap).pending == 0,
        forall|k: int|
            0 <= k < SNAPSHOT_THRESHOLD - 1 ==> !(#[trigger] record_all(h.pushed(snap), snaps.take(k))).takes_snapshot(),
        record_all(h.pushed(snap), snaps).snapshots.last() == snaps.last(),
{
    law_push_then_undo(h, snap);
    law_snapshot_every_threshold(h.pushed(snap), snaps);
    law_push_then_undo(h.pushed(snap), snaps.last());
}

/// Pushing at full capacity from the newest snapshot evicts the oldest one.
pub proof fn law_push_evicts_oldest(h: History, snap: Snap)
    requires
        h.wf(),
        h.snapshots.len() == MAX_SNAPSHOTS,
        h.current == MAX_SNAPSHOTS - 1,
    ensures
        h.pushed(snap).snapshots == h.snapshots.drop_first().push(snap),
        h.pushed(snap).snapshots.len() == MAX_SNAPSHOTS,
{
    assert(h.snapshots.take(h.current + 1) =~= h.snapshots);
    assert(h.snapshots.push(snap).drop_first() =~= h.snapshots.drop_first().push(snap));
}

/// Starting right after a snapshot, the first `SNAPSHOT_THRESHOLD - 1`
/// recorded edits take none and the next one takes a snapshot of itself.
pub proof fn law_snapshot_every_threshold(h: History, snaps: Seq<Snap>)
    requires
        h.wf(),
        h.pending == 0,
        snaps.len() == SNAPSHOT_THRESHOLD,
    ensures
        forall|k: int| 0 <= k < SNAPSHOT_THRESHOLD - 1 ==> !(#[trigger] record_all(h, snaps.take(k))).takes_snapshot(),
        record_all(h, snaps) == h.pushed(snaps.last()),
{
    assert forall|k: int| 0 <= k < SNAPSHOT_THRESHOLD - 1 implies !(#[trigger] record_all(h, snaps.take(k))).takes_snapshot() by {
        lemma_record_below_threshold(h, snaps.take(k));
    }
    lemma_record_below_threshold(h, snaps.take(SNAPSHOT_THRESHOLD - 1));
    lemma_record_all_split(h, snaps, SNAPSHOT_THRESHOLD - 1);
    let mid = record_all(h, snaps.take(SNAPSHOT_THRESHOLD - 1));
    let rest = snaps.skip(SNAPSHOT_THRESHOLD - 1);
    assert(rest.drop_first() =~= Seq::<Snap>::empty());
    assert(rest[0] == snaps.last());
    assert(record_all(mid.recorded(rest[0]), rest.drop_first()) == mid.recorded(rest[0]));
    assert(mid.recorded(rest[0]) == mid.pushed(rest[0]));
    assert(mid.pushed(rest[0]) == h.pushed(rest[0]));
}

proof fn lemma_record_below_threshold(h: History, snaps: Seq<Snap>)
    requires
        h.wf(),
        h.pending + snaps.len() < SNAPSHOT_THRESHOLD,
    ensures
        record_all(h, snaps) == (History { pending: h.pending + snaps.len(), ..h }),
    decreases snaps.len(),
{
    if snaps.len() > 0 {
        lemma_record_below_threshold(h.recorded(snaps[0]), snaps.drop_first());
    }
}

proof fn lemma_record_all_split(h: History, snaps: Seq<Snap>, k: int)
    requires
        0 <= k <= snaps.len(),
    ensures
        record_all(h, snaps) == record_all(record_all(h, snaps.take(k)), snaps.skip(k)),
    decreases k,
{
    if k > 0 {
        assert(snaps.take(k).drop_first() =~= snaps.drop_first().take(k - 1));
        assert(snaps.skip(k) =~= snaps.drop_first().skip(k - 1));
        assert(snaps.take(k)[0] == snaps[0]);
        lemma_record_all_split(h.recorded(snaps[0]), snaps.drop_first(), k - 1);
    } else {
        assert(snaps.skip(0) =~= snaps);
    }
}

/// A fresh history (after `new`, `from_text` or `reset`) has nothing to undo
/// or redo.
pub proof fn law_fresh_has_no_history(text: Seq<char>)
    ensures
        History::fresh(text).wf(),
        History::fresh(text).undo_result() is None,
        History::fresh(text).redo_result() is None,
{
}

} // verus!
