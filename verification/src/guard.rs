//! The guard around a write: what was read before, what is there now, and how to put
//! it back.

use vstd::prelude::*;

verus! {

/// The view of bytes that may be missing.
pub open spec fn bytes_view(b: Option<Vec<u8>>) -> Option<Seq<u8>> {
    match b {
        Some(v) => Some(v@),
        None => None,
    }
}

/// What was found in a file before anything was written.
pub struct Snapshot {
    pub existed: bool,
    pub content: Option<Vec<u8>>,
}

/// The view of a [`Snapshot`].
pub struct SnapshotView {
    pub existed: bool,
    pub content: Option<Seq<u8>>,
}

impl DeepView for Snapshot {
    type V = SnapshotView;

    open spec fn deep_view(&self) -> SnapshotView {
        SnapshotView { existed: self.existed, content: bytes_view(self.content) }
    }
}

/// The snapshot of a file that could be read (or not).
pub open spec fn snapshot(content: Option<Seq<u8>>) -> SnapshotView {
    SnapshotView { existed: content is Some, content }
}

/// The snapshot of a file that could be read (or not).
pub fn read_snapshot(content: Option<Vec<u8>>) -> (s: Snapshot)
    ensures
        s.deep_view() == snapshot(bytes_view(content)),
{
    Snapshot { existed: content.is_some(), content }
}

/// What a second reading of a file gave.
pub enum Reread {
    /// Its bytes.
    Content(Vec<u8>),
    /// It is not there.
    Missing,
    /// It could not be read, for this reason.
    Failed(String),
}

/// The view of a [`Reread`].
pub enum RereadView {
    Content(Seq<u8>),
    Missing,
    Failed(Seq<char>),
}

impl DeepView for Reread {
    type V = RereadView;

    open spec fn deep_view(&self) -> RereadView {
        match self {
            Reread::Content(b) => RereadView::Content(b@),
            Reread::Missing => RereadView::Missing,
            Reread::Failed(m) => RereadView::Failed(m@),
        }
    }
}

/// The bytes that a snapshot holds; none where the file was not there.
pub open spec fn bytes_before(snap: SnapshotView) -> Seq<u8> {
    match snap.content {
        Some(b) => b,
        None => seq![],
    }
}

/// Why a file must not be written: it is not what it was when it was read. A file that has
/// come into being since has changed too, even where it is empty.
pub open spec fn drift(snap: SnapshotView, now: RereadView) -> Option<Seq<char>> {
    match now {
        RereadView::Content(b) => if !snap.existed || b != bytes_before(snap) {
            Some("file changed between read and write (TOCTOU guard) — rerun the batch"@)
        } else {
            None
        },
        RereadView::Missing => if snap.existed {
            Some("file disappeared before write (TOCTOU guard) — rerun the batch"@)
        } else {
            None
        },
        RereadView::Failed(m) => Some("could not stat file before write: "@ + m),
    }
}

/// Whether the two hold the same bytes.
pub(crate) fn same_bytes(a: &Vec<u8>, b: &Vec<u8>) -> (same: bool)
    ensures
        same == (a@ == b@),
{
    if a.len() != b.len() {
        return false;
    }
    let mut i: usize = 0;
    while i < a.len()
        invariant
            i <= a@.len(),
            a@.len() == b@.len(),
            forall|j: int| 0 <= j < i ==> a@[j] == b@[j],
        decreases a@.len() - i,
    {
        if a[i] != b[i] {
            return false;
        }
        i = i + 1;
    }
    assert(a@ =~= b@);
    true
}

/// TOCTOU guard: checks right before writing that the file is unchanged since it was
/// read.
pub fn check_not_changed(snap: &Snapshot, now: &Reread) -> (r: Result<(), String>)
    ensures
        match r {
            Ok(()) => drift(snap.deep_view(), now.deep_view()) is None,
            Err(m) => drift(snap.deep_view(), now.deep_view()) == Some(m@),
        },
{
    match now {
        Reread::Content(b) => {
            let same: bool = match &snap.content {
                Some(before) => same_bytes(b, before),
                None => b.len() == 0,
            };
            assert(same == (b@ =~= bytes_before(snap.deep_view())));
            if snap.existed && same {
                Ok(())
            } else {
                Err("file changed between read and write (TOCTOU guard) — rerun the batch".to_owned())
            }
        },
        Reread::Missing => {
            if snap.existed {
                Err("file disappeared before write (TOCTOU guard) — rerun the batch".to_owned())
            } else {
                Ok(())
            }
        },
        Reread::Failed(e) => {
            let mut m = "could not stat file before write: ".to_owned();
            m.append(e.as_str());
            Err(m)
        },
    }
}

/// How to put a file back: with these bytes, or, where it was not there, by removing
/// it.
pub struct Undo {
    pub path: String,
    pub old: Option<Vec<u8>>,
}

/// The view of an [`Undo`].
pub struct UndoView {
    pub path: Seq<char>,
    pub old: Option<Seq<u8>>,
}

impl DeepView for Undo {
    type V = UndoView;

    open spec fn deep_view(&self) -> UndoView {
        UndoView { path: self.path@, old: bytes_view(self.old) }
    }
}

/// The name of the file on which the lock for `path` is taken.
pub open spec fn lock_path(path: Seq<char>) -> Seq<char> {
    path + ".patchify-lock"@
}

/// The name of the file on which the lock for `path` is taken.
pub fn lock_sidecar(path: &str) -> (s: String)
    ensures
        s@ == lock_path(path@),
{
    let mut s = path.to_owned();
    s.append(".patchify-lock");
    s
}

/// The guard passes exactly where nothing has changed: the file holds the bytes that it
/// held, or it is still not there.
pub proof fn law_only_unchanged_passes(snap: SnapshotView, now: RereadView)
    requires
        snap.existed == (snap.content is Some),
    ensures
        drift(snap, now) is None <==> match snap.content {
            Some(before) => now == RereadView::Content(before),
            None => now is Missing,
        },
{
}

/// The guard on what was read before: it passes exactly where the file holds the same bytes
/// now, or was not there and is not there; otherwise it says what has happened.
pub proof fn law_guard(before: Option<Seq<u8>>, now: RereadView)
    ensures
        drift(snapshot(before), now) is None <==> match before {
            Some(bytes) => now == RereadView::Content(bytes),
            None => now is Missing,
        },
        drift(snapshot(before), now) matches Some(m) ==> match now {
            RereadView::Content(_) => m
                == "file changed between read and write (TOCTOU guard) — rerun the batch"@,
            RereadView::Missing => m
                == "file disappeared before write (TOCTOU guard) — rerun the batch"@,
            RereadView::Failed(detail) => m == "could not stat file before write: "@ + detail,
        },
{
}

/// The lock of a file lies beside it, under its full name with a suffix, so that different
/// files have different locks.
pub proof fn law_lock_beside(path: Seq<char>, other: Seq<char>)
    ensures
        lock_path(path).len() == path.len() + 14,
        lock_path(path).take(path.len() as int) == path,
        lock_path(path).skip(path.len() as int) == ".patchify-lock"@,
        lock_path(path) == lock_path(other) ==> path == other,
{
    reveal_strlit(".patchify-lock");
    assert(lock_path(path).take(path.len() as int) =~= path);
    assert(lock_path(path).skip(path.len() as int) =~= ".patchify-lock"@);
    if lock_path(path) == lock_path(other) {
        assert(path.len() == other.len());
        assert(path =~= lock_path(path).take(path.len() as int));
        assert(other =~= lock_path(other).take(other.len() as int));
    }
}

} // verus!
