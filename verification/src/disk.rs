//! What a session does to the files of a disk. The disk is a map from files to their
//! bytes; `place` says to which file a path leads. While a session runs nobody else
//! writes to the files; lock files and directories are not counted among them.

use crate::course;
use crate::guard::{RereadView, UndoView};
use crate::limits::MAX_FILE_BYTES;
use crate::machine;
use crate::machine::{Ending, SessionView, Stage};
use crate::protocol::{ActionView, EventView};
use crate::path::Style;
use crate::plan;
use crate::types::{EditView, RequestView, WriteView};
use crate::validate;
use vstd::prelude::*;

verus! {

/// The bytes of a file, where it is there.
pub open spec fn held(disk: Map<int, Seq<u8>>, f: int) -> Option<Seq<u8>> {
    if disk.dom().contains(f) {
        Some(disk[f])
    } else {
        None
    }
}

/// The two disks differ in the file `f` at most.
pub open spec fn touched_only(before: Map<int, Seq<u8>>, after: Map<int, Seq<u8>>, f: int) -> bool {
    after.remove(f) =~= before.remove(f)
}

/// `ev` is a true answer to the action, which leads from one disk to the other. What was
/// read is what is there; what succeeded was done; a write that failed may have left
/// anything in the file it was to write. A command may do anything.
pub open spec fn acted(
    place: spec_fn(Seq<char>) -> int,
    action: ActionView,
    ev: EventView,
    before: Map<int, Seq<u8>>,
    after: Map<int, Seq<u8>>,
) -> bool {
    match action {
        ActionView::Inspect { path } => {
            &&& after == before
            &&& ev matches EventView::Found { exists, content } ==> {
                &&& exists == (held(before, place(path)) is Some)
                &&& content is Some ==> content == held(before, place(path))
            }
        },
        ActionView::Reread { path } => {
            &&& after == before
            &&& ev matches EventView::Reread(now) ==> match now {
                RereadView::Content(bytes) => held(before, place(path)) == Some(bytes),
                RereadView::Missing => held(before, place(path)) is None,
                RereadView::Failed(_) => true,
            }
        },
        ActionView::Put { path, content } => match ev {
            EventView::Done(Ok(_)) => after == before.insert(place(path), content),
            EventView::Done(Err(_)) => touched_only(before, after, place(path)),
            _ => after == before,
        },
        ActionView::Delete { path } => match ev {
            EventView::Done(Ok(_)) => after == before.remove(place(path)),
            _ => after == before,
        },
        ActionView::Run { .. } => ev is Ran || after == before,
        _ => after == before,
    }
}

/// Undoing works: a file can be written back, and a file can be removed unless it is not
/// there in the first place.
pub open spec fn undo_works(
    place: spec_fn(Seq<char>) -> int,
    s: SessionView,
    ev: EventView,
    before: Map<int, Seq<u8>>,
) -> bool {
    s.stage is Undoing ==> match machine::demand(s) {
        ActionView::Delete { path } => ev is Done && (ev->Done_0 is Ok || held(
            before,
            place(path),
        ) is None),
        _ => ev is Done && ev->Done_0 is Ok,
    }
}

/// One step of a session on a disk.
pub open spec fn step(
    place: spec_fn(Seq<char>) -> int,
    s: SessionView,
    ev: EventView,
    before: Map<int, Seq<u8>>,
    after: Map<int, Seq<u8>>,
) -> bool {
    acted(place, machine::demand(s), ev, before, after) && undo_works(place, s, ev, before)
}

/// A run of the session of `req`: `disks[i]` is the disk before event `i`, the last one
/// that after all of them.
pub open spec fn is_run(
    place: spec_fn(Seq<char>) -> int,
    req: RequestView,
    evs: Seq<EventView>,
    disks: Seq<Map<int, Seq<u8>>>,
) -> bool {
    &&& validate::request_fault(req) is None
    &&& req.verify.len() <= usize::MAX
    &&& disks.len() == evs.len() + 1
    &&& forall|i: int|
        0 <= i < evs.len() ==> step(
            place,
            course::reached(machine::start(req), evs.take(i)),
            #[trigger] evs[i],
            disks[i],
            disks[i + 1],
        )
}

/// The disk after one thing was undone.
pub open spec fn put_back(
    place: spec_fn(Seq<char>) -> int,
    u: UndoView,
    disk: Map<int, Seq<u8>>,
) -> Map<int, Seq<u8>> {
    match u.old {
        Some(bytes) => disk.insert(place(u.path), bytes),
        None => disk.remove(place(u.path)),
    }
}

/// The disk after all of the log was undone, latest first.
pub open spec fn undone(
    place: spec_fn(Seq<char>) -> int,
    log: Seq<UndoView>,
    disk: Map<int, Seq<u8>>,
) -> Map<int, Seq<u8>>
    decreases log.len(),
{
    if log.len() == 0 {
        disk
    } else {
        undone(place, log.drop_last(), put_back(place, log.last(), disk))
    }
}

/// Undoing what the log holds leads back to the disk at the start.
pub open spec fn restorable(
    place: spec_fn(Seq<char>) -> int,
    s: SessionView,
    first: Map<int, Seq<u8>>,
    now: Map<int, Seq<u8>>,
) -> bool {
    &&& match s.stage {
        Stage::RunCommand(_) => true,
        Stage::Finished(Ending::Applied) => true,
        _ => undone(place, s.log, now) == first,
    }
    &&& match s.stage {
        Stage::EditPut(i) => s.log.len() > 0 && s.log.last().path == s.prepared[i as int].rel,
        Stage::WriteDirs(j) | Stage::WriteLock(j) | Stage::WriteReread(j) => s.exists == (held(
            now,
            place(machine::rel(s.req.style, s.req.writes[j as int].path)),
        ) is Some),
        Stage::WritePut(j) => s.log.len() > 0 && s.log.last().path == machine::rel(
            s.req.style,
            s.req.writes[j as int].path,
        ),
        _ => true,
    }
}

/// Noting what a file holds changes nothing of what undoing leads to.
proof fn lemma_logged(
    place: spec_fn(Seq<char>) -> int,
    log: Seq<UndoView>,
    u: UndoView,
    now: Map<int, Seq<u8>>,
)
    requires
        u.old == held(now, place(u.path)),
    ensures
        undone(place, log.push(u), now) == undone(place, log, now),
{
    assert(log.push(u).drop_last() =~= log);
    assert(put_back(place, u, now) =~= now);
}

/// What a file holds that the log puts back makes no difference to what undoing leads to.
proof fn lemma_overwritten(
    place: spec_fn(Seq<char>) -> int,
    log: Seq<UndoView>,
    before: Map<int, Seq<u8>>,
    after: Map<int, Seq<u8>>,
)
    requires
        log.len() > 0,
        touched_only(before, after, place(log.last().path)),
    ensures
        undone(place, log, after) == undone(place, log, before),
{
    let f = place(log.last().path);
    assert(after.remove(f) == before.remove(f));
    match log.last().old {
        Some(bytes) => {
            assert(after.insert(f, bytes) =~= after.remove(f).insert(f, bytes));
            assert(before.insert(f, bytes) =~= before.remove(f).insert(f, bytes));
        },
        None => {},
    }
    assert(put_back(place, log.last(), after) == put_back(place, log.last(), before));
}

/// A step keeps the way back.
#[verifier::spinoff_prover]
#[verifier::rlimit(40)]
proof fn lemma_step_is_restorable(
    place: spec_fn(Seq<char>) -> int,
    s: SessionView,
    ev: EventView,
    first: Map<int, Seq<u8>>,
    before: Map<int, Seq<u8>>,
    after: Map<int, Seq<u8>>,
)
    requires
        machine::valid(s),
        restorable(place, s, first, before),
        step(place, s, ev, before, after),
    ensures
        restorable(place, machine::next(s, ev), first, after),
{
    reveal(machine::next);
    let t = machine::next(s, ev);
    match s.stage {
        Stage::EditReread(i) => {
            let u = UndoView {
                path: s.prepared[i as int].rel,
                old: Some(s.prepared[i as int].original),
            };
            if t.stage is EditPut {
                lemma_logged(place, s.log, u, before);
            }
        },
        Stage::WriteReread(j) => {
            let u = UndoView {
                path: machine::rel(s.req.style, s.req.writes[j as int].path),
                old: machine::restoration(s.exists, s.content),
            };
            if t.stage is WritePut {
                lemma_logged(place, s.log, u, before);
            }
        },
        Stage::EditPut(_) | Stage::WritePut(_) => {
            if ev matches EventView::Done(Ok(_)) {
                let f = place(s.log.last().path);
                assert(after.remove(f) =~= before.remove(f));
            }
            if ev is Done {
                lemma_overwritten(place, s.log, before, after);
            }
        },
        Stage::Undoing => {
            assert(put_back(place, s.log.last(), before) =~= after);
        },
        _ => {},
    }
}

/// The way back is kept along a run, and its states are valid.
pub proof fn lemma_run_is_restorable(
    place: spec_fn(Seq<char>) -> int,
    req: RequestView,
    evs: Seq<EventView>,
    disks: Seq<Map<int, Seq<u8>>>,
)
    requires
        is_run(place, req, evs, disks),
    ensures
        machine::valid(course::reached(machine::start(req), evs)),
        restorable(place, course::reached(machine::start(req), evs), disks[0], disks.last()),
    decreases evs.len(),
{
    let s = machine::start(req);
    if evs.len() == 0 {
        machine::lemma_start_is_valid(req);
    } else {
        let front = evs.drop_last();
        let earlier = disks.drop_last();
        lemma_shorter_run(place, req, evs, disks);
        lemma_run_is_restorable(place, req, front, earlier);
        let n = evs.len() - 1;
        assert(evs.take(n) =~= front);
        assert(step(place, course::reached(s, evs.take(n)), evs[n], disks[n], disks[n + 1]));
        machine::lemma_next_is_valid(course::reached(s, front), evs.last());
        lemma_step_is_restorable(
            place,
            course::reached(s, front),
            evs.last(),
            disks[0],
            earlier.last(),
            disks.last(),
        );
    }
}

/// A run without its last step is a run.
pub proof fn lemma_shorter_run(
    place: spec_fn(Seq<char>) -> int,
    req: RequestView,
    evs: Seq<EventView>,
    disks: Seq<Map<int, Seq<u8>>>,
)
    requires
        is_run(place, req, evs, disks),
        evs.len() > 0,
    ensures
        is_run(place, req, evs.drop_last(), disks.drop_last()),
{
    let front = evs.drop_last();
    let earlier = disks.drop_last();
    assert forall|i: int| 0 <= i < front.len() implies step(
        place,
        course::reached(machine::start(req), front.take(i)),
        #[trigger] front[i],
        earlier[i],
        earlier[i + 1],
    ) by {
        assert(front.take(i) =~= evs.take(i));
        assert(front[i] == evs[i]);
    }
}

/// All or nothing: where a batch ends in an error, whatever failed, every file is as it
/// was before the batch, byte for byte.
pub proof fn law_all_or_nothing(
    place: spec_fn(Seq<char>) -> int,
    req: RequestView,
    evs: Seq<EventView>,
    disks: Seq<Map<int, Seq<u8>>>,
)
    requires
        is_run(place, req, evs, disks),
        machine::outcome(course::reached(machine::start(req), evs)) matches Some(Err(_)),
    ensures
        disks.last() == disks[0],
{
    lemma_run_is_restorable(place, req, evs, disks);
}

/// A dry run touches no file, at no time.
pub proof fn law_dry_run_touches_nothing(
    place: spec_fn(Seq<char>) -> int,
    req: RequestView,
    evs: Seq<EventView>,
    disks: Seq<Map<int, Seq<u8>>>,
)
    requires
        is_run(place, req, evs, disks),
        req.dry_run,
    ensures
        disks.last() == disks[0],
{
    lemma_run_is_restorable(place, req, evs, disks);
    course::lemma_same_request(machine::start(req), evs);
}

/// The request edits or writes `r`.
pub open spec fn named(req: RequestView, r: Seq<char>) -> bool {
    ||| exists|k: int|
        0 <= k < req.edits.len() && machine::rel(req.style, (#[trigger] req.edits[k]).path) == r
    ||| exists|k: int|
        0 <= k < req.writes.len() && machine::rel(req.style, (#[trigger] req.writes[k]).path) == r
}

/// Different paths of the request lead to different files.
pub open spec fn apart(place: spec_fn(Seq<char>) -> int, req: RequestView) -> bool {
    forall|r: Seq<char>, q: Seq<char>| #[trigger]
        named(req, r) && #[trigger] named(req, q) && place(r) == place(q) ==> r == q
}

/// Some path of the request leads to the file.
pub open spec fn in_reach(place: spec_fn(Seq<char>) -> int, req: RequestView, f: int) -> bool {
    exists|r: Seq<char>| #[trigger] named(req, r) && place(r) == f
}

/// The bytes that the edits of `r`, one after the other, make of `bytes`; an edit that
/// cannot be made changes nothing.
pub open spec fn composed(
    style: Style,
    edits: Seq<EditView>,
    r: Seq<char>,
    bytes: Seq<u8>,
) -> Seq<u8>
    decreases edits.len(),
{
    if edits.len() == 0 {
        bytes
    } else {
        let before = composed(style, edits.drop_last(), r, bytes);
        match plan::edit_outcome(edits.last(), before) {
            Ok(m) if machine::rel(style, edits.last().path) == r => vstd::utf8::encode_utf8(m.new_text),
            _ => before,
        }
    }
}

/// The last write to `r`.
pub open spec fn last_write(style: Style, writes: Seq<WriteView>, r: Seq<char>) -> Option<WriteView>
    decreases writes.len(),
{
    if writes.len() == 0 {
        None
    } else if machine::rel(style, writes.last().path) == r {
        Some(writes.last())
    } else {
        last_write(style, writes.drop_last(), r)
    }
}

/// What is to become of the file at `r`, which held `before`: the content of the last
/// write to it, or the result of its edits.
pub open spec fn intended(
    req: RequestView,
    r: Seq<char>,
    before: Option<Seq<u8>>,
) -> Option<Seq<u8>> {
    match (last_write(req.style, req.writes, r), before) {
        (Some(w), _) => Some(vstd::utf8::encode_utf8(w.content)),
        (None, Some(bytes)) => Some(composed(req.style, req.edits, r, bytes)),
        (None, None) => None,
    }
}

/// Every edit that passed pre-flight was matched against what the edits before it make of
/// the file.
pub open spec fn planned(
    place: spec_fn(Seq<char>) -> int,
    s: SessionView,
    first: Map<int, Seq<u8>>,
) -> bool {
    forall|k: int|
        0 <= k < s.prepared.len() ==> {
            let p = #[trigger] s.prepared[k];
            &&& held(first, place(p.rel)) == Some(p.original)
            &&& plan::edit_outcome(
                s.req.edits[k],
                composed(s.req.style, s.req.edits.take(k), p.rel, p.original),
            ) matches Ok(m) && m.current == p.current
            &&& vstd::utf8::encode_utf8(p.new_text) == composed(
                s.req.style,
                s.req.edits.take(k + 1),
                p.rel,
                p.original,
            )
        }
}

/// What the file at `r` holds when the edits before edit `i` are made.
pub open spec fn after_edits(
    place: spec_fn(Seq<char>) -> int,
    s: SessionView,
    first: Map<int, Seq<u8>>,
    i: int,
    r: Seq<char>,
) -> Option<Seq<u8>> {
    match machine::latest(s.prepared, r) {
        Some(p) if p < i => Some(vstd::utf8::encode_utf8(s.prepared[p].new_text)),
        _ => held(first, place(r)),
    }
}

/// The last write to `r` before write `j` that is not superseded.
pub open spec fn effective(req: RequestView, j: int, r: Seq<char>) -> Option<int>
    decreases j,
{
    if j <= 0 {
        None
    } else if machine::rel(req.style, req.writes[j - 1].path) == r && !machine::superseded(req, j - 1) {
        Some(j - 1)
    } else {
        effective(req, j - 1, r)
    }
}

/// What the file at `r` holds when the writes before write `j` are made.
pub open spec fn after_writes(
    place: spec_fn(Seq<char>) -> int,
    s: SessionView,
    first: Map<int, Seq<u8>>,
    j: int,
    r: Seq<char>,
) -> Option<Seq<u8>> {
    match effective(s.req, j, r) {
        Some(k) => Some(vstd::utf8::encode_utf8(s.req.writes[k].content)),
        None => after_edits(place, s, first, s.req.edits.len() as int, r),
    }
}

/// What the file at `r` holds at a stage at which nothing has failed.
pub open spec fn progress(
    place: spec_fn(Seq<char>) -> int,
    s: SessionView,
    first: Map<int, Seq<u8>>,
    r: Seq<char>,
) -> Option<Seq<u8>> {
    match s.stage {
        Stage::EditLocate(_) | Stage::EditInspect(_) => held(first, place(r)),
        Stage::EditLock(i) | Stage::EditReread(i) | Stage::EditPut(i) => after_edits(
            place,
            s,
            first,
            i as int,
            r,
        ),
        Stage::EditUnlock(i) => after_edits(place, s, first, i + 1, r),
        Stage::WriteLocate(j)
        | Stage::WriteInspect(j)
        | Stage::WriteDirs(j)
        | Stage::WriteLock(j)
        | Stage::WriteReread(j)
        | Stage::WritePut(j) => after_writes(place, s, first, j as int, r),
        Stage::WriteUnlock(j) => after_writes(place, s, first, j + 1, r),
        _ => after_writes(place, s, first, s.req.writes.len() as int, r),
    }
}

/// Nothing has failed, and no command has run yet.
pub open spec fn in_order(s: SessionView) -> bool {
    match s.stage {
        Stage::DryLocate(_) | Stage::DryInspect(_) | Stage::Undoing => false,
        Stage::RunCommand(k) => k == 0,
        Stage::Finished(Ending::Applied) => s.req.verify.len() == 0,
        Stage::Finished(_) => false,
        _ => true,
    }
}

/// The files hold what they are to hold at this stage; files that the request does not
/// name hold what they held.
pub open spec fn on_course(
    place: spec_fn(Seq<char>) -> int,
    s: SessionView,
    first: Map<int, Seq<u8>>,
    now: Map<int, Seq<u8>>,
) -> bool {
    &&& forall|r: Seq<char>| #[trigger]
        named(s.req, r) ==> held(now, place(r)) == progress(place, s, first, r)
    &&& forall|f: int| !in_reach(place, s.req, f) ==> #[trigger] held(now, f) == held(first, f)
    &&& s.stage is EditLocate || s.stage is EditInspect ==> now == first
}

/// The edit or write at hand is not one that a later one makes void.
pub open spec fn matters(s: SessionView) -> bool {
    match s.stage {
        Stage::EditReread(i) | Stage::EditPut(i) => !machine::folded(s.prepared, i as int),
        Stage::WriteInspect(j)
        | Stage::WriteDirs(j)
        | Stage::WriteLock(j)
        | Stage::WriteReread(j)
        | Stage::WritePut(j) => !machine::superseded(s.req, j as int),
        _ => true,
    }
}

/// The part of [`lemma_matters`] on pre-flight and dry runs.
proof fn lemma_preflight_matters(s: SessionView, ev: EventView)
    requires
        machine::valid(s),
        matters(s),
        course::phase(s.stage) == 0,
    ensures
        matters(machine::next(s, ev)),
{
    reveal(machine::next);
    machine::lemma_counts(s.req);
}

/// The part of [`lemma_matters`] on the edits.
proof fn lemma_edit_matters(s: SessionView, ev: EventView)
    requires
        machine::valid(s),
        matters(s),
        course::phase(s.stage) == 1,
    ensures
        matters(machine::next(s, ev)),
{
    reveal(machine::next);
    machine::lemma_counts(s.req);
}

/// The part of [`lemma_matters`] on the writes.
#[verifier::spinoff_prover]
#[verifier::rlimit(40)]
proof fn lemma_write_matters(s: SessionView, ev: EventView)
    requires
        machine::valid(s),
        matters(s),
        course::phase(s.stage) == 2,
    ensures
        matters(machine::next(s, ev)),
{
    reveal(machine::next);
    machine::lemma_counts(s.req);
}

/// The edit or write at hand is never one that a later one makes void.
pub proof fn lemma_matters(s: SessionView, ev: EventView)
    requires
        machine::valid(s),
        matters(s),
    ensures
        matters(machine::next(s, ev)),
{
    if course::phase(s.stage) == 0 {
        lemma_preflight_matters(s, ev);
    } else if course::phase(s.stage) == 1 {
        lemma_edit_matters(s, ev);
    } else if course::phase(s.stage) == 2 {
        lemma_write_matters(s, ev);
    } else {
        reveal(machine::next);
    }
}

/// Edits of other files make no difference.
pub proof fn lemma_composed_skips(
    style: Style,
    edits: Seq<EditView>,
    r: Seq<char>,
    bytes: Seq<u8>,
    from: int,
    to: int,
)
    requires
        0 <= from <= to <= edits.len(),
        forall|k: int| from <= k < to ==> machine::rel(style, (#[trigger] edits[k]).path) != r,
    ensures
        composed(style, edits.take(to), r, bytes) == composed(style, edits.take(from), r, bytes),
    decreases to,
{
    if from < to {
        lemma_composed_skips(style, edits, r, bytes, from, to - 1);
        assert(edits.take(to).drop_last() =~= edits.take(to - 1));
        assert(edits.take(to).last() == edits[to - 1]);
    }
}

/// Pre-flight matches an edit against what the edits before it make of the file.
proof fn lemma_matched_is_planned(
    place: spec_fn(Seq<char>) -> int,
    s: SessionView,
    ev: EventView,
    first: Map<int, Seq<u8>>,
    i: int,
)
    requires
        machine::valid(s),
        s.stage == Stage::EditInspect(i as usize),
        0 <= i < s.req.edits.len(),
        planned(place, s, first),
        step(place, s, ev, first, first),
    ensures
        planned(place, machine::next(s, ev), first),
{
    reveal(machine::next);
    machine::lemma_counts(s.req);
    let t = machine::next(s, ev);
    let edits = s.req.edits;
    let r = machine::rel(s.req.style, edits[i].path);
    if t.prepared.len() > s.prepared.len() {
        let p = t.prepared.last();
        machine::lemma_latest(s.prepared, r);
        assert forall|k: int| 0 <= k < i implies s.prepared[k].rel == machine::rel(
            s.req.style,
            (#[trigger] edits[k]).path,
        ) by {
            assert(s.prepared[k].rel == machine::rel(s.req.style, edits[k].path));
        }
        match machine::latest(s.prepared, r) {
            Some(q) => {
                lemma_composed_skips(s.req.style, edits, r, p.original, q + 1, i);
            },
            None => {
                lemma_composed_skips(s.req.style, edits, r, p.original, 0, i);
            },
        }
        assert(edits.take(i + 1).drop_last() =~= edits.take(i));
        assert(edits.take(i + 1).last() == edits[i]);
        assert forall|k: int| 0 <= k < t.prepared.len() implies {
            let q = #[trigger] t.prepared[k];
            &&& held(first, place(q.rel)) == Some(q.original)
            &&& plan::edit_outcome(
                edits[k],
                composed(s.req.style, edits.take(k), q.rel, q.original),
            ) matches Ok(m) && m.current == q.current
            &&& vstd::utf8::encode_utf8(q.new_text) == composed(
                s.req.style,
                edits.take(k + 1),
                q.rel,
                q.original,
            )
        } by {
            if k < i {
                assert(t.prepared[k] == s.prepared[k]);
            }
        }
    }
}

/// Only pre-flight plans.
proof fn lemma_stays_planned(
    place: spec_fn(Seq<char>) -> int,
    s: SessionView,
    ev: EventView,
    first: Map<int, Seq<u8>>,
)
    requires
        !(s.stage is EditInspect),
        !machine::is_dry(s.stage),
        planned(place, s, first),
    ensures
        planned(place, machine::next(s, ev), first),
{
    reveal(machine::next);
    assert(machine::next(s, ev).prepared == s.prepared);
    assert(machine::next(s, ev).req == s.req);
}

/// Where pre-flight leads to.
proof fn lemma_preflight_stages(s: SessionView, ev: EventView, i: int)
    requires
        machine::valid(s),
        s.stage == Stage::EditLocate(i as usize) || s.stage == Stage::EditInspect(i as usize),
        0 <= i < s.req.edits.len(),
        in_order(machine::next(s, ev)),
    ensures
        ({
            let t = machine::next(s, ev);
            &&& t.req == s.req
            &&& t.stage == s.stage || t.stage == Stage::EditInspect(i as usize) || t.stage
                == machine::preflight_stage(s.req, i + 1)
        }),
{
    reveal(machine::next);
}

/// Nothing is to change before pre-flight is done.
proof fn lemma_progress_of_preflight(
    place: spec_fn(Seq<char>) -> int,
    s: SessionView,
    first: Map<int, Seq<u8>>,
    i: int,
    r: Seq<char>,
)
    requires
        s.stage is EditInspect || s.stage == machine::preflight_stage(s.req, i),
        machine::valid(s),
        in_order(s),
    ensures
        progress(place, s, first, r) == held(first, place(r)),
{
    machine::lemma_latest(s.prepared, r);
}

/// Pre-flight keeps the course.
proof fn lemma_preflight_on_course(
    place: spec_fn(Seq<char>) -> int,
    s: SessionView,
    ev: EventView,
    first: Map<int, Seq<u8>>,
    before: Map<int, Seq<u8>>,
    after: Map<int, Seq<u8>>,
    i: int,
)
    requires
        machine::valid(s),
        machine::valid(machine::next(s, ev)),
        s.stage == Stage::EditLocate(i as usize) || s.stage == Stage::EditInspect(i as usize),
        0 <= i < s.req.edits.len(),
        on_course(place, s, first, before),
        step(place, s, ev, before, after),
        in_order(machine::next(s, ev)),
    ensures
        on_course(place, machine::next(s, ev), first, after),
{
    reveal(machine::next);
    machine::lemma_counts(s.req);
    lemma_preflight_stages(s, ev, i);
    let t = machine::next(s, ev);
    assert(after == first);
    assert forall|r: Seq<char>| #[trigger] named(t.req, r) implies held(after, place(r))
        == progress(place, t, first, r) by {
        if t.stage is EditInspect {
            lemma_progress_of_preflight(place, t, first, i, r);
        } else {
            lemma_progress_of_preflight(place, t, first, if t.stage == s.stage { i } else { i + 1 }, r);
        }
    }
}

/// What edit `i` adds to the edits before it.
proof fn lemma_after_edit(
    place: spec_fn(Seq<char>) -> int,
    s: SessionView,
    first: Map<int, Seq<u8>>,
    i: int,
    r: Seq<char>,
)
    requires
        0 <= i < s.prepared.len(),
    ensures
        after_edits(place, s, first, i + 1, r) == if !machine::folded(s.prepared, i)
            && s.prepared[i].rel == r {
            Some(vstd::utf8::encode_utf8(s.prepared[i].new_text))
        } else {
            after_edits(place, s, first, i, r)
        },
{
    machine::lemma_latest(s.prepared, r);
}

/// The statuses make no difference to what the files are to hold.
proof fn lemma_progress_of_edits(
    place: spec_fn(Seq<char>) -> int,
    s: SessionView,
    first: Map<int, Seq<u8>>,
    i: int,
    r: Seq<char>,
)
    requires
        machine::valid(s),
        in_order(s),
        0 <= i <= s.req.edits.len(),
        s.stage == machine::edit_stage(s.req, i),
    ensures
        progress(place, s, first, r) == after_edits(place, s, first, i, r),
{
    machine::lemma_counts(s.req);
}

/// Locking, reading and unlocking keep the course.
#[verifier::spinoff_prover]
#[verifier::rlimit(40)]
proof fn lemma_around_edit_on_course(
    place: spec_fn(Seq<char>) -> int,
    s: SessionView,
    ev: EventView,
    first: Map<int, Seq<u8>>,
    now: Map<int, Seq<u8>>,
    i: int,
)
    requires
        machine::valid(s),
        machine::valid(machine::next(s, ev)),
        s.stage == Stage::EditLock(i as usize) || s.stage == Stage::EditReread(i as usize)
            || s.stage == Stage::EditUnlock(i as usize),
        0 <= i < s.req.edits.len(),
        on_course(place, s, first, now),
        in_order(machine::next(s, ev)),
    ensures
        on_course(place, machine::next(s, ev), first, now),
{
    reveal(machine::next);
    machine::lemma_counts(s.req);
    let t = machine::next(s, ev);
    assert(t.req == s.req && t.prepared == s.prepared);
    assert forall|r: Seq<char>| #[trigger] named(t.req, r) implies held(now, place(r)) == progress(
        place,
        t,
        first,
        r,
    ) by {
        assert(named(s.req, r));
        lemma_after_edit(place, s, first, i, r);
        assert(forall|k: int|
            after_edits(place, t, first, k, r) == #[trigger] after_edits(place, s, first, k, r));
        if t.stage == machine::edit_stage(s.req, i + 1) {
            lemma_progress_of_edits(place, t, first, i + 1, r);
        }
    }
}

/// Making bytes the content of a file of the request.
proof fn lemma_put(
    place: spec_fn(Seq<char>) -> int,
    req: RequestView,
    before: Map<int, Seq<u8>>,
    path: Seq<char>,
    content: Seq<u8>,
)
    requires
        apart(place, req),
        named(req, path),
    ensures
        forall|r: Seq<char>| #[trigger]
            named(req, r) ==> held(before.insert(place(path), content), place(r)) == if r == path {
                Some(content)
            } else {
                held(before, place(r))
            },
        forall|f: int|
            !in_reach(place, req, f) ==> #[trigger] held(before.insert(place(path), content), f)
                == held(before, f),
{
    assert forall|f: int| !in_reach(place, req, f) implies #[trigger] held(
        before.insert(place(path), content),
        f,
    ) == held(before, f) by {
        assert(f != place(path));
    }
}

/// Writing the file of an edit keeps the course.
proof fn lemma_edit_put_on_course(
    place: spec_fn(Seq<char>) -> int,
    s: SessionView,
    ev: EventView,
    first: Map<int, Seq<u8>>,
    before: Map<int, Seq<u8>>,
    after: Map<int, Seq<u8>>,
    i: int,
)
    requires
        machine::valid(s),
        apart(place, s.req),
        s.stage == Stage::EditPut(i as usize),
        0 <= i < s.req.edits.len(),
        matters(s),
        on_course(place, s, first, before),
        step(place, s, ev, before, after),
        in_order(machine::next(s, ev)),
    ensures
        on_course(place, machine::next(s, ev), first, after),
{
    reveal(machine::next);
    machine::lemma_counts(s.req);
    let t = machine::next(s, ev);
    assert(t.req == s.req && t.prepared == s.prepared);
    if ev matches EventView::Done(Ok(_)) {
        let path = s.prepared[i].rel;
        let content = vstd::utf8::encode_utf8(s.prepared[i].new_text);
        assert(machine::rel(s.req.style, s.req.edits[i].path) == path);
        assert(named(s.req, path));
        lemma_put(place, s.req, before, path, content);
        assert(after == before.insert(place(path), content));
        assert forall|r: Seq<char>| #[trigger] named(t.req, r) implies held(after, place(r))
            == progress(place, t, first, r) by {
            assert(named(s.req, r));
            lemma_after_edit(place, s, first, i, r);
            assert(after_edits(place, t, first, i + 1, r) == after_edits(
                place,
                s,
                first,
                i + 1,
                r,
            ));
        }
    } else {
        assert(t == s && after == before);
    }
}

/// What is to hold from write `j` on.
proof fn lemma_progress_of_writes(
    place: spec_fn(Seq<char>) -> int,
    s: SessionView,
    first: Map<int, Seq<u8>>,
    j: int,
    r: Seq<char>,
)
    requires
        machine::valid(s),
        in_order(s),
        0 <= j <= s.req.writes.len(),
        s.stage == machine::write_stage(s.req, j),
    ensures
        progress(place, s, first, r) == after_writes(place, s, first, j, r),
{
    machine::lemma_counts(s.req);
}

/// Locating, reading, locking and unlocking keep the course.
#[verifier::spinoff_prover]
#[verifier::rlimit(40)]
proof fn lemma_around_write_on_course(
    place: spec_fn(Seq<char>) -> int,
    s: SessionView,
    ev: EventView,
    first: Map<int, Seq<u8>>,
    now: Map<int, Seq<u8>>,
    j: int,
)
    requires
        machine::valid(s),
        machine::valid(machine::next(s, ev)),
        s.stage == Stage::WriteLocate(j as usize) || s.stage == Stage::WriteInspect(j as usize)
            || s.stage == Stage::WriteDirs(j as usize) || s.stage == Stage::WriteLock(j as usize)
            || s.stage == Stage::WriteReread(j as usize) || s.stage == Stage::WriteUnlock(
            j as usize,
        ),
        0 <= j < s.req.writes.len(),
        on_course(place, s, first, now),
        in_order(machine::next(s, ev)),
    ensures
        on_course(place, machine::next(s, ev), first, now),
{
    reveal(machine::next);
    machine::lemma_counts(s.req);
    let t = machine::next(s, ev);
    assert(t.req == s.req && t.prepared == s.prepared);
    assert forall|r: Seq<char>| #[trigger] named(t.req, r) implies held(now, place(r)) == progress(
        place,
        t,
        first,
        r,
    ) by {
        assert(named(s.req, r));
        assert(forall|k: int|
            after_writes(place, t, first, k, r) == #[trigger] after_writes(place, s, first, k, r));
        if t.stage == machine::write_stage(s.req, j + 1) {
            lemma_progress_of_writes(place, t, first, j + 1, r);
        }
    }
}

/// Writing the file of a write keeps the course.
#[verifier::spinoff_prover]
#[verifier::rlimit(40)]
proof fn lemma_write_put_on_course(
    place: spec_fn(Seq<char>) -> int,
    s: SessionView,
    ev: EventView,
    first: Map<int, Seq<u8>>,
    before: Map<int, Seq<u8>>,
    after: Map<int, Seq<u8>>,
    j: int,
)
    requires
        machine::valid(s),
        apart(place, s.req),
        s.stage == Stage::WritePut(j as usize),
        0 <= j < s.req.writes.len(),
        matters(s),
        on_course(place, s, first, before),
        step(place, s, ev, before, after),
        in_order(machine::next(s, ev)),
    ensures
        on_course(place, machine::next(s, ev), first, after),
{
    reveal(machine::next);
    machine::lemma_counts(s.req);
    let t = machine::next(s, ev);
    assert(t.req == s.req && t.prepared == s.prepared);
    if ev matches EventView::Done(Ok(_)) {
        let path = machine::rel(s.req.style, s.req.writes[j].path);
        let content = vstd::utf8::encode_utf8(s.req.writes[j].content);
        assert(named(s.req, path));
        lemma_put(place, s.req, before, path, content);
        assert(after == before.insert(place(path), content));
        assert forall|r: Seq<char>| #[trigger] named(t.req, r) implies held(after, place(r))
            == progress(place, t, first, r) by {
            assert(named(s.req, r));
            assert(after_writes(place, t, first, j + 1, r) == after_writes(
                place,
                s,
                first,
                j + 1,
                r,
            ));
        }
    } else {
        assert(t == s && after == before);
    }
}

/// A step after which nothing has failed keeps the course.
proof fn lemma_step_on_course(
    place: spec_fn(Seq<char>) -> int,
    s: SessionView,
    ev: EventView,
    first: Map<int, Seq<u8>>,
    before: Map<int, Seq<u8>>,
    after: Map<int, Seq<u8>>,
)
    requires
        machine::valid(s),
        apart(place, s.req),
        in_order(s),
        matters(s),
        planned(place, s, first),
        on_course(place, s, first, before),
        step(place, s, ev, before, after),
        in_order(machine::next(s, ev)),
    ensures
        planned(place, machine::next(s, ev), first),
        on_course(place, machine::next(s, ev), first, after),
{
    machine::lemma_next_is_valid(s, ev);
    if !(s.stage is EditInspect) {
        lemma_stays_planned(place, s, ev, first);
    }
    match s.stage {
        Stage::EditLocate(i) => {
            lemma_preflight_on_course(place, s, ev, first, before, after, i as int);
        },
        Stage::EditInspect(i) => {
            lemma_matched_is_planned(place, s, ev, first, i as int);
            lemma_preflight_on_course(place, s, ev, first, before, after, i as int);
        },
        Stage::EditLock(i) | Stage::EditReread(i) | Stage::EditUnlock(i) => {
            lemma_around_edit_on_course(place, s, ev, first, before, i as int);
        },
        Stage::EditPut(i) => {
            lemma_edit_put_on_course(place, s, ev, first, before, after, i as int);
        },
        Stage::WriteLocate(j)
        | Stage::WriteInspect(j)
        | Stage::WriteDirs(j)
        | Stage::WriteLock(j)
        | Stage::WriteReread(j)
        | Stage::WriteUnlock(j) => {
            lemma_around_write_on_course(place, s, ev, first, before, j as int);
        },
        Stage::WritePut(j) => {
            lemma_write_put_on_course(place, s, ev, first, before, after, j as int);
        },
        _ => {
            reveal(machine::next);
            assert(machine::next(s, ev) == s && after == before);
        },
    }
}

/// Once something has failed, or a command has run, that stays so.
proof fn lemma_out_of_order(s: SessionView, ev: EventView)
    requires
        machine::valid(s),
        !in_order(s),
    ensures
        !in_order(machine::next(s, ev)),
{
    reveal(machine::next);
}

/// The course is kept along a run.
proof fn lemma_run_on_course(
    place: spec_fn(Seq<char>) -> int,
    req: RequestView,
    evs: Seq<EventView>,
    disks: Seq<Map<int, Seq<u8>>>,
)
    requires
        is_run(place, req, evs, disks),
        apart(place, req),
    ensures
        machine::valid(course::reached(machine::start(req), evs)),
        matters(course::reached(machine::start(req), evs)),
        in_order(course::reached(machine::start(req), evs)) ==> planned(
            place,
            course::reached(machine::start(req), evs),
            disks[0],
        ) && on_course(place, course::reached(machine::start(req), evs), disks[0], disks.last()),
    decreases evs.len(),
{
    let s = machine::start(req);
    if evs.len() == 0 {
        machine::lemma_start_is_valid(req);
        if in_order(s) {
            assert forall|r: Seq<char>| #[trigger] named(s.req, r) implies held(
                disks[0],
                place(r),
            ) == progress(place, s, disks[0], r) by {
                lemma_progress_of_preflight(place, s, disks[0], 0, r);
            }
        }
    } else {
        let front = evs.drop_last();
        let earlier = disks.drop_last();
        lemma_shorter_run(place, req, evs, disks);
        lemma_run_on_course(place, req, front, earlier);
        let n = evs.len() - 1;
        assert(evs.take(n) =~= front);
        assert(step(place, course::reached(s, evs.take(n)), evs[n], disks[n], disks[n + 1]));
        let t = course::reached(s, front);
        course::lemma_same_request(s, front);
        machine::lemma_next_is_valid(t, evs.last());
        lemma_matters(t, evs.last());
        if in_order(t) {
            if in_order(machine::next(t, evs.last())) {
                lemma_step_on_course(place, t, evs.last(), disks[0], earlier.last(), disks.last());
            }
        } else {
            lemma_out_of_order(t, evs.last());
        }
    }
}

/// The last write to a path is never superseded.
proof fn lemma_effective_is_last(req: RequestView, j: int, r: Seq<char>)
    requires
        0 <= j <= req.writes.len(),
        forall|k: int|
            j <= k < req.writes.len() ==> machine::rel(req.style, (#[trigger] req.writes[k]).path) != r,
    ensures
        match effective(req, j, r) {
            Some(k) => 0 <= k < j && last_write(req.style, req.writes.take(j), r) == Some(req.writes[k]),
            None => last_write(req.style, req.writes.take(j), r) is None,
        },
    decreases j,
{
    if j > 0 {
        let w = req.writes.take(j);
        assert(w.drop_last() =~= req.writes.take(j - 1));
        assert(w.last() == req.writes[j - 1]);
        if machine::rel(req.style, req.writes[j - 1].path) != r {
            lemma_effective_is_last(req, j - 1, r);
        }
    }
}

/// What a file is to hold after all edits.
proof fn lemma_after_all_edits(
    place: spec_fn(Seq<char>) -> int,
    s: SessionView,
    first: Map<int, Seq<u8>>,
    r: Seq<char>,
)
    requires
        machine::valid(s),
        !s.req.dry_run,
        planned(place, s, first),
        s.prepared.len() == s.req.edits.len(),
    ensures
        after_edits(place, s, first, s.req.edits.len() as int, r) == match held(first, place(r)) {
            Some(bytes) => Some(composed(s.req.style, s.req.edits, r, bytes)),
            None => None,
        },
{
    let n = s.req.edits.len() as int;
    assert(s.req.edits.take(n) =~= s.req.edits);
    machine::lemma_latest(s.prepared, r);
    assert forall|k: int| 0 <= k < n implies s.prepared[k].rel == machine::rel(
        s.req.style,
        (#[trigger] s.req.edits[k]).path,
    ) by {
        assert(s.prepared[k].rel == machine::rel(s.req.style, s.req.edits[k].path));
    }
    match machine::latest(s.prepared, r) {
        Some(p) => {
            lemma_composed_skips(s.req.style, s.req.edits, r, s.prepared[p].original, p + 1, n);
        },
        None => {
            lemma_composed_skips(s.req.style, s.req.edits, r, held(first, place(r))->0, 0, n);
        },
    }
}

/// What a file is to hold in the end.
proof fn lemma_after_all(
    place: spec_fn(Seq<char>) -> int,
    s: SessionView,
    first: Map<int, Seq<u8>>,
    r: Seq<char>,
)
    requires
        machine::valid(s),
        !s.req.dry_run,
        planned(place, s, first),
        s.prepared.len() == s.req.edits.len(),
    ensures
        after_writes(place, s, first, s.req.writes.len() as int, r) == intended(
            s.req,
            r,
            held(first, place(r)),
        ),
{
    let m = s.req.writes.len() as int;
    assert(s.req.writes.take(m) =~= s.req.writes);
    lemma_effective_is_last(s.req, m, r);
    lemma_after_all_edits(place, s, first, r);
}

/// What lands: when all of a batch has been applied and no command has run yet, every
/// file that the request names holds the content of the last write to it, or else what
/// its edits, composed in order, make of what it held; no other file is touched; and the
/// directories that the writes want were made.
pub proof fn law_what_lands(
    place: spec_fn(Seq<char>) -> int,
    req: RequestView,
    evs: Seq<EventView>,
    disks: Seq<Map<int, Seq<u8>>>,
)
    requires
        is_run(place, req, evs, disks),
        apart(place, req),
        !req.dry_run,
        course::reached(machine::start(req), evs).stage == machine::run_stage(req, 0),
    ensures
        forall|r: Seq<char>| #[trigger]
            named(req, r) ==> held(disks.last(), place(r)) == intended(
                req,
                r,
                held(disks[0], place(r)),
            ),
        forall|f: int|
            !in_reach(place, req, f) ==> #[trigger] held(disks.last(), f) == held(disks[0], f),
        forall|j: int|
            0 <= j < req.writes.len() && #[trigger] course::wants_dirs(req, j) ==> course::made(
                machine::start(req),
                evs,
                machine::rel(req.style, req.writes[j].path),
            ),
{
    let s = course::reached(machine::start(req), evs);
    lemma_run_on_course(place, req, evs, disks);
    course::lemma_same_request(machine::start(req), evs);
    assert forall|r: Seq<char>| #[trigger] named(req, r) implies held(disks.last(), place(r))
        == intended(req, r, held(disks[0], place(r))) by {
        lemma_after_all(place, s, disks[0], r);
    }
    assert forall|j: int| 0 <= j < req.writes.len() && #[trigger] course::wants_dirs(
        req,
        j,
    ) implies course::made(
        machine::start(req),
        evs,
        machine::rel(req.style, req.writes[j].path),
    ) by {
        course::law_directories_are_made(req, evs, j);
    }
}

/// What pre-flight has matched so far stays planned along a run.
pub proof fn lemma_run_is_planned(
    place: spec_fn(Seq<char>) -> int,
    req: RequestView,
    evs: Seq<EventView>,
    disks: Seq<Map<int, Seq<u8>>>,
)
    requires
        is_run(place, req, evs, disks),
        !req.dry_run,
    ensures
        planned(place, course::reached(machine::start(req), evs), disks[0]),
    decreases evs.len(),
{
    let s0 = machine::start(req);
    if evs.len() > 0 {
        let front = evs.drop_last();
        let earlier = disks.drop_last();
        let n = evs.len() - 1;
        lemma_shorter_run(place, req, evs, disks);
        lemma_run_is_planned(place, req, front, earlier);
        lemma_run_is_restorable(place, req, front, earlier);
        course::lemma_same_request(s0, front);
        let s = course::reached(s0, front);
        assert(evs.take(n) =~= front);
        assert(step(place, course::reached(s0, evs.take(n)), evs[n], disks[n], disks[n + 1]));
        match s.stage {
            Stage::EditInspect(i) => {
                assert(earlier.last() == disks[0]);
                lemma_matched_is_planned(place, s, evs.last(), disks[0], i as int);
            },
            _ => {
                lemma_stays_planned(place, s, evs.last(), disks[0]);
            },
        }
    }
}

/// Once pre-flight is done, every edit has a target, and the right number of matches in what
/// the edits before it make of that target.
pub proof fn law_every_edit_matched(
    place: spec_fn(Seq<char>) -> int,
    req: RequestView,
    evs: Seq<EventView>,
    disks: Seq<Map<int, Seq<u8>>>,
)
    requires
        is_run(place, req, evs, disks),
        !req.dry_run,
        course::reached(machine::start(req), evs).prepared.len() == req.edits.len(),
    ensures
        all_match(place, req, disks[0]),
{
    let s = course::reached(machine::start(req), evs);
    lemma_run_is_planned(place, req, evs, disks);
    lemma_run_is_restorable(place, req, evs, disks);
    course::lemma_same_request(machine::start(req), evs);
    assert forall|k: int| 0 <= k < req.edits.len() implies {
        let e = #[trigger] req.edits[k];
        let before = held(disks[0], place(machine::rel(req.style, e.path)));
        &&& before is Some
        &&& plan::edit_outcome(
            e,
            composed(req.style, req.edits.take(k), machine::rel(req.style, e.path), before->0),
        ) is Ok
    } by {
        assert(s.prepared[k].rel == machine::rel(req.style, req.edits[k].path));
    }
}

/// The event reports no trouble.
pub open spec fn is_smooth(ev: EventView) -> bool {
    match ev {
        EventView::Done(r) => r is Ok,
        EventView::Located(inside) => inside,
        EventView::Found { exists, content } => exists == (content is Some),
        EventView::Reread(now) => !(now is Failed),
        EventView::Ran(_) => true,
    }
}

/// Every edit has a target, and the right number of matches in what the edits before it
/// make of that target.
pub open spec fn all_match(
    place: spec_fn(Seq<char>) -> int,
    req: RequestView,
    first: Map<int, Seq<u8>>,
) -> bool {
    forall|k: int|
        0 <= k < req.edits.len() ==> {
            let e = #[trigger] req.edits[k];
            let before = held(first, place(machine::rel(req.style, e.path)));
            &&& before is Some
            &&& plan::edit_outcome(
                e,
                composed(req.style, req.edits.take(k), machine::rel(req.style, e.path), before->0),
            ) is Ok
        }
}

/// What the file of write `j` holds before it is written.
pub open spec fn before_write(
    place: spec_fn(Seq<char>) -> int,
    req: RequestView,
    first: Map<int, Seq<u8>>,
    j: int,
) -> Option<Seq<u8>> {
    let r = machine::rel(req.style, req.writes[j].path);
    match (effective(req, j, r), held(first, place(r))) {
        (Some(k), _) => Some(vstd::utf8::encode_utf8(req.writes[k].content)),
        (None, Some(bytes)) => Some(composed(req.style, req.edits, r, bytes)),
        (None, None) => None,
    }
}

/// No write is to a file that is too large to be overwritten.
pub open spec fn all_fit(
    place: spec_fn(Seq<char>) -> int,
    req: RequestView,
    first: Map<int, Seq<u8>>,
) -> bool {
    forall|j: int|
        0 <= j < req.writes.len() ==> (#[trigger] before_write(place, req, first, j) matches Some(
            bytes,
        ) ==> bytes.len() <= MAX_FILE_BYTES)
}

/// The session has failed.
pub open spec fn has_failed(s: SessionView) -> bool {
    ||| s.stage is Undoing
    ||| s.stage == Stage::Finished(Ending::Refused)
    ||| s.stage == Stage::Finished(Ending::RolledBack)
}

/// What was found at the target of the write at hand is still there.
pub open spec fn still_there(
    place: spec_fn(Seq<char>) -> int,
    s: SessionView,
    now: Map<int, Seq<u8>>,
) -> bool {
    match s.stage {
        Stage::WriteDirs(j) | Stage::WriteLock(j) | Stage::WriteReread(j) => s.content == held(
            now,
            place(machine::rel(s.req.style, s.req.writes[j as int].path)),
        ),
        _ => true,
    }
}

/// A write finds what is to be there before it.
proof fn lemma_before_write(
    place: spec_fn(Seq<char>) -> int,
    s: SessionView,
    first: Map<int, Seq<u8>>,
    j: int,
)
    requires
        machine::valid(s),
        !s.req.dry_run,
        planned(place, s, first),
        s.prepared.len() == s.req.edits.len(),
        0 <= j < s.req.writes.len(),
    ensures
        after_writes(place, s, first, j, machine::rel(s.req.style, s.req.writes[j].path)) == before_write(
            place,
            s.req,
            first,
            j,
        ),
{
    lemma_after_all_edits(place, s, first, machine::rel(s.req.style, s.req.writes[j].path));
}

/// Where nothing is in trouble, pre-flight does not fail.
proof fn lemma_smooth_preflight(
    place: spec_fn(Seq<char>) -> int,
    s: SessionView,
    ev: EventView,
    first: Map<int, Seq<u8>>,
    i: int,
)
    requires
        machine::valid(s),
        s.stage == Stage::EditLocate(i as usize) || s.stage == Stage::EditInspect(i as usize),
        0 <= i < s.req.edits.len(),
        planned(place, s, first),
        step(place, s, ev, first, first),
        is_smooth(ev),
        all_match(place, s.req, first),
    ensures
        !has_failed(machine::next(s, ev)),
{
    reveal(machine::next);
    machine::lemma_counts(s.req);
    let edits = s.req.edits;
    let e = edits[i];
    let r = machine::rel(s.req.style, e.path);
    let bytes = held(first, place(r))->0;
    assert(held(first, place(r)) is Some);
    assert(plan::edit_outcome(e, composed(s.req.style, edits.take(i), r, bytes)) is Ok);
    if s.stage is EditInspect {
        machine::lemma_latest(s.prepared, r);
        assert forall|k: int| 0 <= k < i implies s.prepared[k].rel == machine::rel(
            s.req.style,
            (#[trigger] edits[k]).path,
        ) by {
            assert(s.prepared[k].rel == machine::rel(s.req.style, edits[k].path));
        }
        match machine::latest(s.prepared, r) {
            Some(q) => {
                assert(s.prepared[q].original == bytes);
                lemma_composed_skips(s.req.style, edits, r, bytes, q + 1, i);
            },
            None => {
                lemma_composed_skips(s.req.style, edits, r, bytes, 0, i);
            },
        }
    }
}

/// Where nothing is in trouble, applying the edits does not fail.
proof fn lemma_smooth_edits(
    place: spec_fn(Seq<char>) -> int,
    s: SessionView,
    ev: EventView,
    first: Map<int, Seq<u8>>,
    before: Map<int, Seq<u8>>,
    after: Map<int, Seq<u8>>,
    i: int,
)
    requires
        machine::valid(s),
        s.stage == Stage::EditLock(i as usize) || s.stage == Stage::EditReread(i as usize)
            || s.stage == Stage::EditPut(i as usize) || s.stage == Stage::EditUnlock(i as usize),
        0 <= i < s.req.edits.len(),
        matters(s),
        planned(place, s, first),
        on_course(place, s, first, before),
        step(place, s, ev, before, after),
        is_smooth(ev),
    ensures
        !has_failed(machine::next(s, ev)),
{
    reveal(machine::next);
    machine::lemma_counts(s.req);
    if s.stage is EditReread {
        let p = s.prepared[i];
        assert(machine::rel(s.req.style, s.req.edits[i].path) == p.rel);
        assert(named(s.req, p.rel));
        machine::lemma_latest(s.prepared, p.rel);
        assert(held(before, place(p.rel)) == Some(p.original));
    }
}

/// Where nothing is in trouble, the writes do not fail.
#[verifier::spinoff_prover]
#[verifier::rlimit(40)]
proof fn lemma_smooth_writes(
    place: spec_fn(Seq<char>) -> int,
    s: SessionView,
    ev: EventView,
    first: Map<int, Seq<u8>>,
    before: Map<int, Seq<u8>>,
    after: Map<int, Seq<u8>>,
    j: int,
)
    requires
        machine::valid(s),
        s.stage == Stage::WriteLocate(j as usize) || s.stage == Stage::WriteInspect(j as usize)
            || s.stage == Stage::WriteDirs(j as usize) || s.stage == Stage::WriteLock(j as usize)
            || s.stage == Stage::WriteReread(j as usize) || s.stage == Stage::WritePut(j as usize)
            || s.stage == Stage::WriteUnlock(j as usize),
        0 <= j < s.req.writes.len(),
        planned(place, s, first),
        on_course(place, s, first, before),
        still_there(place, s, before),
        step(place, s, ev, before, after),
        is_smooth(ev),
        all_fit(place, s.req, first),
    ensures
        !has_failed(machine::next(s, ev)),
        still_there(place, machine::next(s, ev), after),
{
    reveal(machine::next);
    machine::lemma_counts(s.req);
    if s.stage is WriteInspect {
        let r = machine::rel(s.req.style, s.req.writes[j].path);
        assert(named(s.req, r));
        lemma_before_write(place, s, first, j);
        assert(held(before, place(r)) == before_write(place, s.req, first, j));
    }
}

/// Where nothing is in trouble, a step does not fail.
proof fn lemma_smooth_step(
    place: spec_fn(Seq<char>) -> int,
    s: SessionView,
    ev: EventView,
    first: Map<int, Seq<u8>>,
    before: Map<int, Seq<u8>>,
    after: Map<int, Seq<u8>>,
)
    requires
        machine::valid(s),
        !s.req.dry_run,
        !has_failed(s),
        matters(s),
        in_order(s) ==> planned(place, s, first) && on_course(place, s, first, before),
        still_there(place, s, before),
        step(place, s, ev, before, after),
        is_smooth(ev),
        all_match(place, s.req, first),
        all_fit(place, s.req, first),
    ensures
        !has_failed(machine::next(s, ev)),
        still_there(place, machine::next(s, ev), after),
{
    match s.stage {
        Stage::EditLocate(i) | Stage::EditInspect(i) => {
            lemma_smooth_preflight(place, s, ev, first, i as int);
            lemma_not_writing(place, s, ev, after);
        },
        Stage::EditLock(i) | Stage::EditReread(i) | Stage::EditPut(i) | Stage::EditUnlock(i) => {
            lemma_smooth_edits(place, s, ev, first, before, after, i as int);
            lemma_not_writing(place, s, ev, after);
        },
        Stage::WriteLocate(j)
        | Stage::WriteInspect(j)
        | Stage::WriteDirs(j)
        | Stage::WriteLock(j)
        | Stage::WriteReread(j)
        | Stage::WritePut(j)
        | Stage::WriteUnlock(j) => {
            lemma_smooth_writes(place, s, ev, first, before, after, j as int);
        },
        _ => {
            reveal(machine::next);
        },
    }
}

/// Before the writes there is no write at hand.
proof fn lemma_not_writing(
    place: spec_fn(Seq<char>) -> int,
    s: SessionView,
    ev: EventView,
    after: Map<int, Seq<u8>>,
)
    requires
        machine::valid(s),
        course::phase(s.stage) < 2,
    ensures
        still_there(place, machine::next(s, ev), after),
{
    reveal(machine::next);
}

/// A session in which nothing is in trouble does not fail.
proof fn lemma_smooth_run(
    place: spec_fn(Seq<char>) -> int,
    req: RequestView,
    evs: Seq<EventView>,
    disks: Seq<Map<int, Seq<u8>>>,
)
    requires
        is_run(place, req, evs, disks),
        apart(place, req),
        !req.dry_run,
        forall|i: int| 0 <= i < evs.len() ==> is_smooth(#[trigger] evs[i]),
        all_match(place, req, disks[0]),
        all_fit(place, req, disks[0]),
    ensures
        !has_failed(course::reached(machine::start(req), evs)),
        still_there(place, course::reached(machine::start(req), evs), disks.last()),
    decreases evs.len(),
{
    let s0 = machine::start(req);
    if evs.len() > 0 {
        let front = evs.drop_last();
        let earlier = disks.drop_last();
        let n = evs.len() - 1;
        let ev = evs.last();
        lemma_shorter_run(place, req, evs, disks);
        assert forall|i: int| 0 <= i < front.len() implies is_smooth(#[trigger] front[i]) by {
            assert(front[i] == evs[i]);
        }
        lemma_smooth_run(place, req, front, earlier);
        lemma_run_on_course(place, req, front, earlier);
        assert(evs.take(n) =~= front);
        assert(step(place, course::reached(s0, evs.take(n)), evs[n], disks[n], disks[n + 1]));
        course::lemma_same_request(s0, front);
        lemma_smooth_step(
            place,
            course::reached(s0, front),
            ev,
            disks[0],
            earlier.last(),
            disks.last(),
        );
    }
}

/// Success is owed: a batch whose edits all match, one after the other, and whose writes
/// are to files that are not too large, does not fail as long as the driver reports no
/// trouble.
pub proof fn law_success_is_owed(
    place: spec_fn(Seq<char>) -> int,
    req: RequestView,
    evs: Seq<EventView>,
    disks: Seq<Map<int, Seq<u8>>>,
)
    requires
        is_run(place, req, evs, disks),
        apart(place, req),
        !req.dry_run,
        forall|i: int| 0 <= i < evs.len() ==> is_smooth(#[trigger] evs[i]),
        all_match(place, req, disks[0]),
        all_fit(place, req, disks[0]),
    ensures
        machine::outcome(course::reached(machine::start(req), evs)) matches Some(r) ==> r is Ok,
{
    lemma_smooth_run(place, req, evs, disks);
}

} // verus!
