//! What the report of a session tells of what was answered in its course.

use crate::course;
use crate::disk;
use crate::machine;
use crate::machine::{Ending, PreparedView, SessionView, Stage};
use crate::matching;
use crate::plan;
use crate::preview;
use crate::protocol::{ActionView, EventView};
use crate::types::{EditStatusView, RequestView, VerifyStatusView, WriteStatusView};
use crate::validate;
use crate::verify;
use vstd::prelude::*;

verus! {

/// Before event `i` the session asked for this.
pub open spec fn asked(s: SessionView, evs: Seq<EventView>, i: int) -> ActionView {
    machine::demand(course::reached(s, evs.take(i)))
}

/// The command was run, as the next one in order, and the status tells how it ended.
pub open spec fn ran(
    s: SessionView,
    evs: Seq<EventView>,
    cmd: Seq<char>,
    status: VerifyStatusView,
) -> bool {
    exists|i: int|
        0 <= i < evs.len() && asked(s, evs, i) == (ActionView::Run { cmd }) && ((
        #[trigger] evs[i]) matches EventView::Ran(outcome) && verify::tells(status, cmd, outcome))
}

/// What was done stays done.
proof fn lemma_ran_stays(
    s: SessionView,
    evs: Seq<EventView>,
    cmd: Seq<char>,
    status: VerifyStatusView,
)
    requires
        evs.len() > 0,
        ran(s, evs.drop_last(), cmd, status),
    ensures
        ran(s, evs, cmd, status),
{
    let front = evs.drop_last();
    let i = choose|i: int|
        0 <= i < front.len() && asked(s, front, i) == (ActionView::Run { cmd }) && ((
        #[trigger] front[i]) matches EventView::Ran(outcome) && verify::tells(
            status,
            cmd,
            outcome,
        ));
    assert(front.take(i) =~= evs.take(i));
    assert(evs[i] == front[i]);
}

/// How the statuses of the commands grow.
#[verifier::spinoff_prover]
proof fn lemma_commands_grow(s: SessionView, ev: EventView)
    requires
        machine::valid(s),
    ensures
        ({
            let t = machine::next(s, ev);
            ||| t.verify == s.verify
            ||| {
                let cmd = s.req.verify[s.verify.len() as int];
                &&& t.verify.len() == s.verify.len() + 1 && t.verify.drop_last() == s.verify
                &&& machine::demand(s) == (ActionView::Run { cmd })
                &&& ev matches EventView::Ran(outcome) && verify::tells(
                    t.verify.last(),
                    cmd,
                    outcome,
                )
            }
        }),
{
    reveal(machine::next);
    let t = machine::next(s, ev);
    if t.verify.len() > s.verify.len() {
        assert(t.verify.drop_last() =~= s.verify);
    }
}

/// The statuses of the commands tell how they ended.
proof fn lemma_commands_told(req: RequestView, evs: Seq<EventView>)
    requires
        course::acceptable(req),
    ensures
        ({
            let s = course::reached(machine::start(req), evs);
            forall|k: int|
                0 <= k < s.verify.len() ==> ran(
                    machine::start(req),
                    evs,
                    req.verify[k],
                    #[trigger] s.verify[k],
                )
        }),
    decreases evs.len(),
{
    if evs.len() > 0 {
        let front = evs.drop_last();
        let s0 = machine::start(req);
        let s = course::reached(s0, front);
        let t = course::reached(s0, evs);
        lemma_commands_told(req, front);
        course::lemma_reached_is_valid(req, front);
        course::lemma_same_request(s0, front);
        lemma_commands_grow(s, evs.last());
        assert forall|k: int| 0 <= k < t.verify.len() implies ran(
            s0,
            evs,
            req.verify[k],
            #[trigger] t.verify[k],
        ) by {
            if k < s.verify.len() {
                assert(t.verify[k] == s.verify[k]);
                lemma_ran_stays(s0, evs, req.verify[k], s.verify[k]);
            } else {
                assert(evs.take(evs.len() - 1) =~= front);
                assert(evs[evs.len() - 1] == evs.last());
            }
        }
    }
}

/// Where a batch goes through, each command of the request was run, and its status tells how
/// it ended, whatever that was.
pub proof fn law_commands_are_reported(req: RequestView, evs: Seq<EventView>)
    requires
        course::acceptable(req),
        !req.dry_run,
        machine::outcome(course::reached(machine::start(req), evs)) matches Some(Ok(_)),
    ensures
        machine::outcome(course::reached(machine::start(req), evs))->0->Ok_0.verify matches Some(
            statuses,
        ) ==> statuses.len() == req.verify.len() && forall|k: int|
            0 <= k < statuses.len() ==> ran(
                machine::start(req),
                evs,
                req.verify[k],
                #[trigger] statuses[k],
            ),
        req.verify.len() > 0 ==> machine::outcome(
            course::reached(machine::start(req), evs),
        )->0->Ok_0.verify is Some,
{
    lemma_commands_told(req, evs);
    course::law_success_is_complete(req, evs);
    course::lemma_reached_is_valid(req, evs);
}

/// The driver looked for the file and said whether it is there.
pub open spec fn seen(s: SessionView, evs: Seq<EventView>, path: Seq<char>, exists_: bool) -> bool {
    exists|i: int|
        0 <= i < evs.len() && asked(s, evs, i) == (ActionView::Inspect { path }) && ((
        #[trigger] evs[i]) matches EventView::Found { exists, .. } && exists == exists_)
}

/// The driver made the bytes the content of the file.
pub open spec fn filled(
    s: SessionView,
    evs: Seq<EventView>,
    path: Seq<char>,
    content: Seq<u8>,
) -> bool {
    exists|i: int|
        0 <= i < evs.len() && asked(s, evs, i) == (ActionView::Put { path, content }) && ((
        #[trigger] evs[i]) matches EventView::Done(Ok(_)))
}

/// What was seen stays seen.
proof fn lemma_seen_stays(s: SessionView, evs: Seq<EventView>, path: Seq<char>, exists_: bool)
    requires
        evs.len() > 0,
        seen(s, evs.drop_last(), path, exists_),
    ensures
        seen(s, evs, path, exists_),
{
    let front = evs.drop_last();
    let i = choose|i: int|
        0 <= i < front.len() && asked(s, front, i) == (ActionView::Inspect { path }) && ((
        #[trigger] front[i]) matches EventView::Found { exists, .. } && exists == exists_);
    assert(front.take(i) =~= evs.take(i));
    assert(evs[i] == front[i]);
}

/// What was filled stays filled.
proof fn lemma_filled_stays(
    s: SessionView,
    evs: Seq<EventView>,
    path: Seq<char>,
    content: Seq<u8>,
)
    requires
        evs.len() > 0,
        filled(s, evs.drop_last(), path, content),
    ensures
        filled(s, evs, path, content),
{
    let front = evs.drop_last();
    let i = choose|i: int|
        0 <= i < front.len() && asked(s, front, i) == (ActionView::Put { path, content }) && ((
        #[trigger] front[i]) matches EventView::Done(Ok(_)));
    assert(front.take(i) =~= evs.take(i));
    assert(evs[i] == front[i]);
}

/// The status tells what became of write `j`: a later write to the same path makes it void; or
/// else the file was written, and whether directories were to be made for it is told by
/// whether it was there.
pub open spec fn write_told(
    s: SessionView,
    evs: Seq<EventView>,
    j: int,
    status: WriteStatusView,
) -> bool {
    let w = s.req.writes[j];
    let r = machine::rel(s.req.style, w.path);
    &&& status.path == w.path && status.ok
    &&& if exists|k: int| j < k < s.req.writes.len() && (#[trigger] s.req.writes[k]).path == w.path {
        &&& !status.applied
        &&& status.error == Some("superseded by a later write to the same path"@)
        &&& status.created_dirs is None
    } else {
        &&& status.applied && status.error is None
        &&& filled(s, evs, r, vstd::utf8::encode_utf8(w.content))
        &&& status.created_dirs matches Some(created) && {
            ||| seen(s, evs, r, true) && !created
            ||| seen(s, evs, r, false) && created == w.create_dirs
        }
    }
}

/// The write at hand has been looked for.
pub open spec fn looked(s: SessionView) -> Option<Seq<char>> {
    match s.stage {
        Stage::WriteDirs(j)
        | Stage::WriteLock(j)
        | Stage::WriteReread(j)
        | Stage::WritePut(j) => Some(machine::rel(s.req.style, s.req.writes[j as int].path)),
        _ => None,
    }
}

/// How what is known of the writes grows.
#[verifier::spinoff_prover]
#[verifier::rlimit(40)]
proof fn lemma_writes_grow(s: SessionView, ev: EventView)
    requires
        machine::valid(s),
        disk::matters(s),
    ensures
        ({
            let t = machine::next(s, ev);
            let j = s.writes.len() as int;
            let w = s.req.writes[j];
            let r = machine::rel(s.req.style, w.path);
            &&& looked(t) is Some ==> (looked(t) == looked(s) && t.exists == s.exists) || (
            machine::demand(s) == (ActionView::Inspect { path: looked(t)->0 }) && (
            ev matches EventView::Found { exists, .. } && exists == t.exists))
            &&& t.writes != s.writes ==> {
                &&& t.writes.len() == j + 1 && t.writes.drop_last() == s.writes
                &&& t.writes[j].path == w.path && t.writes[j].ok
                &&& if exists|k: int|
                    j < k < s.req.writes.len() && (#[trigger] s.req.writes[k]).path == w.path {
                    &&& !t.writes[j].applied
                    &&& t.writes[j].error == Some("superseded by a later write to the same path"@)
                    &&& t.writes[j].created_dirs is None
                } else {
                    &&& t.writes[j].applied && t.writes[j].error is None
                    &&& machine::demand(s) == (ActionView::Put {
                        path: r,
                        content: vstd::utf8::encode_utf8(w.content),
                    })
                    &&& ev matches EventView::Done(Ok(_))
                    &&& looked(s) == Some(r)
                    &&& t.writes[j].created_dirs == Some(w.create_dirs && !s.exists)
                }
            }
        }),
{
    reveal(machine::next);
    machine::lemma_counts(s.req);
    let t = machine::next(s, ev);
    if t.writes.len() > s.writes.len() {
        assert(t.writes.drop_last() =~= s.writes);
    }
}

/// What a session knows of the writes was told to it.
#[verifier::spinoff_prover]
#[verifier::rlimit(40)]
proof fn lemma_writes_told(req: RequestView, evs: Seq<EventView>)
    requires
        course::acceptable(req),
    ensures
        ({
            let s0 = machine::start(req);
            let s = course::reached(s0, evs);
            &&& disk::matters(s)
            &&& looked(s) matches Some(r) ==> seen(s0, evs, r, s.exists)
            &&& forall|j: int|
                0 <= j < s.writes.len() ==> write_told(s0, evs, j, #[trigger] s.writes[j])
        }),
    decreases evs.len(),
{
    let s0 = machine::start(req);
    if evs.len() > 0 {
        let front = evs.drop_last();
        let s = course::reached(s0, front);
        let t = course::reached(s0, evs);
        lemma_writes_told(req, front);
        course::lemma_reached_is_valid(req, front);
        course::lemma_same_request(s0, front);
        disk::lemma_matters(s, evs.last());
        lemma_writes_grow(s, evs.last());
        assert(evs.take(evs.len() - 1) =~= front);
        assert(evs[evs.len() - 1] == evs.last());
        if looked(s) is Some {
            lemma_seen_stays(s0, evs, looked(s)->0, s.exists);
        }
        assert forall|j: int| 0 <= j < t.writes.len() implies write_told(
            s0,
            evs,
            j,
            #[trigger] t.writes[j],
        ) by {
            if j < s.writes.len() {
                assert(t.writes[j] == s.writes[j]);
                lemma_write_told_stays(s0, evs, j, s.writes[j]);
            } else {
                lemma_write_is_told(s0, evs, j);
            }
        }
    }
}

/// What is told of a write stays told.
proof fn lemma_write_told_stays(
    s: SessionView,
    evs: Seq<EventView>,
    j: int,
    status: WriteStatusView,
)
    requires
        evs.len() > 0,
        write_told(s, evs.drop_last(), j, status),
    ensures
        write_told(s, evs, j, status),
{
    let w = s.req.writes[j];
    let r = machine::rel(s.req.style, w.path);
    let front = evs.drop_last();
    if seen(s, front, r, true) {
        lemma_seen_stays(s, evs, r, true);
    }
    if seen(s, front, r, false) {
        lemma_seen_stays(s, evs, r, false);
    }
    if filled(s, front, r, vstd::utf8::encode_utf8(w.content)) {
        lemma_filled_stays(s, evs, r, vstd::utf8::encode_utf8(w.content));
    }
}

/// What the last event tells of a write.
proof fn lemma_write_is_told(s0: SessionView, evs: Seq<EventView>, j: int)
    requires
        evs.len() > 0,
        ({
            let s = course::reached(s0, evs.drop_last());
            let t = course::reached(s0, evs);
            &&& machine::valid(s)
            &&& disk::matters(s)
            &&& s.req == s0.req
            &&& looked(s) matches Some(r) ==> seen(s0, evs, r, s.exists)
            &&& j == s.writes.len()
            &&& j < t.writes.len()
        }),
    ensures
        write_told(s0, evs, j, course::reached(s0, evs).writes[j]),
{
    let s = course::reached(s0, evs.drop_last());
    lemma_writes_grow(s, evs.last());
    assert(evs.take(evs.len() - 1) =~= evs.drop_last());
    assert(evs[evs.len() - 1] == evs.last());
}

/// Where a batch goes through, the status of each write tells what became of it.
pub proof fn law_writes_are_reported(req: RequestView, evs: Seq<EventView>)
    requires
        course::acceptable(req),
        !req.dry_run,
        machine::outcome(course::reached(machine::start(req), evs)) matches Some(Ok(_)),
    ensures
        machine::outcome(course::reached(machine::start(req), evs))->0->Ok_0.writes matches Some(
            statuses,
        ) ==> statuses.len() == req.writes.len() && forall|j: int|
            0 <= j < statuses.len() ==> write_told(
                machine::start(req),
                evs,
                j,
                #[trigger] statuses[j],
            ),
        req.writes.len() > 0 ==> machine::outcome(
            course::reached(machine::start(req), evs),
        )->0->Ok_0.writes is Some,
{
    lemma_writes_told(req, evs);
    course::law_success_is_complete(req, evs);
    course::lemma_reached_is_valid(req, evs);
}

/// The status of edit `k`, which passed pre-flight, gives the number of replacements, and a
/// preview where the edit is applied and no later one takes it along.
pub open spec fn edit_told(
    req: RequestView,
    prepared: Seq<PreparedView>,
    edits: Seq<EditStatusView>,
    k: int,
) -> bool {
    let p = prepared[k];
    let e = req.edits[k];
    &&& edits[k].replacements matches Some(n) && n == matching::count_matches(
        p.current,
        e.old_string,
    )
    &&& p.new_text == matching::replace_matches(p.current, e.old_string, e.new_string)
    &&& edits[k].applied && !machine::folded(prepared, k) ==> edits[k].diff_preview == Some(
        preview::preview(p.current, p.new_text),
    )
    &&& !edits[k].applied || machine::folded(prepared, k) ==> edits[k].diff_preview is None
}

/// The statuses of the edits that passed pre-flight tell what the edits do.
pub open spec fn edits_told(s: SessionView) -> bool {
    s.stage == Stage::Finished(Ending::Refused) || s.req.dry_run || {
        &&& s.edits.len() == s.prepared.len()
        &&& forall|k: int|
            0 <= k < s.prepared.len() ==> #[trigger] edit_told(s.req, s.prepared, s.edits, k)
    }
}

/// An edit of an accepted request has something to search for.
proof fn lemma_something_to_search_for(req: RequestView, i: int)
    requires
        validate::request_fault(req) is None,
        0 <= i < req.edits.len(),
    ensures
        req.edits[i].old_string.len() > 0,
{
    validate::law_request_is_accepted(req);
    assert(!validate::has_bad_strings(req.edits[i]));
}

/// How what is known of the edits grows in pre-flight.
#[verifier::spinoff_prover]
#[verifier::rlimit(40)]
proof fn lemma_edits_grow(s: SessionView, ev: EventView)
    requires
        machine::valid(s),
        course::phase(s.stage) == 0,
        !s.req.dry_run,
    ensures
        ({
            let t = machine::next(s, ev);
            let i = s.prepared.len() as int;
            ||| t.stage == Stage::Finished(Ending::Refused)
            ||| t.prepared == s.prepared && t.edits == s.edits
            ||| {
                let e = s.req.edits[i];
                let p = t.prepared[i];
                &&& i < s.req.edits.len()
                &&& t.prepared.len() == i + 1 && t.prepared.drop_last() == s.prepared
                &&& t.edits.len() == i + 1 && t.edits.drop_last() == s.edits
                &&& t.edits[i].replacements matches Some(n) && n == matching::count_matches(
                    p.current,
                    e.old_string,
                )
                &&& p.new_text == matching::replace_matches(p.current, e.old_string, e.new_string)
                &&& t.edits[i].diff_preview is None && !t.edits[i].applied
            }
        }),
{
    reveal(machine::next);
    machine::lemma_counts(s.req);
    let t = machine::next(s, ev);
    let i = s.prepared.len() as int;
    if t.prepared.len() > i {
        let e = s.req.edits[i];
        lemma_something_to_search_for(s.req, i);
        let bytes = match machine::latest(s.prepared, machine::rel(s.req.style, e.path)) {
            Some(p) => vstd::utf8::encode_utf8(s.prepared[p].new_text),
            None => ev->content->0,
        };
        plan::lemma_replacements(e, bytes);
        assert(t.prepared.drop_last() =~= s.prepared);
        assert(t.edits.drop_last() =~= s.edits);
    }
}

/// Pre-flight tells the number of replacements.
proof fn lemma_preflight_told(s: SessionView, ev: EventView)
    requires
        machine::valid(s),
        course::phase(s.stage) == 0,
        edits_told(s),
        course::noted(s),
    ensures
        edits_told(machine::next(s, ev)),
{
    let t = machine::next(s, ev);
    course::lemma_next_keeps_request(s, ev);
    if !s.req.dry_run && t.stage != Stage::Finished(Ending::Refused) {
        let i = s.prepared.len() as int;
        lemma_edits_grow(s, ev);
        assert forall|k: int| 0 <= k < t.prepared.len() implies #[trigger] edit_told(
            t.req,
            t.prepared,
            t.edits,
            k,
        ) by {
            if k < i {
                assert(edit_told(s.req, s.prepared, s.edits, k));
                assert(t.prepared[k] == s.prepared[k]);
                assert(t.edits[k] == s.edits[k]);
                assert(!s.edits[k].applied);
            }
        }
    }
}

/// The edits tell their previews.
#[verifier::spinoff_prover]
#[verifier::rlimit(40)]
proof fn lemma_edits_step_told(s: SessionView, ev: EventView)
    requires
        machine::valid(s),
        course::phase(s.stage) == 1,
        edits_told(s),
        course::noted(s),
        disk::matters(s),
    ensures
        edits_told(machine::next(s, ev)),
{
    reveal(machine::next);
    machine::lemma_counts(s.req);
    let t = machine::next(s, ev);
    assert(t.prepared == s.prepared);
    assert(t.edits.len() == s.edits.len());
    assert forall|k: int| 0 <= k < t.prepared.len() implies #[trigger] edit_told(
        t.req,
        t.prepared,
        t.edits,
        k,
    ) by {
        assert(edit_told(s.req, s.prepared, s.edits, k));
        assert(s.prepared[k] == t.prepared[k]);
        assert(s.edits[k].replacements == t.edits[k].replacements);
    }
}

/// What comes after the edits leaves them and their statuses alone.
#[verifier::spinoff_prover]
#[verifier::rlimit(40)]
proof fn lemma_edits_stay(s: SessionView, ev: EventView)
    requires
        machine::valid(s),
        course::phase(s.stage) >= 2,
    ensures
        ({
            let t = machine::next(s, ev);
            &&& t.prepared == s.prepared && t.edits == s.edits && t.req == s.req
            &&& s.stage == Stage::Finished(Ending::Refused) ==> t.stage == s.stage
        }),
{
    reveal(machine::next);
    machine::lemma_counts(s.req);
}

/// The statuses of the edits tell what they do.
proof fn lemma_edits_told(req: RequestView, evs: Seq<EventView>)
    requires
        course::acceptable(req),
    ensures
        edits_told(course::reached(machine::start(req), evs)),
    decreases evs.len(),
{
    if evs.len() > 0 {
        let front = evs.drop_last();
        let s = course::reached(machine::start(req), front);
        lemma_edits_told(req, front);
        lemma_writes_told(req, front);
        course::lemma_reached_is_valid(req, front);
        course::lemma_noted(req, front);
        if course::phase(s.stage) == 0 {
            lemma_preflight_told(s, evs.last());
        } else if course::phase(s.stage) == 1 {
            lemma_edits_step_told(s, evs.last());
        } else {
            lemma_edits_stay(s, evs.last());
        }
    }
}

/// A later edit is of the same file.
pub open spec fn edited_again(req: RequestView, k: int) -> bool {
    exists|i: int|
        k < i < req.edits.len() && machine::rel(req.style, (#[trigger] req.edits[i]).path)
            == machine::rel(req.style, req.edits[k].path)
}

/// Where a batch goes through, the status of each edit tells how many matches there were in
/// the text that it was matched against, which is what the edits before it make of the file;
/// and, unless a later edit of the same file takes it along, it shows what the edit changes
/// in that text.
pub proof fn law_edits_are_reported(
    place: spec_fn(Seq<char>) -> int,
    req: RequestView,
    evs: Seq<EventView>,
    disks: Seq<Map<int, Seq<u8>>>,
    k: int,
) -> (r: (Seq<char>, Seq<char>))
    requires
        disk::is_run(place, req, evs, disks),
        !req.dry_run,
        machine::outcome(course::reached(machine::start(req), evs)) matches Some(Ok(_)),
        0 <= k < req.edits.len(),
    ensures
        ({
            let statuses = machine::outcome(
                course::reached(machine::start(req), evs),
            )->0->Ok_0.edits;
            let (before, after) = r;
            let file = machine::rel(req.style, req.edits[k].path);
            &&& disk::held(disks[0], place(file)) matches Some(bytes) && {
                &&& vstd::utf8::encode_utf8(before) == disk::composed(
                    req.style,
                    req.edits.take(k),
                    file,
                    bytes,
                )
                &&& vstd::utf8::encode_utf8(after) == disk::composed(
                    req.style,
                    req.edits.take(k + 1),
                    file,
                    bytes,
                )
            }
            &&& k < statuses.len()
            &&& statuses[k].replacements matches Some(n) && n == matching::count_matches(
                before,
                req.edits[k].old_string,
            )
            &&& statuses[k].diff_preview == if edited_again(req, k) {
                None
            } else {
                Some(preview::preview(before, after))
            }
        }),
{
    let s = course::reached(machine::start(req), evs);
    lemma_edits_told(req, evs);
    disk::lemma_run_is_planned(place, req, evs, disks);
    course::lemma_reached_is_valid(req, evs);
    course::lemma_same_request(machine::start(req), evs);
    course::law_success_is_complete(req, evs);
    let p = s.prepared[k];
    let e = req.edits[k];
    assert(edit_told(s.req, s.prepared, s.edits, k));
    assert(s.edits[k].applied);
    let bytes = disk::composed(req.style, req.edits.take(k), p.rel, p.original);
    assert(plan::edit_outcome(e, bytes) is Ok);
    vstd::utf8::decode_utf8_encode_utf8(bytes);
    assert(machine::folded(s.prepared, k) == edited_again(req, k)) by {
        if machine::folded(s.prepared, k) {
            let i = choose|i: int|
                k < i < s.prepared.len() && (#[trigger] s.prepared[i]).rel == s.prepared[k].rel;
            assert(machine::rel(req.style, req.edits[i].path) == machine::rel(
                req.style,
                req.edits[k].path,
            ));
        }
        if edited_again(req, k) {
            let i = choose|i: int|
                k < i < req.edits.len() && machine::rel(req.style, (#[trigger] req.edits[i]).path)
                    == machine::rel(req.style, req.edits[k].path);
            assert(s.prepared[i].rel == s.prepared[k].rel);
        }
    }
    (p.current, p.new_text)
}

/// The edits of one file are written to it once, all together: before the writes have their
/// turn, a file is written only for the last of its edits.
pub proof fn law_edits_land_together(req: RequestView, evs: Seq<EventView>, i: usize)
    requires
        course::acceptable(req),
        course::reached(machine::start(req), evs).stage == Stage::EditPut(i),
    ensures
        !edited_again(req, i as int),
        machine::demand(course::reached(machine::start(req), evs)) matches ActionView::Put {
            path,
            ..
        } && path == machine::rel(req.style, req.edits[i as int].path),
{
    let s = course::reached(machine::start(req), evs);
    lemma_writes_told(req, evs);
    course::lemma_reached_is_valid(req, evs);
    course::lemma_same_request(machine::start(req), evs);
    if edited_again(req, i as int) {
        let k = choose|k: int|
            i < k < req.edits.len() && machine::rel(req.style, (#[trigger] req.edits[k]).path)
                == machine::rel(req.style, req.edits[i as int].path);
        assert(s.prepared[k].rel == s.prepared[i as int].rel);
    }
}

} // verus!
