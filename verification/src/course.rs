//! The course of a session from its start: what holds of every sequence of events.

use crate::guard;
use crate::json;
use crate::machine;
use crate::machine::{Ending, SessionView, Stage};
use crate::plan;
use crate::protocol::{ActionView, EventView};
use crate::types::{BatchErrorView, RequestView};
use crate::validate;
use vstd::prelude::*;

verus! {

/// The state that the events lead to.
pub open spec fn reached(s: SessionView, evs: Seq<EventView>) -> SessionView
    decreases evs.len(),
{
    if evs.len() == 0 {
        s
    } else {
        machine::next(reached(s, evs.drop_last()), evs.last())
    }
}

/// The request can be carried out.
pub open spec fn acceptable(req: RequestView) -> bool {
    validate::request_fault(req) is None && req.verify.len() <= usize::MAX
}

/// An event changes nothing about the request.
pub proof fn lemma_next_keeps_request(s: SessionView, ev: EventView)
    ensures
        machine::next(s, ev).req == s.req,
{
    reveal(machine::next);
}

/// The request stays what it is.
pub proof fn lemma_same_request(s: SessionView, evs: Seq<EventView>)
    ensures
        reached(s, evs).req == s.req,
    decreases evs.len(),
{
    if evs.len() > 0 {
        lemma_same_request(s, evs.drop_last());
        lemma_next_keeps_request(reached(s, evs.drop_last()), evs.last());
    }
}

/// Every state of a session is valid.
pub proof fn lemma_reached_is_valid(req: RequestView, evs: Seq<EventView>)
    requires
        acceptable(req),
    ensures
        machine::valid(reached(machine::start(req), evs)),
    decreases evs.len(),
{
    if evs.len() == 0 {
        machine::lemma_start_is_valid(req);
    } else {
        lemma_reached_is_valid(req, evs.drop_last());
        machine::lemma_next_is_valid(reached(machine::start(req), evs.drop_last()), evs.last());
    }
}

/// The action touches something: it makes directories, takes a lock, writes or removes a
/// file, or runs a command.
pub open spec fn touches(action: ActionView) -> bool {
    match action {
        ActionView::MakeDirs { .. }
        | ActionView::Lock { .. }
        | ActionView::Put { .. }
        | ActionView::Delete { .. }
        | ActionView::Unlock { .. }
        | ActionView::Run { .. } => true,
        _ => false,
    }
}

/// Nothing is touched before every edit has passed pre-flight; in a dry run nothing is
/// touched at all.
pub proof fn law_preflight_first(req: RequestView, evs: Seq<EventView>)
    requires
        acceptable(req),
        touches(machine::demand(reached(machine::start(req), evs))),
    ensures
        !req.dry_run,
        reached(machine::start(req), evs).prepared.len() == req.edits.len(),
{
    lemma_reached_is_valid(req, evs);
    lemma_same_request(machine::start(req), evs);
}

/// Where in the order of things a stage stands: pre-flight, edits, writes, commands, and
/// last the undoing or the end.
pub open spec fn phase(stage: Stage) -> int {
    match stage {
        Stage::DryLocate(_)
        | Stage::DryInspect(_)
        | Stage::EditLocate(_)
        | Stage::EditInspect(_) => 0,
        Stage::EditLock(_) | Stage::EditReread(_) | Stage::EditPut(_) | Stage::EditUnlock(_) => 1,
        Stage::WriteLocate(_)
        | Stage::WriteInspect(_)
        | Stage::WriteDirs(_)
        | Stage::WriteLock(_)
        | Stage::WriteReread(_)
        | Stage::WritePut(_)
        | Stage::WriteUnlock(_) => 2,
        Stage::RunCommand(_) => 3,
        Stage::Undoing => 4,
        Stage::Finished(_) => 5,
    }
}

/// Pre-flight comes before the edits, these before the writes, these before the commands;
/// once a command has run nothing is undone any more.
pub proof fn law_phases_in_order(s: SessionView, ev: EventView)
    requires
        machine::valid(s),
    ensures
        phase(machine::next(s, ev).stage) >= phase(s.stage),
        s.stage is RunCommand ==> !(machine::next(s, ev).stage is Undoing),
{
    reveal(machine::next);
}

/// The step from `s` to writing the file `path`, and that to reading it again, are guarded.
pub open spec fn is_guarded(s: SessionView, ev: EventView, path: Seq<char>) -> bool {
    let t = machine::next(s, ev);
    &&& (machine::demand(t) matches ActionView::Put { path: p, .. } && p == path && !(
    machine::demand(s) is Put)) ==> {
        &&& machine::demand(s) == (ActionView::Reread { path })
        &&& ev is Reread
        &&& match s.stage {
            Stage::EditReread(i) => guard::drift(
                guard::snapshot(Some(s.prepared[i as int].original)),
                ev->Reread_0,
            ) is None,
            _ => guard::drift(guard::snapshot(s.content), ev->Reread_0) is None,
        }
    }
    &&& machine::demand(t) == (ActionView::Reread { path }) && !(machine::demand(s) is Reread)
        ==> machine::demand(s) == (ActionView::Lock { path }) && (ev matches EventView::Done(
        Ok(_),
    ))
}

/// The part of [`law_locked_and_unchanged`] on pre-flight and dry runs.
proof fn lemma_preflight_guarded(s: SessionView, ev: EventView, path: Seq<char>)
    requires
        machine::valid(s),
        phase(s.stage) == 0,
    ensures
        is_guarded(s, ev, path),
{
    reveal(machine::next);
    machine::lemma_counts(s.req);
}

/// The part of [`law_locked_and_unchanged`] on the edits.
proof fn lemma_edits_guarded(s: SessionView, ev: EventView, path: Seq<char>)
    requires
        machine::valid(s),
        !(machine::next(s, ev).stage is Undoing),
        phase(s.stage) == 1,
    ensures
        is_guarded(s, ev, path),
{
    reveal(machine::next);
    machine::lemma_counts(s.req);
}

/// The part of [`law_locked_and_unchanged`] on the writes.
#[verifier::spinoff_prover]
#[verifier::rlimit(40)]
proof fn lemma_writes_guarded(s: SessionView, ev: EventView, path: Seq<char>)
    requires
        machine::valid(s),
        !(machine::next(s, ev).stage is Undoing),
        phase(s.stage) == 2,
    ensures
        is_guarded(s, ev, path),
{
    reveal(machine::next);
    machine::lemma_counts(s.req);
}

/// Every write is guarded: the step that leads to writing the file of an edit or a write is
/// a reading of that file that gave what was found there before, and the step that leads
/// to this reading is the taking of the lock.
pub proof fn law_locked_and_unchanged(s: SessionView, ev: EventView, path: Seq<char>)
    requires
        machine::valid(s),
        !(machine::next(s, ev).stage is Undoing),
    ensures
        is_guarded(s, ev, path),
{
    if phase(s.stage) == 0 {
        lemma_preflight_guarded(s, ev, path);
    } else if phase(s.stage) == 1 {
        lemma_edits_guarded(s, ev, path);
    } else if phase(s.stage) == 2 {
        lemma_writes_guarded(s, ev, path);
    } else {
        reveal(machine::next);
    }
}

/// The event answers the action.
pub open spec fn answers(action: ActionView, ev: EventView) -> bool {
    match action {
        ActionView::Locate { .. } => ev is Located,
        ActionView::Inspect { .. } => ev is Found,
        ActionView::Reread { .. } => ev is Reread,
        ActionView::Run { .. } => ev is Ran,
        ActionView::Finish => false,
        _ => ev is Done,
    }
}

/// How many answers a session takes at most from here.
pub open spec fn remaining(s: SessionView) -> int {
    let n = s.req.edits.len() as int;
    let m = s.req.writes.len() as int;
    let v = s.req.verify.len() as int;
    let ahead = match s.stage {
        Stage::DryLocate(i) => 2 * (n - i),
        Stage::DryInspect(i) => 2 * (n - i) - 1,
        Stage::EditLocate(i) => 2 * (n - i) + 5 * n + 8 * m + v,
        Stage::EditInspect(i) => 2 * (n - i) + 5 * n + 8 * m + v - 1,
        Stage::EditLock(i) => 5 * (n - i) + 8 * m + v,
        Stage::EditReread(i) => 5 * (n - i) + 8 * m + v - 1,
        Stage::EditPut(i) => 5 * (n - i) + 8 * m + v - 3,
        Stage::EditUnlock(i) => 5 * (n - i) + 8 * m + v - 4,
        Stage::WriteLocate(j) => 8 * (m - j) + v,
        Stage::WriteInspect(j) => 8 * (m - j) + v - 1,
        Stage::WriteDirs(j) => 8 * (m - j) + v - 2,
        Stage::WriteLock(j) => 8 * (m - j) + v - 3,
        Stage::WriteReread(j) => 8 * (m - j) + v - 4,
        Stage::WritePut(j) => 8 * (m - j) + v - 6,
        Stage::WriteUnlock(j) => 8 * (m - j) + v - 7,
        Stage::RunCommand(k) => v - k,
        Stage::Undoing | Stage::Finished(_) => 0,
    };
    ahead + s.log.len()
}

/// The part of [`law_every_answer_counts`] on pre-flight and dry runs.
proof fn lemma_preflight_counts(s: SessionView, ev: EventView)
    requires
        machine::valid(s),
        answers(machine::demand(s), ev),
        phase(s.stage) == 0,
    ensures
        0 <= remaining(machine::next(s, ev)) < remaining(s),
{
    reveal(machine::next);
    machine::lemma_counts(s.req);
}

/// The part of [`law_every_answer_counts`] on the edits.
#[verifier::spinoff_prover]
#[verifier::rlimit(40)]
proof fn lemma_edits_count(s: SessionView, ev: EventView)
    requires
        machine::valid(s),
        answers(machine::demand(s), ev),
        phase(s.stage) == 1,
    ensures
        0 <= remaining(machine::next(s, ev)) < remaining(s),
{
    reveal(machine::next);
    machine::lemma_counts(s.req);
}

/// The part of [`law_every_answer_counts`] on the writes.
#[verifier::spinoff_prover]
#[verifier::rlimit(40)]
proof fn lemma_writes_count(s: SessionView, ev: EventView)
    requires
        machine::valid(s),
        answers(machine::demand(s), ev),
        phase(s.stage) == 2,
    ensures
        0 <= remaining(machine::next(s, ev)) < remaining(s),
{
    reveal(machine::next);
    machine::lemma_counts(s.req);
}

/// Every answer brings a session nearer to its end.
pub proof fn law_every_answer_counts(s: SessionView, ev: EventView)
    requires
        machine::valid(s),
        answers(machine::demand(s), ev),
    ensures
        0 <= remaining(machine::next(s, ev)) < remaining(s),
{
    if phase(s.stage) == 0 {
        lemma_preflight_counts(s, ev);
    } else if phase(s.stage) == 1 {
        lemma_edits_count(s, ev);
    } else if phase(s.stage) == 2 {
        lemma_writes_count(s, ev);
    } else {
        reveal(machine::next);
    }
}

/// A session is finished after at most seven answers for each edit, eight for each write
/// and one for each command.
pub proof fn law_sessions_end(req: RequestView, evs: Seq<EventView>)
    requires
        acceptable(req),
        forall|i: int|
            0 <= i < evs.len() ==> answers(
                machine::demand(reached(machine::start(req), evs.take(i))),
                #[trigger] evs[i],
            ),
    ensures
        evs.len() + remaining(reached(machine::start(req), evs)) <= 7 * req.edits.len() + 8
            * req.writes.len() + req.verify.len(),
        0 <= remaining(reached(machine::start(req), evs)),
    decreases evs.len(),
{
    machine::lemma_counts(req);
    if evs.len() > 0 {
        let front = evs.drop_last();
        let n = evs.len() - 1;
        assert forall|i: int| 0 <= i < front.len() implies answers(
            machine::demand(reached(machine::start(req), front.take(i))),
            #[trigger] front[i],
        ) by {
            assert(front.take(i) =~= evs.take(i));
            assert(front[i] == evs[i]);
        }
        law_sessions_end(req, front);
        lemma_reached_is_valid(req, front);
        assert(evs.take(n) =~= front);
        assert(answers(machine::demand(reached(machine::start(req), evs.take(n))), evs[n]));
        law_every_answer_counts(reached(machine::start(req), front), evs.last());
    }
}

/// The statuses are those of the edits, in order, and none has an error; all give a number
/// of replacements that is not zero, and those before edit `i` count as applied.
pub open spec fn edits_noted(s: SessionView, i: int) -> bool {
    forall|k: int|
        0 <= k < s.edits.len() ==> {
            let e = #[trigger] s.edits[k];
            &&& e.path == s.req.edits[k].path && e.ok && e.error is None
            &&& e.replacements matches Some(n) && n >= 1
            &&& e.applied == (k < i)
        }
}

/// The statuses are those of the edits, in order, and no edit counts as applied.
pub open spec fn nothing_applied(s: SessionView) -> bool {
    forall|k: int|
        0 <= k < s.edits.len() ==> (#[trigger] s.edits[k]).path == s.req.edits[k].path
            && !s.edits[k].applied
}

/// The statuses are those of the writes, in order; a write counts as applied unless it is
/// superseded.
pub open spec fn writes_noted(s: SessionView) -> bool {
    forall|k: int|
        0 <= k < s.writes.len() ==> {
            let w = #[trigger] s.writes[k];
            &&& w.path == s.req.writes[k].path && w.ok
            &&& w.applied == !machine::superseded(s.req, k)
            &&& w.applied <==> w.error is None
        }
}

/// The statuses are those of the commands, in order.
pub open spec fn commands_noted(s: SessionView) -> bool {
    forall|k: int|
        0 <= k < s.verify.len() ==> (#[trigger] s.verify[k]).cmd == s.req.verify[k]
}

/// What the statuses say fits to the stage.
pub open spec fn noted(s: SessionView) -> bool {
    match s.stage {
        Stage::DryLocate(_)
        | Stage::DryInspect(_)
        | Stage::Finished(Ending::DryRun)
        | Stage::Finished(Ending::Refused) => nothing_applied(s),
        Stage::EditLocate(_) | Stage::EditInspect(_) => edits_noted(s, 0),
        Stage::EditLock(i) | Stage::EditReread(i) | Stage::EditPut(i) => edits_noted(s, i as int),
        Stage::EditUnlock(i) => edits_noted(s, i + 1),
        Stage::WriteInspect(j)
        | Stage::WriteDirs(j)
        | Stage::WriteLock(j)
        | Stage::WriteReread(j)
        | Stage::WritePut(j) => edits_noted(s, s.req.edits.len() as int) && writes_noted(s)
            && !machine::superseded(s.req, j as int),
        Stage::WriteLocate(_)
        | Stage::WriteUnlock(_)
        | Stage::RunCommand(_)
        | Stage::Finished(Ending::Applied) => edits_noted(s, s.req.edits.len() as int)
            && writes_noted(s) && commands_noted(s),
        Stage::Undoing | Stage::Finished(Ending::RolledBack) => true,
    }
}

/// The part of [`lemma_noted`] on pre-flight and dry runs.
#[verifier::spinoff_prover]
#[verifier::rlimit(40)]
proof fn lemma_preflight_noted(s: SessionView, ev: EventView)
    requires
        machine::valid(s),
        noted(s),
        phase(s.stage) == 0,
    ensures
        noted(machine::next(s, ev)),
{
    reveal(machine::next);
    machine::lemma_counts(s.req);
    let t = machine::next(s, ev);
    if let Stage::EditInspect(i) = s.stage {
        let e = s.req.edits[i as int];
        assert(e.old_string.len() > 0) by {
            validate::law_accepted_request(s.req);
            assert(validate::edit_accepted(s.req.style, s.req.edits[i as int], s.req.allow_outside));
        }
        assert forall|bytes: Seq<u8>|
            plan::edit_outcome(e, bytes) is Ok implies (#[trigger] plan::edit_outcome(
            e,
            bytes,
        ))->Ok_0.replacements >= 1 by {
            plan::lemma_replacements(e, bytes);
        }
    }
    assert(t.edits.len() > s.edits.len() ==> t.edits.drop_last() =~= s.edits);
    assert(forall|k: int| 0 <= k < s.edits.len() ==> (#[trigger] t.edits[k]) == s.edits[k]);
}

/// The part of [`lemma_noted`] on the edits.
#[verifier::spinoff_prover]
#[verifier::rlimit(40)]
proof fn lemma_edits_noted(s: SessionView, ev: EventView)
    requires
        machine::valid(s),
        noted(s),
        phase(s.stage) == 1,
    ensures
        noted(machine::next(s, ev)),
{
    reveal(machine::next);
    machine::lemma_counts(s.req);
}

/// The part of [`lemma_noted`] on the writes.
#[verifier::spinoff_prover]
#[verifier::rlimit(40)]
proof fn lemma_writes_noted(s: SessionView, ev: EventView)
    requires
        machine::valid(s),
        noted(s),
        phase(s.stage) == 2,
    ensures
        noted(machine::next(s, ev)),
{
    reveal(machine::next);
    machine::lemma_counts(s.req);
}

/// The part of [`lemma_noted`] on the commands and what comes after them.
proof fn lemma_commands_noted(s: SessionView, ev: EventView)
    requires
        machine::valid(s),
        noted(s),
        phase(s.stage) >= 3,
    ensures
        noted(machine::next(s, ev)),
{
    reveal(machine::next);
}

/// The statuses fit to the stage all along.
pub proof fn lemma_noted(req: RequestView, evs: Seq<EventView>)
    requires
        acceptable(req),
    ensures
        noted(reached(machine::start(req), evs)),
    decreases evs.len(),
{
    if evs.len() > 0 {
        let s = reached(machine::start(req), evs.drop_last());
        let ev = evs.last();
        lemma_noted(req, evs.drop_last());
        lemma_reached_is_valid(req, evs.drop_last());
        if phase(s.stage) == 0 {
            lemma_preflight_noted(s, ev);
        } else if phase(s.stage) == 1 {
            lemma_edits_noted(s, ev);
        } else if phase(s.stage) == 2 {
            lemma_writes_noted(s, ev);
        } else {
            lemma_commands_noted(s, ev);
        }
    }
}

/// Success means that everything landed: every edit has a status that says so, with its
/// number of replacements; so has every write, unless a later write to the same path
/// supersedes it; and every command was run, in order.
pub proof fn law_success_is_complete(req: RequestView, evs: Seq<EventView>)
    requires
        acceptable(req),
        !req.dry_run,
        machine::outcome(reached(machine::start(req), evs)) matches Some(Ok(_)),
    ensures
        ({
            let r = machine::outcome(reached(machine::start(req), evs))->0->Ok_0;
            &&& r.ok && r.error is None
            &&& r.edits.len() == req.edits.len()
            &&& forall|k: int|
                0 <= k < r.edits.len() ==> {
                    let e = #[trigger] r.edits[k];
                    &&& e.path == req.edits[k].path && e.ok && e.applied && e.error is None
                    &&& e.replacements matches Some(n) && n >= 1
                }
            &&& r.writes is None <==> req.writes.len() == 0
            &&& r.writes matches Some(ws) ==> ws.len() == req.writes.len() && forall|k: int|
                0 <= k < ws.len() ==> {
                    let w = #[trigger] ws[k];
                    w.path == req.writes[k].path && w.ok && w.applied == !machine::superseded(
                        req,
                        k,
                    )
                }
            &&& r.verify is None <==> req.verify.len() == 0
            &&& r.verify matches Some(v) ==> v.len() == req.verify.len() && forall|k: int|
                0 <= k < v.len() ==> (#[trigger] v[k]).cmd == req.verify[k]
        }),
{
    lemma_noted(req, evs);
    lemma_reached_is_valid(req, evs);
    lemma_same_request(machine::start(req), evs);
}

/// An error means that nothing landed: no edit and no write has a status that says it is
/// applied, and no command has run.
pub proof fn law_error_is_complete(req: RequestView, evs: Seq<EventView>)
    requires
        acceptable(req),
        machine::outcome(reached(machine::start(req), evs)) matches Some(Err(_)),
    ensures
        machine::outcome(reached(machine::start(req), evs))->0->Err_0 matches
            BatchErrorView::RolledBack(_, edits, writes, verify) && {
            &&& forall|k: int| 0 <= k < edits.len() ==> !(#[trigger] edits[k]).applied
            &&& writes matches Some(ws) ==> forall|k: int|
                0 <= k < ws.len() ==> !(#[trigger] ws[k]).applied
            &&& verify is None
        },
        reached(machine::start(req), evs).verify.len() == 0,
{
    lemma_noted(req, evs);
    lemma_reached_is_valid(req, evs);
    lemma_no_command_before(req, evs);
}

/// No command has run, unless the commands have their turn or had it.
pub open spec fn none_run_before(s: SessionView) -> bool {
    s.stage is RunCommand || s.stage == Stage::Finished(Ending::Applied) || s.verify.len() == 0
}

/// An event before the commands runs none.
proof fn lemma_none_run_before(s: SessionView, ev: EventView)
    requires
        machine::valid(s),
        none_run_before(s),
    ensures
        none_run_before(machine::next(s, ev)),
{
    reveal(machine::next);
}

/// Before the commands none has run.
proof fn lemma_no_command_before(req: RequestView, evs: Seq<EventView>)
    requires
        acceptable(req),
    ensures
        none_run_before(reached(machine::start(req), evs)),
    decreases evs.len(),
{
    if evs.len() > 0 {
        let s = reached(machine::start(req), evs.drop_last());
        lemma_no_command_before(req, evs.drop_last());
        lemma_reached_is_valid(req, evs.drop_last());
        lemma_none_run_before(s, evs.last());
    }
}

/// What a batch gives has one of three statuses: `applied`, `rolled_back` or `dry_run`.
pub proof fn law_three_statuses(s: SessionView, m: Seq<char>)
    ensures
        machine::outcome(s) matches Some(r) ==> json::status_word(r) == "applied"@
            || json::status_word(r) == "rolled_back"@ || json::status_word(r) == "dry_run"@,
        json::status_word(Err(BatchErrorView::InvalidRequest(m))) == "rolled_back"@,
{
}

/// The driver was asked whether `path` lies inside the working directory, and it said yes.
pub open spec fn located(s: SessionView, evs: Seq<EventView>, path: Seq<char>) -> bool {
    exists|i: int|
        0 <= i < evs.len() && #[trigger] evs[i] == EventView::Located(true) && machine::demand(
            reached(s, evs.take(i)),
        ) == (ActionView::Locate { path })
}

/// The path of the file on which an action works.
pub open spec fn works_on(action: ActionView) -> Option<Seq<char>> {
    match action {
        ActionView::Inspect { path }
        | ActionView::MakeDirs { path }
        | ActionView::Lock { path }
        | ActionView::Reread { path }
        | ActionView::Put { path, .. }
        | ActionView::Delete { path }
        | ActionView::Unlock { path } => Some(path),
        _ => None,
    }
}

/// Every file that was prepared or noted, and that of the edit or write at hand, lies inside
/// the working directory.
pub open spec fn confined(s0: SessionView, evs: Seq<EventView>) -> bool {
    let s = reached(s0, evs);
    &&& forall|k: int| 0 <= k < s.prepared.len() ==> located(s0, evs, (#[trigger] s.prepared[k]).rel)
    &&& forall|k: int| 0 <= k < s.log.len() ==> located(s0, evs, (#[trigger] s.log[k]).path)
    &&& located_at(s) matches Some(path) ==> located(s0, evs, path)
}

/// What was located stays located.
pub proof fn lemma_stays_located(s: SessionView, evs: Seq<EventView>, path: Seq<char>)
    requires
        evs.len() > 0,
        located(s, evs.drop_last(), path),
    ensures
        located(s, evs, path),
{
    let front = evs.drop_last();
    let i = choose|i: int|
        0 <= i < front.len() && #[trigger] front[i] == EventView::Located(true) && machine::demand(
            reached(s, front.take(i)),
        ) == (ActionView::Locate { path });
    assert(front.take(i) =~= evs.take(i));
    assert(evs[i] == front[i]);
}

/// What an event adds to the edits that can be made is the edit at hand.
proof fn lemma_prepared_grows(s: SessionView, ev: EventView)
    requires
        machine::valid(s),
    ensures
        machine::next(s, ev).prepared == s.prepared || {
            let t = machine::next(s, ev);
            &&& t.prepared.len() == s.prepared.len() + 1
            &&& t.prepared.drop_last() == s.prepared
            &&& match s.stage {
                Stage::DryInspect(i) | Stage::EditInspect(i) => t.prepared.last().rel
                    == machine::rel(s.req.style, s.req.edits[i as int].path),
                _ => false,
            }
        },
{
    reveal(machine::next);
}

/// What an event adds to the log is the file at hand.
proof fn lemma_log_grows(s: SessionView, ev: EventView)
    requires
        machine::valid(s),
    ensures
        machine::next(s, ev).log == s.log || (s.log.len() > 0 && machine::next(s, ev).log
            == s.log.drop_last()) || {
            let t = machine::next(s, ev);
            &&& t.log.len() == s.log.len() + 1
            &&& t.log.drop_last() == s.log
            &&& match s.stage {
                Stage::EditReread(i) => t.log.last().path == s.prepared[i as int].rel,
                Stage::WriteReread(j) => t.log.last().path == machine::rel(
                    s.req.style,
                    s.req.writes[j as int].path,
                ),
                _ => false,
            }
        },
{
    reveal(machine::next);
}

/// The path that a stage may work on because it was located.
pub open spec fn located_at(s: SessionView) -> Option<Seq<char>> {
    match s.stage {
        Stage::DryInspect(i) | Stage::EditInspect(i) => Some(
            machine::rel(s.req.style, s.req.edits[i as int].path),
        ),
        Stage::WriteInspect(j)
        | Stage::WriteDirs(j)
        | Stage::WriteLock(j)
        | Stage::WriteReread(j)
        | Stage::WritePut(j)
        | Stage::WriteUnlock(j) => Some(machine::rel(s.req.style, s.req.writes[j as int].path)),
        _ => None,
    }
}

/// A path comes to be worked on by being located.
proof fn lemma_located_first(s: SessionView, ev: EventView)
    requires
        machine::valid(s),
        !s.req.allow_outside,
    ensures
        ({
            let t = machine::next(s, ev);
            located_at(t) matches Some(path) ==> located_at(s) == Some(path) || (machine::demand(s)
                == (ActionView::Locate { path }) && ev == EventView::Located(true))
        }),
{
    reveal(machine::next);
    machine::lemma_counts(s.req);
}

/// Sessions stay confined.
pub proof fn lemma_confined(req: RequestView, evs: Seq<EventView>)
    requires
        acceptable(req),
        !req.allow_outside,
    ensures
        confined(machine::start(req), evs),
    decreases evs.len(),
{
    let s0 = machine::start(req);
    if evs.len() > 0 {
        let front = evs.drop_last();
        let n = evs.len() - 1;
        let s = reached(s0, front);
        let t = reached(s0, evs);
        lemma_confined(req, front);
        lemma_reached_is_valid(req, front);
        lemma_same_request(s0, front);
        assert(evs.take(n) =~= front);
        assert(evs[n] == evs.last());
        assert forall|path: Seq<char>| located(s0, front, path) implies located(
            s0,
            evs,
            path,
        ) by {
            lemma_stays_located(s0, evs, path);
        }
        lemma_prepared_grows(s, evs.last());
        lemma_log_grows(s, evs.last());
        lemma_located_first(s, evs.last());
        assert forall|k: int| 0 <= k < t.prepared.len() implies located(
            s0,
            evs,
            (#[trigger] t.prepared[k]).rel,
        ) by {
            if k < s.prepared.len() {
                assert(t.prepared != s.prepared ==> t.prepared.drop_last()[k] == t.prepared[k]);
                assert(s.prepared[k] == t.prepared[k]);
            } else {
                assert(t.prepared[k] == t.prepared.last());
            }
        }
        assert forall|k: int| 0 <= k < t.log.len() implies located(
            s0,
            evs,
            (#[trigger] t.log[k]).path,
        ) by {
            if k < s.log.len() {
                assert(t.log.len() > s.log.len() ==> t.log.drop_last()[k] == t.log[k]);
                assert(s.log[k] == t.log[k]);
            } else {
                assert(t.log[k] == t.log.last());
            }
        }
    }
}

/// A request that is not allowed outside works on no file, not even by reading it, before
/// that file was found to lie inside the working directory. This holds of dry runs too.
pub proof fn law_confined(req: RequestView, evs: Seq<EventView>, path: Seq<char>)
    requires
        acceptable(req),
        !req.allow_outside,
        works_on(machine::demand(reached(machine::start(req), evs))) == Some(path),
    ensures
        located(machine::start(req), evs, path),
{
    let s = reached(machine::start(req), evs);
    lemma_confined(req, evs);
    lemma_reached_is_valid(req, evs);
    lemma_same_request(machine::start(req), evs);
}

/// The driver was asked to make the directories that hold `path`, and it did.
pub open spec fn made(s: SessionView, evs: Seq<EventView>, path: Seq<char>) -> bool {
    exists|i: int|
        0 <= i < evs.len() && ((#[trigger] evs[i]) matches EventView::Done(Ok(_)))
            && machine::demand(reached(s, evs.take(i))) == (ActionView::MakeDirs { path })
}

/// The directories of write `j` are to be made.
pub open spec fn wants_dirs(req: RequestView, j: int) -> bool {
    req.writes[j].create_dirs && !machine::superseded(req, j)
}

/// The write whose directories, where they were wanted, are there.
pub open spec fn past_dirs(s: SessionView) -> Option<int> {
    match s.stage {
        Stage::WriteLock(j) | Stage::WriteReread(j) | Stage::WritePut(j) => Some(j as int),
        _ => None,
    }
}

/// A write is noted when it is superseded, or when its directories are there; they are there
/// because they were made.
#[verifier::spinoff_prover]
#[verifier::rlimit(40)]
proof fn lemma_dirs_step(s: SessionView, ev: EventView)
    requires
        machine::valid(s),
    ensures
        ({
            let t = machine::next(s, ev);
            &&& t.writes.len() > s.writes.len() ==> t.writes.len() == s.writes.len() + 1 && (
            machine::superseded(s.req, s.writes.len() as int) || past_dirs(s) == Some(
                s.writes.len() as int,
            ))
            &&& past_dirs(t) matches Some(j) ==> past_dirs(s) == Some(j)
                || !s.req.writes[j].create_dirs || (machine::demand(s) == (ActionView::MakeDirs {
                path: machine::rel(s.req.style, s.req.writes[j].path),
            }) && (ev matches EventView::Done(Ok(_))))
        }),
{
    reveal(machine::next);
    machine::lemma_counts(s.req);
}

/// What was made stays made.
proof fn lemma_stays_made(s: SessionView, evs: Seq<EventView>, path: Seq<char>)
    requires
        evs.len() > 0,
        made(s, evs.drop_last(), path),
    ensures
        made(s, evs, path),
{
    let front = evs.drop_last();
    let i = choose|i: int|
        0 <= i < front.len() && ((#[trigger] front[i]) matches EventView::Done(Ok(_)))
            && machine::demand(reached(s, front.take(i))) == (ActionView::MakeDirs { path });
    assert(front.take(i) =~= evs.take(i));
    assert(evs[i] == front[i]);
}

/// The directories of every write that is noted or at hand are there.
proof fn lemma_dirs_made(req: RequestView, evs: Seq<EventView>)
    requires
        acceptable(req),
    ensures
        ({
            let s0 = machine::start(req);
            let s = reached(s0, evs);
            &&& forall|j: int|
                0 <= j < s.writes.len() && #[trigger] wants_dirs(req, j) ==> made(
                    s0,
                    evs,
                    machine::rel(req.style, req.writes[j].path),
                )
            &&& past_dirs(s) matches Some(j) ==> req.writes[j].create_dirs ==> made(
                s0,
                evs,
                machine::rel(req.style, req.writes[j].path),
            )
        }),
    decreases evs.len(),
{
    let s0 = machine::start(req);
    if evs.len() > 0 {
        let front = evs.drop_last();
        let n = evs.len() - 1;
        let s = reached(s0, front);
        let t = reached(s0, evs);
        lemma_dirs_made(req, front);
        lemma_reached_is_valid(req, front);
        lemma_same_request(s0, front);
        lemma_dirs_step(s, evs.last());
        assert(evs.take(n) =~= front);
        assert(evs[n] == evs.last());
        assert forall|path: Seq<char>| made(s0, front, path) implies made(s0, evs, path) by {
            lemma_stays_made(s0, evs, path);
        }
    }
}

/// When a write is noted that wants its directories made and is not superseded, the driver
/// was asked to make them, and it did.
pub proof fn law_directories_are_made(req: RequestView, evs: Seq<EventView>, j: int)
    requires
        acceptable(req),
        0 <= j < reached(machine::start(req), evs).writes.len(),
        wants_dirs(req, j),
    ensures
        made(machine::start(req), evs, machine::rel(req.style, req.writes[j].path)),
{
    lemma_dirs_made(req, evs);
}

} // verus!
