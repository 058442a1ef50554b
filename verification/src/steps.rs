//! What one answer does to a session: which answers count, what fails and why, what is
//! reported of it, and which action comes next.

use crate::course;
use crate::guard::RereadView;
use crate::limits::MAX_FILE_BYTES;
use crate::machine;
use crate::machine::{Ending, SessionView, Stage};
use crate::plan;
use crate::protocol::{ActionView, EventView};
use crate::text;
use crate::types::{BatchErrorView, BatchResultView, EditStatusView, WriteStatusView};
use vstd::prelude::*;

verus! {

/// An event that does not answer what was asked changes nothing.
pub proof fn law_only_answers_count(s: SessionView, ev: EventView)
    requires
        machine::valid(s),
        !course::answers(machine::demand(s), ev),
    ensures
        machine::next(s, ev) == s,
{
    reveal(machine::next);
}

/// A step after pre-flight has failed.
pub open spec fn has_failed(s: SessionView) -> bool {
    s.stage is Undoing || s.stage == Stage::Finished(Ending::RolledBack)
}

/// Why the write at hand cannot be made, given where its target lies and what is there, or
/// how the action that was asked for came out.
pub open spec fn is_cause(s: SessionView, ev: EventView, m: Seq<char>) -> bool {
    let path = s.req.writes[s.writes.len() as int].path;
    match (machine::demand(s), ev) {
        (ActionView::Lock { .. }, EventView::Done(Err(why))) => m == why,
        (ActionView::Put { .. }, EventView::Done(Err(why))) => m == "write failed: "@ + why,
        (ActionView::MakeDirs { .. }, EventView::Done(Err(why))) => m == "mkdir failed: "@ + why,
        (ActionView::Locate { .. }, EventView::Located(false)) => m
            == "refusing to write outside cwd: "@ + path,
        (
            ActionView::Inspect { .. },
            EventView::Found { exists: true, content: Some(bytes) },
        ) => bytes.len() > MAX_FILE_BYTES && m == "file too large to write: "@ + path + " (max "@
            + text::decimal(MAX_FILE_BYTES as nat) + ")"@,
        (ActionView::Reread { .. }, EventView::Reread(now)) => match now {
            RereadView::Content(_) => m
                == "file changed between read and write (TOCTOU guard) — rerun the batch"@,
            RereadView::Missing => m
                == "file disappeared before write (TOCTOU guard) — rerun the batch"@,
            RereadView::Failed(why) => m == "could not stat file before write: "@ + why,
        },
        _ => false,
    }
}

/// The part of [`law_failure_is_named`] on the edits.
#[verifier::spinoff_prover]
#[verifier::rlimit(40)]
proof fn lemma_edit_failure(s: SessionView, ev: EventView)
    requires
        machine::valid(s),
        course::phase(s.stage) == 1,
    ensures
        ({
            let t = machine::next(s, ev);
            &&& has_failed(t) ==> t.failure is Some && is_cause(s, ev, t.failure->0) && t.edits
                == s.edits && t.writes == s.writes
            &&& (machine::demand(s) is Lock || machine::demand(s) is Put) && (ev matches EventView::Done(
                Err(_),
            )) ==> has_failed(t)
        }),
{
    reveal(machine::next);
    machine::lemma_counts(s.req);
}

/// The part of [`law_failure_is_named`] on the writes.
#[verifier::spinoff_prover]
#[verifier::rlimit(40)]
proof fn lemma_write_failure(s: SessionView, ev: EventView)
    requires
        machine::valid(s),
        course::phase(s.stage) == 2,
    ensures
        ({
            let t = machine::next(s, ev);
            &&& has_failed(t) ==> t.failure is Some && is_cause(s, ev, t.failure->0) && t.edits
                == s.edits && t.writes == s.writes
            &&& (machine::demand(s) is Lock || machine::demand(s) is Put || machine::demand(
                s,
            ) is MakeDirs) && (ev matches EventView::Done(Err(_))) ==> has_failed(t)
            &&& machine::demand(s) is Locate && ev == EventView::Located(false) ==> has_failed(t)
            &&& (ev matches EventView::Found { exists: true, content: Some(bytes) } && bytes.len()
                > MAX_FILE_BYTES) && machine::demand(s) is Inspect ==> has_failed(t)
        }),
{
    reveal(machine::next);
    machine::lemma_counts(s.req);
}

/// A failure after pre-flight is named: where a lock, a write or the making of directories
/// fails, where the target of a write lies outside or is too large, or where a file has
/// changed, the session fails with that very reason, and for no other; the statuses so far
/// stay what they are.
pub proof fn law_failure_is_named(s: SessionView, ev: EventView)
    requires
        machine::valid(s),
        !has_failed(s),
    ensures
        ({
            let t = machine::next(s, ev);
            &&& has_failed(t) ==> {
                &&& t.failure is Some && is_cause(s, ev, t.failure->0)
                &&& t.edits == s.edits && t.writes == s.writes
            }
            &&& course::phase(s.stage) >= 1 && (machine::demand(s) is Lock || machine::demand(
                s,
            ) is Put || machine::demand(s) is MakeDirs) && (ev matches EventView::Done(Err(_)))
                ==> has_failed(t)
            &&& course::phase(s.stage) >= 1 && machine::demand(s) is Locate && ev
                == EventView::Located(false) ==> has_failed(t)
            &&& course::phase(s.stage) >= 1 && machine::demand(s) is Inspect && (
            ev matches EventView::Found { exists: true, content: Some(bytes) } && bytes.len()
                > MAX_FILE_BYTES) ==> has_failed(t)
        }),
{
    if course::phase(s.stage) == 1 {
        lemma_edit_failure(s, ev);
    } else if course::phase(s.stage) == 2 {
        lemma_write_failure(s, ev);
    } else {
        reveal(machine::next);
        machine::lemma_counts(s.req);
    }
}

/// Once a step has failed the reason and the statuses stay what they are; each answer takes
/// the latest entry off the log, whether it went well or not; and the session is finished when
/// the log is empty.
pub proof fn law_undoing_goes_on(s: SessionView, ev: EventView)
    requires
        machine::valid(s),
        has_failed(s),
    ensures
        ({
            let t = machine::next(s, ev);
            &&& has_failed(t)
            &&& t.failure == s.failure && t.edits == s.edits && t.writes == s.writes
            &&& s.stage is Undoing && ev is Done ==> t.log == s.log.drop_last()
            &&& t.log.len() == 0 <==> t.stage == Stage::Finished(Ending::RolledBack)
            &&& s.stage is Undoing ==> machine::demand(s) == match s.log.last().old {
                Some(content) => ActionView::Put { path: s.log.last().path, content },
                None => ActionView::Delete { path: s.log.last().path },
            }
        }),
{
    reveal(machine::next);
}

/// A rollback keeps the message and the order of the statuses. Those that say applied say
/// rolled back instead; all others stay what they are.
pub proof fn law_rollback(
    message: Seq<char>,
    edits: Seq<EditStatusView>,
    writes: Seq<WriteStatusView>,
)
    ensures
        machine::rollback_error(message, edits, writes) matches BatchErrorView::RolledBack(
            m,
            es,
            ws,
            detail,
        ) && {
            &&& m == message && detail is None
            &&& es.len() == edits.len() && forall|k: int|
                0 <= k < es.len() ==> {
                    let e = #[trigger] es[k];
                    if edits[k].applied {
                        &&& e.path == edits[k].path && !e.ok && !e.applied
                        &&& e.error == Some("rolled back"@)
                        &&& e.diff_preview == edits[k].diff_preview
                        &&& e.replacements == edits[k].replacements
                    } else {
                        e == edits[k]
                    }
                }
            &&& ws matches Some(vs) && vs.len() == writes.len() && forall|k: int|
                0 <= k < vs.len() ==> {
                    let w = #[trigger] vs[k];
                    if writes[k].applied {
                        &&& w.path == writes[k].path && !w.ok && !w.applied
                        &&& w.error == Some("rolled back"@)
                        &&& w.created_dirs == writes[k].created_dirs
                    } else {
                        w == writes[k]
                    }
                }
        },
{
}

/// What a session that was rolled back gives: the reason, and the statuses, in which what had
/// been applied counts as rolled back and the rest is unchanged.
pub proof fn law_rollback_is_reported(s: SessionView)
    requires
        machine::valid(s),
        s.stage == Stage::Finished(Ending::RolledBack),
    ensures
        machine::outcome(s) matches Some(Err(BatchErrorView::RolledBack(m, edits, writes, verify)))
            && {
            &&& s.failure == Some(m)
            &&& verify is None
            &&& edits.len() == s.edits.len()
            &&& forall|k: int|
                0 <= k < edits.len() ==> {
                    let before = s.edits[k];
                    let e = #[trigger] edits[k];
                    if before.applied {
                        &&& e.path == before.path && !e.ok && !e.applied
                        &&& e.error == Some("rolled back"@)
                        &&& e.diff_preview == before.diff_preview
                        &&& e.replacements == before.replacements
                    } else {
                        e == before
                    }
                }
            &&& writes matches Some(ws) && ws.len() == s.writes.len() && forall|k: int|
                0 <= k < ws.len() ==> {
                    let before = s.writes[k];
                    let w = #[trigger] ws[k];
                    if before.applied {
                        &&& w.path == before.path && !w.ok && !w.applied
                        &&& w.error == Some("rolled back"@)
                        &&& w.created_dirs == before.created_dirs
                    } else {
                        w == before
                    }
                }
        },
{
}

/// What a session gives that was not rolled back: of one that was refused the reason and the
/// statuses of the edits, of one that went through all statuses, and of a dry run those of
/// the edits, fine where all of them are. A session gives nothing before it is finished.
pub proof fn law_outcome_is_told(s: SessionView)
    requires
        machine::valid(s),
        !has_failed(s),
    ensures
        machine::outcome(s) is Some <==> machine::demand(s) is Finish,
        s.stage == Stage::Finished(Ending::Refused) ==> s.failure is Some && machine::outcome(s)
            == Some(
            Err::<BatchResultView, BatchErrorView>(
                BatchErrorView::RolledBack(s.failure->0, s.edits, None, None),
            ),
        ),
        s.stage == Stage::Finished(Ending::Applied) ==> (machine::outcome(s) matches Some(Ok(r)) && {
            &&& r.ok && r.status == "applied"@ && r.error is None
            &&& r.edits == s.edits
            &&& if s.req.writes.len() == 0 {
                r.writes is None
            } else {
                r.writes == Some(s.writes)
            }
            &&& if s.req.verify.len() == 0 {
                r.verify is None
            } else {
                r.verify == Some(s.verify)
            }
        }),
        s.stage == Stage::Finished(Ending::DryRun) ==> (machine::outcome(s) matches Some(Ok(r)) && {
            &&& r.status == "dry_run"@ && r.error is None
            &&& r.edits == s.edits && r.writes is None && r.verify is None
            &&& r.ok <==> forall|i: int| 0 <= i < s.edits.len() ==> (#[trigger] s.edits[i]).ok
        }),
{
}

/// The status of an edit that cannot be made.
pub open spec fn is_refusal(
    e: EditStatusView,
    path: Seq<char>,
    error: Seq<char>,
    replacements: Option<usize>,
) -> bool {
    &&& e.path == path && !e.ok && !e.applied
    &&& e.error == Some(error)
    &&& e.diff_preview is None
    &&& e.replacements == replacements
}

/// Pre-flight refuses: the status of the edit at hand is added, and the message says why. A
/// target that lies outside is refused as such, one that could not be read as missing, and
/// any other for what its text has against the edit.
#[verifier::spinoff_prover]
#[verifier::rlimit(40)]
pub proof fn law_refusal_is_reported(s: SessionView, ev: EventView)
    requires
        machine::valid(s),
        !s.req.dry_run,
        course::phase(s.stage) == 0,
    ensures
        ({
            let t = machine::next(s, ev);
            let i = s.edits.len() as int;
            let path = s.req.edits[i].path;
            let refused = t.stage == Stage::Finished(Ending::Refused);
            &&& refused ==> {
                &&& t.edits.len() == i + 1 && t.edits.drop_last() == s.edits
                &&& t.writes == s.writes && t.failure is Some
            }
            &&& machine::demand(s) is Locate && ev == EventView::Located(false) ==> {
                &&& refused
                &&& t.failure == Some(
                    "refusing to patch outside cwd: "@ + path + " (set allow_outside:true)"@,
                )
                &&& is_refusal(t.edits[i], path, "outside cwd"@, None)
            }
            &&& machine::demand(s) is Inspect && (ev matches EventView::Found { content: None, .. })
                ==> {
                &&& refused
                &&& t.failure == Some(
                    "edit target does not exist: "@ + path + " (use writes to create files)"@,
                )
                &&& is_refusal(t.edits[i], path, "target missing"@, None)
            }
            &&& machine::demand(s) is Inspect ==> (ev matches EventView::Found {
                content: Some(bytes),
                ..
            } ==> match plan::edit_outcome(s.req.edits[i], bytes) {
                Err(f) => {
                    &&& refused
                    &&& t.failure == Some(f.message)
                    &&& is_refusal(t.edits[i], path, f.error, f.replacements)
                },
                Ok(m) => {
                    &&& t.edits.len() == i + 1 && t.edits.drop_last() == s.edits
                    &&& is_pending(t.edits[i], path, m.replacements)
                },
            })
            &&& refused ==> course::answers(machine::demand(s), ev)
        }),
{
    reveal(machine::next);
    machine::lemma_counts(s.req);
    let t = machine::next(s, ev);
    if t.edits.len() > s.edits.len() {
        assert(t.edits.drop_last() =~= s.edits);
    }
}

/// The status of an edit that can be made.
pub open spec fn is_pending(e: EditStatusView, path: Seq<char>, replacements: usize) -> bool {
    &&& e.path == path && e.ok && !e.applied
    &&& e.error is None && e.diff_preview is None
    &&& e.replacements == Some(replacements)
}

/// A dry run notes of an edit whose target lies outside that it does, of one whose target is
/// not there that it is missing, and of one that cannot be read that it is not text or cannot
/// be read; and it goes on to the next edit.
#[verifier::spinoff_prover]
#[verifier::rlimit(40)]
pub proof fn law_dry_run_goes_on(s: SessionView, ev: EventView)
    requires
        machine::valid(s),
        s.req.dry_run,
        !(s.stage is Finished),
    ensures
        ({
            let t = machine::next(s, ev);
            let i = s.edits.len() as int;
            let path = s.req.edits[i].path;
            let goes_on = t.edits.len() == i + 1 && t.edits.drop_last() == s.edits && (
            machine::demand(t) is Finish <==> i + 1 == s.req.edits.len());
            &&& machine::demand(s) is Locate && ev == EventView::Located(false) ==> goes_on
                && is_refusal(t.edits[i], path, "outside cwd"@, None)
            &&& machine::demand(s) is Inspect && (ev matches EventView::Found { exists: false, .. })
                ==> goes_on && is_refusal(t.edits[i], path, "target missing"@, None)
            &&& machine::demand(s) is Inspect && (ev matches EventView::Found {
                exists: true,
                content: None,
            }) ==> goes_on && is_refusal(t.edits[i], path, "not UTF-8 or unreadable"@, None)
            &&& machine::demand(s) is Inspect && ev is Found ==> goes_on
        }),
{
    reveal(machine::next);
    machine::lemma_counts(s.req);
    let t = machine::next(s, ev);
    if t.edits.len() > s.edits.len() {
        assert(t.edits.drop_last() =~= s.edits);
    }
}

/// A lock is held as long as it is needed and no longer: once it is taken the file is read
/// again; once the file is written the lock is released; and only then the session goes on.
pub proof fn law_lock_is_released(s: SessionView, ev: EventView, file: Seq<char>)
    requires
        machine::valid(s),
        !has_failed(s),
    ensures
        ({
            let t = machine::next(s, ev);
            &&& machine::demand(s) == (ActionView::Lock { path: file }) && (
            ev matches EventView::Done(Ok(_))) ==> machine::demand(t) == (ActionView::Reread {
                path: file,
            })
            &&& (machine::demand(s) matches ActionView::Put { path, .. } && path == file) && (
            ev matches EventView::Done(Ok(_))) ==> machine::demand(t) == (ActionView::Unlock {
                path: file,
            })
            &&& machine::demand(s) == (ActionView::Unlock { path: file }) && ev is Done ==> !(
            machine::demand(t) is Put || machine::demand(t) is Reread || machine::demand(
                t,
            ) is Unlock || machine::demand(t) is Delete)
        }),
{
    if course::phase(s.stage) == 1 {
        lemma_edit_lock_is_released(s, ev);
    } else if course::phase(s.stage) == 2 {
        lemma_write_lock_is_released(s, ev);
    } else {
        reveal(machine::next);
    }
}

/// The part of [`law_lock_is_released`] on the edits.
#[verifier::spinoff_prover]
#[verifier::rlimit(40)]
proof fn lemma_edit_lock_is_released(s: SessionView, ev: EventView)
    requires
        machine::valid(s),
        course::phase(s.stage) == 1,
    ensures
        ({
            let t = machine::next(s, ev);
            &&& machine::demand(s) matches ActionView::Lock { path } ==> ((ev matches EventView::Done(
                Ok(_),
            )) ==> machine::demand(t) == (ActionView::Reread { path }))
            &&& machine::demand(s) matches ActionView::Put { path, .. } ==> ((
            ev matches EventView::Done(Ok(_))) ==> machine::demand(t) == (ActionView::Unlock {
                path,
            }))
            &&& machine::demand(s) is Unlock && ev is Done ==> !(machine::demand(t) is Put
                || machine::demand(t) is Reread || machine::demand(t) is Unlock || machine::demand(
                t,
            ) is Delete)
        }),
{
    reveal(machine::next);
    machine::lemma_counts(s.req);
}

/// The part of [`law_lock_is_released`] on the writes.
#[verifier::spinoff_prover]
#[verifier::rlimit(40)]
proof fn lemma_write_lock_is_released(s: SessionView, ev: EventView)
    requires
        machine::valid(s),
        course::phase(s.stage) == 2,
    ensures
        ({
            let t = machine::next(s, ev);
            &&& machine::demand(s) matches ActionView::Lock { path } ==> ((ev matches EventView::Done(
                Ok(_),
            )) ==> machine::demand(t) == (ActionView::Reread { path }))
            &&& machine::demand(s) matches ActionView::Put { path, .. } ==> ((
            ev matches EventView::Done(Ok(_))) ==> machine::demand(t) == (ActionView::Unlock {
                path,
            }))
            &&& machine::demand(s) is Unlock && ev is Done ==> !(machine::demand(t) is Put
                || machine::demand(t) is Reread || machine::demand(t) is Unlock || machine::demand(
                t,
            ) is Delete)
        }),
{
    reveal(machine::next);
    machine::lemma_counts(s.req);
}

} // verus!
