//! The course of a batch as a state machine: pre-flight of every edit, then the edits,
//! then the writes, then the verify commands; any failure after the first write undoes
//! what was done, latest first.

use crate::guard;
use crate::guard::UndoView;
use crate::limits::MAX_FILE_BYTES;
use crate::path;
use crate::path::Style;
use crate::plan;
use crate::plan::RefusalView;
use crate::preview;
use crate::protocol::{ActionView, EventView};
use crate::text;
use crate::types::{
    BatchErrorView, BatchResultView, EditStatusView, RequestView, VerifyStatusView, WriteStatusView,
};
use crate::validate;
use crate::verify;
use vstd::prelude::*;

verus! {

/// How a session ended.
#[derive(Clone, Copy)]
pub enum Ending {
    /// Everything landed.
    Applied,
    /// Nothing was to be touched.
    DryRun,
    /// Pre-flight failed; nothing was touched.
    Refused,
    /// A later step failed; everything was undone.
    RolledBack,
}

/// What a session waits for; the number is that of the edit, write or command.
#[derive(Clone, Copy)]
pub enum Stage {
    DryLocate(usize),
    DryInspect(usize),
    EditLocate(usize),
    EditInspect(usize),
    EditLock(usize),
    EditReread(usize),
    EditPut(usize),
    EditUnlock(usize),
    WriteLocate(usize),
    WriteInspect(usize),
    WriteDirs(usize),
    WriteLock(usize),
    WriteReread(usize),
    WritePut(usize),
    WriteUnlock(usize),
    RunCommand(usize),
    Undoing,
    Finished(Ending),
}

/// An edit that passed pre-flight: where, the text it matched against, the text it
/// gives, and the bytes that were in the file before any edit.
pub struct PreparedView {
    pub rel: Seq<char>,
    pub current: Seq<char>,
    pub new_text: Seq<char>,
    pub original: Seq<u8>,
}

/// The state of a session.
#[verifier::ext_equal]
pub struct SessionView {
    pub req: RequestView,
    pub stage: Stage,
    pub prepared: Seq<PreparedView>,
    pub edits: Seq<EditStatusView>,
    pub writes: Seq<WriteStatusView>,
    pub verify: Seq<VerifyStatusView>,
    /// How to undo what was done so far, in the order in which it was done.
    pub log: Seq<UndoView>,
    /// What was found at the target of the write at hand.
    pub exists: bool,
    pub content: Option<Seq<u8>>,
    pub failure: Option<Seq<char>>,
}

/// The path at which the driver finds what the request calls `p`.
pub open spec fn rel(style: Style, p: Seq<char>) -> Seq<char> {
    path::clean_path(style, p)->Ok_0
}

/// The number of the latest edit of the file `r` that passed pre-flight.
pub open spec fn latest(prepared: Seq<PreparedView>, r: Seq<char>) -> Option<int>
    decreases prepared.len(),
{
    if prepared.len() == 0 {
        None
    } else if prepared.last().rel == r {
        Some(prepared.len() - 1)
    } else {
        latest(prepared.drop_last(), r)
    }
}

/// A later edit of the same file takes the result of edit `i` along.
pub open spec fn folded(prepared: Seq<PreparedView>, i: int) -> bool {
    exists|k: int| i < k < prepared.len() && (#[trigger] prepared[k]).rel == prepared[i].rel
}

/// A later write names the same path as write `j`; the last one wins.
pub open spec fn superseded(req: RequestView, j: int) -> bool {
    exists|k: int| j < k < req.writes.len() && (#[trigger] req.writes[k]).path == req.writes[j].path
}

/// The first stage of a dry run from edit `i` on.
pub open spec fn dry_stage(req: RequestView, i: int) -> Stage {
    if i < req.edits.len() {
        Stage::DryLocate(i as usize)
    } else {
        Stage::Finished(Ending::DryRun)
    }
}

/// The first stage of pre-flight from edit `i` on.
pub open spec fn preflight_stage(req: RequestView, i: int) -> Stage {
    if i < req.edits.len() {
        Stage::EditLocate(i as usize)
    } else {
        edit_stage(req, 0)
    }
}

/// The first stage of applying edits from edit `i` on.
pub open spec fn edit_stage(req: RequestView, i: int) -> Stage {
    if i < req.edits.len() {
        Stage::EditLock(i as usize)
    } else {
        write_stage(req, 0)
    }
}

/// The first stage of writing from write `j` on.
pub open spec fn write_stage(req: RequestView, j: int) -> Stage {
    if j < req.writes.len() {
        Stage::WriteLocate(j as usize)
    } else {
        run_stage(req, 0)
    }
}

/// The first stage of running commands from command `k` on.
pub open spec fn run_stage(req: RequestView, k: int) -> Stage {
    if k < req.verify.len() {
        Stage::RunCommand(k as usize)
    } else {
        Stage::Finished(Ending::Applied)
    }
}

/// The state in which the session of an accepted request starts.
pub open spec fn start(req: RequestView) -> SessionView {
    SessionView {
        req,
        stage: if req.dry_run {
            dry_stage(req, 0)
        } else {
            preflight_stage(req, 0)
        },
        prepared: seq![],
        edits: seq![],
        writes: seq![],
        verify: seq![],
        log: seq![],
        exists: false,
        content: None,
        failure: None,
    }
}

impl SessionView {
    /// The state with another stage.
    pub open spec fn at(self, stage: Stage) -> SessionView {
        SessionView { stage, ..self }
    }

    /// Pre-flight fails at edit `i`.
    pub open spec fn refuse(self, i: int, f: RefusalView) -> SessionView {
        SessionView {
            edits: self.edits.push(plan::refused_status(self.req.edits[i].path, f)),
            failure: Some(f.message),
            stage: Stage::Finished(Ending::Refused),
            ..self
        }
    }

    /// A step after pre-flight fails: what was done is undone.
    pub open spec fn fail(self, message: Seq<char>) -> SessionView {
        SessionView {
            failure: Some(message),
            stage: if self.log.len() == 0 {
                Stage::Finished(Ending::RolledBack)
            } else {
                Stage::Undoing
            },
            ..self
        }
    }

    /// Edit `i` is matched against `bytes`; before any edit the file held `original`.
    pub open spec fn matched(self, i: int, bytes: Seq<u8>, original: Seq<u8>) -> SessionView {
        let e = self.req.edits[i];
        match plan::edit_outcome(e, bytes) {
            Err(f) => self.refuse(i, f),
            Ok(m) => SessionView {
                prepared: self.prepared.push(
                    PreparedView {
                        rel: rel(self.req.style, e.path),
                        current: m.current,
                        new_text: m.new_text,
                        original,
                    },
                ),
                edits: self.edits.push(plan::pending_status(e.path, m.replacements)),
                stage: preflight_stage(self.req, i + 1),
                ..self
            },
        }
    }

    /// A dry run notes the status of edit `i`.
    pub open spec fn dry_noted(self, i: int, status: EditStatusView) -> SessionView {
        SessionView {
            edits: self.edits.push(status),
            stage: dry_stage(self.req, i + 1),
            ..self
        }
    }

    /// A dry run matches edit `i` against `bytes`; before any edit the file held
    /// `original`. Later edits of the file are matched against what this one gives.
    pub open spec fn foretold(self, i: int, bytes: Seq<u8>, original: Seq<u8>) -> SessionView {
        let e = self.req.edits[i];
        SessionView {
            prepared: match plan::edit_outcome(e, bytes) {
                Ok(m) => self.prepared.push(
                    PreparedView {
                        rel: rel(self.req.style, e.path),
                        current: m.current,
                        new_text: m.new_text,
                        original,
                    },
                ),
                Err(_) => self.prepared,
            },
            ..self.dry_noted(i, plan::foretold(e, bytes))
        }
    }

    /// Edit `i` counts as applied, with this preview.
    pub open spec fn edit_applied(self, i: int, diff_preview: Option<Seq<char>>) -> SessionView {
        SessionView {
            edits: self.edits.update(
                i,
                EditStatusView { applied: true, diff_preview, ..self.edits[i] },
            ),
            ..self
        }
    }

    /// What was there is noted before it is overwritten.
    pub open spec fn logged(self, path: Seq<char>, old: Option<Seq<u8>>) -> SessionView {
        SessionView { log: self.log.push(UndoView { path, old }), ..self }
    }

    /// The status of a write is noted.
    pub open spec fn write_noted(self, s: WriteStatusView) -> SessionView {
        SessionView { writes: self.writes.push(s), ..self }
    }
}

/// The status of a write that a later write to the same path makes void.
pub open spec fn superseded_status(path: Seq<char>) -> WriteStatusView {
    WriteStatusView {
        path,
        ok: true,
        applied: false,
        error: Some("superseded by a later write to the same path"@),
        created_dirs: None,
    }
}

/// The status of a write that landed.
pub open spec fn written_status(path: Seq<char>, created_dirs: bool) -> WriteStatusView {
    WriteStatusView {
        path,
        ok: true,
        applied: true,
        error: None,
        created_dirs: Some(created_dirs),
    }
}

/// A write would overwrite a file that is too large.
pub open spec fn too_large_to_write(exists: bool, content: Option<Seq<u8>>) -> bool {
    exists && guard::bytes_before(guard::snapshot(content)).len() > MAX_FILE_BYTES
}

/// What brings back a file at which this was found.
pub open spec fn restoration(exists: bool, content: Option<Seq<u8>>) -> Option<Seq<u8>> {
    if exists {
        Some(guard::bytes_before(guard::snapshot(content)))
    } else {
        None
    }
}

/// A dry run asks where the target of edit `i` lies.
pub open spec fn next_dry_locate(s: SessionView, i: int, ev: EventView) -> SessionView {
    let p = s.req.edits[i].path;
    match ev {
        EventView::Done(_) if s.req.allow_outside => s.at(Stage::DryInspect(i as usize)),
        EventView::Located(inside) if !s.req.allow_outside => if inside {
            s.at(Stage::DryInspect(i as usize))
        } else {
            s.dry_noted(i, plan::refused_status(p, plan::outside_refusal(p)))
        },
        _ => s,
    }
}

/// A dry run matches edit `i`: against the result of the latest edit of the same file that
/// can be made, or against what the file holds.
pub open spec fn next_dry_inspect(s: SessionView, i: int, ev: EventView) -> SessionView {
    let e = s.req.edits[i];
    match (latest(s.prepared, rel(s.req.style, e.path)), ev) {
        (Some(p), EventView::Done(_)) => s.foretold(
            i,
            vstd::utf8::encode_utf8(s.prepared[p].new_text),
            s.prepared[p].original,
        ),
        (None, EventView::Found { exists: true, content: Some(bytes) }) => s.foretold(
            i,
            bytes,
            bytes,
        ),
        (None, EventView::Found { exists, .. }) => s.dry_noted(
            i,
            plan::dry_status(e, exists, None),
        ),
        _ => s,
    }
}

/// Pre-flight asks where the target of edit `i` lies.
pub open spec fn next_edit_locate(s: SessionView, i: int, ev: EventView) -> SessionView {
    match ev {
        EventView::Done(_) if s.req.allow_outside => s.at(Stage::EditInspect(i as usize)),
        EventView::Located(inside) if !s.req.allow_outside => if inside {
            s.at(Stage::EditInspect(i as usize))
        } else {
            s.refuse(i, plan::outside_refusal(s.req.edits[i].path))
        },
        _ => s,
    }
}

/// Pre-flight matches edit `i`: against the result of the latest edit of the same
/// file, or against what the file holds.
pub open spec fn next_edit_inspect(s: SessionView, i: int, ev: EventView) -> SessionView {
    match (latest(s.prepared, rel(s.req.style, s.req.edits[i].path)), ev) {
        (Some(p), EventView::Done(_)) => s.matched(
            i,
            vstd::utf8::encode_utf8(s.prepared[p].new_text),
            s.prepared[p].original,
        ),
        (None, EventView::Found { content: Some(bytes), .. }) => s.matched(i, bytes, bytes),
        (None, EventView::Found { content: None, .. }) => s.refuse(
            i,
            plan::missing_refusal(s.req.edits[i].path),
        ),
        _ => s,
    }
}

/// The file of edit `i` is locked; an edit that a later one takes along needs no lock.
pub open spec fn next_edit_lock(s: SessionView, i: int, ev: EventView) -> SessionView {
    match ev {
        EventView::Done(r) => if folded(s.prepared, i) {
            s.edit_applied(i, s.edits[i].diff_preview).at(edit_stage(s.req, i + 1))
        } else {
            match r {
                Ok(_) => s.at(Stage::EditReread(i as usize)),
                Err(m) => s.fail(m),
            }
        },
        _ => s,
    }
}

/// The file of edit `i` is read again.
pub open spec fn next_edit_reread(s: SessionView, i: int, ev: EventView) -> SessionView {
    match ev {
        EventView::Reread(now) => match guard::drift(
            guard::snapshot(Some(s.prepared[i].original)),
            now,
        ) {
            Some(m) => s.fail(m),
            None => s.logged(s.prepared[i].rel, Some(s.prepared[i].original)).at(
                Stage::EditPut(i as usize),
            ),
        },
        _ => s,
    }
}

/// The file of edit `i` is written.
pub open spec fn next_edit_put(s: SessionView, i: int, ev: EventView) -> SessionView {
    match ev {
        EventView::Done(Ok(_)) => s.edit_applied(
            i,
            Some(preview::preview(s.prepared[i].current, s.prepared[i].new_text)),
        ).at(Stage::EditUnlock(i as usize)),
        EventView::Done(Err(m)) => s.fail("write failed: "@ + m),
        _ => s,
    }
}

/// The lock for edit `i` is released.
pub open spec fn next_edit_unlock(s: SessionView, i: int, ev: EventView) -> SessionView {
    match ev {
        EventView::Done(_) => s.at(edit_stage(s.req, i + 1)),
        _ => s,
    }
}

/// Where the target of write `j` lies; a superseded write has none.
pub open spec fn next_write_locate(s: SessionView, j: int, ev: EventView) -> SessionView {
    let p = s.req.writes[j].path;
    match ev {
        EventView::Done(_) if superseded(s.req, j) => s.write_noted(superseded_status(p)).at(
            write_stage(s.req, j + 1),
        ),
        EventView::Done(_) if s.req.allow_outside => s.at(Stage::WriteInspect(j as usize)),
        EventView::Located(inside) if !superseded(s.req, j) && !s.req.allow_outside => if inside {
            s.at(Stage::WriteInspect(j as usize))
        } else {
            s.fail("refusing to write outside cwd: "@ + p)
        },
        _ => s,
    }
}

/// What is at the target of write `j`.
pub open spec fn next_write_inspect(s: SessionView, j: int, ev: EventView) -> SessionView {
    match ev {
        EventView::Found { exists, content } => if too_large_to_write(exists, content) {
            s.fail(
                "file too large to write: "@ + s.req.writes[j].path + " (max "@ + text::decimal(
                    MAX_FILE_BYTES as nat,
                ) + ")"@,
            )
        } else {
            SessionView { exists, content, stage: Stage::WriteDirs(j as usize), ..s }
        },
        _ => s,
    }
}

/// The parent directories of write `j` are made.
pub open spec fn next_write_dirs(s: SessionView, j: int, ev: EventView) -> SessionView {
    match ev {
        EventView::Done(Err(m)) if s.req.writes[j].create_dirs => s.fail("mkdir failed: "@ + m),
        EventView::Done(_) => s.at(Stage::WriteLock(j as usize)),
        _ => s,
    }
}

/// The file of write `j` is locked.
pub open spec fn next_write_lock(s: SessionView, j: int, ev: EventView) -> SessionView {
    match ev {
        EventView::Done(Ok(_)) => s.at(Stage::WriteReread(j as usize)),
        EventView::Done(Err(m)) => s.fail(m),
        _ => s,
    }
}

/// The file of write `j` is read again.
pub open spec fn next_write_reread(s: SessionView, j: int, ev: EventView) -> SessionView {
    match ev {
        EventView::Reread(now) => match guard::drift(guard::snapshot(s.content), now) {
            Some(m) => s.fail(m),
            None => s.logged(rel(s.req.style, s.req.writes[j].path), restoration(s.exists, s.content)).at(
                Stage::WritePut(j as usize),
            ),
        },
        _ => s,
    }
}

/// The file of write `j` is written.
pub open spec fn next_write_put(s: SessionView, j: int, ev: EventView) -> SessionView {
    let w = s.req.writes[j];
    match ev {
        EventView::Done(Ok(_)) => s.write_noted(
            written_status(w.path, w.create_dirs && !s.exists),
        ).at(Stage::WriteUnlock(j as usize)),
        EventView::Done(Err(m)) => s.fail("write failed: "@ + m),
        _ => s,
    }
}

/// The lock for write `j` is released.
pub open spec fn next_write_unlock(s: SessionView, j: int, ev: EventView) -> SessionView {
    match ev {
        EventView::Done(_) => s.at(write_stage(s.req, j + 1)),
        _ => s,
    }
}

/// Command `k` has run.
pub open spec fn next_run(s: SessionView, k: int, ev: EventView) -> SessionView {
    match ev {
        EventView::Ran(o) => SessionView {
            verify: s.verify.push(verify::verify_status(s.req.verify[k], o)),
            stage: run_stage(s.req, k + 1),
            ..s
        },
        _ => s,
    }
}

/// The latest thing done is undone.
pub open spec fn next_undo(s: SessionView, ev: EventView) -> SessionView {
    match ev {
        EventView::Done(_) => SessionView {
            log: s.log.drop_last(),
            stage: if s.log.len() <= 1 {
                Stage::Finished(Ending::RolledBack)
            } else {
                Stage::Undoing
            },
            ..s
        },
        _ => s,
    }
}

/// The state after an event. An event that does not answer what was asked changes
/// nothing.
#[verifier::opaque]
pub open spec fn next(s: SessionView, ev: EventView) -> SessionView {
    match s.stage {
        Stage::DryLocate(i) => next_dry_locate(s, i as int, ev),
        Stage::DryInspect(i) => next_dry_inspect(s, i as int, ev),
        Stage::EditLocate(i) => next_edit_locate(s, i as int, ev),
        Stage::EditInspect(i) => next_edit_inspect(s, i as int, ev),
        Stage::EditLock(i) => next_edit_lock(s, i as int, ev),
        Stage::EditReread(i) => next_edit_reread(s, i as int, ev),
        Stage::EditPut(i) => next_edit_put(s, i as int, ev),
        Stage::EditUnlock(i) => next_edit_unlock(s, i as int, ev),
        Stage::WriteLocate(j) => next_write_locate(s, j as int, ev),
        Stage::WriteInspect(j) => next_write_inspect(s, j as int, ev),
        Stage::WriteDirs(j) => next_write_dirs(s, j as int, ev),
        Stage::WriteLock(j) => next_write_lock(s, j as int, ev),
        Stage::WriteReread(j) => next_write_reread(s, j as int, ev),
        Stage::WritePut(j) => next_write_put(s, j as int, ev),
        Stage::WriteUnlock(j) => next_write_unlock(s, j as int, ev),
        Stage::RunCommand(k) => next_run(s, k as int, ev),
        Stage::Undoing => next_undo(s, ev),
        Stage::Finished(_) => s,
    }
}

/// What puts back the file of the latest entry of the log.
pub open spec fn undo_action(u: UndoView) -> ActionView {
    match u.old {
        Some(content) => ActionView::Put { path: u.path, content },
        None => ActionView::Delete { path: u.path },
    }
}

/// What a session asks for.
pub open spec fn demand(s: SessionView) -> ActionView {
    match s.stage {
        Stage::DryLocate(i) | Stage::EditLocate(i) => if s.req.allow_outside {
            ActionView::Proceed
        } else {
            ActionView::Locate { path: rel(s.req.style, s.req.edits[i as int].path) }
        },
        Stage::DryInspect(i) | Stage::EditInspect(i) => if latest(
            s.prepared,
            rel(s.req.style, s.req.edits[i as int].path),
        ) is Some {
            ActionView::Proceed
        } else {
            ActionView::Inspect { path: rel(s.req.style, s.req.edits[i as int].path) }
        },
        Stage::EditLock(i) => if folded(s.prepared, i as int) {
            ActionView::Proceed
        } else {
            ActionView::Lock { path: s.prepared[i as int].rel }
        },
        Stage::EditReread(i) => ActionView::Reread { path: s.prepared[i as int].rel },
        Stage::EditPut(i) => ActionView::Put {
            path: s.prepared[i as int].rel,
            content: vstd::utf8::encode_utf8(s.prepared[i as int].new_text),
        },
        Stage::EditUnlock(i) => ActionView::Unlock { path: s.prepared[i as int].rel },
        Stage::WriteLocate(j) => if superseded(s.req, j as int) || s.req.allow_outside {
            ActionView::Proceed
        } else {
            ActionView::Locate { path: rel(s.req.style, s.req.writes[j as int].path) }
        },
        Stage::WriteInspect(j) => ActionView::Inspect { path: rel(s.req.style, s.req.writes[j as int].path) },
        Stage::WriteDirs(j) => if s.req.writes[j as int].create_dirs {
            ActionView::MakeDirs { path: rel(s.req.style, s.req.writes[j as int].path) }
        } else {
            ActionView::Proceed
        },
        Stage::WriteLock(j) => ActionView::Lock { path: rel(s.req.style, s.req.writes[j as int].path) },
        Stage::WriteReread(j) => ActionView::Reread { path: rel(s.req.style, s.req.writes[j as int].path) },
        Stage::WritePut(j) => ActionView::Put {
            path: rel(s.req.style, s.req.writes[j as int].path),
            content: vstd::utf8::encode_utf8(s.req.writes[j as int].content),
        },
        Stage::WriteUnlock(j) => ActionView::Unlock { path: rel(s.req.style, s.req.writes[j as int].path) },
        Stage::RunCommand(k) => ActionView::Run { cmd: s.req.verify[k as int] },
        Stage::Undoing => undo_action(s.log.last()),
        Stage::Finished(_) => ActionView::Finish,
    }
}

/// The status of an edit after a rollback.
pub open spec fn edit_undone(s: EditStatusView) -> EditStatusView {
    if s.applied {
        EditStatusView { applied: false, ok: false, error: Some("rolled back"@), ..s }
    } else {
        s
    }
}

/// The status of a write after a rollback.
pub open spec fn write_undone(s: WriteStatusView) -> WriteStatusView {
    if s.applied {
        WriteStatusView { applied: false, ok: false, error: Some("rolled back"@), ..s }
    } else {
        s
    }
}

/// What a batch that was rolled back gives.
pub open spec fn rollback_error(
    message: Seq<char>,
    edits: Seq<EditStatusView>,
    writes: Seq<WriteStatusView>,
) -> BatchErrorView {
    BatchErrorView::RolledBack(
        message,
        edits.map_values(|s: EditStatusView| edit_undone(s)),
        Some(writes.map_values(|s: WriteStatusView| write_undone(s))),
        None,
    )
}

/// What a finished session gives.
pub open spec fn outcome(s: SessionView) -> Option<Result<BatchResultView, BatchErrorView>> {
    match s.stage {
        Stage::Finished(Ending::Applied) => Some(
            Ok(
                BatchResultView {
                    ok: true,
                    status: "applied"@,
                    edits: s.edits,
                    writes: if s.req.writes.len() == 0 {
                        None
                    } else {
                        Some(s.writes)
                    },
                    verify: if s.req.verify.len() == 0 {
                        None
                    } else {
                        Some(s.verify)
                    },
                    error: None,
                },
            ),
        ),
        Stage::Finished(Ending::DryRun) => Some(
            Ok(
                BatchResultView {
                    ok: forall|i: int| 0 <= i < s.edits.len() ==> (#[trigger] s.edits[i]).ok,
                    status: "dry_run"@,
                    edits: s.edits,
                    writes: None,
                    verify: None,
                    error: None,
                },
            ),
        ),
        Stage::Finished(Ending::Refused) => Some(
            Err(BatchErrorView::RolledBack(s.failure->0, s.edits, None, None)),
        ),
        Stage::Finished(Ending::RolledBack) => Some(
            Err(rollback_error(s.failure->0, s.edits, s.writes)),
        ),
        _ => None,
    }
}

/// The number of the edit, write or command at hand is one of the request, and what was
/// noted so far fits to it.
pub open spec fn stage_fits(s: SessionView) -> bool {
    let n = s.req.edits.len();
    match s.stage {
        Stage::DryLocate(i) | Stage::DryInspect(i) => i < n && s.edits.len() == i
            && s.prepared.len() <= i && s.log.len() == 0 && s.writes.len() == 0 && s.verify.len()
            == 0,
        Stage::EditLocate(i) | Stage::EditInspect(i) => i < n && s.edits.len() == i
            && s.prepared.len() == i && s.log.len() == 0 && s.writes.len() == 0 && s.verify.len()
            == 0,
        Stage::EditLock(i)
        | Stage::EditReread(i)
        | Stage::EditPut(i)
        | Stage::EditUnlock(i) => i < n && s.edits.len() == n && s.prepared.len() == n
            && s.writes.len() == 0 && s.verify.len() == 0,
        Stage::WriteLocate(j)
        | Stage::WriteInspect(j)
        | Stage::WriteDirs(j)
        | Stage::WriteLock(j)
        | Stage::WriteReread(j)
        | Stage::WritePut(j) => j < s.req.writes.len() && s.edits.len() == n && s.prepared.len()
            == n && s.writes.len() == j && s.verify.len() == 0,
        Stage::WriteUnlock(j) => j < s.req.writes.len() && s.edits.len() == n && s.prepared.len()
            == n && s.writes.len() == j + 1 && s.verify.len() == 0,
        Stage::RunCommand(k) => k < s.req.verify.len() && s.verify.len() == k && s.edits.len()
            == n && s.prepared.len() == n && s.writes.len() == s.req.writes.len(),
        Stage::Undoing => s.log.len() > 0 && s.failure is Some && s.prepared.len() == n,
        Stage::Finished(Ending::Applied) => s.edits.len() == n && s.prepared.len() == n
            && s.writes.len() == s.req.writes.len() && s.verify.len() == s.req.verify.len(),
        Stage::Finished(Ending::DryRun) => s.edits.len() == n && s.log.len() == 0,
        Stage::Finished(Ending::Refused) => s.failure is Some && s.log.len() == 0,
        Stage::Finished(Ending::RolledBack) => s.failure is Some && s.log.len() == 0,
    }
}

/// The stage belongs to a dry run.
pub open spec fn is_dry(stage: Stage) -> bool {
    stage is DryLocate || stage is DryInspect || stage == Stage::Finished(Ending::DryRun)
}

/// What holds of every state of a session.
pub open spec fn valid(s: SessionView) -> bool {
    &&& validate::request_fault(s.req) is None
    &&& s.req.verify.len() <= usize::MAX
    &&& stage_fits(s)
    &&& s.req.dry_run == is_dry(s.stage)
    &&& s.prepared.len() <= s.req.edits.len()
    &&& !s.req.dry_run ==> forall|k: int|
        0 <= k < s.prepared.len() ==> (#[trigger] s.prepared[k]).rel == rel(s.req.style, s.req.edits[k].path)
}

/// The latest edit of a file is one of those that passed pre-flight, and of that file.
pub proof fn lemma_latest(prepared: Seq<PreparedView>, r: Seq<char>)
    ensures
        latest(prepared, r) matches Some(p) ==> 0 <= p < prepared.len() && prepared[p].rel == r
            && forall|k: int| p < k < prepared.len() ==> (#[trigger] prepared[k]).rel != r,
        latest(prepared, r) is None ==> forall|k: int|
            0 <= k < prepared.len() ==> (#[trigger] prepared[k]).rel != r,
    decreases prepared.len(),
{
    if prepared.len() > 0 && prepared.last().rel != r {
        let front = prepared.drop_last();
        lemma_latest(front, r);
        assert forall|k: int| 0 <= k < prepared.len() && prepared[k].rel == r implies k
            < front.len() && front[k].rel == r by {};
    }
}

/// A session starts in a valid state.
pub proof fn lemma_start_is_valid(req: RequestView)
    requires
        validate::request_fault(req) is None,
        req.verify.len() <= usize::MAX,
    ensures
        valid(start(req)),
{
    validate::law_accepted_request(req);
}

/// An accepted request has few edits and writes.
pub proof fn lemma_counts(req: RequestView)
    requires
        validate::request_fault(req) is None,
    ensures
        req.edits.len() <= 50,
        req.writes.len() <= 50,
{
    validate::law_accepted_request(req);
}

/// The part of [`lemma_next_is_valid`] on pre-flight and dry runs.
#[verifier::spinoff_prover]
#[verifier::rlimit(40)]
proof fn lemma_preflight_is_valid(s: SessionView, ev: EventView)
    requires
        valid(s),
        s.stage is DryLocate || s.stage is DryInspect || s.stage is EditLocate
            || s.stage is EditInspect,
    ensures
        valid(next(s, ev)),
{
    reveal(next);
    lemma_counts(s.req);
    match s.stage {
        Stage::EditInspect(i) => {
            let r = next(s, ev);
            assert(forall|k: int|
                0 <= k < r.prepared.len() ==> (#[trigger] r.prepared[k]).rel == rel(
                    s.req.style,
                    s.req.edits[k].path,
                ));
        },
        _ => {},
    }
}

/// The part of [`lemma_next_is_valid`] on the edits.
#[verifier::spinoff_prover]
#[verifier::rlimit(40)]
proof fn lemma_edits_are_valid(s: SessionView, ev: EventView)
    requires
        valid(s),
        s.stage is EditLock || s.stage is EditReread || s.stage is EditPut || s.stage is EditUnlock,
    ensures
        valid(next(s, ev)),
{
    reveal(next);
    lemma_counts(s.req);
}

/// The part of [`lemma_next_is_valid`] on the writes.
#[verifier::spinoff_prover]
#[verifier::rlimit(40)]
proof fn lemma_writes_are_valid(s: SessionView, ev: EventView)
    requires
        valid(s),
        s.stage is WriteLocate || s.stage is WriteInspect || s.stage is WriteDirs || s.stage is WriteLock
            || s.stage is WriteReread || s.stage is WritePut || s.stage is WriteUnlock,
    ensures
        valid(next(s, ev)),
{
    reveal(next);
    lemma_counts(s.req);
}

/// Every event leads from a valid state to a valid state.
pub proof fn lemma_next_is_valid(s: SessionView, ev: EventView)
    requires
        valid(s),
    ensures
        valid(next(s, ev)),
{
    match s.stage {
        Stage::DryLocate(_)
        | Stage::DryInspect(_)
        | Stage::EditLocate(_)
        | Stage::EditInspect(_) => {
            lemma_preflight_is_valid(s, ev);
        },
        Stage::EditLock(_)
        | Stage::EditReread(_)
        | Stage::EditPut(_)
        | Stage::EditUnlock(_) => {
            lemma_edits_are_valid(s, ev);
        },
        Stage::RunCommand(_) | Stage::Undoing | Stage::Finished(_) => {
            reveal(next);
        },
        _ => {
            lemma_writes_are_valid(s, ev);
        },
    }
}

} // verus!
