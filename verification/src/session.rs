//! The executor of a batch. A session decides what happens and in which order; its
//! driver performs the actions and hands back the events:
//!
//! - [`Session::start`] checks the request;
//! - [`Session::action`] says what to do next;
//! - [`Session::advance`] takes what came of it;
//! - [`Session::into_result`] gives the result once the action is `Finish`.

use crate::guard;
use crate::guard::{check_not_changed, read_snapshot, Undo};
use crate::limits::MAX_FILE_BYTES;
use crate::machine;
use crate::machine::{Ending, PreparedView, SessionView, Stage};
use crate::path::{safe_relative_path_on, Style};
use crate::plan::{
    foretell, match_edit, refuse_missing, refuse_outside, status_of_absent, status_of_pending,
    status_of_refused, Refusal,
};
use crate::preview::diff_preview;
use crate::protocol::{Action, Event};
use crate::text::push_decimal;
use crate::types;
use crate::types::{
    BatchError, BatchErrorView, BatchRequest, BatchResult, BatchResultView, EditStatus, VerifyStatus,
    WriteStatus,
};
use crate::validate;
use crate::validate::validate_request_on;
use crate::verify::run_verify;
use vstd::prelude::*;

verus! {

/// An edit that passed pre-flight.
pub struct Prepared {
    pub rel: String,
    pub current: String,
    pub new_text: String,
    pub original: Vec<u8>,
}

impl DeepView for Prepared {
    type V = PreparedView;

    open spec fn deep_view(&self) -> PreparedView {
        PreparedView {
            rel: self.rel@,
            current: self.current@,
            new_text: self.new_text@,
            original: self.original@,
        }
    }
}

/// A batch under way.
pub struct Session<'a> {
    req: &'a BatchRequest,
    style: Style,
    stage: Stage,
    prepared: Vec<Prepared>,
    edits: Vec<EditStatus>,
    writes: Vec<WriteStatus>,
    verify: Vec<VerifyStatus>,
    log: Vec<Undo>,
    exists: bool,
    content: Option<Vec<u8>>,
    failure: Option<String>,
}

impl<'a> DeepView for Session<'a> {
    type V = SessionView;

    closed spec fn deep_view(&self) -> SessionView {
        SessionView {
            req: self.req.deep_view().on(self.style),
            stage: self.stage,
            prepared: self.prepared.deep_view(),
            edits: self.edits.deep_view(),
            writes: self.writes.deep_view(),
            verify: self.verify.deep_view(),
            log: self.log.deep_view(),
            exists: self.exists,
            content: guard::bytes_view(self.content),
            failure: self.failure.deep_view(),
        }
    }
}

/// The view of what [`Session::into_result`] gives.
pub open spec fn result_view(r: Option<Result<BatchResult, BatchError>>) -> Option<
    Result<BatchResultView, BatchErrorView>,
> {
    match r {
        Some(o) => Some(types::outcome_view(o)),
        None => None,
    }
}

/// The path at which the driver finds what an accepted request calls `p`.
fn rel_of(style: Style, p: &str) -> (r: String)
    requires
        crate::path::clean_path(style, p@) is Ok,
    ensures
        r@ == machine::rel(style, p@),
{
    match safe_relative_path_on(style, p) {
        Ok(r) => r,
        Err(_) => {
            assert(false);
            String::new()
        },
    }
}

/// The number of the latest edit of the file `r` that passed pre-flight.
fn latest_of(prepared: &Vec<Prepared>, r: &String) -> (found: Option<usize>)
    ensures
        found matches Some(p) ==> machine::latest(prepared.deep_view(), r@) == Some(p as int),
        found is None ==> machine::latest(prepared.deep_view(), r@) is None,
{
    let ghost all = prepared.deep_view();
    let mut n: usize = prepared.len();
    assert(all.take(n as int) =~= all);
    while n > 0
        invariant
            all == prepared.deep_view(),
            n <= prepared@.len(),
            machine::latest(all, r@) == machine::latest(all.take(n as int), r@),
        decreases n,
    {
        assert(all.take(n as int).drop_last() =~= all.take(n - 1));
        if prepared[n - 1].rel == *r {
            return Some(n - 1);
        }
        n = n - 1;
    }
    None
}

/// Whether a later edit of the same file takes the result of edit `i` along.
fn is_folded(prepared: &Vec<Prepared>, i: usize) -> (b: bool)
    requires
        i < prepared.len(),
    ensures
        b == machine::folded(prepared.deep_view(), i as int),
{
    let ghost all = prepared.deep_view();
    let mut k: usize = i + 1;
    while k < prepared.len()
        invariant
            all == prepared.deep_view(),
            i < k <= prepared@.len(),
            forall|m: int| i < m < k ==> (#[trigger] all[m]).rel != all[i as int].rel,
        decreases prepared@.len() - k,
    {
        if prepared[k].rel == prepared[i].rel {
            assert(all[k as int].rel == all[i as int].rel);
            return true;
        }
        k = k + 1;
    }
    false
}

/// Whether a later write names the same path as write `j`.
fn is_superseded(req: &BatchRequest, j: usize) -> (b: bool)
    requires
        j < req.writes.len(),
    ensures
        b == machine::superseded(req.deep_view(), j as int),
{
    let ghost ws = req.deep_view().writes;
    let mut k: usize = j + 1;
    while k < req.writes.len()
        invariant
            j < k <= req.writes@.len(),
            ws == req.deep_view().writes,
            forall|m: int| j < m < k ==> (#[trigger] ws[m]).path != ws[j as int].path,
        decreases req.writes@.len() - k,
    {
        assert(ws[k as int].path == req.writes[k as int].path@);
        if req.writes[k].path == req.writes[j].path {
            return true;
        }
        k = k + 1;
    }
    false
}

impl<'a> Session<'a> {
    /// What holds of every session.
    pub open spec fn wf(&self) -> bool {
        machine::valid(self.deep_view())
    }

    /// Starts the session of a request with the paths of Unix, or refuses it.
    pub fn start(req: &'a BatchRequest) -> (r: Result<Session<'a>, BatchError>)
        ensures
            match r {
                Ok(s) => {
                    &&& validate::request_fault(req.deep_view()) is None
                    &&& s.deep_view() == machine::start(req.deep_view())
                    &&& s.wf()
                },
                Err(e) => {
                    &&& validate::request_fault(req.deep_view()) matches Some(m)
                    &&& e.deep_view() == BatchErrorView::InvalidRequest(m)
                },
            },
    {
        Session::start_on(Style::Unix, req)
    }

    /// Starts the session of a request whose paths are read in the given style, or refuses
    /// it.
    pub fn start_on(style: Style, req: &'a BatchRequest) -> (r: Result<Session<'a>, BatchError>)
        ensures
            match r {
                Ok(s) => {
                    &&& validate::request_fault(req.deep_view().on(style)) is None
                    &&& s.deep_view() == machine::start(req.deep_view().on(style))
                    &&& s.wf()
                },
                Err(e) => {
                    &&& validate::request_fault(req.deep_view().on(style)) matches Some(m)
                    &&& e.deep_view() == BatchErrorView::InvalidRequest(m)
                },
            },
    {
        match validate_request_on(style, req) {
            Ok(()) => {},
            Err(e) => {
                return Err(e);
            },
        }
        proof {
            assert(req.verify.len() == req.deep_view().verify.len());
            machine::lemma_start_is_valid(req.deep_view().on(style));
        }
        let stage = if req.dry_run {
            dry_stage(req, 0)
        } else {
            preflight_stage(req, 0)
        };
        let s = Session {
            req,
            style,
            stage,
            prepared: Vec::new(),
            edits: Vec::new(),
            writes: Vec::new(),
            verify: Vec::new(),
            log: Vec::new(),
            exists: false,
            content: None,
            failure: None,
        };
        assert(s.deep_view() =~= machine::start(req.deep_view().on(style)));
        Ok(s)
    }
}

/// The first stage of a dry run from edit `i` on.
fn dry_stage(req: &BatchRequest, i: usize) -> (s: Stage)
    ensures
        s == machine::dry_stage(req.deep_view(), i as int),
{
    if i < req.edits.len() {
        Stage::DryLocate(i)
    } else {
        Stage::Finished(Ending::DryRun)
    }
}

/// The first stage of pre-flight from edit `i` on.
fn preflight_stage(req: &BatchRequest, i: usize) -> (s: Stage)
    ensures
        s == machine::preflight_stage(req.deep_view(), i as int),
{
    if i < req.edits.len() {
        Stage::EditLocate(i)
    } else {
        edit_stage(req, 0)
    }
}

/// The first stage of applying edits from edit `i` on.
fn edit_stage(req: &BatchRequest, i: usize) -> (s: Stage)
    ensures
        s == machine::edit_stage(req.deep_view(), i as int),
{
    if i < req.edits.len() {
        Stage::EditLock(i)
    } else {
        write_stage(req, 0)
    }
}

/// The first stage of writing from write `j` on.
fn write_stage(req: &BatchRequest, j: usize) -> (s: Stage)
    ensures
        s == machine::write_stage(req.deep_view(), j as int),
{
    if j < req.writes.len() {
        Stage::WriteLocate(j)
    } else {
        run_stage(req, 0)
    }
}

/// The first stage of running commands from command `k` on.
fn run_stage(req: &BatchRequest, k: usize) -> (s: Stage)
    ensures
        s == machine::run_stage(req.deep_view(), k as int),
{
    if k < req.verify.len() {
        Stage::RunCommand(k)
    } else {
        Stage::Finished(Ending::Applied)
    }
}

/// A copy of the bytes.
fn copied(b: &Vec<u8>) -> (c: Vec<u8>)
    ensures
        c@ == b@,
{
    vstd::slice::slice_to_vec(b.as_slice())
}

impl<'a> Session<'a> {
    /// Pre-flight fails at edit `i`.
    fn refuse(&mut self, i: usize, f: Refusal)
        requires
            i < old(self).deep_view().req.edits.len(),
        ensures
            final(self).deep_view() == old(self).deep_view().refuse(i as int, f.deep_view()),
    {
        self.edits.push(status_of_refused(self.req.edits[i].path.as_str(), &f));
        self.failure = Some(f.message);
        self.stage = Stage::Finished(Ending::Refused);
    }

    /// A step after pre-flight fails.
    fn fail(&mut self, message: String)
        ensures
            final(self).deep_view() == old(self).deep_view().fail(message@),
    {
        self.failure = Some(message);
        self.stage = if self.log.len() == 0 {
            Stage::Finished(Ending::RolledBack)
        } else {
            Stage::Undoing
        };
    }

    /// Edit `i` is matched against `bytes`; before any edit the file held `original`.
    fn matched(&mut self, i: usize, bytes: &Vec<u8>, original: Vec<u8>)
        requires
            old(self).wf(),
            i < old(self).deep_view().req.edits.len(),
        ensures
            final(self).deep_view() == old(self).deep_view().matched(i as int, bytes@, original@),
    {
        proof {
            validate::law_accepted_request(self.deep_view().req);
            assert(validate::edit_accepted(
                self.style,
                self.deep_view().req.edits[i as int],
                self.deep_view().req.allow_outside,
            ));
        }
        let e = &self.req.edits[i];
        match match_edit(e, bytes) {
            Err(f) => {
                self.refuse(i, f);
            },
            Ok(m) => {
                let r = rel_of(self.style, e.path.as_str());
                self.edits.push(status_of_pending(e.path.as_str(), m.replacements));
                self.prepared.push(
                    Prepared { rel: r, current: m.current, new_text: m.new_text, original },
                );
                self.stage = preflight_stage(self.req, i + 1);
            },
        }
    }

    /// Edit `i` counts as applied, with this preview.
    fn edit_applied(&mut self, i: usize, diff_preview: Option<String>)
        requires
            i < old(self).deep_view().edits.len(),
        ensures
            final(self).deep_view() == old(self).deep_view().edit_applied(
                i as int,
                diff_preview.deep_view(),
            ),
    {
        self.edits[i].applied = true;
        self.edits[i].diff_preview = diff_preview;
    }

    /// What an accepted request keeps within.
    proof fn lemma_accepted(&self)
        requires
            self.wf(),
        ensures
            self.req.edits.len() <= 50,
            self.req.writes.len() <= 50,
            forall|k: int|
                0 <= k < self.req.edits@.len() ==> crate::path::clean_path(
                    self.style,
                    (#[trigger] self.req.edits@[k]).path@,
                ) is Ok && self.req.edits@[k].old_string@.len() > 0,
            forall|k: int|
                0 <= k < self.req.writes@.len() ==> crate::path::clean_path(
                    self.style,
                    (#[trigger] self.req.writes@[k]).path@,
                ) is Ok,
    {
        let v = self.deep_view().req;
        validate::law_accepted_request(v);
        assert forall|k: int| 0 <= k < self.req.edits@.len() implies crate::path::clean_path(
            self.style,
            (#[trigger] self.req.edits@[k]).path@,
        ) is Ok && self.req.edits@[k].old_string@.len() > 0 by {
            assert(validate::edit_accepted(v.style, v.edits[k], v.allow_outside));
        }
        assert forall|k: int| 0 <= k < self.req.writes@.len() implies crate::path::clean_path(
            self.style,
            (#[trigger] self.req.writes@[k]).path@,
        ) is Ok by {
            assert(validate::write_accepted(v.style, v.writes[k], v.allow_outside));
        }
    }

    /// A dry run notes the status of edit `i`.
    fn dry_noted(&mut self, i: usize, status: EditStatus)
        requires
            i < usize::MAX,
        ensures
            final(self).deep_view() == old(self).deep_view().dry_noted(
                i as int,
                status.deep_view(),
            ),
    {
        self.edits.push(status);
        self.stage = dry_stage(self.req, i + 1);
    }

    /// A dry run matches edit `i` against `bytes`; before any edit the file held
    /// `original`.
    fn foretold(&mut self, i: usize, bytes: &Vec<u8>, original: Vec<u8>)
        requires
            old(self).wf(),
            i < old(self).deep_view().req.edits.len(),
        ensures
            final(self).deep_view() == old(self).deep_view().foretold(i as int, bytes@, original@),
    {
        proof {
            self.lemma_accepted();
        }
        let e = &self.req.edits[i];
        let (status, made) = foretell(e, bytes);
        if let Some(m) = made {
            let r = rel_of(self.style, e.path.as_str());
            self.prepared.push(
                Prepared { rel: r, current: m.current, new_text: m.new_text, original },
            );
        }
        self.dry_noted(i, status);
    }

    /// A dry run asks where the target of edit `i` lies.
    fn on_dry_locate(&mut self, i: usize, ev: Event)
        requires
            old(self).wf(),
            old(self).deep_view().stage == Stage::DryLocate(i),
        ensures
            final(self).deep_view() == machine::next_dry_locate(
                old(self).deep_view(),
                i as int,
                ev.deep_view(),
            ),
    {
        proof {
            self.lemma_accepted();
        }
        match ev {
            Event::Done(_) => {
                if self.req.allow_outside {
                    self.stage = Stage::DryInspect(i);
                }
            },
            Event::Located(inside) => {
                if !self.req.allow_outside {
                    if inside {
                        self.stage = Stage::DryInspect(i);
                    } else {
                        let p = self.req.edits[i].path.as_str();
                        let status = status_of_refused(p, &refuse_outside(p));
                        self.dry_noted(i, status);
                    }
                }
            },
            _ => {},
        }
    }

    /// A dry run matches edit `i`.
    fn on_dry_inspect(&mut self, i: usize, ev: Event)
        requires
            old(self).wf(),
            old(self).deep_view().stage == Stage::DryInspect(i),
        ensures
            final(self).deep_view() == machine::next_dry_inspect(
                old(self).deep_view(),
                i as int,
                ev.deep_view(),
            ),
    {
        proof {
            self.lemma_accepted();
        }
        let r = rel_of(self.style, self.req.edits[i].path.as_str());
        proof {
            machine::lemma_latest(self.prepared.deep_view(), r@);
        }
        match latest_of(&self.prepared, &r) {
            Some(p) => match ev {
                Event::Done(_) => {
                    let bytes = self.prepared[p].new_text.as_str().as_bytes_vec();
                    let original = copied(&self.prepared[p].original);
                    self.foretold(i, &bytes, original);
                },
                _ => {},
            },
            None => match ev {
                Event::Found { exists: true, content: Some(bytes) } => {
                    let original = copied(&bytes);
                    self.foretold(i, &bytes, original);
                },
                Event::Found { exists, .. } => {
                    let status = status_of_absent(&self.req.edits[i], exists);
                    self.dry_noted(i, status);
                },
                _ => {},
            },
        }
    }

    /// Pre-flight asks where the target of edit `i` lies.
    fn on_edit_locate(&mut self, i: usize, ev: Event)
        requires
            old(self).wf(),
            old(self).deep_view().stage == Stage::EditLocate(i),
        ensures
            final(self).deep_view() == machine::next_edit_locate(
                old(self).deep_view(),
                i as int,
                ev.deep_view(),
            ),
    {
        proof {
            self.lemma_accepted();
        }
        match ev {
            Event::Done(_) => {
                if self.req.allow_outside {
                    self.stage = Stage::EditInspect(i);
                }
            },
            Event::Located(inside) => {
                if !self.req.allow_outside {
                    if inside {
                        self.stage = Stage::EditInspect(i);
                    } else {
                        let f = refuse_outside(self.req.edits[i].path.as_str());
                        self.refuse(i, f);
                    }
                }
            },
            _ => {},
        }
    }

    /// Pre-flight matches edit `i`.
    fn on_edit_inspect(&mut self, i: usize, ev: Event)
        requires
            old(self).wf(),
            old(self).deep_view().stage == Stage::EditInspect(i),
        ensures
            final(self).deep_view() == machine::next_edit_inspect(
                old(self).deep_view(),
                i as int,
                ev.deep_view(),
            ),
    {
        proof {
            self.lemma_accepted();
        }
        let r = rel_of(self.style, self.req.edits[i].path.as_str());
        proof {
            machine::lemma_latest(self.prepared.deep_view(), r@);
        }
        match latest_of(&self.prepared, &r) {
            Some(p) => match ev {
                Event::Done(_) => {
                    let bytes = self.prepared[p].new_text.as_str().as_bytes_vec();
                    let original = copied(&self.prepared[p].original);
                    self.matched(i, &bytes, original);
                },
                _ => {},
            },
            None => match ev {
                Event::Found { content, .. } => match content {
                    Some(bytes) => {
                        let original = copied(&bytes);
                        self.matched(i, &bytes, original);
                    },
                    None => {
                        let f = refuse_missing(self.req.edits[i].path.as_str());
                        self.refuse(i, f);
                    },
                },
                _ => {},
            },
        }
    }

    /// The file of edit `i` is locked.
    fn on_edit_lock(&mut self, i: usize, ev: Event)
        requires
            old(self).wf(),
            old(self).deep_view().stage == Stage::EditLock(i),
        ensures
            final(self).deep_view() == machine::next_edit_lock(
                old(self).deep_view(),
                i as int,
                ev.deep_view(),
            ),
    {
        proof {
            self.lemma_accepted();
        }
        match ev {
            Event::Done(r) => {
                if is_folded(&self.prepared, i) {
                    self.edits[i].applied = true;
                    self.stage = edit_stage(self.req, i + 1);
                } else {
                    match r {
                        Ok(()) => {
                            self.stage = Stage::EditReread(i);
                        },
                        Err(m) => {
                            self.fail(m);
                        },
                    }
                }
            },
            _ => {},
        }
    }

    /// The file of edit `i` is read again.
    fn on_edit_reread(&mut self, i: usize, ev: Event)
        requires
            old(self).wf(),
            old(self).deep_view().stage == Stage::EditReread(i),
        ensures
            final(self).deep_view() == machine::next_edit_reread(
                old(self).deep_view(),
                i as int,
                ev.deep_view(),
            ),
    {
        proof {
            self.lemma_accepted();
        }
        match ev {
            Event::Reread(now) => {
                let original = copied(&self.prepared[i].original);
                let snap = read_snapshot(Some(original));
                match check_not_changed(&snap, &now) {
                    Err(m) => {
                        self.fail(m);
                    },
                    Ok(()) => {
                        let old = Some(copied(&self.prepared[i].original));
                        self.log.push(Undo { path: self.prepared[i].rel.clone(), old });
                        self.stage = Stage::EditPut(i);
                    },
                }
            },
            _ => {},
        }
    }

    /// The file of edit `i` is written.
    fn on_edit_put(&mut self, i: usize, ev: Event)
        requires
            old(self).wf(),
            old(self).deep_view().stage == Stage::EditPut(i),
        ensures
            final(self).deep_view() == machine::next_edit_put(
                old(self).deep_view(),
                i as int,
                ev.deep_view(),
            ),
    {
        proof {
            self.lemma_accepted();
        }
        match ev {
            Event::Done(Ok(())) => {
                let shown = diff_preview(
                    self.prepared[i].current.as_str(),
                    self.prepared[i].new_text.as_str(),
                );
                self.edit_applied(i, Some(shown));
                self.stage = Stage::EditUnlock(i);
            },
            Event::Done(Err(m)) => {
                let mut message = "write failed: ".to_owned();
                message.append(m.as_str());
                self.fail(message);
            },
            _ => {},
        }
    }

    /// The lock for edit `i` is released.
    fn on_edit_unlock(&mut self, i: usize, ev: Event)
        requires
            old(self).wf(),
            old(self).deep_view().stage == Stage::EditUnlock(i),
        ensures
            final(self).deep_view() == machine::next_edit_unlock(
                old(self).deep_view(),
                i as int,
                ev.deep_view(),
            ),
    {
        proof {
            self.lemma_accepted();
        }
        match ev {
            Event::Done(_) => {
                self.stage = edit_stage(self.req, i + 1);
            },
            _ => {},
        }
    }

    /// Where the target of write `j` lies.
    fn on_write_locate(&mut self, j: usize, ev: Event)
        requires
            old(self).wf(),
            old(self).deep_view().stage == Stage::WriteLocate(j),
        ensures
            final(self).deep_view() == machine::next_write_locate(
                old(self).deep_view(),
                j as int,
                ev.deep_view(),
            ),
    {
        proof {
            self.lemma_accepted();
        }
        let void = is_superseded(self.req, j);
        match ev {
            Event::Done(_) => {
                if void {
                    self.writes.push(
                        WriteStatus {
                            path: self.req.writes[j].path.clone(),
                            ok: true,
                            applied: false,
                            error: Some("superseded by a later write to the same path".to_owned()),
                            created_dirs: None,
                        },
                    );
                    self.stage = write_stage(self.req, j + 1);
                } else if self.req.allow_outside {
                    self.stage = Stage::WriteInspect(j);
                }
            },
            Event::Located(inside) => {
                if !void && !self.req.allow_outside {
                    if inside {
                        self.stage = Stage::WriteInspect(j);
                    } else {
                        let mut message = "refusing to write outside cwd: ".to_owned();
                        message.append(self.req.writes[j].path.as_str());
                        self.fail(message);
                    }
                }
            },
            _ => {},
        }
    }

    /// What is at the target of write `j`.
    fn on_write_inspect(&mut self, j: usize, ev: Event)
        requires
            old(self).wf(),
            old(self).deep_view().stage == Stage::WriteInspect(j),
        ensures
            final(self).deep_view() == machine::next_write_inspect(
                old(self).deep_view(),
                j as int,
                ev.deep_view(),
            ),
    {
        proof {
            self.lemma_accepted();
        }
        match ev {
            Event::Found { exists, content } => {
                let size: usize = match &content {
                    Some(b) => b.len(),
                    None => 0,
                };
                if exists && size as u64 > MAX_FILE_BYTES {
                    let mut message = "file too large to write: ".to_owned();
                    message.append(self.req.writes[j].path.as_str());
                    message.append(" (max ");
                    push_decimal(&mut message, MAX_FILE_BYTES as u128);
                    message.append(")");
                    self.fail(message);
                } else {
                    self.exists = exists;
                    self.content = content;
                    self.stage = Stage::WriteDirs(j);
                }
            },
            _ => {},
        }
    }

    /// The parent directories of write `j` are made.
    fn on_write_dirs(&mut self, j: usize, ev: Event)
        requires
            old(self).wf(),
            old(self).deep_view().stage == Stage::WriteDirs(j),
        ensures
            final(self).deep_view() == machine::next_write_dirs(
                old(self).deep_view(),
                j as int,
                ev.deep_view(),
            ),
    {
        proof {
            self.lemma_accepted();
        }
        match ev {
            Event::Done(r) => match r {
                Err(m) => {
                    if self.req.writes[j].create_dirs {
                        let mut message = "mkdir failed: ".to_owned();
                        message.append(m.as_str());
                        self.fail(message);
                    } else {
                        self.stage = Stage::WriteLock(j);
                    }
                },
                Ok(()) => {
                    self.stage = Stage::WriteLock(j);
                },
            },
            _ => {},
        }
    }

    /// The file of write `j` is locked.
    fn on_write_lock(&mut self, j: usize, ev: Event)
        requires
            old(self).wf(),
            old(self).deep_view().stage == Stage::WriteLock(j),
        ensures
            final(self).deep_view() == machine::next_write_lock(
                old(self).deep_view(),
                j as int,
                ev.deep_view(),
            ),
    {
        proof {
            self.lemma_accepted();
        }
        match ev {
            Event::Done(Ok(())) => {
                self.stage = Stage::WriteReread(j);
            },
            Event::Done(Err(m)) => {
                self.fail(m);
            },
            _ => {},
        }
    }

    /// The file of write `j` is read again.
    fn on_write_reread(&mut self, j: usize, ev: Event)
        requires
            old(self).wf(),
            old(self).deep_view().stage == Stage::WriteReread(j),
        ensures
            final(self).deep_view() == machine::next_write_reread(
                old(self).deep_view(),
                j as int,
                ev.deep_view(),
            ),
    {
        proof {
            self.lemma_accepted();
        }
        match ev {
            Event::Reread(now) => {
                let content: Option<Vec<u8>> = match &self.content {
                    Some(b) => Some(copied(b)),
                    None => None,
                };
                let snap = read_snapshot(content);
                match check_not_changed(&snap, &now) {
                    Err(m) => {
                        self.fail(m);
                    },
                    Ok(()) => {
                        let old: Option<Vec<u8>> = if self.exists {
                            match snap.content {
                                Some(b) => Some(b),
                                None => Some(Vec::new()),
                            }
                        } else {
                            None
                        };
                        let path = rel_of(self.style, self.req.writes[j].path.as_str());
                        self.log.push(Undo { path, old });
                        self.stage = Stage::WritePut(j);
                    },
                }
            },
            _ => {},
        }
    }

    /// The file of write `j` is written.
    fn on_write_put(&mut self, j: usize, ev: Event)
        requires
            old(self).wf(),
            old(self).deep_view().stage == Stage::WritePut(j),
        ensures
            final(self).deep_view() == machine::next_write_put(
                old(self).deep_view(),
                j as int,
                ev.deep_view(),
            ),
    {
        proof {
            self.lemma_accepted();
        }
        match ev {
            Event::Done(Ok(())) => {
                let w = &self.req.writes[j];
                self.writes.push(
                    WriteStatus {
                        path: w.path.clone(),
                        ok: true,
                        applied: true,
                        error: None,
                        created_dirs: Some(w.create_dirs && !self.exists),
                    },
                );
                self.stage = Stage::WriteUnlock(j);
            },
            Event::Done(Err(m)) => {
                let mut message = "write failed: ".to_owned();
                message.append(m.as_str());
                self.fail(message);
            },
            _ => {},
        }
    }

    /// The lock for write `j` is released.
    fn on_write_unlock(&mut self, j: usize, ev: Event)
        requires
            old(self).wf(),
            old(self).deep_view().stage == Stage::WriteUnlock(j),
        ensures
            final(self).deep_view() == machine::next_write_unlock(
                old(self).deep_view(),
                j as int,
                ev.deep_view(),
            ),
    {
        proof {
            self.lemma_accepted();
        }
        match ev {
            Event::Done(_) => {
                self.stage = write_stage(self.req, j + 1);
            },
            _ => {},
        }
    }

    /// Command `k` has run.
    fn on_run(&mut self, k: usize, ev: Event)
        requires
            old(self).wf(),
            old(self).deep_view().stage == Stage::RunCommand(k),
        ensures
            final(self).deep_view() == machine::next_run(
                old(self).deep_view(),
                k as int,
                ev.deep_view(),
            ),
    {
        proof {
            self.lemma_accepted();
        }
        match ev {
            Event::Ran(o) => {
                self.verify.push(run_verify(self.req.verify[k].cmd.as_str(), &o));
                self.stage = run_stage(self.req, k + 1);
            },
            _ => {},
        }
    }

    /// The latest thing done is undone.
    fn on_undo(&mut self, ev: Event)
        requires
            old(self).wf(),
            old(self).deep_view().stage == Stage::Undoing,
        ensures
            final(self).deep_view() == machine::next_undo(old(self).deep_view(), ev.deep_view()),
    {
        match ev {
            Event::Done(_) => {
                let _ = self.log.pop();
                self.stage = if self.log.len() == 0 {
                    Stage::Finished(Ending::RolledBack)
                } else {
                    Stage::Undoing
                };
            },
            _ => {},
        }
    }

    /// Takes what came of the action that the session asked for. An event that does not
    /// answer it changes nothing.
    pub fn advance(&mut self, ev: Event)
        requires
            old(self).wf(),
        ensures
            final(self).wf(),
            final(self).deep_view() == machine::next(old(self).deep_view(), ev.deep_view()),
    {
        proof {
            reveal(machine::next);
            machine::lemma_next_is_valid(self.deep_view(), ev.deep_view());
        }
        match self.stage {
            Stage::DryLocate(i) => self.on_dry_locate(i, ev),
            Stage::DryInspect(i) => self.on_dry_inspect(i, ev),
            Stage::EditLocate(i) => self.on_edit_locate(i, ev),
            Stage::EditInspect(i) => self.on_edit_inspect(i, ev),
            Stage::EditLock(i) => self.on_edit_lock(i, ev),
            Stage::EditReread(i) => self.on_edit_reread(i, ev),
            Stage::EditPut(i) => self.on_edit_put(i, ev),
            Stage::EditUnlock(i) => self.on_edit_unlock(i, ev),
            Stage::WriteLocate(j) => self.on_write_locate(j, ev),
            Stage::WriteInspect(j) => self.on_write_inspect(j, ev),
            Stage::WriteDirs(j) => self.on_write_dirs(j, ev),
            Stage::WriteLock(j) => self.on_write_lock(j, ev),
            Stage::WriteReread(j) => self.on_write_reread(j, ev),
            Stage::WritePut(j) => self.on_write_put(j, ev),
            Stage::WriteUnlock(j) => self.on_write_unlock(j, ev),
            Stage::RunCommand(k) => self.on_run(k, ev),
            Stage::Undoing => self.on_undo(ev),
            Stage::Finished(_) => {},
        }
    }

    /// What the driver has to do next.
    pub fn action(&self) -> (a: Action)
        requires
            self.wf(),
        ensures
            a.deep_view() == machine::demand(self.deep_view()),
    {
        proof {
            self.lemma_accepted();
        }
        match self.stage {
            Stage::DryLocate(i) | Stage::EditLocate(i) => {
                if self.req.allow_outside {
                    Action::Proceed
                } else {
                    Action::Locate { path: rel_of(self.style, self.req.edits[i].path.as_str()) }
                }
            },
            Stage::DryInspect(i) | Stage::EditInspect(i) => {
                let path = rel_of(self.style, self.req.edits[i].path.as_str());
                if latest_of(&self.prepared, &path).is_some() {
                    Action::Proceed
                } else {
                    Action::Inspect { path }
                }
            },
            Stage::EditLock(i) => {
                if is_folded(&self.prepared, i) {
                    Action::Proceed
                } else {
                    Action::Lock { path: self.prepared[i].rel.clone() }
                }
            },
            Stage::EditReread(i) => Action::Reread { path: self.prepared[i].rel.clone() },
            Stage::EditPut(i) => Action::Put {
                path: self.prepared[i].rel.clone(),
                content: self.prepared[i].new_text.as_str().as_bytes_vec(),
            },
            Stage::EditUnlock(i) => Action::Unlock { path: self.prepared[i].rel.clone() },
            Stage::WriteLocate(j) => {
                if is_superseded(self.req, j) || self.req.allow_outside {
                    Action::Proceed
                } else {
                    Action::Locate { path: rel_of(self.style, self.req.writes[j].path.as_str()) }
                }
            },
            Stage::WriteInspect(j) => Action::Inspect {
                path: rel_of(self.style, self.req.writes[j].path.as_str()),
            },
            Stage::WriteDirs(j) => {
                if self.req.writes[j].create_dirs {
                    Action::MakeDirs { path: rel_of(self.style, self.req.writes[j].path.as_str()) }
                } else {
                    Action::Proceed
                }
            },
            Stage::WriteLock(j) => Action::Lock {
                path: rel_of(self.style, self.req.writes[j].path.as_str()),
            },
            Stage::WriteReread(j) => Action::Reread {
                path: rel_of(self.style, self.req.writes[j].path.as_str()),
            },
            Stage::WritePut(j) => Action::Put {
                path: rel_of(self.style, self.req.writes[j].path.as_str()),
                content: self.req.writes[j].content.as_str().as_bytes_vec(),
            },
            Stage::WriteUnlock(j) => Action::Unlock {
                path: rel_of(self.style, self.req.writes[j].path.as_str()),
            },
            Stage::RunCommand(k) => Action::Run { cmd: self.req.verify[k].cmd.clone() },
            Stage::Undoing => {
                let u = &self.log[self.log.len() - 1];
                match &u.old {
                    Some(b) => Action::Put { path: u.path.clone(), content: copied(b) },
                    None => Action::Delete { path: u.path.clone() },
                }
            },
            Stage::Finished(_) => Action::Finish,
        }
    }

    /// The result of a finished session; nothing before that.
    pub fn into_result(self) -> (r: Option<Result<BatchResult, BatchError>>)
        requires
            self.wf(),
        ensures
            result_view(r) == machine::outcome(self.deep_view()),
    {
        let message = match self.failure {
            Some(m) => m,
            None => String::new(),
        };
        match self.stage {
            Stage::Finished(Ending::Applied) => Some(
                Ok(
                    BatchResult {
                        ok: true,
                        status: "applied".to_owned(),
                        edits: self.edits,
                        writes: if self.req.writes.len() == 0 {
                            None
                        } else {
                            Some(self.writes)
                        },
                        verify: if self.req.verify.len() == 0 {
                            None
                        } else {
                            Some(self.verify)
                        },
                        error: None,
                    },
                ),
            ),
            Stage::Finished(Ending::DryRun) => Some(
                Ok(
                    BatchResult {
                        ok: all_ok(&self.edits),
                        status: "dry_run".to_owned(),
                        edits: self.edits,
                        writes: None,
                        verify: None,
                        error: None,
                    },
                ),
            ),
            Stage::Finished(Ending::Refused) => Some(
                Err(BatchError::RolledBack(message, self.edits, None, None)),
            ),
            Stage::Finished(Ending::RolledBack) => Some(
                Err(rollback(message, self.edits, self.writes)),
            ),
            _ => None,
        }
    }
}

/// Whether every edit is fine.
fn all_ok(edits: &Vec<EditStatus>) -> (b: bool)
    ensures
        b == forall|i: int|
            0 <= i < edits.deep_view().len() ==> (#[trigger] edits.deep_view()[i]).ok,
{
    let ghost v = edits.deep_view();
    let mut i: usize = 0;
    while i < edits.len()
        invariant
            i <= edits@.len(),
            v == edits.deep_view(),
            forall|k: int| 0 <= k < i ==> (#[trigger] v[k]).ok,
        decreases edits@.len() - i,
    {
        if !edits[i].ok {
            assert(!v[i as int].ok);
            return false;
        }
        i = i + 1;
    }
    true
}

/// What a batch that was rolled back gives: whatever counted as applied does so no
/// longer.
pub fn rollback(message: String, edits: Vec<EditStatus>, writes: Vec<WriteStatus>) -> (e: BatchError)
    ensures
        e.deep_view() == machine::rollback_error(message@, edits.deep_view(), writes.deep_view()),
{
    let ghost before = edits.deep_view();
    let mut edits = edits;
    let mut i: usize = 0;
    while i < edits.len()
        invariant
            i <= edits@.len(),
            before.len() == edits@.len(),
            forall|k: int| 0 <= k < i ==> (#[trigger] edits@[k]).deep_view()
                == machine::edit_undone(before[k]),
            forall|k: int| i <= k < edits@.len() ==> (#[trigger] edits@[k]).deep_view()
                == before[k],
        decreases edits@.len() - i,
    {
        if edits[i].applied {
            edits[i].applied = false;
            edits[i].ok = false;
            edits[i].error = Some("rolled back".to_owned());
        }
        i = i + 1;
    }
    assert(edits.deep_view() =~= before.map_values(
        |s: crate::types::EditStatusView| machine::edit_undone(s),
    ));
    let ghost written = writes.deep_view();
    let mut writes = writes;
    i = 0;
    while i < writes.len()
        invariant
            i <= writes@.len(),
            written.len() == writes@.len(),
            forall|k: int| 0 <= k < i ==> (#[trigger] writes@[k]).deep_view()
                == machine::write_undone(written[k]),
            forall|k: int| i <= k < writes@.len() ==> (#[trigger] writes@[k]).deep_view()
                == written[k],
        decreases writes@.len() - i,
    {
        if writes[i].applied {
            writes[i].applied = false;
            writes[i].ok = false;
            writes[i].error = Some("rolled back".to_owned());
        }
        i = i + 1;
    }
    assert(writes.deep_view() =~= written.map_values(
        |s: crate::types::WriteStatusView| machine::write_undone(s),
    ));
    BatchError::RolledBack(message, edits, Some(writes), None)
}

} // verus!
