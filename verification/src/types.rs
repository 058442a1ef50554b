//! What a batch asks for and what comes back. Each type has a mathematical view
//! (`deep_view`) in which strings are sequences of characters; the contracts of
//! this crate speak of the views.

use crate::path::Style;
use vstd::prelude::*;

verus! {

/// One exact-string edit. `old_string` must occur exactly once in the file
/// (or `replace_all` must be set).
#[derive(Debug, Clone)]
pub struct Edit {
    pub path: String,
    pub old_string: String,
    pub new_string: String,
    pub replace_all: bool,
}

/// The view of an [`Edit`].
pub struct EditView {
    pub path: Seq<char>,
    pub old_string: Seq<char>,
    pub new_string: Seq<char>,
    pub replace_all: bool,
}

impl DeepView for Edit {
    type V = EditView;

    open spec fn deep_view(&self) -> EditView {
        EditView {
            path: self.path@,
            old_string: self.old_string@,
            new_string: self.new_string@,
            replace_all: self.replace_all,
        }
    }
}

/// One raw write (create or overwrite). Parent directories are created where
/// `create_dirs` is set.
#[derive(Debug, Clone)]
pub struct Write {
    pub path: String,
    pub content: String,
    pub create_dirs: bool,
}

/// The view of a [`Write`].
pub struct WriteView {
    pub path: Seq<char>,
    pub content: Seq<char>,
    pub create_dirs: bool,
}

impl DeepView for Write {
    type V = WriteView;

    open spec fn deep_view(&self) -> WriteView {
        WriteView { path: self.path@, content: self.content@, create_dirs: self.create_dirs }
    }
}

/// What `create_dirs` is where a request does not say.
pub fn default_true() -> (b: bool)
    ensures
        b,
{
    true
}

/// One shell command to run after the edits and writes.
#[derive(Debug, Clone)]
pub struct Verify {
    pub cmd: String,
}

impl DeepView for Verify {
    type V = Seq<char>;

    open spec fn deep_view(&self) -> Seq<char> {
        self.cmd@
    }
}

/// The full batch request.
#[derive(Debug, Clone)]
pub struct BatchRequest {
    pub edits: Vec<Edit>,
    pub writes: Vec<Write>,
    pub verify: Vec<Verify>,
    /// Return diff previews only; touch nothing on disk.
    pub dry_run: bool,
    /// Allow paths outside the working directory (unsafe opt-in).
    pub allow_outside: bool,
}

/// The view of a [`BatchRequest`], and how its paths are read.
pub struct RequestView {
    pub edits: Seq<EditView>,
    pub writes: Seq<WriteView>,
    pub verify: Seq<Seq<char>>,
    pub dry_run: bool,
    pub allow_outside: bool,
    pub style: Style,
}

impl RequestView {
    /// The request with its paths read in the given style.
    pub open spec fn on(self, style: Style) -> RequestView {
        RequestView { style, ..self }
    }
}

impl DeepView for BatchRequest {
    type V = RequestView;

    open spec fn deep_view(&self) -> RequestView {
        RequestView {
            edits: self.edits.deep_view(),
            writes: self.writes.deep_view(),
            verify: self.verify.deep_view(),
            dry_run: self.dry_run,
            allow_outside: self.allow_outside,
            style: Style::Unix,
        }
    }
}

/// Structured per-edit diagnostic so the caller never has to re-read.
#[derive(Debug, Clone)]
pub struct EditStatus {
    pub path: String,
    pub ok: bool,
    pub applied: bool,
    pub error: Option<String>,
    pub diff_preview: Option<String>,
    pub replacements: Option<usize>,
}

/// The view of an [`EditStatus`].
pub struct EditStatusView {
    pub path: Seq<char>,
    pub ok: bool,
    pub applied: bool,
    pub error: Option<Seq<char>>,
    pub diff_preview: Option<Seq<char>>,
    pub replacements: Option<usize>,
}

impl DeepView for EditStatus {
    type V = EditStatusView;

    open spec fn deep_view(&self) -> EditStatusView {
        EditStatusView {
            path: self.path@,
            ok: self.ok,
            applied: self.applied,
            error: self.error.deep_view(),
            diff_preview: self.diff_preview.deep_view(),
            replacements: self.replacements,
        }
    }
}

/// Structured per-write diagnostic.
#[derive(Debug, Clone)]
pub struct WriteStatus {
    pub path: String,
    pub ok: bool,
    pub applied: bool,
    pub error: Option<String>,
    pub created_dirs: Option<bool>,
}

/// The view of a [`WriteStatus`].
pub struct WriteStatusView {
    pub path: Seq<char>,
    pub ok: bool,
    pub applied: bool,
    pub error: Option<Seq<char>>,
    pub created_dirs: Option<bool>,
}

impl DeepView for WriteStatus {
    type V = WriteStatusView;

    open spec fn deep_view(&self) -> WriteStatusView {
        WriteStatusView {
            path: self.path@,
            ok: self.ok,
            applied: self.applied,
            error: self.error.deep_view(),
            created_dirs: self.created_dirs,
        }
    }
}

/// What one verify command gave.
#[derive(Debug, Clone)]
pub struct VerifyStatus {
    pub cmd: String,
    pub exit: i64,
    pub stdout: String,
    pub stderr: String,
    pub duration_ms: u128,
}

/// The view of a [`VerifyStatus`].
pub struct VerifyStatusView {
    pub cmd: Seq<char>,
    pub exit: int,
    pub stdout: Seq<char>,
    pub stderr: Seq<char>,
    pub duration_ms: u128,
}

impl DeepView for VerifyStatus {
    type V = VerifyStatusView;

    open spec fn deep_view(&self) -> VerifyStatusView {
        VerifyStatusView {
            cmd: self.cmd@,
            exit: self.exit as int,
            stdout: self.stdout@,
            stderr: self.stderr@,
            duration_ms: self.duration_ms,
        }
    }
}

/// What an accepted batch gave.
#[derive(Debug, Clone)]
pub struct BatchResult {
    pub ok: bool,
    /// `applied`: all edits and writes landed; `dry_run`: nothing was touched.
    pub status: String,
    pub edits: Vec<EditStatus>,
    pub writes: Option<Vec<WriteStatus>>,
    pub verify: Option<Vec<VerifyStatus>>,
    pub error: Option<String>,
}

/// The view of a [`BatchResult`].
pub struct BatchResultView {
    pub ok: bool,
    pub status: Seq<char>,
    pub edits: Seq<EditStatusView>,
    pub writes: Option<Seq<WriteStatusView>>,
    pub verify: Option<Seq<VerifyStatusView>>,
    pub error: Option<Seq<char>>,
}

impl DeepView for BatchResult {
    type V = BatchResultView;

    open spec fn deep_view(&self) -> BatchResultView {
        BatchResultView {
            ok: self.ok,
            status: self.status@,
            edits: self.edits.deep_view(),
            writes: self.writes.deep_view(),
            verify: self.verify.deep_view(),
            error: self.error.deep_view(),
        }
    }
}

/// Why a batch did not go through.
#[derive(Debug)]
pub enum BatchError {
    /// The batch failed and every prior edit and write was undone. Holds the
    /// message, the per-edit statuses, the per-write statuses where writes were
    /// reached, and a detail that is always absent.
    RolledBack(String, Vec<EditStatus>, Option<Vec<WriteStatus>>, Option<String>),
    /// The request was refused before anything was touched.
    InvalidRequest(String),
}

/// The view of a [`BatchError`].
pub enum BatchErrorView {
    RolledBack(Seq<char>, Seq<EditStatusView>, Option<Seq<WriteStatusView>>, Option<Seq<char>>),
    InvalidRequest(Seq<char>),
}

impl DeepView for BatchError {
    type V = BatchErrorView;

    open spec fn deep_view(&self) -> BatchErrorView {
        match self {
            BatchError::RolledBack(m, e, w, d) => BatchErrorView::RolledBack(
                m@,
                e.deep_view(),
                w.deep_view(),
                d.deep_view(),
            ),
            BatchError::InvalidRequest(m) => BatchErrorView::InvalidRequest(m@),
        }
    }
}

/// The view of what a batch gave, good or bad.
pub open spec fn outcome_view(r: Result<BatchResult, BatchError>) -> Result<
    BatchResultView,
    BatchErrorView,
> {
    match r {
        Ok(b) => Ok(b.deep_view()),
        Err(e) => Err(e.deep_view()),
    }
}

impl BatchErrorView {
    /// The one-line message of the error.
    pub open spec fn message(self) -> Seq<char> {
        match self {
            BatchErrorView::RolledBack(m, _, _, _) => m,
            BatchErrorView::InvalidRequest(m) => m,
        }
    }
}

impl BatchError {
    /// The one-line message of the error.
    pub fn message(&self) -> (m: String)
        ensures
            m@ == self.deep_view().message(),
    {
        match self {
            BatchError::RolledBack(m, _, _, _) => m.clone(),
            BatchError::InvalidRequest(m) => m.clone(),
        }
    }

    /// The refusal of a request that is not valid JSON; `detail` says why.
    pub fn bad_json(detail: &str) -> (e: BatchError)
        ensures
            e.deep_view() == BatchErrorView::InvalidRequest("bad JSON: "@ + detail@),
    {
        let mut m = String::new();
        m.append("bad JSON: ");
        m.append(detail);
        BatchError::InvalidRequest(m)
    }
}

/// The contracts speak of the request as it is: item by item, field by field.
pub proof fn law_request_as_it_is(r: BatchRequest)
    ensures
        ({
            let v = r.deep_view();
            &&& v.dry_run == r.dry_run && v.allow_outside == r.allow_outside
            &&& v.edits.len() == r.edits@.len() && forall|k: int|
                0 <= k < v.edits.len() ==> {
                    let e = #[trigger] v.edits[k];
                    &&& e.path == r.edits@[k].path@ && e.replace_all == r.edits@[k].replace_all
                    &&& e.old_string == r.edits@[k].old_string@
                    &&& e.new_string == r.edits@[k].new_string@
                }
            &&& v.writes.len() == r.writes@.len() && forall|k: int|
                0 <= k < v.writes.len() ==> {
                    let w = #[trigger] v.writes[k];
                    &&& w.path == r.writes@[k].path@ && w.content == r.writes@[k].content@
                    &&& w.create_dirs == r.writes@[k].create_dirs
                }
            &&& v.verify.len() == r.verify@.len() && forall|k: int|
                0 <= k < v.verify.len() ==> #[trigger] v.verify[k] == r.verify@[k].cmd@
            &&& forall|style: Style|
                v.on(style) == (RequestView { style, ..v })
        }),
{
}

/// The contracts speak of statuses as they are.
pub proof fn law_statuses_as_they_are(e: EditStatus, w: WriteStatus, c: VerifyStatus)
    ensures
        ({
            let v = e.deep_view();
            &&& v.path == e.path@ && v.ok == e.ok && v.applied == e.applied
            &&& v.error is Some <==> e.error is Some
            &&& e.error matches Some(m) ==> v.error == Some(m@)
            &&& v.diff_preview is Some <==> e.diff_preview is Some
            &&& e.diff_preview matches Some(p) ==> v.diff_preview == Some(p@)
            &&& v.replacements == e.replacements
        }),
        ({
            let v = w.deep_view();
            &&& v.path == w.path@ && v.ok == w.ok && v.applied == w.applied
            &&& v.error is Some <==> w.error is Some
            &&& w.error matches Some(m) ==> v.error == Some(m@)
            &&& v.created_dirs == w.created_dirs
        }),
        ({
            let v = c.deep_view();
            &&& v.cmd == c.cmd@ && v.exit == c.exit && v.duration_ms == c.duration_ms
            &&& v.stdout == c.stdout@ && v.stderr == c.stderr@
        }),
{
}

/// The contracts speak of a result as it is.
pub proof fn law_result_as_it_is(r: BatchResult)
    ensures
        ({
            let v = r.deep_view();
            &&& v.ok == r.ok && v.status == r.status@
            &&& v.edits.len() == r.edits@.len()
            &&& forall|k: int|
                0 <= k < v.edits.len() ==> #[trigger] v.edits[k] == r.edits@[k].deep_view()
            &&& r.writes is None <==> v.writes is None
            &&& r.writes matches Some(ws) ==> v.writes matches Some(vs) && vs.len() == ws@.len()
                && forall|k: int| 0 <= k < vs.len() ==> #[trigger] vs[k] == ws@[k].deep_view()
            &&& r.verify is None <==> v.verify is None
            &&& r.verify matches Some(cs) ==> v.verify matches Some(vs) && vs.len() == cs@.len()
                && forall|k: int| 0 <= k < vs.len() ==> #[trigger] vs[k] == cs@[k].deep_view()
            &&& r.error is None <==> v.error is None
            &&& r.error matches Some(m) ==> v.error == Some(m@)
        }),
{
}

/// The message of an error is the one that it was made with.
pub proof fn law_message(
    m: Seq<char>,
    edits: Seq<EditStatusView>,
    writes: Option<Seq<WriteStatusView>>,
    detail: Option<Seq<char>>,
)
    ensures
        BatchErrorView::RolledBack(m, edits, writes, detail).message() == m,
        BatchErrorView::InvalidRequest(m).message() == m,
{
}

} // verus!
