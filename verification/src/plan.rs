//! Pre-flight of one edit: from the bytes of its target to the new text, or to the
//! reason for which the batch fails.

use crate::limits::MAX_FILE_BYTES;
use crate::matching;
use crate::matching::{match_count, replaced};
use crate::preview;
use crate::preview::diff_preview;
use crate::text;
use crate::text::{decoded, push_decimal};
use crate::types::{Edit, EditStatus, EditStatusView, EditView};
use vstd::prelude::*;

verus! {

/// Why an edit cannot be made: the message for the batch, the error and the number of
/// matches for the edit.
pub struct Refusal {
    pub message: String,
    pub error: String,
    pub replacements: Option<usize>,
}

/// The view of a [`Refusal`].
pub struct RefusalView {
    pub message: Seq<char>,
    pub error: Seq<char>,
    pub replacements: Option<usize>,
}

impl DeepView for Refusal {
    type V = RefusalView;

    open spec fn deep_view(&self) -> RefusalView {
        RefusalView {
            message: self.message@,
            error: self.error@,
            replacements: self.replacements,
        }
    }
}

/// An edit that can be made: the text it matched against, the text it gives, and the
/// number of replacements.
pub struct Matched {
    pub current: String,
    pub new_text: String,
    pub replacements: usize,
}

/// The view of a [`Matched`].
pub struct MatchedView {
    pub current: Seq<char>,
    pub new_text: Seq<char>,
    pub replacements: usize,
}

impl DeepView for Matched {
    type V = MatchedView;

    open spec fn deep_view(&self) -> MatchedView {
        MatchedView {
            current: self.current@,
            new_text: self.new_text@,
            replacements: self.replacements,
        }
    }
}

/// `"old_string matches "` and the number of matches.
pub open spec fn matches_times(n: nat) -> Seq<char> {
    "old_string matches "@ + text::decimal(n) + " times"@
}

/// The refusal of an edit whose target lies outside the working directory.
pub open spec fn outside_refusal(path: Seq<char>) -> RefusalView {
    RefusalView {
        message: "refusing to patch outside cwd: "@ + path + " (set allow_outside:true)"@,
        error: "outside cwd"@,
        replacements: None,
    }
}

/// The refusal of an edit whose target is not there.
pub open spec fn missing_refusal(path: Seq<char>) -> RefusalView {
    RefusalView {
        message: "edit target does not exist: "@ + path + " (use writes to create files)"@,
        error: "target missing"@,
        replacements: None,
    }
}

/// The refusal of an edit whose target has too many bytes.
pub open spec fn large_refusal(path: Seq<char>, n: nat) -> RefusalView {
    RefusalView {
        message: "file too large to edit: "@ + path + " ("@ + text::decimal(n) + " bytes, max "@
            + text::decimal(MAX_FILE_BYTES as nat) + ")"@,
        error: "file too large"@,
        replacements: None,
    }
}

/// The refusal of an edit whose target is not text.
pub open spec fn encoding_refusal(path: Seq<char>) -> RefusalView {
    RefusalView {
        message: "file is not valid UTF-8: "@ + path,
        error: "not UTF-8"@,
        replacements: None,
    }
}

/// The refusal of an edit with the wrong number of matches.
pub open spec fn count_refusal(e: EditView, n: nat) -> RefusalView {
    if e.replace_all {
        RefusalView {
            message: "old_string not found in "@ + e.path,
            error: "old_string not found"@,
            replacements: None,
        }
    } else if n == 0 {
        RefusalView {
            message: "old_string not found"@,
            error: "old_string not found"@,
            replacements: Some(0),
        }
    } else {
        RefusalView {
            message: matches_times(n) + " (pass replace_all or make it unique)"@,
            error: matches_times(n) + " (pass replace_all or make it unique)"@,
            replacements: Some(n as usize),
        }
    }
}

/// The number of matches is right: one, or at least one where all are replaced.
pub open spec fn count_is_right(e: EditView, n: nat) -> bool {
    n == 1 || (e.replace_all && n > 0)
}

/// What an edit makes of a file with the given bytes.
pub open spec fn edit_outcome(e: EditView, bytes: Seq<u8>) -> Result<MatchedView, RefusalView> {
    let t = vstd::utf8::decode_utf8(bytes);
    let n = matching::count_matches(t, e.old_string);
    if bytes.len() > MAX_FILE_BYTES {
        Err(large_refusal(e.path, bytes.len()))
    } else if !vstd::utf8::valid_utf8(bytes) {
        Err(encoding_refusal(e.path))
    } else if count_is_right(e, n) {
        Ok(
            MatchedView {
                current: t,
                new_text: matching::replace_matches(t, e.old_string, e.new_string),
                replacements: n as usize,
            },
        )
    } else {
        Err(count_refusal(e, n))
    }
}

/// An edit that can be made has at least one match, and says how many.
pub proof fn lemma_replacements(e: EditView, bytes: Seq<u8>)
    requires
        e.old_string.len() > 0,
        edit_outcome(e, bytes) is Ok,
    ensures
        edit_outcome(e, bytes)->Ok_0.replacements == matching::count_matches(
            vstd::utf8::decode_utf8(bytes),
            e.old_string,
        ),
        edit_outcome(e, bytes)->Ok_0.replacements >= 1,
{
    let t = vstd::utf8::decode_utf8(bytes);
    matching::lemma_count_bound(t, e.old_string, 0);
    vstd::utf8::decode_utf8_encode_utf8(bytes);
    matching::lemma_encode_len(t);
}

/// The view of the answer of [`match_edit`].
pub open spec fn matched_view(r: Result<Matched, Refusal>) -> Result<MatchedView, RefusalView> {
    match r {
        Ok(m) => Ok(m.deep_view()),
        Err(f) => Err(f.deep_view()),
    }
}

/// The refusal of an edit whose target lies outside the working directory.
pub fn refuse_outside(path: &str) -> (f: Refusal)
    ensures
        f.deep_view() == outside_refusal(path@),
{
    let mut message = "refusing to patch outside cwd: ".to_owned();
    message.append(path);
    message.append(" (set allow_outside:true)");
    Refusal { message, error: "outside cwd".to_owned(), replacements: None }
}

/// The refusal of an edit whose target is not there.
pub fn refuse_missing(path: &str) -> (f: Refusal)
    ensures
        f.deep_view() == missing_refusal(path@),
{
    let mut message = "edit target does not exist: ".to_owned();
    message.append(path);
    message.append(" (use writes to create files)");
    Refusal { message, error: "target missing".to_owned(), replacements: None }
}

/// The refusal of an edit whose target has too many bytes.
fn refuse_large(path: &str, n: usize) -> (f: Refusal)
    ensures
        f.deep_view() == large_refusal(path@, n as nat),
{
    let mut message = "file too large to edit: ".to_owned();
    message.append(path);
    message.append(" (");
    push_decimal(&mut message, n as u128);
    message.append(" bytes, max ");
    push_decimal(&mut message, MAX_FILE_BYTES as u128);
    message.append(")");
    Refusal { message, error: "file too large".to_owned(), replacements: None }
}

/// The refusal of an edit whose target is not text.
fn refuse_encoding(path: &str) -> (f: Refusal)
    ensures
        f.deep_view() == encoding_refusal(path@),
{
    let mut message = "file is not valid UTF-8: ".to_owned();
    message.append(path);
    Refusal { message, error: "not UTF-8".to_owned(), replacements: None }
}

/// `"old_string matches "` and the number of matches.
fn matches_text(n: usize) -> (s: String)
    ensures
        s@ == matches_times(n as nat),
{
    let mut s = "old_string matches ".to_owned();
    push_decimal(&mut s, n as u128);
    s.append(" times");
    s
}

/// The refusal of an edit with the wrong number of matches.
fn refuse_count(e: &Edit, n: usize) -> (f: Refusal)
    ensures
        f.deep_view() == count_refusal(e.deep_view(), n as nat),
{
    if e.replace_all {
        let mut message = "old_string not found in ".to_owned();
        message.append(e.path.as_str());
        Refusal { message, error: "old_string not found".to_owned(), replacements: None }
    } else if n == 0 {
        Refusal {
            message: "old_string not found".to_owned(),
            error: "old_string not found".to_owned(),
            replacements: Some(0),
        }
    } else {
        let mut message = matches_text(n);
        message.append(" (pass replace_all or make it unique)");
        Refusal { error: message.clone(), message, replacements: Some(n) }
    }
}

/// Matches an edit against the bytes of its target.
pub fn match_edit(e: &Edit, bytes: &Vec<u8>) -> (r: Result<Matched, Refusal>)
    requires
        e.old_string@.len() > 0,
    ensures
        matched_view(r) == edit_outcome(e.deep_view(), bytes@),
{
    if bytes.len() as u64 > MAX_FILE_BYTES {
        return Err(refuse_large(e.path.as_str(), bytes.len()));
    }
    match decoded(bytes.as_slice()) {
        None => Err(refuse_encoding(e.path.as_str())),
        Some(t) => {
            let n: usize = match_count(t, e.old_string.as_str());
            if n == 1 || (e.replace_all && n > 0) {
                let new_text = replaced(t, e.old_string.as_str(), e.new_string.as_str());
                Ok(Matched { current: t.to_owned(), new_text, replacements: n })
            } else {
                Err(refuse_count(e, n))
            }
        },
    }
}

/// The status of an edit that cannot be made.
pub open spec fn refused_status(path: Seq<char>, f: RefusalView) -> EditStatusView {
    EditStatusView {
        path,
        ok: false,
        applied: false,
        error: Some(f.error),
        diff_preview: None,
        replacements: f.replacements,
    }
}

/// The status of an edit that can be made and is not made yet.
pub open spec fn pending_status(path: Seq<char>, replacements: usize) -> EditStatusView {
    EditStatusView {
        path,
        ok: true,
        applied: false,
        error: None,
        diff_preview: None,
        replacements: Some(replacements),
    }
}

/// Why a dry run says that an edit of a file with the given bytes cannot be made, and how
/// many matches it has where they were counted.
pub open spec fn unfit_status(e: EditView, bytes: Seq<u8>) -> EditStatusView {
    let n = matching::count_matches(vstd::utf8::decode_utf8(bytes), e.old_string);
    EditStatusView {
        path: e.path,
        ok: false,
        applied: false,
        error: Some(
            if bytes.len() > MAX_FILE_BYTES {
                "file too large"@
            } else if !vstd::utf8::valid_utf8(bytes) {
                "not UTF-8 or unreadable"@
            } else if n == 0 {
                "old_string not found"@
            } else {
                matches_times(n)
            },
        ),
        diff_preview: None,
        replacements: if bytes.len() > MAX_FILE_BYTES || !vstd::utf8::valid_utf8(bytes) {
            None
        } else {
            Some(n as usize)
        },
    }
}

/// What a dry run says of an edit that is matched against the given bytes.
pub open spec fn foretold(e: EditView, bytes: Seq<u8>) -> EditStatusView {
    match edit_outcome(e, bytes) {
        Ok(m) => EditStatusView {
            path: e.path,
            ok: true,
            applied: false,
            error: None,
            diff_preview: Some(preview::preview(m.current, m.new_text)),
            replacements: Some(m.replacements),
        },
        Err(_) => unfit_status(e, bytes),
    }
}

/// The status that a dry run reports of an edit: `exists` says whether its target is
/// there, `content` what the edit is matched against, where that could be read.
pub open spec fn dry_status(e: EditView, exists: bool, content: Option<Seq<u8>>) -> EditStatusView {
    if !exists {
        refused_status(e.path, missing_refusal(e.path))
    } else {
        match content {
            Some(bytes) => foretold(e, bytes),
            None => EditStatusView {
                path: e.path,
                ok: false,
                applied: false,
                error: Some("not UTF-8 or unreadable"@),
                diff_preview: None,
                replacements: None,
            },
        }
    }
}

/// The status of an edit that cannot be made.
pub fn status_of_refused(path: &str, f: &Refusal) -> (s: EditStatus)
    ensures
        s.deep_view() == refused_status(path@, f.deep_view()),
{
    EditStatus {
        path: path.to_owned(),
        ok: false,
        applied: false,
        error: Some(f.error.clone()),
        diff_preview: None,
        replacements: f.replacements,
    }
}

/// The status of an edit that can be made and is not made yet.
pub fn status_of_pending(path: &str, replacements: usize) -> (s: EditStatus)
    ensures
        s.deep_view() == pending_status(path@, replacements),
{
    EditStatus {
        path: path.to_owned(),
        ok: true,
        applied: false,
        error: None,
        diff_preview: None,
        replacements: Some(replacements),
    }
}

/// Why a dry run says that an edit of a file with the given bytes cannot be made.
fn status_of_unfit(e: &Edit, bytes: &Vec<u8>) -> (s: EditStatus)
    requires
        e.old_string@.len() > 0,
    ensures
        s.deep_view() == unfit_status(e.deep_view(), bytes@),
{
    let mut replacements: Option<usize> = None;
    let error = if bytes.len() as u64 > MAX_FILE_BYTES {
        "file too large".to_owned()
    } else {
        match decoded(bytes.as_slice()) {
            None => "not UTF-8 or unreadable".to_owned(),
            Some(t) => {
                let n: usize = match_count(t, e.old_string.as_str());
                replacements = Some(n);
                if n == 0 {
                    "old_string not found".to_owned()
                } else {
                    matches_text(n)
                }
            },
        }
    };
    EditStatus {
        path: e.path.clone(),
        ok: false,
        applied: false,
        error: Some(error),
        diff_preview: None,
        replacements,
    }
}

/// What a dry run says of an edit that is matched against the given bytes, and what the
/// edit makes of them.
pub fn foretell(e: &Edit, bytes: &Vec<u8>) -> (r: (EditStatus, Option<Matched>))
    requires
        e.old_string@.len() > 0,
    ensures
        r.0.deep_view() == foretold(e.deep_view(), bytes@),
        match r.1 {
            Some(m) => edit_outcome(e.deep_view(), bytes@) == Ok::<MatchedView, RefusalView>(
                m.deep_view(),
            ),
            None => edit_outcome(e.deep_view(), bytes@) is Err,
        },
{
    match match_edit(e, bytes) {
        Err(_) => (status_of_unfit(e, bytes), None),
        Ok(m) => {
            let status = EditStatus {
                path: e.path.clone(),
                ok: true,
                applied: false,
                error: None,
                diff_preview: Some(diff_preview(m.current.as_str(), m.new_text.as_str())),
                replacements: Some(m.replacements),
            };
            (status, Some(m))
        },
    }
}

/// The status that a dry run reports of an edit whose target is missing or cannot be read.
pub fn status_of_absent(e: &Edit, exists: bool) -> (s: EditStatus)
    ensures
        s.deep_view() == dry_status(e.deep_view(), exists, None),
{
    if !exists {
        status_of_refused(e.path.as_str(), &refuse_missing(e.path.as_str()))
    } else {
        EditStatus {
            path: e.path.clone(),
            ok: false,
            applied: false,
            error: Some("not UTF-8 or unreadable".to_owned()),
            diff_preview: None,
            replacements: None,
        }
    }
}

/// A dry run foretells: what it says of an edit is what pre-flight makes of the same bytes.
/// It is fine exactly where the edit can be made, it gives the same number of
/// replacements, and it shows the change that would be made.
pub proof fn law_dry_run_foretells(e: EditView, bytes: Seq<u8>)
    ensures
        ({
            let s = dry_status(e, true, Some(bytes));
            match edit_outcome(e, bytes) {
                Ok(m) => {
                    &&& s.path == e.path && !s.applied
                    &&& s.ok && s.error is None
                    &&& s.replacements == Some(m.replacements)
                    &&& s.diff_preview == Some(preview::preview(m.current, m.new_text))
                },
                Err(_) => !s.ok && s.error is Some && s.diff_preview is None,
            }
        }),
{
}

/// An edit can be made exactly where its target is not too large, is text, and holds
/// `old_string` once, or, where all are to be replaced, at least once. Then the text that it
/// matched is that of the bytes; it is made of gaps with `old_string` between them, and the
/// new text of the same gaps with `new_string` between them; and there are as many
/// replacements as places between the gaps.
pub proof fn law_what_an_edit_does(e: EditView, bytes: Seq<u8>) -> (gaps: Seq<Seq<char>>)
    requires
        e.old_string.len() > 0,
    ensures
        edit_outcome(e, bytes) is Ok <==> {
            let n = gaps.len() - 1;
            &&& bytes.len() <= MAX_FILE_BYTES
            &&& vstd::utf8::valid_utf8(bytes)
            &&& n == 1 || (e.replace_all && n >= 1)
        },
        vstd::utf8::valid_utf8(bytes) ==> {
            &&& gaps.len() > 0
            &&& vstd::utf8::encode_utf8(matching::interleaved(gaps, e.old_string)) == bytes
            &&& forall|k: int|
                0 <= k < gaps.len() ==> matching::is_gap(
                    #[trigger] gaps[k],
                    e.old_string,
                    k == gaps.len() - 1,
                )
        },
        edit_outcome(e, bytes) matches Ok(m) ==> {
            &&& m.current == matching::interleaved(gaps, e.old_string)
            &&& m.new_text == matching::interleaved(gaps, e.new_string)
            &&& m.replacements == gaps.len() - 1
        },
{
    let t = vstd::utf8::decode_utf8(bytes);
    let gaps = matching::law_every_match_is_replaced(t, e.old_string, e.new_string);
    if vstd::utf8::valid_utf8(bytes) {
        vstd::utf8::decode_utf8_encode_utf8(bytes);
    }
    if edit_outcome(e, bytes) is Ok {
        lemma_replacements(e, bytes);
    }
    gaps
}

/// An edit that cannot be made is refused with a message that names the reason: the size of
/// the target, that it is not text, or the number of matches.
pub proof fn law_refusal_says_why(e: EditView, bytes: Seq<u8>)
    requires
        e.old_string.len() > 0,
        edit_outcome(e, bytes) is Err,
    ensures
        ({
            let f = edit_outcome(e, bytes)->Err_0;
            let n = matching::count_matches(vstd::utf8::decode_utf8(bytes), e.old_string);
            let many = "old_string matches "@ + text::decimal(n) + " times"@
                + " (pass replace_all or make it unique)"@;
            if bytes.len() > MAX_FILE_BYTES {
                &&& f.error == "file too large"@
                &&& f.message == "file too large to edit: "@ + e.path + " ("@ + text::decimal(
                    bytes.len(),
                ) + " bytes, max "@ + text::decimal(MAX_FILE_BYTES as nat) + ")"@
                &&& f.replacements is None
            } else if !vstd::utf8::valid_utf8(bytes) {
                &&& f.error == "not UTF-8"@
                &&& f.message == "file is not valid UTF-8: "@ + e.path
                &&& f.replacements is None
            } else if e.replace_all {
                &&& n == 0
                &&& f.error == "old_string not found"@
                &&& f.message == "old_string not found in "@ + e.path
                &&& f.replacements is None
            } else if n == 0 {
                &&& f.error == "old_string not found"@
                &&& f.message == "old_string not found"@
                &&& f.replacements == Some(0usize)
            } else {
                &&& n > 1
                &&& f.error == many
                &&& f.message == many
                &&& f.replacements matches Some(k) && k == n
            }
        }),
{
    let t = vstd::utf8::decode_utf8(bytes);
    if bytes.len() <= MAX_FILE_BYTES && vstd::utf8::valid_utf8(bytes) {
        matching::lemma_count_bound(t, e.old_string, 0);
        vstd::utf8::decode_utf8_encode_utf8(bytes);
        matching::lemma_encode_len(t);
    }
}

/// Where an edit cannot be made, a dry run says why, and gives the number of matches where
/// they could be counted.
pub proof fn law_dry_run_says_why(e: EditView, exists: bool, content: Option<Seq<u8>>)
    requires
        e.old_string.len() > 0,
        !dry_status(e, exists, content).ok,
    ensures
        ({
            let s = dry_status(e, exists, content);
            let bytes = content->0;
            let n = matching::count_matches(vstd::utf8::decode_utf8(bytes), e.old_string);
            &&& s.path == e.path && !s.applied && s.diff_preview is None
            &&& if !exists {
                s.error == Some("target missing"@) && s.replacements is None
            } else if content is None {
                s.error == Some("not UTF-8 or unreadable"@) && s.replacements is None
            } else if bytes.len() > MAX_FILE_BYTES {
                s.error == Some("file too large"@) && s.replacements is None
            } else if !vstd::utf8::valid_utf8(bytes) {
                s.error == Some("not UTF-8 or unreadable"@) && s.replacements is None
            } else if n == 0 {
                s.error == Some("old_string not found"@) && s.replacements == Some(0usize)
            } else {
                &&& !e.replace_all && n > 1
                &&& s.error == Some("old_string matches "@ + text::decimal(n) + " times"@)
                &&& s.replacements matches Some(k) && k == n
            }
        }),
{
    if content is Some && content->0.len() <= MAX_FILE_BYTES && vstd::utf8::valid_utf8(
        content->0,
    ) {
        let t = vstd::utf8::decode_utf8(content->0);
        matching::lemma_count_bound(t, e.old_string, 0);
        vstd::utf8::decode_utf8_encode_utf8(content->0);
        matching::lemma_encode_len(t);
    }
}

} // verus!
