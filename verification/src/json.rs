//! What a batch gave, as one JSON document without white space between its tokens. The
//! fields of a result stand in the order in which they are declared, those of an error in
//! alphabetical order; a field that is absent is left out.

use crate::text;
use crate::text::{push_decimal, signed_decimal_text};
use crate::types;
use crate::types::{
    BatchError, BatchErrorView, BatchResult, BatchResultView, EditStatus, EditStatusView,
    VerifyStatus, VerifyStatusView, WriteStatus, WriteStatusView,
};
use vstd::prelude::*;

verus! {

/// The hexadecimal digit `d`.
pub open spec fn hex_digit(d: int) -> char {
    if d < 10 {
        (48 + d) as char
    } else {
        (87 + d) as char
    }
}

/// A character inside a JSON string.
pub open spec fn escaped(c: char) -> Seq<char> {
    if c == '"' || c == '\\' {
        seq!['\\', c]
    } else if c == '\u{8}' {
        seq!['\\', 'b']
    } else if c == '\t' {
        seq!['\\', 't']
    } else if c == '\n' {
        seq!['\\', 'n']
    } else if c == '\u{c}' {
        seq!['\\', 'f']
    } else if c == '\r' {
        seq!['\\', 'r']
    } else if (c as int) < 32 {
        seq!['\\', 'u', '0', '0', hex_digit((c as int) / 16), hex_digit((c as int) % 16)]
    } else {
        seq![c]
    }
}

/// Characters inside a JSON string.
pub open spec fn all_escaped(s: Seq<char>) -> Seq<char>
    decreases s.len(),
{
    if s.len() == 0 {
        seq![]
    } else {
        all_escaped(s.drop_last()) + escaped(s.last())
    }
}

/// A JSON string.
pub open spec fn json_string(s: Seq<char>) -> Seq<char> {
    seq!['"'] + all_escaped(s) + seq!['"']
}

/// `serde_json::to_string` gives the JSON string for a text: in quotation marks, with a
/// backslash before quotation marks and backslashes, and control characters escaped; it
/// does not fail on a text.
#[verifier::external_body]
fn quoted(s: &str) -> (t: Option<String>)
    ensures
        t is Some,
        t->0@ == json_string(s@),
{
    serde_json::to_string(s).ok()
}

/// A JSON truth value.
pub open spec fn json_bool(b: bool) -> Seq<char> {
    if b {
        "true"@
    } else {
        "false"@
    }
}

/// The items with commas between them.
pub open spec fn separated(items: Seq<Seq<char>>) -> Seq<char>
    decreases items.len(),
{
    if items.len() == 0 {
        seq![]
    } else if items.len() == 1 {
        items[0]
    } else {
        separated(items.drop_last()) + ","@ + items.last()
    }
}

/// A JSON array.
pub open spec fn json_array(items: Seq<Seq<char>>) -> Seq<char> {
    "["@ + separated(items) + "]"@
}

/// A text with what stands in front of it, where there is one.
pub open spec fn optional_text(lead: Seq<char>, t: Option<Seq<char>>) -> Seq<char> {
    match t {
        Some(s) => lead + json_string(s),
        None => seq![],
    }
}

/// A number with what stands in front of it, where there is one.
pub open spec fn optional_number(lead: Seq<char>, n: Option<usize>) -> Seq<char> {
    match n {
        Some(k) => lead + text::decimal(k as nat),
        None => seq![],
    }
}

/// A truth value with what stands in front of it, where there is one.
pub open spec fn optional_bool(lead: Seq<char>, b: Option<bool>) -> Seq<char> {
    match b {
        Some(v) => lead + json_bool(v),
        None => seq![],
    }
}

/// The status of an edit in a result.
pub open spec fn edit_json(e: EditStatusView) -> Seq<char> {
    "{\"path\":"@ + json_string(e.path) + ",\"ok\":"@ + json_bool(e.ok) + ",\"applied\":"@
        + json_bool(e.applied) + optional_text(",\"error\":"@, e.error) + optional_text(
        ",\"diff_preview\":"@,
        e.diff_preview,
    ) + optional_number(",\"replacements\":"@, e.replacements) + "}"@
}

/// The status of a write in a result.
pub open spec fn write_json(w: WriteStatusView) -> Seq<char> {
    "{\"path\":"@ + json_string(w.path) + ",\"ok\":"@ + json_bool(w.ok) + ",\"applied\":"@
        + json_bool(w.applied) + optional_text(",\"error\":"@, w.error) + optional_bool(
        ",\"created_dirs\":"@,
        w.created_dirs,
    ) + "}"@
}

/// What a command gave.
pub open spec fn verify_json(v: VerifyStatusView) -> Seq<char> {
    "{\"cmd\":"@ + json_string(v.cmd) + ",\"exit\":"@ + text::signed_decimal(v.exit)
        + ",\"stdout\":"@ + json_string(v.stdout) + ",\"stderr\":"@ + json_string(v.stderr)
        + ",\"duration_ms\":"@ + text::decimal(v.duration_ms as nat) + "}"@
}

/// The status of an edit in an error.
pub open spec fn failed_edit_json(e: EditStatusView) -> Seq<char> {
    "{\"applied\":"@ + json_bool(e.applied) + optional_text(
        ",\"diff_preview\":"@,
        e.diff_preview,
    ) + optional_text(",\"error\":"@, e.error) + ",\"ok\":"@ + json_bool(e.ok)
        + ",\"path\":"@ + json_string(e.path) + optional_number(
        ",\"replacements\":"@,
        e.replacements,
    ) + "}"@
}

/// The status of a write in an error.
pub open spec fn failed_write_json(w: WriteStatusView) -> Seq<char> {
    "{\"applied\":"@ + json_bool(w.applied) + optional_bool(
        ",\"created_dirs\":"@,
        w.created_dirs,
    ) + optional_text(",\"error\":"@, w.error) + ",\"ok\":"@ + json_bool(w.ok)
        + ",\"path\":"@ + json_string(w.path) + "}"@
}

/// The statuses of edits in a result.
pub open spec fn edits_json(edits: Seq<EditStatusView>) -> Seq<char> {
    json_array(edits.map_values(|e: EditStatusView| edit_json(e)))
}

/// The statuses of writes in a result.
pub open spec fn writes_json(writes: Seq<WriteStatusView>) -> Seq<char> {
    json_array(writes.map_values(|w: WriteStatusView| write_json(w)))
}

/// What the commands gave.
pub open spec fn verifies_json(commands: Seq<VerifyStatusView>) -> Seq<char> {
    json_array(commands.map_values(|v: VerifyStatusView| verify_json(v)))
}

/// The statuses of edits in an error.
pub open spec fn failed_edits_json(edits: Seq<EditStatusView>) -> Seq<char> {
    json_array(edits.map_values(|e: EditStatusView| failed_edit_json(e)))
}

/// The statuses of writes in an error.
pub open spec fn failed_writes_json(writes: Seq<WriteStatusView>) -> Seq<char> {
    json_array(writes.map_values(|w: WriteStatusView| failed_write_json(w)))
}

/// The status that the document gives: that of a result, and `rolled_back` for an error. A
/// request that was refused has left nothing behind either.
pub open spec fn status_word(res: Result<BatchResultView, BatchErrorView>) -> Seq<char> {
    match res {
        Ok(r) => r.status,
        Err(_) => "rolled_back"@,
    }
}

/// What a batch gave that went through.
pub open spec fn result_json(r: BatchResultView) -> Seq<char> {
    "{\"ok\":"@ + json_bool(r.ok) + ",\"status\":"@ + json_string(
        status_word(Ok(r)),
    ) + ",\"edits\":"@
        + edits_json(r.edits) + (match r.writes {
        Some(w) => ",\"writes\":"@ + writes_json(w),
        None => seq![],
    }) + (match r.verify {
        Some(v) => ",\"verify\":"@ + verifies_json(v),
        None => seq![],
    }) + optional_text(",\"error\":"@, r.error) + "}"@
}

/// Why a batch did not go through.
pub open spec fn error_json(e: BatchErrorView) -> Seq<char> {
    match e {
        BatchErrorView::RolledBack(m, edits, writes, _) => "{\"edits\":"@ + failed_edits_json(edits)
            + ",\"error\":"@ + json_string(m) + ",\"ok\":false,\"status\":"@ + json_string(
            status_word(Err(e)),
        ) + ",\"writes\":"@ + (match writes {
            Some(w) => failed_writes_json(w),
            None => "null"@,
        }) + "}"@,
        BatchErrorView::InvalidRequest(m) => "{\"error\":"@ + json_string(m)
            + ",\"ok\":false,\"status\":"@ + json_string(status_word(Err(e))) + "}"@,
    }
}

/// The JSON document for what a batch gave.
pub open spec fn outcome_json(res: Result<BatchResultView, BatchErrorView>) -> Seq<char> {
    match res {
        Ok(r) => result_json(r),
        Err(e) => error_json(e),
    }
}

/// Appends a JSON string.
fn push_string(out: &mut String, s: &str)
    ensures
        final(out)@ == old(out)@ + json_string(s@),
{
    match quoted(s) {
        Some(q) => {
            out.append(q.as_str());
        },
        None => {},
    }
}

/// Appends a JSON truth value.
fn push_bool(out: &mut String, b: bool)
    ensures
        final(out)@ == old(out)@ + json_bool(b),
{
    if b {
        out.append("true");
    } else {
        out.append("false");
    }
}

/// Appends a text with what stands in front of it, where there is one.
fn push_optional_text(out: &mut String, lead: &str, t: &Option<String>)
    ensures
        final(out)@ == old(out)@ + optional_text(lead@, t.deep_view()),
{
    if let Some(s) = t {
        out.append(lead);
        push_string(out, s.as_str());
    }
    assert(out@ =~= old(out)@ + optional_text(lead@, t.deep_view()));
}

/// Appends a number with what stands in front of it, where there is one.
fn push_optional_number(out: &mut String, lead: &str, n: Option<usize>)
    ensures
        final(out)@ == old(out)@ + optional_number(lead@, n),
{
    if let Some(k) = n {
        out.append(lead);
        push_decimal(out, k as u128);
    }
    assert(out@ =~= old(out)@ + optional_number(lead@, n));
}

/// Appends a truth value with what stands in front of it, where there is one.
fn push_optional_bool(out: &mut String, lead: &str, b: Option<bool>)
    ensures
        final(out)@ == old(out)@ + optional_bool(lead@, b),
{
    if let Some(v) = b {
        out.append(lead);
        push_bool(out, v);
    }
    assert(out@ =~= old(out)@ + optional_bool(lead@, b));
}

/// Appends a JSON array.
fn push_array(out: &mut String, items: &Vec<String>)
    ensures
        final(out)@ == old(out)@ + json_array(items.deep_view()),
{
    let ghost before = out@;
    let ghost all = items.deep_view();
    out.append("[");
    let mut i: usize = 0;
    assert(out@ =~= before + "["@ + separated(all.take(0)));
    while i < items.len()
        invariant
            i <= items@.len(),
            all == items.deep_view(),
            out@ == before + "["@ + separated(all.take(i as int)),
        decreases items@.len() - i,
    {
        if i > 0 {
            out.append(",");
        }
        out.append(items[i].as_str());
        i = i + 1;
        assert(all.take(i as int).drop_last() =~= all.take(i - 1));
        assert(all.take(i as int).last() == items@[i - 1]@);
        assert(out@ =~= before + "["@ + separated(all.take(i as int)));
    }
    assert(all.take(i as int) =~= all);
    out.append("]");
    assert(out@ =~= before + json_array(all));
}

/// The status of an edit in a result.
fn edit_to_json(e: &EditStatus) -> (out: String)
    ensures
        out@ == edit_json(e.deep_view()),
{
    let mut out = "{\"path\":".to_owned();
    push_string(&mut out, e.path.as_str());
    out.append(",\"ok\":");
    push_bool(&mut out, e.ok);
    out.append(",\"applied\":");
    push_bool(&mut out, e.applied);
    push_optional_text(&mut out, ",\"error\":", &e.error);
    push_optional_text(&mut out, ",\"diff_preview\":", &e.diff_preview);
    push_optional_number(&mut out, ",\"replacements\":", e.replacements);
    out.append("}");
    out
}

/// The status of a write in a result.
fn write_to_json(w: &WriteStatus) -> (out: String)
    ensures
        out@ == write_json(w.deep_view()),
{
    let mut out = "{\"path\":".to_owned();
    push_string(&mut out, w.path.as_str());
    out.append(",\"ok\":");
    push_bool(&mut out, w.ok);
    out.append(",\"applied\":");
    push_bool(&mut out, w.applied);
    push_optional_text(&mut out, ",\"error\":", &w.error);
    push_optional_bool(&mut out, ",\"created_dirs\":", w.created_dirs);
    out.append("}");
    out
}

/// What a command gave.
fn verify_to_json(v: &VerifyStatus) -> (out: String)
    ensures
        out@ == verify_json(v.deep_view()),
{
    let mut out = "{\"cmd\":".to_owned();
    push_string(&mut out, v.cmd.as_str());
    out.append(",\"exit\":");
    out.append(signed_decimal_text(v.exit).as_str());
    out.append(",\"stdout\":");
    push_string(&mut out, v.stdout.as_str());
    out.append(",\"stderr\":");
    push_string(&mut out, v.stderr.as_str());
    out.append(",\"duration_ms\":");
    push_decimal(&mut out, v.duration_ms);
    out.append("}");
    out
}

/// The status of an edit in an error.
fn failed_edit_to_json(e: &EditStatus) -> (out: String)
    ensures
        out@ == failed_edit_json(e.deep_view()),
{
    let mut out = "{\"applied\":".to_owned();
    push_bool(&mut out, e.applied);
    push_optional_text(&mut out, ",\"diff_preview\":", &e.diff_preview);
    push_optional_text(&mut out, ",\"error\":", &e.error);
    out.append(",\"ok\":");
    push_bool(&mut out, e.ok);
    out.append(",\"path\":");
    push_string(&mut out, e.path.as_str());
    push_optional_number(&mut out, ",\"replacements\":", e.replacements);
    out.append("}");
    out
}

/// The status of a write in an error.
fn failed_write_to_json(w: &WriteStatus) -> (out: String)
    ensures
        out@ == failed_write_json(w.deep_view()),
{
    let mut out = "{\"applied\":".to_owned();
    push_bool(&mut out, w.applied);
    push_optional_bool(&mut out, ",\"created_dirs\":", w.created_dirs);
    push_optional_text(&mut out, ",\"error\":", &w.error);
    out.append(",\"ok\":");
    push_bool(&mut out, w.ok);
    out.append(",\"path\":");
    push_string(&mut out, w.path.as_str());
    out.append("}");
    out
}

/// The items of a list, each converted to text by `convert`, which gives what `text_of`
/// says.
fn converted<T: DeepView, F: Fn(&T) -> String>(
    list: &Vec<T>,
    convert: F,
    text_of: Ghost<spec_fn(T::V) -> Seq<char>>,
) -> (items: Vec<String>)
    requires
        forall|x: &T| call_requires(convert, (x,)),
        forall|x: &T, item: String|
            call_ensures(convert, (x,), item) ==> item@ == text_of@(x.deep_view()),
    ensures
        items.deep_view() == list.deep_view().map_values(text_of@),
{
    let ghost all = list.deep_view().map_values(text_of@);
    let mut items: Vec<String> = Vec::new();
    let mut i: usize = 0;
    while i < list.len()
        invariant
            i <= list@.len(),
            all == list.deep_view().map_values(text_of@),
            forall|x: &T| call_requires(convert, (x,)),
            forall|x: &T, item: String|
                call_ensures(convert, (x,), item) ==> item@ == text_of@(x.deep_view()),
            items.deep_view() == all.take(i as int),
        decreases list@.len() - i,
    {
        let ghost before = items.deep_view();
        let item = convert(&list[i]);
        items.push(item);
        assert(items.deep_view() =~= before.push(item@));
        i = i + 1;
        assert(all.take(i as int) =~= all.take(i - 1).push(all[i - 1]));
    }
    assert(all.take(i as int) =~= all);
    items
}

/// Appends the statuses of edits in a result.
fn push_edits_json(out: &mut String, list: &Vec<EditStatus>)
    ensures
        final(out)@ == old(out)@ + edits_json(list.deep_view()),
{
    let items = converted(list, edit_to_json, Ghost(|e: EditStatusView| edit_json(e)));
    push_array(out, &items);
}

/// Appends the statuses of writes in a result.
fn push_writes_json(out: &mut String, list: &Vec<WriteStatus>)
    ensures
        final(out)@ == old(out)@ + writes_json(list.deep_view()),
{
    let items = converted(list, write_to_json, Ghost(|w: WriteStatusView| write_json(w)));
    push_array(out, &items);
}

/// Appends what the commands gave.
fn push_verifies_json(out: &mut String, list: &Vec<VerifyStatus>)
    ensures
        final(out)@ == old(out)@ + verifies_json(list.deep_view()),
{
    let items = converted(list, verify_to_json, Ghost(|v: VerifyStatusView| verify_json(v)));
    push_array(out, &items);
}

/// Appends the statuses of edits in an error.
fn push_failed_edits_json(out: &mut String, list: &Vec<EditStatus>)
    ensures
        final(out)@ == old(out)@ + failed_edits_json(list.deep_view()),
{
    let items = converted(list, failed_edit_to_json, Ghost(|e: EditStatusView| failed_edit_json(e)));
    push_array(out, &items);
}

/// Appends the statuses of writes in an error.
fn push_failed_writes_json(out: &mut String, list: &Vec<WriteStatus>)
    ensures
        final(out)@ == old(out)@ + failed_writes_json(list.deep_view()),
{
    let items = converted(list, failed_write_to_json, Ghost(|w: WriteStatusView| failed_write_json(w)));
    push_array(out, &items);
}

/// The JSON document for what a batch gave that went through.
fn ok_to_json(r: &BatchResult) -> (out: String)
    ensures
        out@ == result_json(r.deep_view()),
{
    let mut out = "{\"ok\":".to_owned();
    push_bool(&mut out, r.ok);
    out.append(",\"status\":");
    push_string(&mut out, r.status.as_str());
    out.append(",\"edits\":");
    push_edits_json(&mut out, &r.edits);
    let ghost head = out@;
    if let Some(w) = &r.writes {
        out.append(",\"writes\":");
        push_writes_json(&mut out, w);
    }
    assert(out@ =~= head + (match r.deep_view().writes {
        Some(w) => ",\"writes\":"@ + writes_json(w),
        None => seq![],
    }));
    let ghost head = out@;
    if let Some(v) = &r.verify {
        out.append(",\"verify\":");
        push_verifies_json(&mut out, v);
    }
    assert(out@ =~= head + (match r.deep_view().verify {
        Some(v) => ",\"verify\":"@ + verifies_json(v),
        None => seq![],
    }));
    push_optional_text(&mut out, ",\"error\":", &r.error);
    out.append("}");
    out
}

/// The JSON document for why a batch did not go through.
fn error_to_json(e: &BatchError) -> (out: String)
    ensures
        out@ == error_json(e.deep_view()),
{
    match e {
        BatchError::RolledBack(m, edits, writes, _) => {
            let mut out = "{\"edits\":".to_owned();
            push_failed_edits_json(&mut out, edits);
            out.append(",\"error\":");
            push_string(&mut out, m.as_str());
            out.append(",\"ok\":false,\"status\":");
            push_string(&mut out, "rolled_back");
            out.append(",\"writes\":");
            match writes {
                Some(w) => {
                    push_failed_writes_json(&mut out, w);
                },
                None => {
                    out.append("null");
                },
            }
            out.append("}");
            out
        },
        BatchError::InvalidRequest(m) => {
            let mut out = "{\"error\":".to_owned();
            push_string(&mut out, m.as_str());
            out.append(",\"ok\":false,\"status\":");
            push_string(&mut out, "rolled_back");
            out.append("}");
            out
        },
    }
}

/// Serializes what a batch gave to a JSON document.
pub fn result_to_json(res: &Result<BatchResult, BatchError>) -> (out: String)
    ensures
        out@ == outcome_json(types::outcome_view(*res)),
{
    match res {
        Ok(r) => ok_to_json(r),
        Err(e) => error_to_json(e),
    }
}

/// No control character stands in the text.
#[verifier::opaque]
pub open spec fn is_plain(t: Seq<char>) -> bool {
    forall|i: int| 0 <= i < t.len() ==> (#[trigger] t[i]) as int >= 32
}

/// Plain texts one after the other are a plain text.
broadcast proof fn lemma_plain_concat(a: Seq<char>, b: Seq<char>)
    requires
        is_plain(a),
        is_plain(b),
    ensures
        #[trigger] is_plain(a + b),
{
    reveal(is_plain);
    assert forall|i: int| 0 <= i < (a + b).len() implies (#[trigger] (a + b)[i]) as int >= 32 by {
        if i < a.len() {
            assert((a + b)[i] == a[i]);
        } else {
            assert((a + b)[i] == b[i - a.len()]);
        }
    }
}

/// The fixed parts of a document are plain.
proof fn lemma_plain_parts()
    ensures
        is_plain(seq![]),
        is_plain(","@),
        is_plain(",\"applied\":"@),
        is_plain(",\"created_dirs\":"@),
        is_plain(",\"diff_preview\":"@),
        is_plain(",\"duration_ms\":"@),
        is_plain(",\"edits\":"@),
        is_plain(",\"error\":"@),
        is_plain(",\"exit\":"@),
        is_plain(",\"ok\":"@),
        is_plain(",\"ok\":false,\"status\":"@),
        is_plain(",\"path\":"@),
        is_plain(",\"replacements\":"@),
        is_plain(",\"status\":"@),
        is_plain(",\"stderr\":"@),
        is_plain(",\"stdout\":"@),
        is_plain(",\"verify\":"@),
        is_plain(",\"writes\":"@),
        is_plain("["@),
        is_plain("]"@),
        is_plain("false"@),
        is_plain("null"@),
        is_plain("true"@),
        is_plain("{\"applied\":"@),
        is_plain("{\"cmd\":"@),
        is_plain("{\"edits\":"@),
        is_plain("{\"error\":"@),
        is_plain("{\"ok\":"@),
        is_plain("{\"path\":"@),
        is_plain("}"@),
        is_plain("-"@),
{
    reveal(is_plain);
    assert(is_plain(","@)) by {
        reveal_strlit(",");
    }
    assert(is_plain(",\"applied\":"@)) by {
        reveal_strlit(",\"applied\":");
    }
    assert(is_plain(",\"created_dirs\":"@)) by {
        reveal_strlit(",\"created_dirs\":");
    }
    assert(is_plain(",\"diff_preview\":"@)) by {
        reveal_strlit(",\"diff_preview\":");
    }
    assert(is_plain(",\"duration_ms\":"@)) by {
        reveal_strlit(",\"duration_ms\":");
    }
    assert(is_plain(",\"edits\":"@)) by {
        reveal_strlit(",\"edits\":");
    }
    assert(is_plain(",\"error\":"@)) by {
        reveal_strlit(",\"error\":");
    }
    assert(is_plain(",\"exit\":"@)) by {
        reveal_strlit(",\"exit\":");
    }
    assert(is_plain(",\"ok\":"@)) by {
        reveal_strlit(",\"ok\":");
    }
    assert(is_plain(",\"ok\":false,\"status\":"@)) by {
        reveal_strlit(",\"ok\":false,\"status\":");
    }
    assert(is_plain(",\"path\":"@)) by {
        reveal_strlit(",\"path\":");
    }
    assert(is_plain(",\"replacements\":"@)) by {
        reveal_strlit(",\"replacements\":");
    }
    assert(is_plain(",\"status\":"@)) by {
        reveal_strlit(",\"status\":");
    }
    assert(is_plain(",\"stderr\":"@)) by {
        reveal_strlit(",\"stderr\":");
    }
    assert(is_plain(",\"stdout\":"@)) by {
        reveal_strlit(",\"stdout\":");
    }
    assert(is_plain(",\"verify\":"@)) by {
        reveal_strlit(",\"verify\":");
    }
    assert(is_plain(",\"writes\":"@)) by {
        reveal_strlit(",\"writes\":");
    }
    assert(is_plain("["@)) by {
        reveal_strlit("[");
    }
    assert(is_plain("]"@)) by {
        reveal_strlit("]");
    }
    assert(is_plain("false"@)) by {
        reveal_strlit("false");
    }
    assert(is_plain("null"@)) by {
        reveal_strlit("null");
    }
    assert(is_plain("true"@)) by {
        reveal_strlit("true");
    }
    assert(is_plain("{\"applied\":"@)) by {
        reveal_strlit("{\"applied\":");
    }
    assert(is_plain("{\"cmd\":"@)) by {
        reveal_strlit("{\"cmd\":");
    }
    assert(is_plain("{\"edits\":"@)) by {
        reveal_strlit("{\"edits\":");
    }
    assert(is_plain("{\"error\":"@)) by {
        reveal_strlit("{\"error\":");
    }
    assert(is_plain("{\"ok\":"@)) by {
        reveal_strlit("{\"ok\":");
    }
    assert(is_plain("{\"path\":"@)) by {
        reveal_strlit("{\"path\":");
    }
    assert(is_plain("}"@)) by {
        reveal_strlit("}");
    }
    assert(is_plain("-"@)) by {
        reveal_strlit("-");
    }
}

/// A character inside a JSON string is plain.
proof fn lemma_plain_escaped(c: char)
    ensures
        is_plain(escaped(c)),
{
    reveal(is_plain);
    let high = hex_digit((c as int) / 16);
    let low = hex_digit((c as int) % 16);
    assert(c as int >= 0);
    if (c as int) < 32 {
        assert(high as int >= 48);
        assert(low as int >= 48);
    }
    let e = escaped(c);
    assert forall|i: int| 0 <= i < e.len() implies (#[trigger] e[i]) as int >= 32 by {
        assert(i == 0 || i == 1 || i == 2 || i == 3 || i == 4 || i == 5);
    }
}

/// A JSON string is plain, whatever the text.
proof fn lemma_plain_string(t: Seq<char>)
    ensures
        is_plain(all_escaped(t)),
        is_plain(json_string(t)),
    decreases t.len(),
{
    broadcast use lemma_plain_concat;

    reveal(is_plain);
    if t.len() > 0 {
        lemma_plain_string(t.drop_last());
        let c = t.last();
        lemma_plain_escaped(c);
        lemma_plain_concat(all_escaped(t.drop_last()), escaped(c));
    }
    let quote = seq!['"'];
    assert(is_plain(quote));
    lemma_plain_concat(quote, all_escaped(t));
    lemma_plain_concat(quote + all_escaped(t), quote);
}

/// A number is plain.
proof fn lemma_plain_decimal(n: nat)
    ensures
        is_plain(text::decimal(n)),
    decreases n,
{
    reveal(is_plain);
    if n >= 10 {
        lemma_plain_decimal(n / 10);
    }
}

/// Plain items make a plain array.
proof fn lemma_plain_array(items: Seq<Seq<char>>)
    requires
        forall|i: int| 0 <= i < items.len() ==> is_plain(#[trigger] items[i]),
    ensures
        is_plain(separated(items)),
        is_plain(json_array(items)),
    decreases items.len(),
{
    broadcast use lemma_plain_concat;

    lemma_plain_parts();
    if items.len() > 1 {
        lemma_plain_array(items.drop_last());
    }
}

/// The parts that may be missing are plain.
proof fn lemma_plain_optional(lead: Seq<char>)
    requires
        is_plain(lead),
    ensures
        forall|t: Option<Seq<char>>| is_plain(#[trigger] optional_text(lead, t)),
        forall|n: Option<usize>| is_plain(#[trigger] optional_number(lead, n)),
        forall|b: Option<bool>| is_plain(#[trigger] optional_bool(lead, b)),
{
    broadcast use lemma_plain_concat;

    lemma_plain_parts();
    assert forall|t: Option<Seq<char>>| is_plain(#[trigger] optional_text(lead, t)) by {
        if t is Some {
            lemma_plain_string(t->0);
        }
    }
    assert forall|n: Option<usize>| is_plain(#[trigger] optional_number(lead, n)) by {
        if n is Some {
            lemma_plain_decimal(n->0 as nat);
        }
    }
}

/// The status of an edit is plain.
proof fn lemma_plain_edit(e: EditStatusView)
    ensures
        is_plain(edit_json(e)),
        is_plain(failed_edit_json(e)),
{
    broadcast use lemma_plain_concat;

    lemma_plain_parts();
    lemma_plain_string(e.path);
    lemma_plain_optional(",\"error\":"@);
    lemma_plain_optional(",\"diff_preview\":"@);
    lemma_plain_optional(",\"replacements\":"@);
}

/// The status of a write is plain.
proof fn lemma_plain_write(w: WriteStatusView)
    ensures
        is_plain(write_json(w)),
        is_plain(failed_write_json(w)),
{
    broadcast use lemma_plain_concat;

    lemma_plain_parts();
    lemma_plain_string(w.path);
    lemma_plain_optional(",\"error\":"@);
    lemma_plain_optional(",\"created_dirs\":"@);
}

/// What a command gave is plain.
proof fn lemma_plain_verify(v: VerifyStatusView)
    ensures
        is_plain(verify_json(v)),
{
    broadcast use lemma_plain_concat;

    lemma_plain_parts();
    lemma_plain_string(v.cmd);
    lemma_plain_string(v.stdout);
    lemma_plain_string(v.stderr);
    lemma_plain_decimal(v.duration_ms as nat);
    lemma_plain_decimal(v.exit as nat);
    lemma_plain_decimal((-v.exit) as nat);
}

/// Lists are plain.
proof fn lemma_plain_lists(
    edits: Seq<EditStatusView>,
    writes: Seq<WriteStatusView>,
    commands: Seq<VerifyStatusView>,
)
    ensures
        is_plain(edits_json(edits)),
        is_plain(failed_edits_json(edits)),
        is_plain(writes_json(writes)),
        is_plain(failed_writes_json(writes)),
        is_plain(verifies_json(commands)),
{
    assert forall|e: EditStatusView| is_plain(#[trigger] edit_json(e)) by {
        lemma_plain_edit(e);
    }
    assert forall|e: EditStatusView| is_plain(#[trigger] failed_edit_json(e)) by {
        lemma_plain_edit(e);
    }
    assert forall|w: WriteStatusView| is_plain(#[trigger] write_json(w)) by {
        lemma_plain_write(w);
    }
    assert forall|w: WriteStatusView| is_plain(#[trigger] failed_write_json(w)) by {
        lemma_plain_write(w);
    }
    assert forall|v: VerifyStatusView| is_plain(#[trigger] verify_json(v)) by {
        lemma_plain_verify(v);
    }
    lemma_plain_array(edits.map_values(|e: EditStatusView| edit_json(e)));
    lemma_plain_array(edits.map_values(|e: EditStatusView| failed_edit_json(e)));
    lemma_plain_array(writes.map_values(|w: WriteStatusView| write_json(w)));
    lemma_plain_array(writes.map_values(|w: WriteStatusView| failed_write_json(w)));
    lemma_plain_array(commands.map_values(|v: VerifyStatusView| verify_json(v)));
}

/// The JSON document stands on a single line: it holds no line feed, nor any other
/// control character, whatever the texts in it hold.
pub proof fn law_one_line(res: Result<BatchResultView, BatchErrorView>)
    ensures
        forall|i: int|
            0 <= i < outcome_json(res).len() ==> (#[trigger] outcome_json(res)[i]) as int >= 32,
        !outcome_json(res).contains('\n'),
{
    broadcast use lemma_plain_concat;

    lemma_plain_parts();
    lemma_plain_string(status_word(res));
    match res {
        Ok(r) => {
            lemma_plain_lists(r.edits, seq![], seq![]);
            if r.writes is Some {
                lemma_plain_lists(seq![], r.writes->0, seq![]);
            }
            if r.verify is Some {
                lemma_plain_lists(seq![], seq![], r.verify->0);
            }
            lemma_plain_optional(",\"error\":"@);
        },
        Err(BatchErrorView::RolledBack(m, edits, writes, _)) => {
            lemma_plain_lists(edits, seq![], seq![]);
            if writes is Some {
                lemma_plain_lists(seq![], writes->0, seq![]);
            }
            lemma_plain_string(m);
        },
        Err(BatchErrorView::InvalidRequest(m)) => {
            lemma_plain_string(m);
        },
    }
    assert(is_plain(outcome_json(res)));
    reveal(is_plain);
}

} // verus!
