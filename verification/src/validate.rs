//! The checks that a request passes before anything is read or written.

use crate::limits::{MAX_EDITS, MAX_STRING_BYTES, MAX_WRITES};
use crate::path;
use crate::path::{absolute, safe_relative_path_on, Style};
use crate::text;
use crate::text::{byte_len, push_decimal};
use crate::types::{BatchError, BatchErrorView, BatchRequest, Edit, EditView, RequestView, Write, WriteView};
use vstd::prelude::*;

verus! {

/// What is wrong with the size of the string `s`, which is called `what`.
pub open spec fn size_fault(s: Seq<char>, what: Seq<char>) -> Option<Seq<char>> {
    let n = vstd::utf8::encode_utf8(s).len();
    if n > MAX_STRING_BYTES {
        Some(
            what + " too large: "@ + text::decimal(n) + " bytes (max "@ + text::decimal(
                MAX_STRING_BYTES as nat,
            ) + "); split the edit"@,
        )
    } else {
        None
    }
}

/// What is wrong with the strings of an edit.
pub open spec fn edit_fault(e: EditView) -> Option<Seq<char>> {
    if e.old_string.len() == 0 {
        if e.replace_all {
            Some("old_string must be non-empty; empty old_string with replace_all is rejected"@)
        } else {
            Some("old_string must be non-empty (use writes to create files)"@)
        }
    } else if size_fault(e.old_string, "old_string"@) is Some {
        size_fault(e.old_string, "old_string"@)
    } else {
        size_fault(e.new_string, "new_string"@)
    }
}

/// What is wrong with the content of a write.
pub open spec fn write_fault(w: WriteView) -> Option<Seq<char>> {
    size_fault(w.content, "content"@)
}

/// `kind[i]`, the name of an item of the request in a message.
pub open spec fn item_name(kind: Seq<char>, i: int) -> Seq<char> {
    kind + "["@ + text::decimal(i as nat) + "]"@
}

/// The message on the first edit, from `i` on, whose strings are at fault.
pub open spec fn edits_fault(edits: Seq<EditView>, i: int) -> Option<Seq<char>>
    decreases edits.len() - i,
{
    if i >= edits.len() {
        None
    } else {
        match edit_fault(edits[i]) {
            Some(m) => Some(item_name("edit"@, i) + " "@ + edits[i].path + ": "@ + m),
            None => edits_fault(edits, i + 1),
        }
    }
}

/// The message on the first write, from `i` on, whose content is at fault.
pub open spec fn writes_fault(writes: Seq<WriteView>, i: int) -> Option<Seq<char>>
    decreases writes.len() - i,
{
    if i >= writes.len() {
        None
    } else {
        match write_fault(writes[i]) {
            Some(m) => Some(item_name("write"@, i) + " "@ + writes[i].path + ": "@ + m),
            None => writes_fault(writes, i + 1),
        }
    }
}

/// What is wrong with the path `p` of the item that messages call `name`; `verb` is
/// what the request wants to do there.
pub open spec fn path_fault(
    style: Style,
    p: Seq<char>,
    allow_outside: bool,
    name: Seq<char>,
    verb: Seq<char>,
) -> Option<Seq<char>> {
    match path::clean_path(style, p) {
        Err(m) => Some(m),
        Ok(c) => if path::is_absolute(style, c) && !allow_outside {
            Some(
                name + ": absolute path refused: "@ + p + " (set allow_outside to "@ + verb
                    + " outside the tree)"@,
            )
        } else {
            None
        },
    }
}

/// The message on the first edit, from `i` on, whose path is refused.
pub open spec fn edit_paths_fault(
    style: Style,
    edits: Seq<EditView>,
    allow_outside: bool,
    i: int,
) -> Option<Seq<char>>
    decreases edits.len() - i,
{
    if i >= edits.len() {
        None
    } else {
        match path_fault(style, edits[i].path, allow_outside, item_name("edit"@, i), "edit"@) {
            Some(m) => Some(m),
            None => edit_paths_fault(style, edits, allow_outside, i + 1),
        }
    }
}

/// The message on the first write, from `i` on, whose path is refused.
pub open spec fn write_paths_fault(
    style: Style,
    writes: Seq<WriteView>,
    allow_outside: bool,
    i: int,
) -> Option<Seq<char>>
    decreases writes.len() - i,
{
    if i >= writes.len() {
        None
    } else {
        match path_fault(style, writes[i].path, allow_outside, item_name("write"@, i), "write"@) {
            Some(m) => Some(m),
            None => write_paths_fault(style, writes, allow_outside, i + 1),
        }
    }
}

/// The message on there being more than `max` items of one kind.
pub open spec fn count_fault(n: nat, what: Seq<char>, max: nat) -> Option<Seq<char>> {
    if n > max {
        Some(
            "too many "@ + what + ": "@ + text::decimal(n) + " (max "@ + text::decimal(max) + ")"@,
        )
    } else {
        None
    }
}

/// `a`, or `b` where `a` is nothing.
pub open spec fn first_of(a: Option<Seq<char>>, b: Option<Seq<char>>) -> Option<Seq<char>> {
    if a is Some {
        a
    } else {
        b
    }
}

/// The reason for which a request is refused: the first one in this order.
pub open spec fn request_fault(req: RequestView) -> Option<Seq<char>> {
    first_of(
        count_fault(req.edits.len(), "edits"@, MAX_EDITS as nat),
        first_of(
            count_fault(req.writes.len(), "writes"@, MAX_WRITES as nat),
            first_of(
                edits_fault(req.edits, 0),
                first_of(
                    writes_fault(req.writes, 0),
                    first_of(
                        edit_paths_fault(req.style, req.edits, req.allow_outside, 0),
                        write_paths_fault(req.style, req.writes, req.allow_outside, 0),
                    ),
                ),
            ),
        ),
    )
}

/// `r` refuses with the message `fault`, and accepts where there is none.
pub open spec fn refuses(r: Result<(), BatchError>, fault: Option<Seq<char>>) -> bool {
    match r {
        Ok(()) => fault is None,
        Err(e) => fault is Some && e.deep_view() == BatchErrorView::InvalidRequest(fault->0),
    }
}

/// `r` refuses with the text `fault`, and accepts where there is none.
pub open spec fn refuses_with(r: Result<(), String>, fault: Option<Seq<char>>) -> bool {
    match r {
        Ok(()) => fault is None,
        Err(m) => fault == Some(m@),
    }
}

/// Refuses a string of more than [`MAX_STRING_BYTES`] bytes.
pub fn size_string(s: &str, what: &str) -> (r: Result<(), BatchError>)
    ensures
        refuses(r, size_fault(s@, what@)),
{
    let n: usize = byte_len(s);
    if n > MAX_STRING_BYTES {
        let mut m = what.to_owned();
        m.append(" too large: ");
        push_decimal(&mut m, n as u128);
        m.append(" bytes (max ");
        push_decimal(&mut m, MAX_STRING_BYTES as u128);
        m.append("); split the edit");
        return Err(BatchError::InvalidRequest(m));
    }
    Ok(())
}

/// Refuses an edit whose `old_string` is empty, and one with a string that is too
/// large.
pub fn validate_edit(edit: &Edit) -> (r: Result<(), String>)
    ensures
        refuses_with(r, edit_fault(edit.deep_view())),
{
    if edit.old_string.as_str().is_empty() {
        if edit.replace_all {
            return Err(
                "old_string must be non-empty; empty old_string with replace_all is rejected".to_owned(),
            );
        }
        return Err("old_string must be non-empty (use writes to create files)".to_owned());
    }
    match size_string(edit.old_string.as_str(), "old_string") {
        Ok(()) => {},
        Err(e) => {
            return Err(e.message());
        },
    }
    match size_string(edit.new_string.as_str(), "new_string") {
        Ok(()) => Ok(()),
        Err(e) => Err(e.message()),
    }
}

/// Refuses a write whose content is too large.
pub fn validate_write(write: &Write) -> (r: Result<(), String>)
    ensures
        refuses_with(r, write_fault(write.deep_view())),
{
    match size_string(write.content.as_str(), "content") {
        Ok(()) => Ok(()),
        Err(e) => Err(e.message()),
    }
}

/// `kind[i]`, the name of an item of the request in a message.
fn item_text(kind: &str, i: usize) -> (s: String)
    ensures
        s@ == item_name(kind@, i as int),
{
    let mut s = kind.to_owned();
    s.append("[");
    push_decimal(&mut s, i as u128);
    s.append("]");
    s
}

/// The refusal of an item whose content is at fault.
fn item_refusal(kind: &str, i: usize, path: &str, m: &str) -> (e: BatchError)
    ensures
        e.deep_view() == BatchErrorView::InvalidRequest(
            item_name(kind@, i as int) + " "@ + path@ + ": "@ + m@,
        ),
{
    let mut s = item_text(kind, i);
    s.append(" ");
    s.append(path);
    s.append(": ");
    s.append(m);
    BatchError::InvalidRequest(s)
}

/// Refuses a path that [`safe_relative_path_on`] refuses, and an absolute one unless
/// `allow_outside` is set.
fn validate_path(style: Style, p: &str, allow_outside: bool, kind: &str, i: usize) -> (r: Result<
    (),
    BatchError,
>)
    ensures
        refuses(r, path_fault(style, p@, allow_outside, item_name(kind@, i as int), kind@)),
{
    match safe_relative_path_on(style, p) {
        Err(m) => Err(BatchError::InvalidRequest(m)),
        Ok(c) => {
            if absolute(style, c.as_str()) && !allow_outside {
                let mut s = item_text(kind, i);
                s.append(": absolute path refused: ");
                s.append(p);
                s.append(" (set allow_outside to ");
                s.append(kind);
                s.append(" outside the tree)");
                return Err(BatchError::InvalidRequest(s));
            }
            Ok(())
        },
    }
}

/// The refusal of more items of one kind than a batch may have.
fn count_refusal(n: usize, what: &str, max: usize) -> (r: Result<(), BatchError>)
    ensures
        refuses(r, count_fault(n as nat, what@, max as nat)),
{
    if n > max {
        let mut m = "too many ".to_owned();
        m.append(what);
        m.append(": ");
        push_decimal(&mut m, n as u128);
        m.append(" (max ");
        push_decimal(&mut m, max as u128);
        m.append(")");
        return Err(BatchError::InvalidRequest(m));
    }
    Ok(())
}

/// Checks a whole request, so that malformed input never touches disk: the number of
/// items, then their strings, then their paths.
pub fn validate_request_on(style: Style, req: &BatchRequest) -> (r: Result<(), BatchError>)
    ensures
        refuses(r, request_fault(req.deep_view().on(style))),
{
    count_refusal(req.edits.len(), "edits", MAX_EDITS)?;
    count_refusal(req.writes.len(), "writes", MAX_WRITES)?;
    let ghost v = req.deep_view().on(style);
    let mut i: usize = 0;
    while i < req.edits.len()
        invariant
            i <= req.edits@.len(),
            v == req.deep_view().on(style),
            edits_fault(v.edits, i as int) == edits_fault(v.edits, 0),
            count_fault(v.edits.len(), "edits"@, MAX_EDITS as nat) is None,
            count_fault(v.writes.len(), "writes"@, MAX_WRITES as nat) is None,
        decreases req.edits@.len() - i,
    {
        match validate_edit(&req.edits[i]) {
            Ok(()) => {},
            Err(m) => {
                return Err(item_refusal("edit", i, req.edits[i].path.as_str(), m.as_str()));
            },
        }
        i = i + 1;
    }
    i = 0;
    while i < req.writes.len()
        invariant
            i <= req.writes@.len(),
            v == req.deep_view().on(style),
            edits_fault(v.edits, 0) is None,
            writes_fault(v.writes, i as int) == writes_fault(v.writes, 0),
            count_fault(v.edits.len(), "edits"@, MAX_EDITS as nat) is None,
            count_fault(v.writes.len(), "writes"@, MAX_WRITES as nat) is None,
        decreases req.writes@.len() - i,
    {
        match validate_write(&req.writes[i]) {
            Ok(()) => {},
            Err(m) => {
                return Err(item_refusal("write", i, req.writes[i].path.as_str(), m.as_str()));
            },
        }
        i = i + 1;
    }
    i = 0;
    while i < req.edits.len()
        invariant
            i <= req.edits@.len(),
            v == req.deep_view().on(style),
            edits_fault(v.edits, 0) is None,
            writes_fault(v.writes, 0) is None,
            edit_paths_fault(style, v.edits, v.allow_outside, i as int) == edit_paths_fault(
                style,
                v.edits,
                v.allow_outside,
                0,
            ),
            count_fault(v.edits.len(), "edits"@, MAX_EDITS as nat) is None,
            count_fault(v.writes.len(), "writes"@, MAX_WRITES as nat) is None,
        decreases req.edits@.len() - i,
    {
        validate_path(style, req.edits[i].path.as_str(), req.allow_outside, "edit", i)?;
        i = i + 1;
    }
    i = 0;
    while i < req.writes.len()
        invariant
            i <= req.writes@.len(),
            v == req.deep_view().on(style),
            edits_fault(v.edits, 0) is None,
            writes_fault(v.writes, 0) is None,
            edit_paths_fault(style, v.edits, v.allow_outside, 0) is None,
            write_paths_fault(style, v.writes, v.allow_outside, i as int) == write_paths_fault(
                style,
                v.writes,
                v.allow_outside,
                0,
            ),
            count_fault(v.edits.len(), "edits"@, MAX_EDITS as nat) is None,
            count_fault(v.writes.len(), "writes"@, MAX_WRITES as nat) is None,
        decreases req.writes@.len() - i,
    {
        validate_path(style, req.writes[i].path.as_str(), req.allow_outside, "write", i)?;
        i = i + 1;
    }
    Ok(())
}

/// Checks a whole request with the paths of Unix, as [`validate_request_on`] does.
pub fn validate_request(req: &BatchRequest) -> (r: Result<(), BatchError>)
    ensures
        refuses(r, request_fault(req.deep_view())),
{
    validate_request_on(Style::Unix, req)
}

/// An edit that a batch may make: its strings and its path are accepted.
pub open spec fn edit_accepted(style: Style, e: EditView, allow_outside: bool) -> bool {
    &&& edit_fault(e) is None
    &&& path::clean_path(style, e.path) is Ok
    &&& path::is_absolute(style, e.path) ==> allow_outside
}

/// A write that a batch may make: its content and its path are accepted.
pub open spec fn write_accepted(style: Style, w: WriteView, allow_outside: bool) -> bool {
    &&& write_fault(w) is None
    &&& path::clean_path(style, w.path) is Ok
    &&& path::is_absolute(style, w.path) ==> allow_outside
}

/// The path that comes back is absolute only where the given one is.
proof fn lemma_clean_absolute(style: Style, p: Seq<char>)
    requires
        path::clean_path(style, p) is Ok,
    ensures
        path::is_absolute(style, path::clean_path(style, p)->Ok_0) == path::is_absolute(style, p),
{
    if !path::is_absolute(style, p) {
        path::law_clean_path_is_relative(style, p);
    }
}

/// Where no message comes of the edits from `i` on, each of them is accepted, and the
/// other way round.
proof fn lemma_edits_accepted(style: Style, edits: Seq<EditView>, allow_outside: bool, i: int)
    requires
        0 <= i,
    ensures
        (edits_fault(edits, i) is None && edit_paths_fault(style, edits, allow_outside, i) is None)
            <==> forall|k: int|
            i <= k < edits.len() ==> edit_accepted(style, #[trigger] edits[k], allow_outside),
    decreases edits.len() - i,
{
    if i < edits.len() {
        lemma_edits_accepted(style, edits, allow_outside, i + 1);
        if path::clean_path(style, edits[i].path) is Ok {
            lemma_clean_absolute(style, edits[i].path);
        }
        let name = item_name("edit"@, i);
        assert((edit_fault(edits[i]) is None && path_fault(
            style,
            edits[i].path,
            allow_outside,
            name,
            "edit"@,
        ) is None) <==> edit_accepted(style, edits[i], allow_outside));
        assert((forall|k: int|
            i <= k < edits.len() ==> edit_accepted(style, #[trigger] edits[k], allow_outside)) <==> (
        edit_accepted(style, edits[i], allow_outside) && forall|k: int|
            i + 1 <= k < edits.len() ==> edit_accepted(style, #[trigger] edits[k], allow_outside)));
    }
}

/// Where no message comes of the writes from `i` on, each of them is accepted, and the
/// other way round.
proof fn lemma_writes_accepted(style: Style, writes: Seq<WriteView>, allow_outside: bool, i: int)
    requires
        0 <= i,
    ensures
        (writes_fault(writes, i) is None && write_paths_fault(style, writes, allow_outside, i) is None)
            <==> forall|k: int|
            i <= k < writes.len() ==> write_accepted(style, #[trigger] writes[k], allow_outside),
    decreases writes.len() - i,
{
    if i < writes.len() {
        lemma_writes_accepted(style, writes, allow_outside, i + 1);
        if path::clean_path(style, writes[i].path) is Ok {
            lemma_clean_absolute(style, writes[i].path);
        }
        let name = item_name("write"@, i);
        assert((write_fault(writes[i]) is None && path_fault(
            style,
            writes[i].path,
            allow_outside,
            name,
            "write"@,
        ) is None) <==> write_accepted(style, writes[i], allow_outside));
        assert((forall|k: int|
            i <= k < writes.len() ==> write_accepted(style, #[trigger] writes[k], allow_outside)) <==> (
        write_accepted(style, writes[i], allow_outside) && forall|k: int|
            i + 1 <= k < writes.len() ==> write_accepted(style, #[trigger] writes[k], allow_outside)));
    }
}

/// Bounded work and path confinement: a request is accepted exactly where it keeps
/// within the number of edits and writes, every `old_string` is there, every string
/// keeps within its size, and no path is empty, climbs out, holds a NUL or (without
/// `allow_outside`) is absolute.
pub proof fn law_accepted_request(req: RequestView)
    ensures
        request_fault(req) is None <==> {
            &&& req.edits.len() <= MAX_EDITS
            &&& req.writes.len() <= MAX_WRITES
            &&& forall|k: int|
                0 <= k < req.edits.len() ==> edit_accepted(
                    req.style,
                    #[trigger] req.edits[k],
                    req.allow_outside,
                )
            &&& forall|k: int|
                0 <= k < req.writes.len() ==> write_accepted(
                    req.style,
                    #[trigger] req.writes[k],
                    req.allow_outside,
                )
        },
{
    lemma_edits_accepted(req.style, req.edits, req.allow_outside, 0);
    lemma_writes_accepted(req.style, req.writes, req.allow_outside, 0);
}

/// Whether the strings of an edit cannot be taken: there is nothing to search for, or one of
/// them is too large.
pub open spec fn has_bad_strings(e: EditView) -> bool {
    ||| e.old_string.len() == 0
    ||| vstd::utf8::encode_utf8(e.old_string).len() > MAX_STRING_BYTES
    ||| vstd::utf8::encode_utf8(e.new_string).len() > MAX_STRING_BYTES
}

/// Whether a path cannot be taken.
pub open spec fn has_bad_path(style: Style, p: Seq<char>, allow_outside: bool) -> bool {
    path::clean_path(style, p) is Err || (path::is_absolute(style, p) && !allow_outside)
}

/// What is said of a string that is too large.
pub open spec fn says_too_large(m: Seq<char>, what: Seq<char>, s: Seq<char>) -> bool {
    m == what + " too large: "@ + text::decimal(vstd::utf8::encode_utf8(s).len()) + " bytes (max "@
        + text::decimal(MAX_STRING_BYTES as nat) + "); split the edit"@
}

/// What is said of an edit whose strings cannot be taken.
pub open spec fn says_bad_strings(m: Seq<char>, e: EditView) -> bool {
    if e.old_string.len() == 0 {
        m == if e.replace_all {
            "old_string must be non-empty; empty old_string with replace_all is rejected"@
        } else {
            "old_string must be non-empty (use writes to create files)"@
        }
    } else if vstd::utf8::encode_utf8(e.old_string).len() > MAX_STRING_BYTES {
        says_too_large(m, "old_string"@, e.old_string)
    } else {
        says_too_large(m, "new_string"@, e.new_string)
    }
}

/// What is said of a path that cannot be taken.
pub open spec fn says_bad_path(
    m: Seq<char>,
    style: Style,
    p: Seq<char>,
    kind: Seq<char>,
    i: int,
) -> bool {
    match path::clean_path(style, p) {
        Err(reason) => m == reason,
        Ok(_) => m == kind + "["@ + text::decimal(i as nat) + "]"@ + ": absolute path refused: "@
            + p + " (set allow_outside to "@ + kind + " outside the tree)"@,
    }
}

/// The first edit with bad strings.
proof fn lemma_first_bad_edit(edits: Seq<EditView>, from: int) -> (i: int)
    requires
        0 <= from,
    ensures
        edits_fault(edits, from) is None ==> forall|k: int|
            from <= k < edits.len() ==> !has_bad_strings(#[trigger] edits[k]),
        edits_fault(edits, from) matches Some(m) ==> {
            &&& from <= i < edits.len() && has_bad_strings(edits[i])
            &&& forall|k: int| from <= k < i ==> !has_bad_strings(#[trigger] edits[k])
            &&& m == "edit"@ + "["@ + text::decimal(i as nat) + "]"@ + " "@ + edits[i].path + ": "@
                + edit_fault(edits[i])->0
        },
    decreases edits.len() - from,
{
    if from >= edits.len() || edit_fault(edits[from]) is Some {
        from
    } else {
        lemma_first_bad_edit(edits, from + 1)
    }
}

/// The first write whose content is too large.
proof fn lemma_first_bad_write(writes: Seq<WriteView>, from: int) -> (i: int)
    requires
        0 <= from,
    ensures
        writes_fault(writes, from) is None ==> forall|k: int|
            from <= k < writes.len() ==> vstd::utf8::encode_utf8(
                (#[trigger] writes[k]).content,
            ).len() <= MAX_STRING_BYTES,
        writes_fault(writes, from) matches Some(m) ==> {
            &&& from <= i < writes.len()
            &&& vstd::utf8::encode_utf8(writes[i].content).len() > MAX_STRING_BYTES
            &&& forall|k: int|
                from <= k < i ==> vstd::utf8::encode_utf8((#[trigger] writes[k]).content).len()
                    <= MAX_STRING_BYTES
            &&& m == "write"@ + "["@ + text::decimal(i as nat) + "]"@ + " "@ + writes[i].path
                + ": "@ + write_fault(writes[i])->0
        },
    decreases writes.len() - from,
{
    if from >= writes.len() || write_fault(writes[from]) is Some {
        from
    } else {
        lemma_first_bad_write(writes, from + 1)
    }
}

/// The first edit with a bad path.
proof fn lemma_first_bad_edit_path(
    style: Style,
    edits: Seq<EditView>,
    allow_outside: bool,
    from: int,
) -> (i: int)
    requires
        0 <= from,
    ensures
        edit_paths_fault(style, edits, allow_outside, from) is None ==> forall|k: int|
            from <= k < edits.len() ==> !has_bad_path(
                style,
                (#[trigger] edits[k]).path,
                allow_outside,
            ),
        edit_paths_fault(style, edits, allow_outside, from) matches Some(m) ==> {
            &&& from <= i < edits.len() && has_bad_path(style, edits[i].path, allow_outside)
            &&& forall|k: int|
                from <= k < i ==> !has_bad_path(style, (#[trigger] edits[k]).path, allow_outside)
            &&& says_bad_path(m, style, edits[i].path, "edit"@, i)
        },
    decreases edits.len() - from,
{
    if from >= edits.len() {
        from
    } else {
        if path::clean_path(style, edits[from].path) is Ok {
            lemma_clean_absolute(style, edits[from].path);
        }
        if has_bad_path(style, edits[from].path, allow_outside) {
            from
        } else {
            lemma_first_bad_edit_path(style, edits, allow_outside, from + 1)
        }
    }
}

/// The first write with a bad path.
proof fn lemma_first_bad_write_path(
    style: Style,
    writes: Seq<WriteView>,
    allow_outside: bool,
    from: int,
) -> (i: int)
    requires
        0 <= from,
    ensures
        write_paths_fault(style, writes, allow_outside, from) matches Some(m) ==> {
            &&& from <= i < writes.len() && has_bad_path(style, writes[i].path, allow_outside)
            &&& forall|k: int|
                from <= k < i ==> !has_bad_path(style, (#[trigger] writes[k]).path, allow_outside)
            &&& says_bad_path(m, style, writes[i].path, "write"@, i)
        },
    decreases writes.len() - from,
{
    if from >= writes.len() {
        from
    } else {
        if path::clean_path(style, writes[from].path) is Ok {
            lemma_clean_absolute(style, writes[from].path);
        }
        if has_bad_path(style, writes[from].path, allow_outside) {
            from
        } else {
            lemma_first_bad_write_path(style, writes, allow_outside, from + 1)
        }
    }
}

/// A request that is refused is refused for its first fault, in this order: the number of
/// edits, the number of writes, the strings of an edit, the content of a write, the path of an
/// edit, the path of a write. The message gives the place of the item and says what is wrong
/// with it.
pub proof fn law_first_fault_is_named(req: RequestView) -> (i: int)
    requires
        request_fault(req) is Some,
    ensures
        ({
            let m = request_fault(req)->0;
            if req.edits.len() > MAX_EDITS {
                m == "too many "@ + "edits"@ + ": "@ + text::decimal(req.edits.len()) + " (max "@
                    + text::decimal(MAX_EDITS as nat) + ")"@
            } else if req.writes.len() > MAX_WRITES {
                m == "too many "@ + "writes"@ + ": "@ + text::decimal(req.writes.len())
                    + " (max "@ + text::decimal(MAX_WRITES as nat) + ")"@
            } else if exists|k: int|
                0 <= k < req.edits.len() && has_bad_strings(#[trigger] req.edits[k]) {
                let e = req.edits[i];
                &&& 0 <= i < req.edits.len() && has_bad_strings(e)
                &&& forall|k: int| 0 <= k < i ==> !has_bad_strings(#[trigger] req.edits[k])
                &&& exists|why: Seq<char>| #[trigger]
                    says_bad_strings(why, e) && m == "edit"@ + "["@ + text::decimal(i as nat) + "]"@
                        + " "@ + e.path + ": "@ + why
            } else if exists|k: int|
                0 <= k < req.writes.len() && vstd::utf8::encode_utf8(
                    (#[trigger] req.writes[k]).content,
                ).len() > MAX_STRING_BYTES {
                let w = req.writes[i];
                &&& 0 <= i < req.writes.len()
                &&& vstd::utf8::encode_utf8(w.content).len() > MAX_STRING_BYTES
                &&& forall|k: int|
                    0 <= k < i ==> vstd::utf8::encode_utf8((#[trigger] req.writes[k]).content).len()
                        <= MAX_STRING_BYTES
                &&& exists|why: Seq<char>| #[trigger]
                    says_too_large(why, "content"@, w.content) && m == "write"@ + "["@
                        + text::decimal(i as nat) + "]"@ + " "@ + w.path + ": "@ + why
            } else if exists|k: int|
                0 <= k < req.edits.len() && has_bad_path(
                    req.style,
                    (#[trigger] req.edits[k]).path,
                    req.allow_outside,
                ) {
                &&& 0 <= i < req.edits.len()
                &&& has_bad_path(req.style, req.edits[i].path, req.allow_outside)
                &&& forall|k: int|
                    0 <= k < i ==> !has_bad_path(
                        req.style,
                        (#[trigger] req.edits[k]).path,
                        req.allow_outside,
                    )
                &&& says_bad_path(m, req.style, req.edits[i].path, "edit"@, i)
            } else {
                &&& 0 <= i < req.writes.len()
                &&& has_bad_path(req.style, req.writes[i].path, req.allow_outside)
                &&& forall|k: int|
                    0 <= k < i ==> !has_bad_path(
                        req.style,
                        (#[trigger] req.writes[k]).path,
                        req.allow_outside,
                    )
                &&& says_bad_path(m, req.style, req.writes[i].path, "write"@, i)
            }
        }),
{
    let e = lemma_first_bad_edit(req.edits, 0);
    let w = lemma_first_bad_write(req.writes, 0);
    let ep = lemma_first_bad_edit_path(req.style, req.edits, req.allow_outside, 0);
    let wp = lemma_first_bad_write_path(req.style, req.writes, req.allow_outside, 0);
    if edits_fault(req.edits, 0) is Some {
        assert(says_bad_strings(edit_fault(req.edits[e])->0, req.edits[e]));
        e
    } else if writes_fault(req.writes, 0) is Some {
        assert(says_too_large(write_fault(req.writes[w])->0, "content"@, req.writes[w].content));
        w
    } else if edit_paths_fault(req.style, req.edits, req.allow_outside, 0) is Some {
        ep
    } else {
        wp
    }
}

/// A request is accepted exactly where it has no more edits and writes than are taken, no edit
/// has bad strings, no content is too large, and no path is bad.
pub proof fn law_request_is_accepted(req: RequestView)
    ensures
        request_fault(req) is None <==> {
            &&& req.edits.len() <= MAX_EDITS
            &&& req.writes.len() <= MAX_WRITES
            &&& forall|k: int|
                0 <= k < req.edits.len() ==> !has_bad_strings(#[trigger] req.edits[k])
                    && !has_bad_path(req.style, req.edits[k].path, req.allow_outside)
            &&& forall|k: int|
                0 <= k < req.writes.len() ==> vstd::utf8::encode_utf8(
                    (#[trigger] req.writes[k]).content,
                ).len() <= MAX_STRING_BYTES && !has_bad_path(
                    req.style,
                    req.writes[k].path,
                    req.allow_outside,
                )
        },
{
    law_accepted_request(req);
    if request_fault(req) is None {
        assert forall|k: int| 0 <= k < req.edits.len() implies !has_bad_strings(
            #[trigger] req.edits[k],
        ) && !has_bad_path(req.style, req.edits[k].path, req.allow_outside) by {
            assert(edit_accepted(req.style, req.edits[k], req.allow_outside));
        }
        assert forall|k: int| 0 <= k < req.writes.len() implies vstd::utf8::encode_utf8(
            (#[trigger] req.writes[k]).content,
        ).len() <= MAX_STRING_BYTES && !has_bad_path(
            req.style,
            req.writes[k].path,
            req.allow_outside,
        ) by {
            assert(write_accepted(req.style, req.writes[k], req.allow_outside));
        }
    } else {
        let i = law_first_fault_is_named(req);
    }
}

} // verus!
