//! What the JSON document of a batch says to a reader of JSON: the value that it writes down,
//! with its fields by their names.

use crate::json;
use crate::text;
use crate::types::{
    BatchErrorView, BatchResultView, EditStatusView, VerifyStatusView, WriteStatusView,
};
use vstd::prelude::*;

verus! {

/// A JSON value. The fields of a record stand in order, each with its name.
pub enum Json {
    Null,
    Bool(bool),
    Number(int),
    Text(Seq<char>),
    List(Seq<Json>),
    Record(Seq<(Seq<char>, Json)>),
}

/// A name between quotation marks, and a colon.
pub open spec fn label(name: Seq<char>) -> Seq<char> {
    seq!['"'] + name + seq!['"', ':']
}

/// A value written down without white space.
pub open spec fn written(v: Json) -> Seq<char>
    decreases v,
{
    match v {
        Json::Null => "null"@,
        Json::Bool(b) => if b {
            "true"@
        } else {
            "false"@
        },
        Json::Number(n) => text::signed_decimal(n),
        Json::Text(t) => json::json_string(t),
        Json::List(items) => seq!['['] + written_items(items) + seq![']'],
        Json::Record(fields) => seq!['{'] + written_fields(fields) + seq!['}'],
    }
}

/// The items of a list, with commas between them.
pub open spec fn written_items(items: Seq<Json>) -> Seq<char>
    decreases items,
{
    if items.len() == 0 {
        seq![]
    } else if items.len() == 1 {
        written(items[0])
    } else {
        written_items(items.drop_last()) + seq![','] + written(items.last())
    }
}

/// The fields of a record, with commas between them.
pub open spec fn written_fields(fields: Seq<(Seq<char>, Json)>) -> Seq<char>
    decreases fields,
{
    if fields.len() == 0 {
        seq![]
    } else if fields.len() == 1 {
        label(fields[0].0) + written(fields[0].1)
    } else {
        written_fields(fields.drop_last()) + seq![','] + label(fields.last().0) + written(
            fields.last().1,
        )
    }
}

/// The field of that name among the fields.
pub open spec fn among(fields: Seq<(Seq<char>, Json)>, name: Seq<char>) -> Option<Json>
    decreases fields.len(),
{
    if fields.len() == 0 {
        None
    } else if fields.last().0 == name {
        Some(fields.last().1)
    } else {
        among(fields.drop_last(), name)
    }
}

/// The field of that name of a value.
pub open spec fn field(v: Json, name: Seq<char>) -> Option<Json> {
    match v {
        Json::Record(fields) => among(fields, name),
        _ => None,
    }
}

/// A text where there is one.
pub open spec fn text_of(t: Option<Seq<char>>) -> Option<Json> {
    match t {
        Some(s) => Some(Json::Text(s)),
        None => None,
    }
}

/// A number where there is one.
pub open spec fn number_of(n: Option<usize>) -> Option<Json> {
    match n {
        Some(k) => Some(Json::Number(k as int)),
        None => None,
    }
}

/// A truth value where there is one.
pub open spec fn bool_of(b: Option<bool>) -> Option<Json> {
    match b {
        Some(v) => Some(Json::Bool(v)),
        None => None,
    }
}

/// The value says what the status of an edit says.
pub open spec fn tells_edit(v: Json, e: EditStatusView) -> bool {
    &&& field(v, "path"@) == Some(Json::Text(e.path))
    &&& field(v, "ok"@) == Some(Json::Bool(e.ok))
    &&& field(v, "applied"@) == Some(Json::Bool(e.applied))
    &&& field(v, "error"@) == text_of(e.error)
    &&& field(v, "diff_preview"@) == text_of(e.diff_preview)
    &&& field(v, "replacements"@) == number_of(e.replacements)
}

/// The value says what the status of a write says.
pub open spec fn tells_write(v: Json, w: WriteStatusView) -> bool {
    &&& field(v, "path"@) == Some(Json::Text(w.path))
    &&& field(v, "ok"@) == Some(Json::Bool(w.ok))
    &&& field(v, "applied"@) == Some(Json::Bool(w.applied))
    &&& field(v, "error"@) == text_of(w.error)
    &&& field(v, "created_dirs"@) == bool_of(w.created_dirs)
}

/// The value says what a command gave.
pub open spec fn tells_command(v: Json, c: VerifyStatusView) -> bool {
    &&& field(v, "cmd"@) == Some(Json::Text(c.cmd))
    &&& field(v, "exit"@) == Some(Json::Number(c.exit))
    &&& field(v, "stdout"@) == Some(Json::Text(c.stdout))
    &&& field(v, "stderr"@) == Some(Json::Text(c.stderr))
    &&& field(v, "duration_ms"@) == Some(Json::Number(c.duration_ms as int))
}

/// The value is a list that says, item by item, what the statuses of the edits say.
pub open spec fn tells_edits(v: Json, edits: Seq<EditStatusView>) -> bool {
    v matches Json::List(items) && items.len() == edits.len() && forall|k: int|
        0 <= k < edits.len() ==> tells_edit(#[trigger] items[k], edits[k])
}

/// The value is a list that says, item by item, what the statuses of the writes say.
pub open spec fn tells_writes(v: Json, writes: Seq<WriteStatusView>) -> bool {
    v matches Json::List(items) && items.len() == writes.len() && forall|k: int|
        0 <= k < writes.len() ==> tells_write(#[trigger] items[k], writes[k])
}

/// The value is a list that says, item by item, what the commands gave.
pub open spec fn tells_commands(v: Json, commands: Seq<VerifyStatusView>) -> bool {
    v matches Json::List(items) && items.len() == commands.len() && forall|k: int|
        0 <= k < commands.len() ==> tells_command(#[trigger] items[k], commands[k])
}

/// The names of the fields are all different.
proof fn lemma_names_differ()
    ensures
        "path"@ != "ok"@,
        "path"@ != "applied"@,
        "path"@ != "error"@,
        "path"@ != "diff_preview"@,
        "path"@ != "replacements"@,
        "path"@ != "created_dirs"@,
        "ok"@ != "applied"@,
        "ok"@ != "error"@,
        "ok"@ != "diff_preview"@,
        "ok"@ != "replacements"@,
        "ok"@ != "created_dirs"@,
        "ok"@ != "status"@,
        "ok"@ != "edits"@,
        "ok"@ != "writes"@,
        "ok"@ != "verify"@,
        "applied"@ != "error"@,
        "applied"@ != "diff_preview"@,
        "applied"@ != "replacements"@,
        "applied"@ != "created_dirs"@,
        "error"@ != "diff_preview"@,
        "error"@ != "replacements"@,
        "error"@ != "created_dirs"@,
        "error"@ != "status"@,
        "error"@ != "edits"@,
        "error"@ != "writes"@,
        "error"@ != "verify"@,
        "diff_preview"@ != "replacements"@,
        "status"@ != "edits"@,
        "status"@ != "writes"@,
        "status"@ != "verify"@,
        "edits"@ != "writes"@,
        "edits"@ != "verify"@,
        "writes"@ != "verify"@,
        "cmd"@ != "exit"@,
        "cmd"@ != "stdout"@,
        "cmd"@ != "stderr"@,
        "cmd"@ != "duration_ms"@,
        "exit"@ != "stdout"@,
        "exit"@ != "stderr"@,
        "exit"@ != "duration_ms"@,
        "stdout"@ != "stderr"@,
        "stdout"@ != "duration_ms"@,
        "stderr"@ != "duration_ms"@,
{
    reveal_strlit("path");
    reveal_strlit("ok");
    reveal_strlit("applied");
    reveal_strlit("error");
    reveal_strlit("diff_preview");
    reveal_strlit("replacements");
    reveal_strlit("created_dirs");
    reveal_strlit("status");
    reveal_strlit("edits");
    reveal_strlit("writes");
    reveal_strlit("verify");
    reveal_strlit("cmd");
    reveal_strlit("exit");
    reveal_strlit("stdout");
    reveal_strlit("stderr");
    reveal_strlit("duration_ms");
    assert("path"@.len() == 4);
    assert("ok"@.len() == 2);
    assert("applied"@.len() == 7);
    assert("error"@.len() == 5);
    assert("diff_preview"@.len() == 12);
    assert("replacements"@.len() == 12);
    assert("created_dirs"@.len() == 12);
    assert("status"@.len() == 6);
    assert("edits"@.len() == 5);
    assert("writes"@.len() == 6);
    assert("verify"@.len() == 6);
    assert("cmd"@.len() == 3);
    assert("exit"@.len() == 4);
    assert("stdout"@.len() == 6);
    assert("stderr"@.len() == 6);
    assert("duration_ms"@.len() == 11);
    assert("diff_preview"@[0] != "created_dirs"@[0]);
    assert("error"@[1] != "edits"@[1]);
    assert("diff_preview"@[0] != "replacements"@[0]);
    assert("status"@[0] != "writes"@[0]);
    assert("status"@[0] != "verify"@[0]);
    assert("writes"@[0] != "verify"@[0]);
    assert("stdout"@[3] != "stderr"@[3]);
    assert("path"@[0] != "exit"@[0]);
}

/// The first label of a record.
pub open spec fn first_label(name: Seq<char>) -> Seq<char> {
    seq!['{'] + label(name)
}

/// A further label of a record.
pub open spec fn next_label(name: Seq<char>) -> Seq<char> {
    seq![','] + label(name)
}

/// The fixed parts of documents are labels.
proof fn lemma_first_labels()
    ensures
        "{\"path\":"@ == first_label("path"@),
        "{\"cmd\":"@ == first_label("cmd"@),
        "{\"applied\":"@ == first_label("applied"@),
        "{\"ok\":"@ == first_label("ok"@),
        "{\"edits\":"@ == first_label("edits"@),
        "{\"error\":"@ == first_label("error"@),
{
    reveal_strlit("path");
    reveal_strlit("cmd");
    reveal_strlit("applied");
    reveal_strlit("ok");
    reveal_strlit("edits");
    reveal_strlit("error");
    reveal_strlit("{\"path\":");
    reveal_strlit("{\"cmd\":");
    reveal_strlit("{\"applied\":");
    reveal_strlit("{\"ok\":");
    reveal_strlit("{\"edits\":");
    reveal_strlit("{\"error\":");
    assert("{\"path\":"@ =~= first_label("path"@));
    assert("{\"cmd\":"@ =~= first_label("cmd"@));
    assert("{\"applied\":"@ =~= first_label("applied"@));
    assert("{\"ok\":"@ =~= first_label("ok"@));
    assert("{\"edits\":"@ =~= first_label("edits"@));
    assert("{\"error\":"@ =~= first_label("error"@));
}

/// The fixed parts of documents between two fields are labels.
proof fn lemma_next_labels()
    ensures
        ",\"path\":"@ == next_label("path"@),
        ",\"ok\":"@ == next_label("ok"@),
        ",\"applied\":"@ == next_label("applied"@),
        ",\"error\":"@ == next_label("error"@),
        ",\"diff_preview\":"@ == next_label("diff_preview"@),
        ",\"replacements\":"@ == next_label("replacements"@),
        ",\"created_dirs\":"@ == next_label("created_dirs"@),
        ",\"status\":"@ == next_label("status"@),
        ",\"edits\":"@ == next_label("edits"@),
        ",\"writes\":"@ == next_label("writes"@),
        ",\"verify\":"@ == next_label("verify"@),
        ",\"exit\":"@ == next_label("exit"@),
        ",\"stdout\":"@ == next_label("stdout"@),
        ",\"stderr\":"@ == next_label("stderr"@),
        ",\"duration_ms\":"@ == next_label("duration_ms"@),
        ",\"ok\":false,\"status\":"@ == next_label("ok"@) + "false"@ + next_label("status"@),
{
    assert(",\"path\":"@ == next_label("path"@)) by {
        reveal_strlit("path");
        reveal_strlit(",\"path\":");
        assert(",\"path\":"@ =~= next_label("path"@));
    }
    assert(",\"ok\":"@ == next_label("ok"@)) by {
        reveal_strlit("ok");
        reveal_strlit(",\"ok\":");
        assert(",\"ok\":"@ =~= next_label("ok"@));
    }
    assert(",\"applied\":"@ == next_label("applied"@)) by {
        reveal_strlit("applied");
        reveal_strlit(",\"applied\":");
        assert(",\"applied\":"@ =~= next_label("applied"@));
    }
    assert(",\"error\":"@ == next_label("error"@)) by {
        reveal_strlit("error");
        reveal_strlit(",\"error\":");
        assert(",\"error\":"@ =~= next_label("error"@));
    }
    assert(",\"diff_preview\":"@ == next_label("diff_preview"@)) by {
        reveal_strlit("diff_preview");
        reveal_strlit(",\"diff_preview\":");
        assert(",\"diff_preview\":"@ =~= next_label("diff_preview"@));
    }
    assert(",\"replacements\":"@ == next_label("replacements"@)) by {
        reveal_strlit("replacements");
        reveal_strlit(",\"replacements\":");
        assert(",\"replacements\":"@ =~= next_label("replacements"@));
    }
    assert(",\"created_dirs\":"@ == next_label("created_dirs"@)) by {
        reveal_strlit("created_dirs");
        reveal_strlit(",\"created_dirs\":");
        assert(",\"created_dirs\":"@ =~= next_label("created_dirs"@));
    }
    assert(",\"status\":"@ == next_label("status"@)) by {
        reveal_strlit("status");
        reveal_strlit(",\"status\":");
        assert(",\"status\":"@ =~= next_label("status"@));
    }
    assert(",\"edits\":"@ == next_label("edits"@)) by {
        reveal_strlit("edits");
        reveal_strlit(",\"edits\":");
        assert(",\"edits\":"@ =~= next_label("edits"@));
    }
    assert(",\"writes\":"@ == next_label("writes"@)) by {
        reveal_strlit("writes");
        reveal_strlit(",\"writes\":");
        assert(",\"writes\":"@ =~= next_label("writes"@));
    }
    assert(",\"verify\":"@ == next_label("verify"@)) by {
        reveal_strlit("verify");
        reveal_strlit(",\"verify\":");
        assert(",\"verify\":"@ =~= next_label("verify"@));
    }
    assert(",\"exit\":"@ == next_label("exit"@)) by {
        reveal_strlit("exit");
        reveal_strlit(",\"exit\":");
        assert(",\"exit\":"@ =~= next_label("exit"@));
    }
    assert(",\"stdout\":"@ == next_label("stdout"@)) by {
        reveal_strlit("stdout");
        reveal_strlit(",\"stdout\":");
        assert(",\"stdout\":"@ =~= next_label("stdout"@));
    }
    assert(",\"stderr\":"@ == next_label("stderr"@)) by {
        reveal_strlit("stderr");
        reveal_strlit(",\"stderr\":");
        assert(",\"stderr\":"@ =~= next_label("stderr"@));
    }
    assert(",\"duration_ms\":"@ == next_label("duration_ms"@)) by {
        reveal_strlit("duration_ms");
        reveal_strlit(",\"duration_ms\":");
        assert(",\"duration_ms\":"@ =~= next_label("duration_ms"@));
    }
    assert(",\"ok\":false,\"status\":"@ == next_label("ok"@) + "false"@ + next_label("status"@))
        by {
        reveal_strlit("ok");
        reveal_strlit("false");
        reveal_strlit("status");
        reveal_strlit(",\"ok\":false,\"status\":");
        assert(",\"ok\":false,\"status\":"@ =~= next_label("ok"@) + "false"@ + next_label(
            "status"@,
        ));
    }
}

/// The marks around lists and records.
proof fn lemma_marks()
    ensures
        "["@ == seq!['['],
        "]"@ == seq![']'],
        "}"@ == seq!['}'],
        ","@ == seq![','],
{
    reveal_strlit("[");
    reveal_strlit("]");
    reveal_strlit("}");
    reveal_strlit(",");
    assert("["@ =~= seq!['[']);
    assert("]"@ =~= seq![']']);
    assert("}"@ =~= seq!['}']);
    assert(","@ =~= seq![',']);
}

/// The start of a record with these fields.
#[verifier::opaque]
pub open spec fn opened(fields: Seq<(Seq<char>, Json)>) -> Seq<char> {
    seq!['{'] + written_fields(fields)
}

/// A record is its start and its end.
proof fn lemma_closed(fields: Seq<(Seq<char>, Json)>)
    ensures
        written(Json::Record(fields)) == opened(fields) + "}"@,
{
    reveal(opened);
    lemma_marks();
}

/// A record with one more field.
proof fn lemma_one_more(fields: Seq<(Seq<char>, Json)>, name: Seq<char>, v: Json)
    requires
        fields.len() > 0,
    ensures
        opened(fields.push((name, v))) == opened(fields) + next_label(name) + written(v),
        forall|n: Seq<char>| #[trigger]
            among(fields.push((name, v)), n) == if n == name {
                Some(v)
            } else {
                among(fields, n)
            },
{
    reveal(opened);
    assert(fields.push((name, v)).drop_last() =~= fields);
    assert(opened(fields.push((name, v))) =~= opened(fields) + next_label(name) + written(v));
}

/// The fields, and one more where there is a value for it.
pub open spec fn with(
    fields: Seq<(Seq<char>, Json)>,
    name: Seq<char>,
    v: Option<Json>,
) -> Seq<(Seq<char>, Json)> {
    match v {
        Some(w) => fields.push((name, w)),
        None => fields,
    }
}

/// A record with one more field, where there is a value for it.
proof fn lemma_with(fields: Seq<(Seq<char>, Json)>, name: Seq<char>, v: Option<Json>)
    requires
        fields.len() > 0,
        among(fields, name) is None,
    ensures
        with(fields, name, v).len() > 0,
        opened(with(fields, name, v)) == opened(fields) + match v {
            Some(w) => next_label(name) + written(w),
            None => Seq::<char>::empty(),
        },
        forall|n: Seq<char>| #[trigger]
            among(with(fields, name, v), n) == if n == name {
                v
            } else {
                among(fields, n)
            },
{
    match v {
        Some(w) => {
            lemma_one_more(fields, name, w);
            assert(opened(fields) + next_label(name) + written(w) =~= opened(fields) + (next_label(
                name,
            ) + written(w)));
        },
        None => {
            assert(opened(fields) + Seq::<char>::empty() =~= opened(fields));
        },
    }
}

/// A record with one more text, where there is one.
proof fn lemma_with_text(fields: Seq<(Seq<char>, Json)>, name: Seq<char>, t: Option<Seq<char>>)
    requires
        fields.len() > 0,
        among(fields, name) is None,
    ensures
        with(fields, name, text_of(t)).len() > 0,
        opened(with(fields, name, text_of(t))) == opened(fields) + json::optional_text(
            next_label(name),
            t,
        ),
        forall|n: Seq<char>| #[trigger]
            among(with(fields, name, text_of(t)), n) == if n == name {
                text_of(t)
            } else {
                among(fields, n)
            },
{
    lemma_with(fields, name, text_of(t));
}

/// A record with one more number, where there is one.
proof fn lemma_with_number(fields: Seq<(Seq<char>, Json)>, name: Seq<char>, k: Option<usize>)
    requires
        fields.len() > 0,
        among(fields, name) is None,
    ensures
        with(fields, name, number_of(k)).len() > 0,
        opened(with(fields, name, number_of(k))) == opened(fields) + json::optional_number(
            next_label(name),
            k,
        ),
        forall|n: Seq<char>| #[trigger]
            among(with(fields, name, number_of(k)), n) == if n == name {
                number_of(k)
            } else {
                among(fields, n)
            },
{
    lemma_with(fields, name, number_of(k));
}

/// A record with one more truth value, where there is one.
proof fn lemma_with_bool(fields: Seq<(Seq<char>, Json)>, name: Seq<char>, b: Option<bool>)
    requires
        fields.len() > 0,
        among(fields, name) is None,
    ensures
        with(fields, name, bool_of(b)).len() > 0,
        opened(with(fields, name, bool_of(b))) == opened(fields) + json::optional_bool(
            next_label(name),
            b,
        ),
        forall|n: Seq<char>| #[trigger]
            among(with(fields, name, bool_of(b)), n) == if n == name {
                bool_of(b)
            } else {
                among(fields, n)
            },
{
    lemma_with(fields, name, bool_of(b));
}

/// A record of one field.
proof fn lemma_one(name: Seq<char>, v: Json)
    ensures
        opened(seq![(name, v)]) == first_label(name) + written(v),
        forall|n: Seq<char>| #[trigger]
            among(seq![(name, v)], n) == if n == name {
                Some(v)
            } else {
                None
            },
{
    let one = seq![(name, v)];
    assert(opened(one) =~= first_label(name) + written(v)) by {
        reveal(opened);
    }
    assert(one.drop_last() =~= seq![]);
    assert forall|n: Seq<char>| #[trigger]
        among(one, n) == if n == name {
            Some(v)
        } else {
            None
        } by {
        assert(one.last() == (name, v));
        assert(among(one.drop_last(), n) is None);
    }
}

/// A list of items that are written down as these texts.
proof fn lemma_list(items: Seq<Json>, texts: Seq<Seq<char>>)
    requires
        items.len() == texts.len(),
        forall|k: int| 0 <= k < items.len() ==> written(#[trigger] items[k]) == texts[k],
    ensures
        written_items(items) == json::separated(texts),
        written(Json::List(items)) == json::json_array(texts),
    decreases items.len(),
{
    lemma_marks();
    if items.len() > 1 {
        lemma_list(items.drop_last(), texts.drop_last());
        assert(items.last() == items[items.len() - 1]);
    }
}

/// The value that writes down the status of an edit in a result.
proof fn lemma_edit(e: EditStatusView) -> (v: Json)
    ensures
        written(v) == json::edit_json(e),
        tells_edit(v, e),
{
    lemma_names_differ();
    lemma_first_labels();
    lemma_next_labels();
    lemma_marks();
    let f1 = seq![("path"@, Json::Text(e.path))];
    let f2 = f1.push(("ok"@, Json::Bool(e.ok)));
    let f3 = f2.push(("applied"@, Json::Bool(e.applied)));
    let f4 = with(f3, "error"@, text_of(e.error));
    let f5 = with(f4, "diff_preview"@, text_of(e.diff_preview));
    let f6 = with(f5, "replacements"@, number_of(e.replacements));
    lemma_one("path"@, Json::Text(e.path));
    lemma_one_more(f1, "ok"@, Json::Bool(e.ok));
    lemma_one_more(f2, "applied"@, Json::Bool(e.applied));
    lemma_with_text(f3, "error"@, e.error);
    lemma_with_text(f4, "diff_preview"@, e.diff_preview);
    lemma_with_number(f5, "replacements"@, e.replacements);
    lemma_closed(f6);
    Json::Record(f6)
}

/// The value that writes down the status of an edit in an error.
proof fn lemma_failed_edit(e: EditStatusView) -> (v: Json)
    ensures
        written(v) == json::failed_edit_json(e),
        tells_edit(v, e),
{
    lemma_names_differ();
    lemma_first_labels();
    lemma_next_labels();
    lemma_marks();
    let f1 = seq![("applied"@, Json::Bool(e.applied))];
    let f2 = with(f1, "diff_preview"@, text_of(e.diff_preview));
    let f3 = with(f2, "error"@, text_of(e.error));
    let f4 = f3.push(("ok"@, Json::Bool(e.ok)));
    let f5 = f4.push(("path"@, Json::Text(e.path)));
    let f6 = with(f5, "replacements"@, number_of(e.replacements));
    lemma_one("applied"@, Json::Bool(e.applied));
    lemma_with_text(f1, "diff_preview"@, e.diff_preview);
    lemma_with_text(f2, "error"@, e.error);
    lemma_one_more(f3, "ok"@, Json::Bool(e.ok));
    lemma_one_more(f4, "path"@, Json::Text(e.path));
    lemma_with_number(f5, "replacements"@, e.replacements);
    lemma_closed(f6);
    Json::Record(f6)
}

/// The value that writes down the status of a write in a result.
proof fn lemma_write(w: WriteStatusView) -> (v: Json)
    ensures
        written(v) == json::write_json(w),
        tells_write(v, w),
{
    lemma_names_differ();
    lemma_first_labels();
    lemma_next_labels();
    lemma_marks();
    let f1 = seq![("path"@, Json::Text(w.path))];
    let f2 = f1.push(("ok"@, Json::Bool(w.ok)));
    let f3 = f2.push(("applied"@, Json::Bool(w.applied)));
    let f4 = with(f3, "error"@, text_of(w.error));
    let f5 = with(f4, "created_dirs"@, bool_of(w.created_dirs));
    lemma_one("path"@, Json::Text(w.path));
    lemma_one_more(f1, "ok"@, Json::Bool(w.ok));
    lemma_one_more(f2, "applied"@, Json::Bool(w.applied));
    lemma_with_text(f3, "error"@, w.error);
    lemma_with_bool(f4, "created_dirs"@, w.created_dirs);
    lemma_closed(f5);
    Json::Record(f5)
}

/// The value that writes down the status of a write in an error.
proof fn lemma_failed_write(w: WriteStatusView) -> (v: Json)
    ensures
        written(v) == json::failed_write_json(w),
        tells_write(v, w),
{
    lemma_names_differ();
    lemma_first_labels();
    lemma_next_labels();
    lemma_marks();
    let f1 = seq![("applied"@, Json::Bool(w.applied))];
    let f2 = with(f1, "created_dirs"@, bool_of(w.created_dirs));
    let f3 = with(f2, "error"@, text_of(w.error));
    let f4 = f3.push(("ok"@, Json::Bool(w.ok)));
    let f5 = f4.push(("path"@, Json::Text(w.path)));
    lemma_one("applied"@, Json::Bool(w.applied));
    lemma_with_bool(f1, "created_dirs"@, w.created_dirs);
    lemma_with_text(f2, "error"@, w.error);
    lemma_one_more(f3, "ok"@, Json::Bool(w.ok));
    lemma_one_more(f4, "path"@, Json::Text(w.path));
    lemma_closed(f5);
    Json::Record(f5)
}

/// The value that writes down what a command gave.
proof fn lemma_command(c: VerifyStatusView) -> (v: Json)
    ensures
        written(v) == json::verify_json(c),
        tells_command(v, c),
{
    lemma_names_differ();
    lemma_first_labels();
    lemma_next_labels();
    lemma_marks();
    let f1 = seq![("cmd"@, Json::Text(c.cmd))];
    let f2 = f1.push(("exit"@, Json::Number(c.exit)));
    let f3 = f2.push(("stdout"@, Json::Text(c.stdout)));
    let f4 = f3.push(("stderr"@, Json::Text(c.stderr)));
    let f5 = f4.push(("duration_ms"@, Json::Number(c.duration_ms as int)));
    lemma_one("cmd"@, Json::Text(c.cmd));
    lemma_one_more(f1, "exit"@, Json::Number(c.exit));
    lemma_one_more(f2, "stdout"@, Json::Text(c.stdout));
    lemma_one_more(f3, "stderr"@, Json::Text(c.stderr));
    lemma_one_more(f4, "duration_ms"@, Json::Number(c.duration_ms as int));
    lemma_closed(f5);
    Json::Record(f5)
}

/// The value that writes down the statuses of edits in a result.
proof fn lemma_edits(edits: Seq<EditStatusView>) -> (v: Json)
    ensures
        written(v) == json::edits_json(edits),
        tells_edits(v, edits),
{
    let items = Seq::new(
        edits.len(),
        |k: int| choose|v: Json| written(v) == json::edit_json(edits[k]) && tells_edit(v, edits[k]),
    );
    let texts = edits.map_values(|e: EditStatusView| json::edit_json(e));
    assert forall|k: int| 0 <= k < edits.len() implies written(#[trigger] items[k]) == texts[k]
        && tells_edit(items[k], edits[k]) by {
        let v = lemma_edit(edits[k]);
        assert(written(v) == json::edit_json(edits[k]) && tells_edit(v, edits[k]));
    }
    lemma_list(items, texts);
    Json::List(items)
}

/// The value that writes down the statuses of edits in an error.
proof fn lemma_failed_edits(edits: Seq<EditStatusView>) -> (v: Json)
    ensures
        written(v) == json::failed_edits_json(edits),
        tells_edits(v, edits),
{
    let items = Seq::new(
        edits.len(),
        |k: int|
            choose|v: Json|
                written(v) == json::failed_edit_json(edits[k]) && tells_edit(v, edits[k]),
    );
    let texts = edits.map_values(|e: EditStatusView| json::failed_edit_json(e));
    assert forall|k: int| 0 <= k < edits.len() implies written(#[trigger] items[k]) == texts[k]
        && tells_edit(items[k], edits[k]) by {
        let v = lemma_failed_edit(edits[k]);
        assert(written(v) == json::failed_edit_json(edits[k]) && tells_edit(v, edits[k]));
    }
    lemma_list(items, texts);
    Json::List(items)
}

/// The value that writes down the statuses of writes in a result.
proof fn lemma_writes(writes: Seq<WriteStatusView>) -> (v: Json)
    ensures
        written(v) == json::writes_json(writes),
        tells_writes(v, writes),
{
    let items = Seq::new(
        writes.len(),
        |k: int|
            choose|v: Json| written(v) == json::write_json(writes[k]) && tells_write(v, writes[k]),
    );
    let texts = writes.map_values(|w: WriteStatusView| json::write_json(w));
    assert forall|k: int| 0 <= k < writes.len() implies written(#[trigger] items[k]) == texts[k]
        && tells_write(items[k], writes[k]) by {
        let v = lemma_write(writes[k]);
        assert(written(v) == json::write_json(writes[k]) && tells_write(v, writes[k]));
    }
    lemma_list(items, texts);
    Json::List(items)
}

/// The value that writes down the statuses of writes in an error.
proof fn lemma_failed_writes(writes: Seq<WriteStatusView>) -> (v: Json)
    ensures
        written(v) == json::failed_writes_json(writes),
        tells_writes(v, writes),
{
    let items = Seq::new(
        writes.len(),
        |k: int|
            choose|v: Json|
                written(v) == json::failed_write_json(writes[k]) && tells_write(v, writes[k]),
    );
    let texts = writes.map_values(|w: WriteStatusView| json::failed_write_json(w));
    assert forall|k: int| 0 <= k < writes.len() implies written(#[trigger] items[k]) == texts[k]
        && tells_write(items[k], writes[k]) by {
        let v = lemma_failed_write(writes[k]);
        assert(written(v) == json::failed_write_json(writes[k]) && tells_write(v, writes[k]));
    }
    lemma_list(items, texts);
    Json::List(items)
}

/// The value that writes down what the commands gave.
proof fn lemma_commands(commands: Seq<VerifyStatusView>) -> (v: Json)
    ensures
        written(v) == json::verifies_json(commands),
        tells_commands(v, commands),
{
    let items = Seq::new(
        commands.len(),
        |k: int|
            choose|v: Json|
                written(v) == json::verify_json(commands[k]) && tells_command(v, commands[k]),
    );
    let texts = commands.map_values(|c: VerifyStatusView| json::verify_json(c));
    assert forall|k: int| 0 <= k < commands.len() implies written(#[trigger] items[k]) == texts[k]
        && tells_command(items[k], commands[k]) by {
        let v = lemma_command(commands[k]);
        assert(written(v) == json::verify_json(commands[k]) && tells_command(v, commands[k]));
    }
    lemma_list(items, texts);
    Json::List(items)
}

/// The document of a result reads back: it writes down a record whose fields say, under their
/// names, what the result says: whether it is fine, its status, every edit, every write and
/// every command in order with its exit code and output, and the error; a field that the
/// result does not have is absent.
pub proof fn law_result_reads_back(r: BatchResultView) -> (v: Json)
    ensures
        written(v) == json::outcome_json(Ok(r)),
        field(v, "ok"@) == Some(Json::Bool(r.ok)),
        field(v, "status"@) == Some(Json::Text(r.status)),
        field(v, "edits"@) matches Some(edits) && tells_edits(edits, r.edits),
        match r.writes {
            Some(ws) => field(v, "writes"@) matches Some(writes) && tells_writes(writes, ws),
            None => field(v, "writes"@) is None,
        },
        match r.verify {
            Some(cs) => field(v, "verify"@) matches Some(commands) && tells_commands(commands, cs),
            None => field(v, "verify"@) is None,
        },
        field(v, "error"@) == text_of(r.error),
{
    lemma_names_differ();
    lemma_first_labels();
    lemma_next_labels();
    lemma_marks();
    let edits = lemma_edits(r.edits);
    let writes = match r.writes {
        Some(ws) => Some(lemma_writes(ws)),
        None => None,
    };
    let commands = match r.verify {
        Some(cs) => Some(lemma_commands(cs)),
        None => None,
    };
    let f1 = seq![("ok"@, Json::Bool(r.ok))];
    let f2 = f1.push(("status"@, Json::Text(r.status)));
    let f3 = f2.push(("edits"@, edits));
    let f4 = with(f3, "writes"@, writes);
    let f5 = with(f4, "verify"@, commands);
    let f6 = with(f5, "error"@, text_of(r.error));
    lemma_one("ok"@, Json::Bool(r.ok));
    lemma_one_more(f1, "status"@, Json::Text(r.status));
    lemma_one_more(f2, "edits"@, edits);
    lemma_with(f3, "writes"@, writes);
    lemma_with(f4, "verify"@, commands);
    lemma_with_text(f5, "error"@, r.error);
    lemma_closed(f6);
    Json::Record(f6)
}

/// The document of a batch that was rolled back reads back: it is not fine, its status is
/// `rolled_back`, it gives the message, every edit, and every write, or null where writes
/// were not reached.
pub proof fn law_rollback_reads_back(
    m: Seq<char>,
    edits: Seq<EditStatusView>,
    writes: Option<Seq<WriteStatusView>>,
    detail: Option<Seq<char>>,
) -> (v: Json)
    ensures
        written(v) == json::outcome_json(
            Err(BatchErrorView::RolledBack(m, edits, writes, detail)),
        ),
        field(v, "ok"@) == Some(Json::Bool(false)),
        field(v, "status"@) == Some(Json::Text("rolled_back"@)),
        field(v, "error"@) == Some(Json::Text(m)),
        field(v, "edits"@) matches Some(es) && tells_edits(es, edits),
        match writes {
            Some(ws) => field(v, "writes"@) matches Some(l) && tells_writes(l, ws),
            None => field(v, "writes"@) == Some(Json::Null),
        },
{
    lemma_names_differ();
    lemma_first_labels();
    lemma_next_labels();
    lemma_marks();
    let es = lemma_failed_edits(edits);
    let ws = match writes {
        Some(l) => lemma_failed_writes(l),
        None => Json::Null,
    };
    let status = Json::Text("rolled_back"@);
    let f1 = seq![("edits"@, es)];
    let f2 = f1.push(("error"@, Json::Text(m)));
    let f3 = f2.push(("ok"@, Json::Bool(false)));
    let f4 = f3.push(("status"@, status));
    let f5 = f4.push(("writes"@, ws));
    lemma_one("edits"@, es);
    lemma_one_more(f1, "error"@, Json::Text(m));
    lemma_one_more(f2, "ok"@, Json::Bool(false));
    lemma_one_more(f3, "status"@, status);
    lemma_one_more(f4, "writes"@, ws);
    lemma_closed(f5);
    Json::Record(f5)
}

/// The document of a request that was refused reads back: it is not fine, its status is
/// `rolled_back`, and it gives the message.
pub proof fn law_refusal_reads_back(m: Seq<char>) -> (v: Json)
    ensures
        written(v) == json::outcome_json(Err(BatchErrorView::InvalidRequest(m))),
        field(v, "ok"@) == Some(Json::Bool(false)),
        field(v, "status"@) == Some(Json::Text("rolled_back"@)),
        field(v, "error"@) == Some(Json::Text(m)),
{
    lemma_names_differ();
    lemma_first_labels();
    lemma_next_labels();
    lemma_marks();
    let status = Json::Text("rolled_back"@);
    let f1 = seq![("error"@, Json::Text(m))];
    let f2 = f1.push(("ok"@, Json::Bool(false)));
    let f3 = f2.push(("status"@, status));
    lemma_one("error"@, Json::Text(m));
    lemma_one_more(f1, "ok"@, Json::Bool(false));
    lemma_one_more(f2, "status"@, status);
    lemma_closed(f3);
    Json::Record(f3)
}

/// The value of a hexadecimal digit.
pub open spec fn digit_value(c: char) -> Option<int> {
    if '0' <= c <= '9' {
        Some(c as int - 48)
    } else if 'a' <= c <= 'f' {
        Some(c as int - 87)
    } else if 'A' <= c <= 'F' {
        Some(c as int - 55)
    } else {
        None
    }
}

/// The character that a reader of JSON finds behind a backslash, and how long the escape is;
/// of those by number only the ones below 128 are read.
pub open spec fn behind_backslash(d: Seq<char>) -> Option<(char, int)> {
    if d.len() < 2 {
        None
    } else if d[1] == '"' || d[1] == '\\' || d[1] == '/' {
        Some((d[1], 2))
    } else if d[1] == 'b' {
        Some(('\u{8}', 2))
    } else if d[1] == 'f' {
        Some(('\u{c}', 2))
    } else if d[1] == 'n' {
        Some(('\n', 2))
    } else if d[1] == 'r' {
        Some(('\r', 2))
    } else if d[1] == 't' {
        Some(('\t', 2))
    } else if d[1] == 'u' && d.len() >= 6 && d[2] == '0' && d[3] == '0' {
        match (digit_value(d[4]), digit_value(d[5])) {
            (Some(high), Some(low)) if high < 8 => Some(((16 * high + low) as char, 6)),
            _ => None,
        }
    } else {
        None
    }
}

/// What a reader of JSON finds behind an opening quotation mark: the text up to the closing
/// one, and what follows.
pub open spec fn read_text(d: Seq<char>) -> Option<(Seq<char>, Seq<char>)>
    decreases d.len(),
{
    if d.len() == 0 || (d[0] as int) < 32 {
        None
    } else if d[0] == '"' {
        Some((seq![], d.skip(1)))
    } else {
        let first = if d[0] == '\\' {
            behind_backslash(d)
        } else {
            Some((d[0], 1))
        };
        match first {
            Some((c, n)) if 0 < n <= d.len() => match read_text(d.skip(n)) {
                Some((rest, after)) => Some((seq![c] + rest, after)),
                None => None,
            },
            _ => None,
        }
    }
}

/// An escaped character is read back.
proof fn lemma_character_reads_back(c: char, rest: Seq<char>)
    ensures
        ({
            let d = json::escaped(c) + rest;
            &&& d.len() > 0 && d[0] as int >= 32 && d[0] != '"'
            &&& d.skip(json::escaped(c).len() as int) == rest
            &&& d[0] == '\\' ==> behind_backslash(d) == Some((c, json::escaped(c).len() as int))
            &&& d[0] != '\\' ==> d[0] == c && json::escaped(c).len() == 1
            &&& json::escaped(c).len() > 0
        }),
{
    let d = json::escaped(c) + rest;
    assert(d.skip(json::escaped(c).len() as int) =~= rest);
    let e = json::escaped(c);
    assert forall|i: int| 0 <= i < e.len() implies #[trigger] d[i] == e[i] by {};
    if (c as int) < 32 && e.len() == 6 {
        let high = (c as int) / 16;
        let low = (c as int) % 16;
        assert(0 <= high <= 1 && 0 <= low < 16 && 16 * high + low == c as int);
        assert(digit_value(json::hex_digit(high)) == Some(high));
        assert(digit_value(json::hex_digit(low)) == Some(low));
        assert(d[4] == json::hex_digit(high) && d[5] == json::hex_digit(low));
        assert((16 * high + low) as char == c);
    }
}

/// A text is read back from its JSON string, whatever follows.
proof fn lemma_escaped_reads_back(t: Seq<char>, after: Seq<char>)
    ensures
        read_text(json::all_escaped(t) + seq!['"'] + after) == Some((t, after)),
    decreases t.len(),
{
    let d = json::all_escaped(t) + seq!['"'] + after;
    if t.len() == 0 {
        assert(d =~= seq!['"'] + after);
        assert(d.skip(1) =~= after);
    } else {
        lemma_escaped_front(t);
        let rest = json::all_escaped(t.drop_first()) + seq!['"'] + after;
        lemma_escaped_reads_back(t.drop_first(), after);
        assert(d =~= json::escaped(t[0]) + rest);
        lemma_character_reads_back(t[0], rest);
        assert(seq![t[0]] + t.drop_first() =~= t);
    }
}

/// The first character of a text is escaped first.
proof fn lemma_escaped_front(t: Seq<char>)
    requires
        t.len() > 0,
    ensures
        json::all_escaped(t) == json::escaped(t[0]) + json::all_escaped(t.drop_first()),
    decreases t.len(),
{
    if t.len() == 1 {
        assert(t.drop_last() =~= seq![]);
        assert(t.drop_first() =~= seq![]);
        assert(json::all_escaped(t.drop_last()) =~= seq![]);
        assert(json::all_escaped(t.drop_first()) =~= seq![]);
        assert(json::all_escaped(t) =~= json::escaped(t[0]));
    } else {
        lemma_escaped_front(t.drop_last());
        assert(t.drop_first().drop_last() =~= t.drop_last().drop_first());
        assert(t.drop_first().last() == t.last());
        assert(json::all_escaped(t) =~= json::escaped(t[0]) + json::all_escaped(t.drop_first()));
    }
}

/// A reader of JSON reads back from a JSON string the text that it was written for, character
/// by character, and goes on right behind it.
pub proof fn law_text_reads_back(t: Seq<char>, after: Seq<char>)
    ensures
        ({
            let d = json::json_string(t) + after;
            &&& d[0] == '"'
            &&& read_text(d.skip(1)) == Some((t, after))
        }),
{
    let d = json::json_string(t) + after;
    assert(d.skip(1) =~= json::all_escaped(t) + seq!['"'] + after);
    lemma_escaped_reads_back(t, after);
}

} // verus!
