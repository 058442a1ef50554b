//! What a batch gave, as text for people and as JSON for programs.

use crate::text;
use crate::text::{blank, lines_of, push_decimal, right_aligned_text, signed_decimal_text};
use crate::types;
use crate::types::{
    BatchError, BatchErrorView, BatchResult, BatchResultView, EditStatus, EditStatusView,
    VerifyStatus, VerifyStatusView, WriteStatus, WriteStatusView,
};
use vstd::prelude::*;

verus! {

/// How many lines of each output stream of a command the text shows.
pub const SHOWN_LINES: usize = 20;

/// The line for something that failed.
pub open spec fn fail_line(path: Seq<char>, error: Seq<char>) -> Seq<char> {
    "  FAIL  "@ + path + "  ("@ + error + ")\n"@
}

/// The lines, each with `prefix` in front.
pub open spec fn prefixed(prefix: Seq<char>, lines: Seq<Seq<char>>) -> Seq<char>
    decreases lines.len(),
{
    if lines.len() == 0 {
        seq![]
    } else {
        prefixed(prefix, lines.drop_last()) + prefix + lines.last() + "\n"@
    }
}

/// The line for an edit.
pub open spec fn edit_line(e: EditStatusView) -> Seq<char> {
    match (e.error, e.applied) {
        (Some(error), _) => fail_line(e.path, error),
        (None, true) => "  edit  "@ + e.path + "  ("@ + text::decimal(
            match e.replacements {
                Some(n) => n as nat,
                None => 0,
            },
        ) + " replacement(s))\n"@,
        (None, false) => "  edit  "@ + e.path + "  (pending)\n"@,
    }
}

/// An edit: its line, and its preview below.
pub open spec fn edit_text(e: EditStatusView) -> Seq<char> {
    edit_line(e) + match e.diff_preview {
        Some(p) => prefixed("    "@, text::lines(p)),
        None => seq![],
    }
}

/// A write.
pub open spec fn write_text(w: WriteStatusView) -> Seq<char> {
    match w.error {
        Some(error) => fail_line(w.path, error),
        None => if w.applied {
            "  write "@ + w.path + "  "@ + (if w.created_dirs == Some(true) {
                "(dirs created)"@
            } else {
                seq![]
            }) + "\n"@
        } else {
            "  skip  "@ + w.path + "  (superseded)\n"@
        },
    }
}

/// The first lines of an output stream; nothing where it is blank.
pub open spec fn stream_text(prefix: Seq<char>, t: Seq<char>) -> Seq<char> {
    let lines = text::lines(t);
    if text::is_blank(t) {
        seq![]
    } else if lines.len() > SHOWN_LINES {
        prefixed(prefix, lines.take(SHOWN_LINES as int))
    } else {
        prefixed(prefix, lines)
    }
}

/// A command and what it printed.
pub open spec fn verify_text(v: VerifyStatusView) -> Seq<char> {
    "  ["@ + text::right_aligned(text::signed_decimal(v.exit), 3) + "] "@ + v.cmd + "  ("@
        + text::decimal(v.duration_ms as nat) + "ms)\n"@ + stream_text("    out: "@, v.stdout)
        + stream_text("    err: "@, v.stderr)
}

/// The texts of the edits, one after the other.
pub open spec fn edits_text(edits: Seq<EditStatusView>) -> Seq<char>
    decreases edits.len(),
{
    if edits.len() == 0 {
        seq![]
    } else {
        edits_text(edits.drop_last()) + edit_text(edits.last())
    }
}

/// The texts of the writes, one after the other.
pub open spec fn writes_text(writes: Seq<WriteStatusView>) -> Seq<char>
    decreases writes.len(),
{
    if writes.len() == 0 {
        seq![]
    } else {
        writes_text(writes.drop_last()) + write_text(writes.last())
    }
}

/// The texts of the commands, one after the other.
pub open spec fn verifies_text(commands: Seq<VerifyStatusView>) -> Seq<char>
    decreases commands.len(),
{
    if commands.len() == 0 {
        seq![]
    } else {
        verifies_text(commands.drop_last()) + verify_text(commands.last())
    }
}

/// The lines for the edits that failed.
pub open spec fn failed_edits(edits: Seq<EditStatusView>) -> Seq<char>
    decreases edits.len(),
{
    if edits.len() == 0 {
        seq![]
    } else {
        failed_edits(edits.drop_last()) + match edits.last().error {
            Some(error) => fail_line(edits.last().path, error),
            None => seq![],
        }
    }
}

/// The lines for the writes that failed.
pub open spec fn failed_writes(writes: Seq<WriteStatusView>) -> Seq<char>
    decreases writes.len(),
{
    if writes.len() == 0 {
        seq![]
    } else {
        failed_writes(writes.drop_last()) + match writes.last().error {
            Some(error) => fail_line(writes.last().path, error),
            None => seq![],
        }
    }
}

/// The items of a list that may be missing.
pub open spec fn flat<T>(list: Option<Seq<T>>) -> Seq<T> {
    match list {
        Some(items) => items,
        None => seq![],
    }
}

/// The text of what a batch gave.
pub open spec fn outcome_text(res: Result<BatchResultView, BatchErrorView>) -> Seq<char> {
    match res {
        Ok(r) => (if r.status == "applied"@ {
            "OK"@
        } else {
            r.status
        }) + ": "@ + r.status + "\n"@ + edits_text(r.edits) + writes_text(flat(r.writes))
            + verifies_text(flat(r.verify)),
        Err(BatchErrorView::RolledBack(m, edits, writes, _)) => "ROLLED_BACK: "@ + m + "\n"@
            + failed_edits(edits) + failed_writes(flat(writes)),
        Err(BatchErrorView::InvalidRequest(m)) => "INVALID: "@ + m + "\n"@,
    }
}

/// Appends the line for something that failed.
fn push_fail(out: &mut String, path: &String, error: &String)
    ensures
        final(out)@ == old(out)@ + fail_line(path@, error@),
{
    out.append("  FAIL  ");
    out.append(path.as_str());
    out.append("  (");
    out.append(error.as_str());
    out.append(")\n");
    assert(out@ =~= old(out)@ + fail_line(path@, error@));
}

/// Appends the first `n` lines, each with `prefix` in front.
fn push_prefixed(out: &mut String, prefix: &str, lines: &Vec<String>, n: usize)
    requires
        n <= lines@.len(),
    ensures
        final(out)@ == old(out)@ + prefixed(prefix@, lines.deep_view().take(n as int)),
{
    let ghost before = out@;
    let ghost all = lines.deep_view();
    let mut i: usize = 0;
    assert(out@ =~= before + prefixed(prefix@, all.take(0)));
    while i < n
        invariant
            i <= n <= lines@.len(),
            all == lines.deep_view(),
            out@ == before + prefixed(prefix@, all.take(i as int)),
        decreases n - i,
    {
        out.append(prefix);
        out.append(lines[i].as_str());
        out.append("\n");
        i = i + 1;
        assert(all.take(i as int).drop_last() =~= all.take(i - 1));
        assert(all.take(i as int).last() == lines@[i - 1]@);
        assert(out@ =~= before + prefixed(prefix@, all.take(i as int)));
    }
}

/// Appends an edit.
fn push_edit(out: &mut String, e: &EditStatus)
    ensures
        final(out)@ == old(out)@ + edit_text(e.deep_view()),
{
    match (&e.error, e.applied) {
        (Some(error), _) => {
            push_fail(out, &e.path, error);
        },
        (None, true) => {
            let n: usize = match e.replacements {
                Some(n) => n,
                None => 0,
            };
            out.append("  edit  ");
            out.append(e.path.as_str());
            out.append("  (");
            push_decimal(out, n as u128);
            out.append(" replacement(s))\n");
        },
        (None, false) => {
            out.append("  edit  ");
            out.append(e.path.as_str());
            out.append("  (pending)\n");
        },
    }
    assert(out@ =~= old(out)@ + edit_line(e.deep_view()));
    if let Some(p) = &e.diff_preview {
        let lines = lines_of(p.as_str());
        push_prefixed(out, "    ", &lines, lines.len());
        assert(lines.deep_view().take(lines@.len() as int) =~= text::lines(p@));
    }
    assert(out@ =~= old(out)@ + edit_text(e.deep_view()));
}

/// Appends a write.
fn push_write(out: &mut String, w: &WriteStatus)
    ensures
        final(out)@ == old(out)@ + write_text(w.deep_view()),
{
    match &w.error {
        Some(error) => {
            push_fail(out, &w.path, error);
        },
        None => {
            if w.applied {
                out.append("  write ");
                out.append(w.path.as_str());
                out.append("  ");
                if let Some(true) = w.created_dirs {
                    out.append("(dirs created)");
                }
                out.append("\n");
            } else {
                out.append("  skip  ");
                out.append(w.path.as_str());
                out.append("  (superseded)\n");
            }
        },
    }
    assert(out@ =~= old(out)@ + write_text(w.deep_view()));
}

/// Appends the first lines of an output stream.
fn push_stream(out: &mut String, prefix: &str, t: &String)
    ensures
        final(out)@ == old(out)@ + stream_text(prefix@, t@),
{
    if !blank(t.as_str()) {
        let lines = lines_of(t.as_str());
        let n: usize = if lines.len() > SHOWN_LINES {
            SHOWN_LINES
        } else {
            lines.len()
        };
        push_prefixed(out, prefix, &lines, n);
        assert(lines.deep_view().take(lines@.len() as int) =~= lines.deep_view());
    }
    assert(out@ =~= old(out)@ + stream_text(prefix@, t@));
}

/// Appends a command and what it printed.
fn push_verify(out: &mut String, v: &VerifyStatus)
    ensures
        final(out)@ == old(out)@ + verify_text(v.deep_view()),
{
    let exit = right_aligned_text(signed_decimal_text(v.exit), 3);
    out.append("  [");
    out.append(exit.as_str());
    out.append("] ");
    out.append(v.cmd.as_str());
    out.append("  (");
    push_decimal(out, v.duration_ms);
    out.append("ms)\n");
    push_stream(out, "    out: ", &v.stdout);
    push_stream(out, "    err: ", &v.stderr);
    assert(out@ =~= old(out)@ + verify_text(v.deep_view()));
}

/// Appends the edits.
fn push_edits(out: &mut String, edits: &Vec<EditStatus>)
    ensures
        final(out)@ == old(out)@ + edits_text(edits.deep_view()),
{
    let ghost before = out@;
    let ghost all = edits.deep_view();
    let mut i: usize = 0;
    assert(out@ =~= before + edits_text(all.take(0)));
    while i < edits.len()
        invariant
            i <= edits@.len(),
            all == edits.deep_view(),
            out@ == before + edits_text(all.take(i as int)),
        decreases edits@.len() - i,
    {
        push_edit(out, &edits[i]);
        i = i + 1;
        assert(all.take(i as int).drop_last() =~= all.take(i - 1));
        assert(all.take(i as int).last() == edits@[i - 1].deep_view());
        assert(out@ =~= before + edits_text(all.take(i as int)));
    }
    assert(all.take(i as int) =~= all);
}

/// Appends the writes.
fn push_writes(out: &mut String, writes: &Vec<WriteStatus>)
    ensures
        final(out)@ == old(out)@ + writes_text(writes.deep_view()),
{
    let ghost before = out@;
    let ghost all = writes.deep_view();
    let mut i: usize = 0;
    assert(out@ =~= before + writes_text(all.take(0)));
    while i < writes.len()
        invariant
            i <= writes@.len(),
            all == writes.deep_view(),
            out@ == before + writes_text(all.take(i as int)),
        decreases writes@.len() - i,
    {
        push_write(out, &writes[i]);
        i = i + 1;
        assert(all.take(i as int).drop_last() =~= all.take(i - 1));
        assert(all.take(i as int).last() == writes@[i - 1].deep_view());
        assert(out@ =~= before + writes_text(all.take(i as int)));
    }
    assert(all.take(i as int) =~= all);
}

/// Appends the commands.
fn push_verifies(out: &mut String, commands: &Vec<VerifyStatus>)
    ensures
        final(out)@ == old(out)@ + verifies_text(commands.deep_view()),
{
    let ghost before = out@;
    let ghost all = commands.deep_view();
    let mut i: usize = 0;
    assert(out@ =~= before + verifies_text(all.take(0)));
    while i < commands.len()
        invariant
            i <= commands@.len(),
            all == commands.deep_view(),
            out@ == before + verifies_text(all.take(i as int)),
        decreases commands@.len() - i,
    {
        push_verify(out, &commands[i]);
        i = i + 1;
        assert(all.take(i as int).drop_last() =~= all.take(i - 1));
        assert(all.take(i as int).last() == commands@[i - 1].deep_view());
        assert(out@ =~= before + verifies_text(all.take(i as int)));
    }
    assert(all.take(i as int) =~= all);
}

/// Appends the lines for the edits that failed.
fn push_failed_edits(out: &mut String, edits: &Vec<EditStatus>)
    ensures
        final(out)@ == old(out)@ + failed_edits(edits.deep_view()),
{
    let ghost before = out@;
    let ghost all = edits.deep_view();
    let mut i: usize = 0;
    assert(out@ =~= before + failed_edits(all.take(0)));
    while i < edits.len()
        invariant
            i <= edits@.len(),
            all == edits.deep_view(),
            out@ == before + failed_edits(all.take(i as int)),
        decreases edits@.len() - i,
    {
        if let Some(error) = &edits[i].error {
            push_fail(out, &edits[i].path, error);
        }
        i = i + 1;
        assert(all.take(i as int).drop_last() =~= all.take(i - 1));
        assert(all.take(i as int).last() == edits@[i - 1].deep_view());
        assert(out@ =~= before + failed_edits(all.take(i as int)));
    }
    assert(all.take(i as int) =~= all);
}

/// Appends the lines for the writes that failed.
fn push_failed_writes(out: &mut String, writes: &Vec<WriteStatus>)
    ensures
        final(out)@ == old(out)@ + failed_writes(writes.deep_view()),
{
    let ghost before = out@;
    let ghost all = writes.deep_view();
    let mut i: usize = 0;
    assert(out@ =~= before + failed_writes(all.take(0)));
    while i < writes.len()
        invariant
            i <= writes@.len(),
            all == writes.deep_view(),
            out@ == before + failed_writes(all.take(i as int)),
        decreases writes@.len() - i,
    {
        if let Some(error) = &writes[i].error {
            push_fail(out, &writes[i].path, error);
        }
        i = i + 1;
        assert(all.take(i as int).drop_last() =~= all.take(i - 1));
        assert(all.take(i as int).last() == writes@[i - 1].deep_view());
        assert(out@ =~= before + failed_writes(all.take(i as int)));
    }
    assert(all.take(i as int) =~= all);
}

/// Human-readable text of what a batch gave.
pub fn result_to_text(res: &Result<BatchResult, BatchError>) -> (out: String)
    ensures
        out@ == outcome_text(types::outcome_view(*res)),
{
    let mut out = String::new();
    match res {
        Ok(r) => {
            if r.status == "applied".to_owned() {
                out.append("OK");
            } else {
                out.append(r.status.as_str());
            }
            out.append(": ");
            out.append(r.status.as_str());
            out.append("\n");
            push_edits(&mut out, &r.edits);
            if let Some(writes) = &r.writes {
                push_writes(&mut out, writes);
            }
            if let Some(commands) = &r.verify {
                push_verifies(&mut out, commands);
            }
        },
        Err(BatchError::RolledBack(m, edits, writes, _)) => {
            out.append("ROLLED_BACK: ");
            out.append(m.as_str());
            out.append("\n");
            push_failed_edits(&mut out, edits);
            if let Some(w) = writes {
                push_failed_writes(&mut out, w);
            }
        },
        Err(BatchError::InvalidRequest(m)) => {
            out.append("INVALID: ");
            out.append(m.as_str());
            out.append("\n");
        },
    }
    assert(out@ =~= outcome_text(types::outcome_view(*res)));
    out
}

/// The exit code for what a batch gave: zero where it went through, or where a dry run
/// found nothing that would fail.
pub open spec fn exit_status(res: Result<BatchResultView, BatchErrorView>) -> int {
    match res {
        Ok(r) => if r.ok {
            0
        } else {
            1
        },
        Err(_) => 1,
    }
}

/// The exit code for what a batch gave.
pub fn exit_code(res: &Result<BatchResult, BatchError>) -> (code: u8)
    ensures
        code == exit_status(types::outcome_view(*res)),
{
    match res {
        Ok(r) => {
            if r.ok {
                0
            } else {
                1
            }
        },
        Err(_) => 1,
    }
}

/// The first `n` lines, each on a line of its own behind `prefix`.
pub open spec fn shown_lines(prefix: Seq<char>, lines: Seq<Seq<char>>, n: nat) -> Seq<Seq<char>> {
    Seq::new(n, |i: int| prefix + lines[i] + "\n"@)
}

/// The block shows the edit: a line with its path and its error, or its path and the number
/// of replacements, or its path and that it is pending; and every line of its preview.
pub open spec fn shows_edit(block: Seq<char>, e: EditStatusView) -> bool {
    let line = match e.error {
        Some(error) => "  FAIL  "@ + e.path + "  ("@ + error + ")\n"@,
        None => if !e.applied {
            "  edit  "@ + e.path + "  (pending)\n"@
        } else {
            "  edit  "@ + e.path + "  ("@ + text::decimal(
                if e.replacements is Some {
                    e.replacements->0 as nat
                } else {
                    0
                },
            ) + " replacement(s))\n"@
        },
    };
    match e.diff_preview {
        Some(p) => block == line + text::stacked(
            shown_lines("    "@, text::lines(p), text::lines(p).len()),
        ),
        None => block == line,
    }
}

/// The block shows the write: its path and its error, or its path and whether directories
/// were created, or its path and that it is superseded.
pub open spec fn shows_write(block: Seq<char>, w: WriteStatusView) -> bool {
    block == match w.error {
        Some(error) => "  FAIL  "@ + w.path + "  ("@ + error + ")\n"@,
        None => if !w.applied {
            "  skip  "@ + w.path + "  (superseded)\n"@
        } else if w.created_dirs == Some(true) {
            "  write "@ + w.path + "  "@ + "(dirs created)"@ + "\n"@
        } else {
            "  write "@ + w.path + "  "@ + Seq::<char>::empty() + "\n"@
        },
    }
}

/// The first twenty lines of an output stream, unless there is nothing but white space in it.
pub open spec fn shown_stream(prefix: Seq<char>, t: Seq<char>) -> Seq<Seq<char>> {
    let n = text::lines(t).len();
    if exists|i: int| 0 <= i < t.len() && !text::is_white_space(#[trigger] t[i]) {
        shown_lines(
            prefix,
            text::lines(t),
            if n > 20 {
                20
            } else {
                n
            },
        )
    } else {
        seq![]
    }
}

/// The block shows the command: a line with its exit code, set to the right in three
/// characters, the command and how long it took; and the first lines of what it printed.
pub open spec fn shows_command(block: Seq<char>, v: VerifyStatusView) -> bool {
    block == "  ["@ + text::right_aligned(text::signed_decimal(v.exit), 3) + "] "@ + v.cmd + "  ("@
        + text::decimal(v.duration_ms as nat) + "ms)\n"@ + text::stacked(
        shown_stream("    out: "@, v.stdout),
    ) + text::stacked(shown_stream("    err: "@, v.stderr))
}

/// The block shows what failed, and nothing where nothing did.
pub open spec fn shows_failure(
    block: Seq<char>,
    path: Seq<char>,
    error: Option<Seq<char>>,
) -> bool {
    block == match error {
        Some(e) => "  FAIL  "@ + path + "  ("@ + e + ")\n"@,
        None => seq![],
    }
}

/// Lines behind a prefix are stacked lines.
proof fn lemma_prefixed(prefix: Seq<char>, lines: Seq<Seq<char>>, n: nat)
    requires
        n <= lines.len(),
    ensures
        prefixed(prefix, lines.take(n as int)) == text::stacked(shown_lines(prefix, lines, n)),
    decreases n,
{
    if n > 0 {
        let m = (n - 1) as nat;
        lemma_prefixed(prefix, lines, m);
        assert(lines.take(n as int).drop_last() =~= lines.take(m as int));
        assert(shown_lines(prefix, lines, n).drop_last() =~= shown_lines(prefix, lines, m));
        assert(prefixed(prefix, lines.take(n as int)) =~= text::stacked(shown_lines(prefix, lines, m)) + (
        prefix + lines[m as int] + "\n"@));
    }
}

/// What is printed of a stream is its shown lines.
proof fn lemma_stream(prefix: Seq<char>, t: Seq<char>)
    ensures
        stream_text(prefix, t) == text::stacked(shown_stream(prefix, t)),
{
    let lines = text::lines(t);
    if exists|i: int| 0 <= i < t.len() && !text::is_white_space(#[trigger] t[i]) {
        let n = if lines.len() > 20 {
            20nat
        } else {
            lines.len()
        };
        lemma_prefixed(prefix, lines, n);
        assert(lines.take(lines.len() as int) =~= lines);
    }
}

/// The edits are shown one below the other.
proof fn lemma_edit_blocks(edits: Seq<EditStatusView>) -> (blocks: Seq<Seq<char>>)
    ensures
        blocks.len() == edits.len(),
        text::stacked(blocks) == edits_text(edits),
        forall|k: int| 0 <= k < edits.len() ==> shows_edit(#[trigger] blocks[k], edits[k]),
    decreases edits.len(),
{
    if edits.len() == 0 {
        seq![]
    } else {
        let front = lemma_edit_blocks(edits.drop_last());
        let e = edits.last();
        let block = edit_text(e);
        if e.diff_preview is Some {
            let lines = text::lines(e.diff_preview->0);
            lemma_prefixed("    "@, lines, lines.len());
            assert(lines.take(lines.len() as int) =~= lines);
        } else {
            assert(edit_line(e) + Seq::<char>::empty() =~= edit_line(e));
        }
        let blocks = front.push(block);
        assert(blocks.drop_last() =~= front);
        assert(shows_edit(block, e));
        assert forall|k: int| 0 <= k < edits.len() implies shows_edit(
            #[trigger] blocks[k],
            edits[k],
        ) by {
            if k < front.len() {
                assert(blocks[k] == front[k]);
                assert(edits.drop_last()[k] == edits[k]);
            }
        }
        blocks
    }
}

/// The writes are shown one below the other.
proof fn lemma_write_blocks(writes: Seq<WriteStatusView>) -> (blocks: Seq<Seq<char>>)
    ensures
        blocks.len() == writes.len(),
        text::stacked(blocks) == writes_text(writes),
        forall|k: int| 0 <= k < writes.len() ==> shows_write(#[trigger] blocks[k], writes[k]),
    decreases writes.len(),
{
    if writes.len() == 0 {
        seq![]
    } else {
        let front = lemma_write_blocks(writes.drop_last());
        let block = write_text(writes.last());
        let blocks = front.push(block);
        assert(blocks.drop_last() =~= front);
        assert(shows_write(block, writes.last()));
        assert forall|k: int| 0 <= k < writes.len() implies shows_write(
            #[trigger] blocks[k],
            writes[k],
        ) by {
            if k < front.len() {
                assert(blocks[k] == front[k]);
                assert(writes.drop_last()[k] == writes[k]);
            }
        }
        blocks
    }
}

/// The commands are shown one below the other.
proof fn lemma_command_blocks(commands: Seq<VerifyStatusView>) -> (blocks: Seq<Seq<char>>)
    ensures
        blocks.len() == commands.len(),
        text::stacked(blocks) == verifies_text(commands),
        forall|k: int| 0 <= k < commands.len() ==> shows_command(#[trigger] blocks[k], commands[k]),
    decreases commands.len(),
{
    if commands.len() == 0 {
        seq![]
    } else {
        let front = lemma_command_blocks(commands.drop_last());
        let v = commands.last();
        let block = verify_text(v);
        lemma_stream("    out: "@, v.stdout);
        lemma_stream("    err: "@, v.stderr);
        let blocks = front.push(block);
        assert(blocks.drop_last() =~= front);
        assert(shows_command(block, v));
        assert forall|k: int| 0 <= k < commands.len() implies shows_command(
            #[trigger] blocks[k],
            commands[k],
        ) by {
            if k < front.len() {
                assert(blocks[k] == front[k]);
                assert(commands.drop_last()[k] == commands[k]);
            }
        }
        blocks
    }
}

/// The failures among edits are shown one below the other.
proof fn lemma_failed_edit_blocks(edits: Seq<EditStatusView>) -> (blocks: Seq<Seq<char>>)
    ensures
        blocks.len() == edits.len(),
        text::stacked(blocks) == failed_edits(edits),
        forall|k: int|
            0 <= k < edits.len() ==> shows_failure(
                #[trigger] blocks[k],
                edits[k].path,
                edits[k].error,
            ),
    decreases edits.len(),
{
    if edits.len() == 0 {
        seq![]
    } else {
        let front = lemma_failed_edit_blocks(edits.drop_last());
        let e = edits.last();
        let block = match e.error {
            Some(error) => fail_line(e.path, error),
            None => seq![],
        };
        let blocks = front.push(block);
        assert(blocks.drop_last() =~= front);
        assert forall|k: int| 0 <= k < edits.len() implies shows_failure(
            #[trigger] blocks[k],
            edits[k].path,
            edits[k].error,
        ) by {
            if k < front.len() {
                assert(blocks[k] == front[k]);
                assert(edits.drop_last()[k] == edits[k]);
            }
        }
        blocks
    }
}

/// The failures among writes are shown one below the other.
proof fn lemma_failed_write_blocks(writes: Seq<WriteStatusView>) -> (blocks: Seq<Seq<char>>)
    ensures
        blocks.len() == writes.len(),
        text::stacked(blocks) == failed_writes(writes),
        forall|k: int|
            0 <= k < writes.len() ==> shows_failure(
                #[trigger] blocks[k],
                writes[k].path,
                writes[k].error,
            ),
    decreases writes.len(),
{
    if writes.len() == 0 {
        seq![]
    } else {
        let front = lemma_failed_write_blocks(writes.drop_last());
        let w = writes.last();
        let block = match w.error {
            Some(error) => fail_line(w.path, error),
            None => seq![],
        };
        let blocks = front.push(block);
        assert(blocks.drop_last() =~= front);
        assert forall|k: int| 0 <= k < writes.len() implies shows_failure(
            #[trigger] blocks[k],
            writes[k].path,
            writes[k].error,
        ) by {
            if k < front.len() {
                assert(blocks[k] == front[k]);
                assert(writes.drop_last()[k] == writes[k]);
            }
        }
        blocks
    }
}

/// The text of a result shows everything, whatever the status: below a line with the status
/// stand a block for every edit, a block for every write and a block for every command, each
/// in order, and nothing else.
pub proof fn law_text_shows_everything(r: BatchResultView) -> (blocks: (
    Seq<Seq<char>>,
    Seq<Seq<char>>,
    Seq<Seq<char>>,
))
    ensures
        blocks.0.len() == r.edits.len(),
        forall|k: int| 0 <= k < r.edits.len() ==> shows_edit(#[trigger] blocks.0[k], r.edits[k]),
        match r.writes {
            Some(ws) => blocks.1.len() == ws.len() && forall|k: int|
                0 <= k < ws.len() ==> shows_write(#[trigger] blocks.1[k], ws[k]),
            None => blocks.1.len() == 0,
        },
        match r.verify {
            Some(vs) => blocks.2.len() == vs.len() && forall|k: int|
                0 <= k < vs.len() ==> shows_command(#[trigger] blocks.2[k], vs[k]),
            None => blocks.2.len() == 0,
        },
        r.status == "applied"@ ==> outcome_text(Ok(r)) == "OK: "@ + r.status + "\n"@ + text::stacked(
            blocks.0 + blocks.1 + blocks.2,
        ),
        r.status != "applied"@ ==> outcome_text(Ok(r)) == r.status + ": "@ + r.status + "\n"@
            + text::stacked(blocks.0 + blocks.1 + blocks.2),
{
    let a = lemma_edit_blocks(r.edits);
    let b = lemma_write_blocks(flat(r.writes));
    let c = lemma_command_blocks(flat(r.verify));
    text::lemma_stacked_concat(a + b, c);
    text::lemma_stacked_concat(a, b);
    reveal_strlit("OK");
    reveal_strlit(": ");
    reveal_strlit("OK: ");
    assert("OK"@ + ": "@ =~= "OK: "@);
    let head = (if r.status == "applied"@ {
        "OK"@
    } else {
        r.status
    }) + ": "@ + r.status + "\n"@;
    assert(outcome_text(Ok(r)) =~= head + text::stacked(a + b + c));
    (a, b, c)
}

/// The text of an error shows its message, and every edit and every write that failed, in
/// order, and nothing else.
pub proof fn law_text_shows_every_failure(e: BatchErrorView) -> (blocks: (
    Seq<Seq<char>>,
    Seq<Seq<char>>,
))
    ensures
        match e {
            BatchErrorView::RolledBack(m, edits, writes, _) => {
                &&& outcome_text(Err(e)) == "ROLLED_BACK: "@ + m + "\n"@ + text::stacked(
                    blocks.0 + blocks.1,
                )
                &&& blocks.0.len() == edits.len() && forall|k: int|
                    0 <= k < edits.len() ==> shows_failure(
                        #[trigger] blocks.0[k],
                        edits[k].path,
                        edits[k].error,
                    )
                &&& match writes {
                    Some(ws) => blocks.1.len() == ws.len() && forall|k: int|
                        0 <= k < ws.len() ==> shows_failure(
                            #[trigger] blocks.1[k],
                            ws[k].path,
                            ws[k].error,
                        ),
                    None => blocks.1.len() == 0,
                }
            },
            BatchErrorView::InvalidRequest(m) => outcome_text(Err(e)) == "INVALID: "@ + m + "\n"@,
        },
{
    match e {
        BatchErrorView::RolledBack(m, edits, writes, _) => {
            let a = lemma_failed_edit_blocks(edits);
            let b = lemma_failed_write_blocks(flat(writes));
            text::lemma_stacked_concat(a, b);
            assert(outcome_text(Err(e)) =~= "ROLLED_BACK: "@ + m + "\n"@ + text::stacked(a + b));
            (a, b)
        },
        BatchErrorView::InvalidRequest(_) => (seq![], seq![]),
    }
}

/// The exit code is zero exactly for a result that is fine; otherwise it is one.
pub proof fn law_exit_code(res: Result<BatchResultView, BatchErrorView>)
    ensures
        exit_status(res) == 0 <==> (res matches Ok(r) && r.ok),
        exit_status(res) == 0 || exit_status(res) == 1,
{
}

} // verus!
