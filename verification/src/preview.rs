//! Small unified-ish diff preview (first changed hunk, about a dozen lines) purely
//! for eyeballing, not a real diff engine.

use crate::matching;
use crate::text;
use crate::text::{byte_len, chars_of, lines_of, string_of};
use vstd::prelude::*;

verus! {

/// How many equal lines are shown.
pub const CONTEXT_LINES: usize = 3;

/// At this weight the preview ends. An equal line that is shown weighs one.
pub const FULL_WEIGHT: usize = 12;

/// What a changed line weighs.
pub const CHANGE_WEIGHT: usize = 3;

/// Previews larger than this (bytes) are cut.
pub const MAX_PREVIEW_BYTES: usize = 800;

/// Line `k` is there on both sides, and the same.
pub open spec fn same_line(old: Seq<Seq<char>>, new: Seq<Seq<char>>, k: int) -> bool {
    k < old.len() && k < new.len() && old[k] == new[k]
}

/// A line of the preview: the mark, the line `k` of `ls` and a line feed; nothing
/// where there is no such line.
pub open spec fn marked(mark: Seq<char>, ls: Seq<Seq<char>>, k: int) -> Seq<char> {
    if k < ls.len() {
        mark + ls[k] + "\n"@
    } else {
        seq![]
    }
}

/// What the preview shows of a line that has changed.
pub open spec fn changed_row(old: Seq<Seq<char>>, new: Seq<Seq<char>>, k: int) -> Seq<char> {
    marked("- "@, old, k) + marked("+ "@, new, k)
}

/// The first line, from `k` on, that is not the same on both sides; where all are the same,
/// the end.
pub open spec fn first_change(old: Seq<Seq<char>>, new: Seq<Seq<char>>, k: int) -> int
    decreases old.len() - k,
{
    if same_line(old, new, k) {
        first_change(old, new, k + 1)
    } else {
        k
    }
}

/// The first `n` lines, which are the same on both sides.
pub open spec fn context(old: Seq<Seq<char>>, n: int) -> Seq<char>
    decreases n,
{
    if n <= 0 {
        seq![]
    } else {
        context(old, n - 1) + marked("  "@, old, n - 1)
    }
}

/// The changed lines from line `k` on: until the preview is full, a line is the same on both
/// sides again, or both sides are at their end. What stands before weighs `weight`.
pub open spec fn changes(old: Seq<Seq<char>>, new: Seq<Seq<char>>, k: int, weight: int) -> Seq<char>
    decreases FULL_WEIGHT + CHANGE_WEIGHT - weight,
{
    if weight >= FULL_WEIGHT || same_line(old, new, k) || (k >= old.len() && k >= new.len()) {
        seq![]
    } else {
        changed_row(old, new, k) + changes(old, new, k + 1, weight + CHANGE_WEIGHT)
    }
}

/// How many equal lines are shown before a change at line `k`.
pub open spec fn shown_before(k: int) -> int {
    if k < CONTEXT_LINES {
        k
    } else {
        CONTEXT_LINES as int
    }
}

/// The first changed hunk, after the first few of the equal lines that stand before it.
pub open spec fn hunk(old: Seq<Seq<char>>, new: Seq<Seq<char>>) -> Seq<char> {
    let k = first_change(old, new, 0);
    context(old, shown_before(k)) + changes(old, new, k, shown_before(k))
}

/// The number of bytes that `c` takes in UTF-8.
pub open spec fn char_width(c: char) -> nat {
    vstd::utf8::encode_scalar(c as u32).len()
}

/// The end of the longest run of characters of `t`, from `i` on, that fits into
/// `room` bytes.
pub open spec fn fit_end(t: Seq<char>, i: int, room: int) -> int
    decreases t.len() - i,
{
    if i >= t.len() || char_width(t[i]) > room {
        i
    } else {
        fit_end(t, i + 1, room - char_width(t[i]))
    }
}

/// `t`, or what fits into [`MAX_PREVIEW_BYTES`] and a mark that more was there.
pub open spec fn cut(t: Seq<char>) -> Seq<char> {
    if vstd::utf8::encode_utf8(t).len() > MAX_PREVIEW_BYTES {
        t.subrange(0, fit_end(t, 0, MAX_PREVIEW_BYTES as int)) + "...\n"@
    } else {
        t
    }
}

/// The preview of the change from `old` to `new`.
pub open spec fn preview(old: Seq<char>, new: Seq<char>) -> Seq<char> {
    cut(hunk(text::lines(old), text::lines(new)))
}

/// The number of bytes that `c` takes in UTF-8.
fn width_of(c: char) -> (n: usize)
    ensures
        n == char_width(c),
{
    let u: u32 = c as u32;
    if u <= 0x7f {
        1
    } else if u <= 0x7ff {
        2
    } else if u <= 0xffff {
        3
    } else {
        4
    }
}

/// A run that fits lies inside the text.
proof fn lemma_fit_end(t: Seq<char>, i: int, room: int)
    requires
        0 <= i <= t.len(),
        0 <= room,
    ensures
        i <= fit_end(t, i, room) <= t.len(),
        vstd::utf8::encode_utf8(t.subrange(i, fit_end(t, i, room))).len() <= room,
    decreases t.len() - i,
{
    if i >= t.len() || char_width(t[i]) > room {
        assert(t.subrange(i, i) =~= seq![]);
    } else {
        let end = fit_end(t, i, room);
        lemma_fit_end(t, i + 1, room - char_width(t[i]));
        assert(t.subrange(i, end).drop_first() =~= t.subrange(i + 1, end));
    }
}

/// `t`, or what fits into [`MAX_PREVIEW_BYTES`] and a mark that more was there.
fn cut_text(t: String) -> (out: String)
    ensures
        out@ == cut(t@),
{
    if byte_len(t.as_str()) <= MAX_PREVIEW_BYTES {
        return t;
    }
    let chars = chars_of(t.as_str());
    let mut i: usize = 0;
    let mut room: usize = MAX_PREVIEW_BYTES;
    while i < chars.len() && width_of(chars[i]) <= room
        invariant
            chars@ == t@,
            i <= chars@.len(),
            fit_end(t@, i as int, room as int) == fit_end(t@, 0, MAX_PREVIEW_BYTES as int),
        decreases chars@.len() - i,
    {
        room = room - width_of(chars[i]);
        i = i + 1;
    }
    let mut out = string_of(&chars, 0, i);
    out.append("...\n");
    out
}

/// Appends the mark, the line and a line feed.
fn push_marked(out: &mut String, mark: &str, line: &str)
    ensures
        final(out)@ == old(out)@ + (mark@ + line@ + "\n"@),
{
    out.append(mark);
    out.append(line);
    out.append("\n");
}

/// Whether line `k` is there on both sides, and the same.
fn unchanged(old_lines: &Vec<String>, new_lines: &Vec<String>, k: usize) -> (b: bool)
    ensures
        b == same_line(old_lines.deep_view(), new_lines.deep_view(), k as int),
{
    k < old_lines.len() && k < new_lines.len() && old_lines[k] == new_lines[k]
}

/// Appends the equal lines before the first change; gives the number of that change and how
/// many lines were shown.
fn push_context(out: &mut String, old_lines: &Vec<String>, new_lines: &Vec<String>) -> (r: (
    usize,
    usize,
))
    ensures
        r.0 == first_change(old_lines.deep_view(), new_lines.deep_view(), 0),
        r.1 == shown_before(r.0 as int),
        r.0 <= old_lines.len(),
        r.0 <= new_lines.len(),
        final(out)@ == old(out)@ + context(old_lines.deep_view(), r.1 as int),
{
    let ghost before = out@;
    let ghost a = old_lines.deep_view();
    let ghost b = new_lines.deep_view();
    let mut k: usize = 0;
    let mut shown: usize = 0;
    assert(out@ =~= before + context(a, 0));
    while unchanged(old_lines, new_lines, k)
        invariant
            a == old_lines.deep_view(),
            b == new_lines.deep_view(),
            k <= old_lines.len(),
            k <= new_lines.len(),
            first_change(a, b, k as int) == first_change(a, b, 0),
            shown == shown_before(k as int),
            out@ == before + context(a, shown as int),
        decreases a.len() - k,
    {
        if shown < CONTEXT_LINES {
            push_marked(out, "  ", old_lines[k].as_str());
            shown = shown + 1;
            assert(out@ =~= before + context(a, shown as int));
        }
        k = k + 1;
    }
    (k, shown)
}

/// The preview of the change from `old` to `new`.
pub fn diff_preview(old: &str, new: &str) -> (out: String)
    ensures
        out@ == preview(old@, new@),
{
    let old_lines = lines_of(old);
    let new_lines = lines_of(new);
    let ghost a = old_lines.deep_view();
    let ghost b = new_lines.deep_view();
    let mut out = String::new();
    let (first, shown) = push_context(&mut out, &old_lines, &new_lines);
    let mut k: usize = first;
    let mut weight: usize = shown;
    assert(out@ + changes(a, b, k as int, weight as int) =~= hunk(a, b));
    while weight < FULL_WEIGHT && !unchanged(&old_lines, &new_lines, k) && (k < old_lines.len() || k
        < new_lines.len())
        invariant
            a == old_lines.deep_view(),
            b == new_lines.deep_view(),
            a == text::lines(old@),
            b == text::lines(new@),
            k <= old_lines.len() || k <= new_lines.len(),
            weight <= FULL_WEIGHT + CHANGE_WEIGHT,
            out@ + changes(a, b, k as int, weight as int) == hunk(a, b),
        decreases FULL_WEIGHT + CHANGE_WEIGHT - weight,
    {
        let ghost before = out@;
        if k < old_lines.len() {
            push_marked(&mut out, "- ", old_lines[k].as_str());
        }
        if k < new_lines.len() {
            push_marked(&mut out, "+ ", new_lines[k].as_str());
        }
        assert(out@ =~= before + changed_row(a, b, k as int));
        assert(before + changes(a, b, k as int, weight as int) =~= out@ + changes(
            a,
            b,
            k + 1,
            weight + CHANGE_WEIGHT,
        ));
        k = k + 1;
        weight = weight + CHANGE_WEIGHT;
    }
    assert(out@ =~= hunk(a, b));
    cut_text(out)
}

/// A preview takes at most [`MAX_PREVIEW_BYTES`] bytes, and four more where it was
/// cut.
pub proof fn law_preview_is_small(old: Seq<char>, new: Seq<char>)
    ensures
        vstd::utf8::encode_utf8(preview(old, new)).len() <= MAX_PREVIEW_BYTES + 4,
{
    let t = hunk(text::lines(old), text::lines(new));
    if vstd::utf8::encode_utf8(t).len() > MAX_PREVIEW_BYTES {
        let end = fit_end(t, 0, MAX_PREVIEW_BYTES as int);
        lemma_fit_end(t, 0, MAX_PREVIEW_BYTES as int);
        matching::lemma_encode_concat(t.subrange(0, end), "...\n"@);
        reveal_strlit("...\n");
        assert(vstd::utf8::is_ascii_chars("...\n"@));
        vstd::utf8::is_ascii_chars_encode_utf8("...\n"@);
    }
}

/// A run of characters of exactly `room` bytes is the one that fits.
proof fn lemma_fit_exact(t: Seq<char>, i: int, n: int, room: int)
    requires
        0 <= i <= n <= t.len(),
        vstd::utf8::encode_utf8(t.subrange(i, n)).len() == room,
    ensures
        fit_end(t, i, room) == n,
    decreases n - i,
{
    if i == n {
        assert(t.subrange(i, n) =~= seq![]);
    } else {
        assert(t.subrange(i, n).drop_first() =~= t.subrange(i + 1, n));
        lemma_fit_exact(t, i + 1, n, room - char_width(t[i]));
    }
}

/// Where the limit falls between two characters, a preview that is too large is cut
/// exactly there.
pub proof fn law_cut_between_characters(t: Seq<char>, n: int)
    requires
        0 <= n <= t.len(),
        vstd::utf8::encode_utf8(t.take(n)).len() == MAX_PREVIEW_BYTES,
        vstd::utf8::encode_utf8(t).len() > MAX_PREVIEW_BYTES,
    ensures
        cut(t) == t.take(n) + "...\n"@,
{
    assert(t.take(n) =~= t.subrange(0, n));
    lemma_fit_exact(t, 0, n, MAX_PREVIEW_BYTES as int);
}

/// The rows of the changed lines `from..to`.
pub open spec fn rows(old: Seq<Seq<char>>, new: Seq<Seq<char>>, from: int, to: int) -> Seq<char>
    decreases to - from,
{
    if from >= to {
        seq![]
    } else {
        changed_row(old, new, from) + rows(old, new, from + 1, to)
    }
}

/// Where the changed lines that are shown end.
proof fn lemma_changes_end(
    old: Seq<Seq<char>>,
    new: Seq<Seq<char>>,
    k: int,
    weight: int,
) -> (end: int)
    requires
        0 <= k,
    ensures
        k <= end,
        changes(old, new, k, weight) == rows(old, new, k, end),
        forall|i: int| k <= i < end ==> !same_line(old, new, i),
        weight + CHANGE_WEIGHT * (end - k) >= FULL_WEIGHT || same_line(old, new, end) || (end
            >= old.len() && end >= new.len()),
        end > k ==> weight + CHANGE_WEIGHT * (end - k - 1) < FULL_WEIGHT,
        end <= k || end <= old.len() || end <= new.len(),
    decreases FULL_WEIGHT + CHANGE_WEIGHT - weight,
{
    if weight >= FULL_WEIGHT || same_line(old, new, k) || (k >= old.len() && k >= new.len()) {
        k
    } else {
        lemma_changes_end(old, new, k + 1, weight + CHANGE_WEIGHT)
    }
}

/// What `first_change` gives is the first line that differs.
proof fn lemma_first_change(old: Seq<Seq<char>>, new: Seq<Seq<char>>, k: int)
    requires
        0 <= k,
    ensures
        k <= first_change(old, new, k),
        forall|i: int| k <= i < first_change(old, new, k) ==> same_line(old, new, i),
        !same_line(old, new, first_change(old, new, k)),
    decreases old.len() - k,
{
    if same_line(old, new, k) {
        lemma_first_change(old, new, k + 1);
    }
}

/// Only the first changed hunk is shown: the lines `from..to`, all of which have changed.
/// Before it stand at most [`CONTEXT_LINES`] of the lines above, none of which has changed;
/// it ends where a line is the same on both sides again, unless both sides are at their
/// end or the preview is full.
pub proof fn law_first_hunk_only(old: Seq<Seq<char>>, new: Seq<Seq<char>>) -> (r: (int, int))
    ensures
        ({
            let (from, to) = r;
            &&& 0 <= from <= to
            &&& forall|i: int| 0 <= i < from ==> same_line(old, new, i)
            &&& forall|i: int| from <= i < to ==> !same_line(old, new, i)
            &&& hunk(old, new) == context(old, shown_before(from)) + rows(old, new, from, to)
            &&& same_line(old, new, to) || (to >= old.len() && to >= new.len()) || shown_before(
                from,
            ) + CHANGE_WEIGHT * (to - from) >= FULL_WEIGHT
        }),
{
    lemma_first_change(old, new, 0);
    let from = first_change(old, new, 0);
    let to = lemma_changes_end(old, new, from, shown_before(from));
    (from, to)
}

/// The number of line feeds in `t`.
pub open spec fn feeds(t: Seq<char>) -> nat
    decreases t.len(),
{
    if t.len() == 0 {
        0
    } else {
        feeds(t.drop_last()) + if t.last() == '\n' {
            1nat
        } else {
            0nat
        }
    }
}

/// Line feeds add up.
proof fn lemma_feeds_concat(a: Seq<char>, b: Seq<char>)
    ensures
        feeds(a + b) == feeds(a) + feeds(b),
    decreases b.len(),
{
    if b.len() == 0 {
        assert(a + b =~= a);
    } else {
        assert((a + b).drop_last() =~= a + b.drop_last());
        lemma_feeds_concat(a, b.drop_last());
    }
}

/// A text without line feeds has none.
proof fn lemma_no_feeds(t: Seq<char>)
    requires
        forall|i: int| 0 <= i < t.len() ==> t[i] != '\n',
    ensures
        feeds(t) == 0,
    decreases t.len(),
{
    if t.len() > 0 {
        lemma_no_feeds(t.drop_last());
    }
}

/// A line holds no line feed, up to where it ends.
proof fn lemma_line_has_no_feed(t: Seq<char>, from: int)
    ensures
        forall|i: int| from <= i < text::line_end(t, from) ==> t[i] != '\n',
        text::line_end(t, from) < t.len() ==> t[text::line_end(t, from)] == '\n',
    decreases t.len() - from,
{
    if !(from >= t.len() || t[from] == '\n') {
        lemma_line_has_no_feed(t, from + 1);
    }
}

/// Lines hold no line feeds.
proof fn lemma_lines_have_no_feeds(t: Seq<char>, from: int, k: int)
    requires
        0 <= from,
        0 <= k < text::lines_from(t, from).len(),
    ensures
        feeds(text::lines_from(t, from)[k]) == 0,
    decreases t.len() + 1 - from,
{
    text::lemma_line_end(t, from);
    lemma_line_has_no_feed(t, from);
    let end = text::line_end(t, from);
    if k == 0 {
        lemma_no_feeds(text::line_text(t, from, end));
    } else {
        lemma_lines_have_no_feeds(t, end + 1, k - 1);
    }
}

/// There is at most one line more than there are line feeds.
proof fn lemma_count_lines(t: Seq<char>, from: int)
    requires
        0 <= from <= t.len(),
    ensures
        text::lines_from(t, from).len() <= feeds(t.skip(from)) + 1,
    decreases t.len() - from,
{
    if from < t.len() {
        text::lemma_line_end(t, from);
        lemma_line_has_no_feed(t, from);
        let end = text::line_end(t, from);
        if end < t.len() {
            let line = t.subrange(from, end);
            lemma_no_feeds(line);
            assert(t.skip(from) =~= (line + seq!['\n']) + t.skip(end + 1));
            lemma_feeds_concat(line + seq!['\n'], t.skip(end + 1));
            lemma_feeds_concat(line, seq!['\n']);
            lemma_no_feeds(seq!['\n'].drop_last());
            assert(feeds(seq!['\n']) == 1);
            lemma_count_lines(t, end + 1);
        } else {
            assert(text::lines_from(t, end + 1) =~= seq![]);
        }
    }
}

/// A marked line is one line.
proof fn lemma_marked_feeds(mark: Seq<char>, ls: Seq<Seq<char>>, k: int)
    requires
        feeds(mark) == 0,
        0 <= k,
        forall|i: int| 0 <= i < ls.len() ==> feeds(#[trigger] ls[i]) == 0,
    ensures
        feeds(marked(mark, ls, k)) <= 1,
{
    if k < ls.len() {
        reveal_strlit("\n");
        lemma_no_feeds("\n"@.drop_last());
        lemma_feeds_concat(mark + ls[k], "\n"@);
        lemma_feeds_concat(mark, ls[k]);
        assert(feeds("\n"@) == 1);
    }
}

/// The marks hold no line feeds.
proof fn lemma_marks_have_no_feeds()
    ensures
        feeds("  "@) == 0,
        feeds("- "@) == 0,
        feeds("+ "@) == 0,
{
    reveal_strlit("  ");
    reveal_strlit("- ");
    reveal_strlit("+ ");
    lemma_no_feeds("  "@);
    lemma_no_feeds("- "@);
    lemma_no_feeds("+ "@);
}

/// The context has as many lines as are shown.
proof fn lemma_context_feeds(old: Seq<Seq<char>>, n: int)
    requires
        0 <= n,
        forall|i: int| 0 <= i < old.len() ==> feeds(#[trigger] old[i]) == 0,
    ensures
        feeds(context(old, n)) <= n,
    decreases n,
{
    if n > 0 {
        lemma_marks_have_no_feeds();
        lemma_context_feeds(old, n - 1);
        lemma_marked_feeds("  "@, old, n - 1);
        lemma_feeds_concat(context(old, n - 1), marked("  "@, old, n - 1));
    }
}

/// The changed lines take two lines each at most.
proof fn lemma_changes_feeds(old: Seq<Seq<char>>, new: Seq<Seq<char>>, k: int, weight: int)
    requires
        0 <= k,
        0 <= weight,
        forall|i: int| 0 <= i < old.len() ==> feeds(#[trigger] old[i]) == 0,
        forall|i: int| 0 <= i < new.len() ==> feeds(#[trigger] new[i]) == 0,
    ensures
        weight <= FULL_WEIGHT + CHANGE_WEIGHT ==> 3 * feeds(changes(old, new, k, weight)) <= 2 * (
        FULL_WEIGHT + CHANGE_WEIGHT - 1 - weight) || feeds(changes(old, new, k, weight)) == 0,
    decreases FULL_WEIGHT + CHANGE_WEIGHT - weight,
{
    if !(weight >= FULL_WEIGHT || same_line(old, new, k) || (k >= old.len() && k >= new.len())) {
        lemma_marks_have_no_feeds();
        let w = weight + CHANGE_WEIGHT;
        lemma_changes_feeds(old, new, k + 1, w);
        lemma_marked_feeds("- "@, old, k);
        lemma_marked_feeds("+ "@, new, k);
        lemma_feeds_concat(marked("- "@, old, k), marked("+ "@, new, k));
        lemma_feeds_concat(changed_row(old, new, k), changes(old, new, k + 1, w));
    }
}

/// A preview has at most a dozen lines.
pub proof fn law_preview_is_short(old: Seq<char>, new: Seq<char>)
    ensures
        text::lines(preview(old, new)).len() <= 12,
{
    let a = text::lines(old);
    let b = text::lines(new);
    assert forall|i: int| 0 <= i < a.len() implies feeds(#[trigger] a[i]) == 0 by {
        lemma_lines_have_no_feeds(old, 0, i);
    }
    assert forall|i: int| 0 <= i < b.len() implies feeds(#[trigger] b[i]) == 0 by {
        lemma_lines_have_no_feeds(new, 0, i);
    }
    lemma_first_change(a, b, 0);
    let k = first_change(a, b, 0);
    let n = shown_before(k);
    lemma_context_feeds(a, n);
    lemma_changes_feeds(a, b, k, n);
    lemma_feeds_concat(context(a, n), changes(a, b, k, n));
    let t = hunk(a, b);
    assert(feeds(t) <= 10);
    let p = preview(old, new);
    if vstd::utf8::encode_utf8(t).len() > MAX_PREVIEW_BYTES {
        let end = fit_end(t, 0, MAX_PREVIEW_BYTES as int);
        lemma_fit_end(t, 0, MAX_PREVIEW_BYTES as int);
        assert(t =~= t.subrange(0, end) + t.skip(end));
        lemma_feeds_concat(t.subrange(0, end), t.skip(end));
        lemma_feeds_concat(t.subrange(0, end), "...\n"@);
        reveal_strlit("...\n");
        lemma_no_feeds("...\n"@.drop_last());
        assert(feeds("...\n"@) == 1);
    }
    lemma_count_lines(p, 0);
    assert(p.skip(0) =~= p);
}

/// What is shown of a line that has changed: the old line behind a minus sign and the new line
/// behind a plus sign, as far as they are there.
pub open spec fn is_row(row: Seq<char>, old: Seq<Seq<char>>, new: Seq<Seq<char>>, k: int) -> bool {
    row == (if k < old.len() {
        "- "@ + old[k] + "\n"@
    } else {
        Seq::<char>::empty()
    }) + (if k < new.len() {
        "+ "@ + new[k] + "\n"@
    } else {
        Seq::<char>::empty()
    })
}

/// The context, line by line.
proof fn lemma_context_blocks(old: Seq<Seq<char>>, n: int)
    requires
        0 <= n <= old.len(),
    ensures
        context(old, n) == text::stacked(Seq::new(n as nat, |i: int| "  "@ + old[i] + "\n"@)),
    decreases n,
{
    let blocks = Seq::new(n as nat, |i: int| "  "@ + old[i] + "\n"@);
    if n > 0 {
        lemma_context_blocks(old, n - 1);
        assert(blocks.drop_last() =~= Seq::new((n - 1) as nat, |i: int| "  "@ + old[i] + "\n"@));
    }
}

/// The rows, one by one.
proof fn lemma_row_blocks(
    old: Seq<Seq<char>>,
    new: Seq<Seq<char>>,
    from: int,
    to: int,
) -> (blocks: Seq<Seq<char>>)
    requires
        0 <= from <= to,
    ensures
        blocks.len() == to - from,
        text::stacked(blocks) == rows(old, new, from, to),
        forall|i: int| 0 <= i < blocks.len() ==> is_row(#[trigger] blocks[i], old, new, from + i),
    decreases to - from,
{
    if from == to {
        seq![]
    } else {
        let rest = lemma_row_blocks(old, new, from + 1, to);
        let row = changed_row(old, new, from);
        let blocks = seq![row] + rest;
        text::lemma_stacked_concat(seq![row], rest);
        assert(seq![row].drop_last() =~= seq![]);
        assert(text::stacked(seq![row]) =~= row) by {
            assert(text::stacked(seq![row].drop_last()) =~= seq![]);
        }
        assert forall|i: int| 0 <= i < blocks.len() implies is_row(
            #[trigger] blocks[i],
            old,
            new,
            from + i,
        ) by {
            if i > 0 {
                assert(blocks[i] == rest[i - 1]);
            }
        }
        blocks
    }
}

/// What a preview shows, line by line: of the equal lines before the first change the first
/// three, or all where there are fewer; then every changed line up to the next equal line,
/// the end of both sides, or where the preview is full; and nothing else.
pub proof fn law_preview_shows(old: Seq<Seq<char>>, new: Seq<Seq<char>>) -> (r: (
    int,
    int,
    Seq<Seq<char>>,
))
    ensures
        ({
            let (from, to, shown) = r;
            let n = if from < 3 {
                from
            } else {
                3
            };
            &&& 0 <= from <= to && from <= old.len() && from <= new.len()
            &&& forall|i: int| 0 <= i < from ==> old[i] == #[trigger] new[i]
            &&& forall|i: int|
                from <= i < to ==> !(i < old.len() && i < new.len() && old[i] == #[trigger] new[i])
            &&& (to < old.len() && to < new.len() && old[to] == new[to]) || (to >= old.len() && to
                >= new.len()) || n + 3 * (to - from) >= 12
            &&& n + 3 * (to - from - 1) < 12 || to == from
            &&& hunk(old, new) == text::stacked(shown)
            &&& shown.len() == n + (to - from)
            &&& forall|i: int| 0 <= i < n ==> #[trigger] shown[i] == "  "@ + old[i] + "\n"@
            &&& forall|i: int| n <= i < shown.len() ==> is_row(#[trigger] shown[i], old, new, from + i - n)
        }),
{
    lemma_first_change(old, new, 0);
    let from = first_change(old, new, 0);
    assert(from <= old.len() && from <= new.len()) by {
        if from > 0 {
            assert(same_line(old, new, from - 1));
        }
    }
    let n = shown_before(from);
    let to = lemma_changes_end(old, new, from, n);
    let head = Seq::new(n as nat, |i: int| "  "@ + old[i] + "\n"@);
    lemma_context_blocks(old, n);
    let tail = lemma_row_blocks(old, new, from, to);
    text::lemma_stacked_concat(head, tail);
    let shown = head + tail;
    assert forall|i: int| 0 <= i < from implies old[i] == #[trigger] new[i] by {
        assert(same_line(old, new, i));
    }
    assert forall|i: int| from <= i < to implies !(i < old.len() && i < new.len() && old[i]
        == #[trigger] new[i]) by {
        assert(!same_line(old, new, i));
    }
    assert forall|i: int| n <= i < shown.len() implies is_row(
        #[trigger] shown[i],
        old,
        new,
        from + i - n,
    ) by {
        assert(shown[i] == tail[i - n]);
    }
    (from, to, shown)
}

/// A preview is the changed hunk of the lines where that takes at most 800 bytes; otherwise
/// it is the longest start of it that does, and a mark.
pub proof fn law_preview_is_cut(old: Seq<char>, new: Seq<char>) -> (n: int)
    ensures
        ({
            let t = hunk(text::lines(old), text::lines(new));
            if vstd::utf8::encode_utf8(t).len() <= 800 {
                preview(old, new) == t
            } else {
                &&& 0 <= n < t.len()
                &&& preview(old, new) == t.take(n) + "...\n"@
                &&& vstd::utf8::encode_utf8(t.take(n)).len() <= 800
                &&& vstd::utf8::encode_utf8(t.take(n + 1)).len() > 800
            }
        }),
{
    let t = hunk(text::lines(old), text::lines(new));
    let n = fit_end(t, 0, MAX_PREVIEW_BYTES as int);
    lemma_fit_end(t, 0, MAX_PREVIEW_BYTES as int);
    assert(t.take(n) =~= t.subrange(0, n));
    if vstd::utf8::encode_utf8(t).len() > 800 {
        lemma_fit_is_longest(t, 0, MAX_PREVIEW_BYTES as int);
        if n == t.len() {
            assert(t.subrange(0, n) =~= t);
        } else {
            assert(t.take(n + 1) =~= t.subrange(0, n + 1));
        }
    }
    n
}

/// One character more than fits does not fit.
proof fn lemma_fit_is_longest(t: Seq<char>, i: int, room: int)
    requires
        0 <= i <= t.len(),
        0 <= room,
    ensures
        fit_end(t, i, room) < t.len() ==> vstd::utf8::encode_utf8(
            t.subrange(i, fit_end(t, i, room) + 1),
        ).len() > room,
    decreases t.len() - i,
{
    if i < t.len() {
        let end = fit_end(t, i, room);
        if char_width(t[i]) > room {
            assert(t.subrange(i, i + 1).drop_first() =~= seq![]);
            assert(vstd::utf8::encode_utf8(t.subrange(i, i + 1)).len() >= char_width(t[i]));
        } else {
            lemma_fit_end(t, i + 1, room - char_width(t[i]));
            lemma_fit_is_longest(t, i + 1, room - char_width(t[i]));
            if end < t.len() {
                assert(t.subrange(i, end + 1).drop_first() =~= t.subrange(i + 1, end + 1));
            }
        }
    }
}

} // verus!
