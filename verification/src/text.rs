//! Plain text: characters in and out of strings, numbers in decimal, lines,
//! white space.

use vstd::prelude::*;

verus! {

/// `String::push` appends the given character to the end of the string.
pub assume_specification[ String::push ](s: &mut String, c: char)
    ensures
        final(s)@ == old(s)@.push(c),
;

/// `std::str::from_utf8` gives the text that the bytes encode. It gives one exactly
/// where the bytes are valid UTF-8.
#[verifier::external_body]
pub(crate) fn decoded(bytes: &[u8]) -> (t: Option<&str>)
    ensures
        t is Some <==> vstd::utf8::valid_utf8(bytes@),
        t matches Some(s) ==> s@ == vstd::utf8::decode_utf8(bytes@),
{
    std::str::from_utf8(bytes).ok()
}

/// The text of `bytes` in which every invalid sequence has been replaced, as
/// `String::from_utf8_lossy` gives it.
pub uninterp spec fn lossy(bytes: Seq<u8>) -> Seq<char>;

/// `String::from_utf8_lossy` gives the text that the bytes encode where they are valid
/// UTF-8; elsewhere it puts replacement characters in place of the invalid sequences.
/// Which sequences become one replacement character is not spelled out here.
#[verifier::external_body]
pub(crate) fn decoded_lossy(bytes: &[u8]) -> (t: String)
    ensures
        t@ == lossy(bytes@),
        vstd::utf8::valid_utf8(bytes@) ==> t@ == vstd::utf8::decode_utf8(bytes@),
{
    String::from_utf8_lossy(bytes).into_owned()
}

/// The characters of `s`, one by one.
pub fn chars_of(s: &str) -> (chars: Vec<char>)
    ensures
        chars@ == s@,
{
    let mut chars: Vec<char> = Vec::new();
    for c in it: s.chars()
        invariant
            it.seq() == s@,
            chars@ == it.seq().take(it.index()),
    {
        chars.push(c);
    }
    chars
}

/// The characters `from..to` of `chars` as a string.
pub fn string_of(chars: &Vec<char>, from: usize, to: usize) -> (s: String)
    requires
        from <= to <= chars@.len(),
    ensures
        s@ == chars@.subrange(from as int, to as int),
{
    let mut s = String::new();
    for i in from..to
        invariant
            from <= to <= chars@.len(),
            s@ == chars@.subrange(from as int, i as int),
    {
        s.push(chars[i]);
    }
    s
}

/// The number of bytes that `s` takes in UTF-8.
pub fn byte_len(s: &str) -> (n: usize)
    ensures
        n == vstd::utf8::encode_utf8(s@).len(),
{
    s.as_bytes().len()
}

/// The decimal digit `d`.
pub open spec fn digit(d: nat) -> char {
    (48 + d) as char
}

/// `n` in decimal, without leading zeros.
pub open spec fn decimal(n: nat) -> Seq<char>
    decreases n,
{
    if n < 10 {
        seq![digit(n)]
    } else {
        decimal(n / 10).push(digit(n % 10))
    }
}

/// Appends `n` in decimal.
pub fn push_decimal(out: &mut String, n: u128)
    ensures
        final(out)@ == old(out)@ + decimal(n as nat),
    decreases n,
{
    if n >= 10 {
        push_decimal(out, n / 10);
    }
    let d: u8 = (n % 10) as u8;
    out.push((48 + d) as char);
}

/// `n` in decimal, with a minus sign where it is negative.
pub open spec fn signed_decimal(n: int) -> Seq<char> {
    if n < 0 {
        "-"@ + decimal((-n) as nat)
    } else {
        decimal(n as nat)
    }
}

/// `n` in decimal, with a minus sign where it is negative.
pub fn signed_decimal_text(n: i64) -> (out: String)
    ensures
        out@ == signed_decimal(n as int),
{
    let mut out = String::new();
    if n < 0 {
        out.append("-");
        push_decimal(&mut out, (-(n as i128)) as u128);
    } else {
        push_decimal(&mut out, n as u128);
    }
    out
}

/// `s` with spaces in front of it, as many as it takes to be `width` characters
/// long.
pub open spec fn right_aligned(s: Seq<char>, width: nat) -> Seq<char>
    decreases width - s.len(),
{
    if s.len() >= width {
        s
    } else {
        right_aligned(seq![' '] + s, width)
    }
}

/// `s` with spaces in front of it, as many as it takes to be `width` characters
/// long.
pub fn right_aligned_text(s: String, width: usize) -> (out: String)
    ensures
        out@ == right_aligned(s@, width as nat),
{
    let mut out = s;
    let mut len: usize = out.as_str().unicode_len();
    while len < width
        invariant
            len == out@.len(),
            right_aligned(out@, width as nat) == right_aligned(s@, width as nat),
        decreases width - len,
    {
        let mut wider = String::new();
        wider.push(' ');
        wider.append(out.as_str());
        assert(wider@ =~= seq![' '] + out@);
        out = wider;
        len = len + 1;
    }
    out
}

/// Where the line that starts at `from` ends: at the first line feed, or at the
/// end of the text.
pub open spec fn line_end(t: Seq<char>, from: int) -> int
    decreases t.len() - from,
{
    if from >= t.len() || t[from] == '\n' {
        from
    } else {
        line_end(t, from + 1)
    }
}

/// The line that takes up `from..end`. A carriage return right before the line
/// feed belongs to the line ending, not to the line.
pub open spec fn line_text(t: Seq<char>, from: int, end: int) -> Seq<char> {
    if from < end < t.len() && t[end - 1] == '\r' {
        t.subrange(from, end - 1)
    } else {
        t.subrange(from, end)
    }
}

/// The lines of `t` from position `from` on. Nothing comes after the last line
/// feed when the text ends with one.
pub open spec fn lines_from(t: Seq<char>, from: int) -> Seq<Seq<char>>
    decreases t.len() + 1 - from,
{
    if from >= t.len() {
        seq![]
    } else {
        proof {
            lemma_line_end(t, from);
        }
        let end = line_end(t, from);
        seq![line_text(t, from, end)] + lines_from(t, end + 1)
    }
}

/// A line ends where it starts or later, and not past the end of the text.
pub proof fn lemma_line_end(t: Seq<char>, from: int)
    ensures
        from <= line_end(t, from),
        from <= t.len() ==> line_end(t, from) <= t.len(),
    decreases t.len() - from,
{
    if !(from >= t.len() || t[from] == '\n') {
        lemma_line_end(t, from + 1);
    }
}

/// The lines of `t`, without their line endings.
pub open spec fn lines(t: Seq<char>) -> Seq<Seq<char>> {
    lines_from(t, 0)
}

/// The lines of `t`, without their line endings.
pub fn lines_of(t: &str) -> (out: Vec<String>)
    ensures
        out.deep_view() == lines(t@),
{
    let chars = chars_of(t);
    let mut out: Vec<String> = Vec::new();
    let mut from: usize = 0;
    assert(out.deep_view() =~= Seq::<Seq<char>>::empty());
    assert(out.deep_view() + lines_from(t@, 0) =~= lines(t@));
    while from < chars.len()
        invariant
            chars@ == t@,
            out.deep_view() + lines_from(t@, from as int) == lines(t@),
        decreases chars@.len() - from,
    {
        let mut end: usize = from;
        while end < chars.len() && chars[end] != '\n'
            invariant
                chars@ == t@,
                from <= end <= chars@.len(),
                line_end(t@, end as int) == line_end(t@, from as int),
            decreases chars@.len() - end,
        {
            end = end + 1;
        }
        let stop: usize = if from < end && end < chars.len() && chars[end - 1] == '\r' {
            end - 1
        } else {
            end
        };
        let ghost before = out.deep_view();
        let line = string_of(&chars, from, stop);
        out.push(line);
        assert(out.deep_view() =~= before.push(line_text(t@, from as int, end as int)));
        assert(before + lines_from(t@, from as int) =~= out.deep_view() + lines_from(
            t@,
            end + 1,
        ));
        if end == chars.len() {
            assert(lines_from(t@, end + 1) =~= lines_from(t@, end as int));
            from = end;
        } else {
            from = end + 1;
        }
    }
    assert(out.deep_view() + lines_from(t@, from as int) =~= out.deep_view());
    out
}

/// The characters with the Unicode property `White_Space`.
pub open spec fn is_white_space(c: char) -> bool {
    ||| 0x09 <= c as u32 <= 0x0d
    ||| c as u32 == 0x20
    ||| c as u32 == 0x85
    ||| c as u32 == 0xa0
    ||| c as u32 == 0x1680
    ||| 0x2000 <= c as u32 <= 0x200a
    ||| c as u32 == 0x2028
    ||| c as u32 == 0x2029
    ||| c as u32 == 0x202f
    ||| c as u32 == 0x205f
    ||| c as u32 == 0x3000
}

/// Whether `c` has the Unicode property `White_Space`.
pub fn white_space(c: char) -> (b: bool)
    ensures
        b == is_white_space(c),
{
    let u: u32 = c as u32;
    (0x09 <= u && u <= 0x0d) || u == 0x20 || u == 0x85 || u == 0xa0 || u == 0x1680 || (0x2000 <= u
        && u <= 0x200a) || u == 0x2028 || u == 0x2029 || u == 0x202f || u == 0x205f || u == 0x3000
}

/// Whether nothing but white space stands in `t`.
pub open spec fn is_blank(t: Seq<char>) -> bool {
    forall|i: int| 0 <= i < t.len() ==> is_white_space(#[trigger] t[i])
}

/// Whether nothing but white space stands in `t`.
pub fn blank(t: &str) -> (b: bool)
    ensures
        b == is_blank(t@),
{
    let chars = chars_of(t);
    for i in 0..chars.len()
        invariant
            chars@ == t@,
            forall|j: int| 0 <= j < i ==> is_white_space(#[trigger] t@[j]),
    {
        if !white_space(chars[i]) {
            return false;
        }
    }
    true
}

/// The number that decimal digits stand for.
pub open spec fn number_of(digits: Seq<char>) -> int
    decreases digits.len(),
{
    if digits.len() == 0 {
        0
    } else {
        10 * number_of(digits.drop_last()) + (digits.last() as int - '0' as int)
    }
}

/// There is at least one character, and all are decimal digits.
pub open spec fn are_digits(t: Seq<char>) -> bool {
    t.len() > 0 && forall|i: int| 0 <= i < t.len() ==> '0' as int <= (#[trigger] t[i]) as int <= '9' as int
}

/// A number in decimal reads back: its digits stand for it, and the first of several is
/// not zero.
pub proof fn law_decimal_reads_back(n: nat)
    ensures
        are_digits(decimal(n)),
        number_of(decimal(n)) == n,
        decimal(n).len() > 1 ==> decimal(n)[0] != '0',
    decreases n,
{
    if n < 10 {
        let d = decimal(n);
        assert(d.drop_last() =~= seq![]);
        assert(number_of(d.drop_last()) == 0);
    } else {
        law_decimal_reads_back(n / 10);
        let d = decimal(n);
        assert(d.drop_last() =~= decimal(n / 10));
        if n / 10 < 10 {
            assert(n / 10 > 0);
            assert(d[0] == digit(n / 10));
        } else {
            assert(d[0] == decimal(n / 10)[0]);
            lemma_decimal_len(n / 10);
        }
    }
}

/// A number of two digits or more has two digits or more.
proof fn lemma_decimal_len(n: nat)
    ensures
        decimal(n).len() >= 1,
        n >= 10 ==> decimal(n).len() > 1,
    decreases n,
{
    if n >= 10 {
        lemma_decimal_len(n / 10);
    }
}

/// A number with a sign reads back: it starts with a minus sign exactly where it is
/// negative, and the digits stand for its size.
pub proof fn law_signed_decimal_reads_back(n: int)
    ensures
        n >= 0 ==> are_digits(signed_decimal(n)) && number_of(signed_decimal(n)) == n,
        n < 0 ==> signed_decimal(n).len() > 1 && signed_decimal(n)[0] == '-' && are_digits(
            signed_decimal(n).skip(1),
        ) && number_of(signed_decimal(n).skip(1)) == -n,
{
    if n >= 0 {
        law_decimal_reads_back(n as nat);
    } else {
        law_decimal_reads_back((-n) as nat);
        reveal_strlit("-");
        assert(signed_decimal(n).skip(1) =~= decimal((-n) as nat));
    }
}

/// A text that is set to the right ends with the text; before it stand spaces, as many as
/// it takes to be `width` characters long and no more.
pub proof fn law_right_aligned(t: Seq<char>, width: nat)
    ensures
        ({
            let r = right_aligned(t, width);
            let pad = r.len() - t.len();
            &&& r.len() == if t.len() < width {
                width
            } else {
                t.len()
            }
            &&& r.skip(pad) == t
            &&& forall|i: int| 0 <= i < pad ==> r[i] == ' '
        }),
    decreases width - t.len(),
{
    if t.len() < width {
        let u = seq![' '] + t;
        law_right_aligned(u, width);
        let r = right_aligned(u, width);
        let pad = r.len() - u.len();
        assert(r.skip(pad) == u);
        assert(r.skip(pad + 1) =~= r.skip(pad).skip(1));
        assert(u.skip(1) =~= t);
        assert(r[pad] == r.skip(pad)[0]);
    } else {
        assert(t.skip(0) =~= t);
    }
}

/// Lines with their line endings, one after the other.
pub open spec fn glued(ls: Seq<Seq<char>>, ends: Seq<Seq<char>>) -> Seq<char>
    decreases ls.len(),
{
    if ls.len() == 0 {
        seq![]
    } else {
        ls[0] + ends[0] + glued(ls.drop_first(), ends.drop_first())
    }
}

/// The line is a line of a text in which `end` follows it: it holds no line feed, and `end`
/// is a line feed, or a carriage return and a line feed, or, behind a line that is not
/// empty and the last, nothing. A carriage return right before the line feed belongs to
/// the ending.
pub open spec fn is_line(line: Seq<char>, end: Seq<char>, last: bool) -> bool {
    &&& !line.contains('\n')
    &&& {
        ||| end == seq!['\n'] && (line.len() > 0 ==> line.last() != '\r')
        ||| end == seq!['\r', '\n']
        ||| end == Seq::<char>::empty() && last && line.len() > 0
    }
}

/// The lines of a text from a position on, with their line endings, make up the rest of the
/// text.
proof fn lemma_lines_make_up(t: Seq<char>, from: int) -> (ends: Seq<Seq<char>>)
    requires
        0 <= from <= t.len(),
    ensures
        ends.len() == lines_from(t, from).len(),
        glued(lines_from(t, from), ends) == t.skip(from),
        forall|k: int|
            0 <= k < ends.len() ==> is_line(
                #[trigger] lines_from(t, from)[k],
                ends[k],
                k == ends.len() - 1,
            ),
    decreases t.len() - from,
{
    let ls = lines_from(t, from);
    if from >= t.len() {
        assert(t.skip(from) =~= seq![]);
        seq![]
    } else {
        lemma_line_end(t, from);
        lemma_line_is_clean(t, from);
        let end = line_end(t, from);
        let line = line_text(t, from, end);
        assert(ls.drop_first() =~= lines_from(t, end + 1));
        if end == t.len() {
            assert(lines_from(t, end + 1) =~= seq![]);
            assert(line =~= t.skip(from));
            let ends = seq![Seq::<char>::empty()];
            assert(glued(ls.drop_first(), ends.drop_first()) =~= seq![]);
            assert(glued(ls, ends) =~= t.skip(from));
            ends
        } else {
            let rest = lemma_lines_make_up(t, end + 1);
            let e = if from < end && t[end - 1] == '\r' {
                seq!['\r', '\n']
            } else {
                seq!['\n']
            };
            let ends = seq![e] + rest;
            assert(ends.drop_first() =~= rest);
            assert(line + e =~= t.subrange(from, end + 1));
            assert(glued(ls, ends) =~= t.skip(from));
            assert forall|k: int| 0 <= k < ends.len() implies is_line(
                #[trigger] ls[k],
                ends[k],
                k == ends.len() - 1,
            ) by {
                if k > 0 {
                    assert(ls[k] == lines_from(t, end + 1)[k - 1]);
                    assert(ends[k] == rest[k - 1]);
                } else {
                    assert(ls[0] == line);
                    assert(ends[0] == e);
                }
            }
            ends
        }
    }
}

/// Up to its end a line holds no line feed; where the text goes on, one stands there.
proof fn lemma_line_is_clean(t: Seq<char>, from: int)
    ensures
        forall|i: int| from <= i < line_end(t, from) ==> t[i] != '\n',
        line_end(t, from) < t.len() ==> t[line_end(t, from)] == '\n',
    decreases t.len() - from,
{
    if !(from >= t.len() || t[from] == '\n') {
        lemma_line_is_clean(t, from + 1);
    }
}

/// The lines of a text, each with its line ending, make up the text; no line is left out and
/// none holds a line feed.
pub proof fn law_lines_make_up_the_text(t: Seq<char>) -> (ends: Seq<Seq<char>>)
    ensures
        ends.len() == lines(t).len(),
        glued(lines(t), ends) == t,
        forall|k: int|
            0 <= k < ends.len() ==> is_line(#[trigger] lines(t)[k], ends[k], k == ends.len() - 1),
{
    let ends = lemma_lines_make_up(t, 0);
    assert(t.skip(0) =~= t);
    ends
}

/// Blocks of text, one below the other.
pub open spec fn stacked(blocks: Seq<Seq<char>>) -> Seq<char>
    decreases blocks.len(),
{
    if blocks.len() == 0 {
        seq![]
    } else {
        stacked(blocks.drop_last()) + blocks.last()
    }
}

/// Stacking adds up.
pub proof fn lemma_stacked_concat(a: Seq<Seq<char>>, b: Seq<Seq<char>>)
    ensures
        stacked(a + b) == stacked(a) + stacked(b),
    decreases b.len(),
{
    if b.len() == 0 {
        assert(a + b =~= a);
        assert(stacked(a) + stacked(b) =~= stacked(a));
    } else {
        assert((a + b).drop_last() =~= a + b.drop_last());
        lemma_stacked_concat(a, b.drop_last());
        assert(stacked(a) + (stacked(b.drop_last()) + b.last()) =~= stacked(a) + stacked(
            b.drop_last(),
        ) + b.last());
    }
}

/// The characters that are white space.
pub open spec fn white_spaces() -> Seq<char> {
    seq![
        '\t',
        '\n',
        '\u{b}',
        '\u{c}',
        '\r',
        ' ',
        '\u{85}',
        '\u{a0}',
        '\u{1680}',
        '\u{2000}',
        '\u{2001}',
        '\u{2002}',
        '\u{2003}',
        '\u{2004}',
        '\u{2005}',
        '\u{2006}',
        '\u{2007}',
        '\u{2008}',
        '\u{2009}',
        '\u{200a}',
        '\u{2028}',
        '\u{2029}',
        '\u{202f}',
        '\u{205f}',
        '\u{3000}',
    ]
}

/// A character is white space exactly where it is one of those that are.
pub proof fn law_white_space(c: char)
    ensures
        is_white_space(c) <==> white_spaces().contains(c),
{
    let ws = white_spaces();
    if is_white_space(c) {
        let n = c as int;
        let i: int = if n <= 0x0d {
            n - 9
        } else if n == 0x20 {
            5
        } else if n == 0x85 {
            6
        } else if n == 0xa0 {
            7
        } else if n == 0x1680 {
            8
        } else if n <= 0x200a {
            9 + n - 0x2000
        } else if n <= 0x2029 {
            20 + n - 0x2028
        } else if n == 0x202f {
            22
        } else if n == 0x205f {
            23
        } else {
            24
        };
        assert(ws[i] == c);
    }
}

} // verus!
