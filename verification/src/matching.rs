//! Exact-string matching: where a pattern occurs in a text, how often, and the
//! text with every match replaced. Matches are taken from left to right and do
//! not overlap.

use crate::text::{chars_of, string_of};
use vstd::prelude::*;

verus! {

/// `pat` stands in `t` at position `i`.
pub open spec fn occurs_at(t: Seq<char>, pat: Seq<char>, i: int) -> bool {
    0 <= i && i + pat.len() <= t.len() && t.subrange(i, i + pat.len()) == pat
}

/// The first position from `from` on at which `pat` occurs.
pub open spec fn find_from(t: Seq<char>, pat: Seq<char>, from: int) -> Option<int>
    decreases t.len() + 1 - from,
{
    if from + pat.len() > t.len() {
        None
    } else if occurs_at(t, pat, from) {
        Some(from)
    } else {
        find_from(t, pat, from + 1)
    }
}

/// The number of matches of `pat` from `from` on.
pub open spec fn count_from(t: Seq<char>, pat: Seq<char>, from: int) -> nat
    decreases t.len() - from,
    when pat.len() > 0
{
    proof {
        lemma_find_from(t, pat, from);
    }
    match find_from(t, pat, from) {
        None => 0,
        Some(i) => 1 + count_from(t, pat, i + pat.len()),
    }
}

/// The rest of `t` from `from` on, with every match of `pat` replaced.
pub open spec fn replace_from(t: Seq<char>, pat: Seq<char>, with: Seq<char>, from: int) -> Seq<char>
    decreases t.len() - from,
    when pat.len() > 0
{
    proof {
        lemma_find_from(t, pat, from);
    }
    match find_from(t, pat, from) {
        None => t.subrange(from, t.len() as int),
        Some(i) => t.subrange(from, i) + with + replace_from(t, pat, with, i + pat.len()),
    }
}

/// The number of matches of `pat` in `t`.
pub open spec fn count_matches(t: Seq<char>, pat: Seq<char>) -> nat {
    count_from(t, pat, 0)
}

/// `t` with every match of `pat` replaced by `with`.
pub open spec fn replace_matches(t: Seq<char>, pat: Seq<char>, with: Seq<char>) -> Seq<char> {
    replace_from(t, pat, with, 0)
}

/// What `find_from` gives is the leftmost occurrence from `from` on; where it
/// gives none there is none.
pub proof fn lemma_find_from(t: Seq<char>, pat: Seq<char>, from: int)
    ensures
        find_from(t, pat, from) matches Some(i) ==> from <= i && i + pat.len() <= t.len(),
        0 <= from ==> (find_from(t, pat, from) matches Some(i) ==> occurs_at(t, pat, i) && forall|
            j: int|
            from <= j < i ==> !#[trigger] occurs_at(t, pat, j)),
        find_from(t, pat, from) is None ==> forall|j: int|
            from <= j ==> !#[trigger] occurs_at(t, pat, j),
    decreases t.len() + 1 - from,
{
    if from + pat.len() <= t.len() && !occurs_at(t, pat, from) {
        lemma_find_from(t, pat, from + 1);
    }
}

/// Whether `pat` stands in `t` at position `i`.
fn stands_at(t: &Vec<char>, pat: &Vec<char>, i: usize) -> (b: bool)
    requires
        i + pat@.len() <= t@.len(),
    ensures
        b == occurs_at(t@, pat@, i as int),
{
    let mut k: usize = 0;
    while k < pat.len()
        invariant
            k <= pat@.len(),
            i + pat@.len() <= t.len(),
            forall|j: int| 0 <= j < k ==> t@[i + j] == #[trigger] pat@[j],
        decreases pat@.len() - k,
    {
        if t[i + k] != pat[k] {
            assert(t@.subrange(i as int, i + pat@.len())[k as int] != pat@[k as int]);
            return false;
        }
        k = k + 1;
    }
    assert(t@.subrange(i as int, i + pat@.len()) =~= pat@);
    true
}

/// The first position from `from` on at which `pat` occurs.
fn next_match(t: &Vec<char>, pat: &Vec<char>, from: usize) -> (found: Option<usize>)
    requires
        from <= t@.len(),
        pat@.len() > 0,
    ensures
        found matches Some(i) ==> find_from(t@, pat@, from as int) == Some(i as int),
        found is None ==> find_from(t@, pat@, from as int) is None,
{
    let mut i: usize = from;
    while i < t.len() && pat.len() <= t.len() - i
        invariant
            from <= i <= t@.len(),
            pat@.len() > 0,
            find_from(t@, pat@, from as int) == find_from(t@, pat@, i as int),
        decreases t@.len() - i,
    {
        if stands_at(t, pat, i) {
            return Some(i);
        }
        i = i + 1;
    }
    None
}

/// The number of matches of `pat` in `t`.
pub fn match_count(t: &str, pat: &str) -> (n: usize)
    requires
        pat@.len() > 0,
    ensures
        n == count_matches(t@, pat@),
{
    let text = chars_of(t);
    let pattern = chars_of(pat);
    let mut n: usize = 0;
    let mut from: usize = 0;
    loop
        invariant
            text@ == t@,
            pattern@ == pat@,
            pat@.len() > 0,
            from <= text.len(),
            n <= from,
            n + count_from(t@, pat@, from as int) == count_matches(t@, pat@),
        decreases t@.len() - from,
    {
        proof {
            lemma_find_from(t@, pat@, from as int);
        }
        match next_match(&text, &pattern, from) {
            None => {
                return n;
            },
            Some(i) => {
                from = i + pattern.len();
                n = n + 1;
            },
        }
    }
}

/// `t` with every match of `pat` replaced by `with`.
pub fn replaced(t: &str, pat: &str, with: &str) -> (out: String)
    requires
        pat@.len() > 0,
    ensures
        out@ == replace_matches(t@, pat@, with@),
{
    let text = chars_of(t);
    let pattern = chars_of(pat);
    let mut out = String::new();
    let mut from: usize = 0;
    loop
        invariant
            text@ == t@,
            pattern@ == pat@,
            pat@.len() > 0,
            from <= text.len(),
            out@ + replace_from(t@, pat@, with@, from as int) == replace_matches(t@, pat@, with@),
        decreases t@.len() - from,
    {
        proof {
            lemma_find_from(t@, pat@, from as int);
        }
        let ghost before = out@;
        match next_match(&text, &pattern, from) {
            None => {
                let rest = string_of(&text, from, text.len());
                out.append(rest.as_str());
                return out;
            },
            Some(i) => {
                let kept = string_of(&text, from, i);
                out.append(kept.as_str());
                out.append(with);
                assert(before + replace_from(t@, pat@, with@, from as int) =~= out@ + replace_from(
                    t@,
                    pat@,
                    with@,
                    i + pat@.len(),
                ));
                from = i + pattern.len();
            },
        }
    }
}

/// There are no more matches than characters.
pub proof fn lemma_count_bound(t: Seq<char>, pat: Seq<char>, from: int)
    requires
        pat.len() > 0,
        0 <= from <= t.len(),
    ensures
        count_from(t, pat, from) <= t.len() - from,
    decreases t.len() - from,
{
    lemma_find_from(t, pat, from);
    if find_from(t, pat, from) is Some {
        lemma_count_bound(t, pat, find_from(t, pat, from)->0 + pat.len());
    }
}

/// A text has at least as many bytes as characters.
pub proof fn lemma_encode_len(t: Seq<char>)
    ensures
        t.len() <= vstd::utf8::encode_utf8(t).len(),
    decreases t.len(),
{
    if t.len() > 0 {
        lemma_encode_len(t.drop_first());
        assert(vstd::utf8::encode_scalar(t[0] as u32).len() >= 1);
    }
}

/// A text without a match is left alone, and a text has no match exactly where the
/// pattern occurs nowhere in it.
pub proof fn law_no_match(t: Seq<char>, pat: Seq<char>, with: Seq<char>)
    requires
        pat.len() > 0,
    ensures
        count_matches(t, pat) == 0 <==> forall|i: int| !#[trigger] occurs_at(t, pat, i),
        count_matches(t, pat) == 0 ==> replace_matches(t, pat, with) == t,
{
    lemma_find_from(t, pat, 0);
    assert forall|i: int| find_from(t, pat, 0) is None implies !#[trigger] occurs_at(
        t,
        pat,
        i,
    ) by {};
    assert(t.subrange(0, t.len() as int) =~= t);
}

/// Where there is exactly one match, replacing it keeps everything before it and
/// everything after it.
pub proof fn law_single_match(t: Seq<char>, pat: Seq<char>, with: Seq<char>) -> (i: int)
    requires
        count_matches(t, pat) == 1,
        pat.len() > 0,
    ensures
        occurs_at(t, pat, i),
        forall|j: int| j < i ==> !#[trigger] occurs_at(t, pat, j),
        forall|j: int| i + pat.len() <= j ==> !#[trigger] occurs_at(t, pat, j),
        t == t.take(i) + pat + t.skip(i + pat.len()),
        replace_matches(t, pat, with) == t.take(i) + with + t.skip(i + pat.len()),
{
    reveal_with_fuel(count_from, 2);
    reveal_with_fuel(replace_from, 2);
    lemma_find_from(t, pat, 0);
    let i = find_from(t, pat, 0)->0;
    lemma_find_from(t, pat, i + pat.len());
    assert(t =~= t.take(i) + t.subrange(i, i + pat.len()) + t.skip(i + pat.len()));
    assert(t.subrange(0, i) =~= t.take(i));
    assert(t.subrange(i + pat.len(), t.len() as int) =~= t.skip(i + pat.len()));
    i
}

/// The bytes `pat` stand in the bytes `b` at position `k`.
pub open spec fn bytes_at(b: Seq<u8>, pat: Seq<u8>, k: int) -> bool {
    0 <= k && k + pat.len() <= b.len() && b.subrange(k, k + pat.len()) == pat
}

/// The encoding of a concatenation is the concatenation of the encodings.
pub proof fn lemma_encode_concat(a: Seq<char>, b: Seq<char>)
    ensures
        vstd::utf8::encode_utf8(a + b) == vstd::utf8::encode_utf8(a) + vstd::utf8::encode_utf8(b),
    decreases a.len(),
{
    if a.len() == 0 {
        assert(a + b =~= b);
    } else {
        assert((a + b).drop_first() =~= a.drop_first() + b);
        lemma_encode_concat(a.drop_first(), b);
    }
}

/// Matching characters is matching bytes: a character position at which the pattern
/// occurs is a byte position at which its bytes occur, and the bytes of a pattern
/// that is not empty occur nowhere else.
pub proof fn law_matching_is_bytewise(t: Seq<char>, pat: Seq<char>)
    requires
        pat.len() > 0,
    ensures
        forall|i: int| #[trigger]
            occurs_at(t, pat, i) ==> bytes_at(
                vstd::utf8::encode_utf8(t),
                vstd::utf8::encode_utf8(pat),
                vstd::utf8::encode_utf8(t.take(i)).len() as int,
            ),
        forall|k: int| #[trigger]
            bytes_at(vstd::utf8::encode_utf8(t), vstd::utf8::encode_utf8(pat), k) ==> exists|i: int|
                #[trigger] occurs_at(t, pat, i) && vstd::utf8::encode_utf8(t.take(i)).len() == k,
{
    let b = vstd::utf8::encode_utf8(t);
    let p = vstd::utf8::encode_utf8(pat);
    assert forall|i: int| #[trigger] occurs_at(t, pat, i) implies bytes_at(
        b,
        p,
        vstd::utf8::encode_utf8(t.take(i)).len() as int,
    ) by {
        let rest = t.skip(i + pat.len());
        assert(t =~= t.take(i) + (t.subrange(i, i + pat.len()) + rest));
        lemma_encode_concat(t.take(i), pat + rest);
        lemma_encode_concat(pat, rest);
        let k = vstd::utf8::encode_utf8(t.take(i)).len() as int;
        assert(b.subrange(k, k + p.len()) =~= p);
    }
    assert forall|k: int| #[trigger] bytes_at(b, p, k) implies exists|i: int|
        #[trigger] occurs_at(t, pat, i) && vstd::utf8::encode_utf8(t.take(i)).len() == k by {
        lemma_byte_match_is_char_match(t, pat, k);
    }
}

/// A byte position at which the bytes of `pat` occur is the position of a character
/// at which `pat` occurs.
proof fn lemma_byte_match_is_char_match(t: Seq<char>, pat: Seq<char>, k: int)
    requires
        pat.len() > 0,
        bytes_at(vstd::utf8::encode_utf8(t), vstd::utf8::encode_utf8(pat), k),
    ensures
        exists|i: int| #[trigger]
            occurs_at(t, pat, i) && vstd::utf8::encode_utf8(t.take(i)).len() == k,
{
    let b = vstd::utf8::encode_utf8(t);
    let p = vstd::utf8::encode_utf8(pat);
    vstd::utf8::encode_utf8_valid_utf8(t);
    vstd::utf8::encode_utf8_valid_utf8(pat);
    vstd::utf8::encode_utf8_decode_utf8(t);
    vstd::utf8::encode_utf8_first_scalar(pat);
    assert(p.len() > 0);
    assert(b[k] == b.subrange(k, k + p.len())[0]);
    vstd::utf8::is_char_boundary_iff_is_leading_byte(b, k);
    assert(vstd::utf8::is_char_boundary(b, k));
    let head = b.subrange(0, k);
    let tail = b.subrange(k, b.len() as int);
    vstd::utf8::valid_utf8_split(b, k);
    vstd::utf8::decode_utf8_split(b, k);
    let before = vstd::utf8::decode_utf8(head);
    vstd::utf8::decode_utf8_encode_utf8(head);
    assert(tail.subrange(0, p.len() as int) =~= p);
    let rest = tail.subrange(p.len() as int, tail.len() as int);
    if !vstd::utf8::valid_utf8(rest) {
        vstd::utf8::partial_valid_partial_invalid_utf8(tail, p.len() as int);
    }
    let after = vstd::utf8::decode_utf8(rest);
    vstd::utf8::decode_utf8_encode_utf8(rest);
    lemma_encode_concat(pat, after);
    assert(vstd::utf8::encode_utf8(pat + after) =~= tail);
    vstd::utf8::encode_utf8_decode_utf8(pat + after);
    let i = before.len() as int;
    assert(t =~= before + (pat + after));
    assert(t.take(i) =~= before);
    assert(t.subrange(i, i + pat.len()) =~= pat);
    assert(occurs_at(t, pat, i));
}

/// The gaps with `sep` between each two.
pub open spec fn interleaved(gaps: Seq<Seq<char>>, sep: Seq<char>) -> Seq<char>
    decreases gaps.len(),
{
    if gaps.len() == 0 {
        seq![]
    } else if gaps.len() == 1 {
        gaps[0]
    } else {
        gaps[0] + sep + interleaved(gaps.drop_first(), sep)
    }
}

/// `pat` does not occur in the gap, nor across its end where `pat` follows it.
pub open spec fn is_gap(gap: Seq<char>, pat: Seq<char>, last: bool) -> bool {
    if last {
        forall|j: int| !#[trigger] occurs_at(gap, pat, j)
    } else {
        forall|j: int| j < gap.len() ==> !#[trigger] occurs_at(gap + pat, pat, j)
    }
}

/// What occurs in a part of a text occurs in the text.
proof fn lemma_occurs_in_part(t: Seq<char>, from: int, to: int, pat: Seq<char>, j: int)
    requires
        0 <= from <= to <= t.len(),
        occurs_at(t.subrange(from, to), pat, j),
    ensures
        occurs_at(t, pat, from + j),
{
    let part = t.subrange(from, to);
    assert(t.subrange(from + j, from + j + pat.len()) =~= part.subrange(j, j + pat.len()));
}

/// Behind the last match stands a gap.
proof fn lemma_last_gap(t: Seq<char>, pat: Seq<char>, from: int)
    requires
        0 <= from <= t.len(),
        forall|j: int| from <= j ==> !#[trigger] occurs_at(t, pat, j),
    ensures
        is_gap(t.skip(from), pat, true),
{
    let gap = t.skip(from);
    assert(gap =~= t.subrange(from, t.len() as int));
    assert forall|j: int| !#[trigger] occurs_at(gap, pat, j) by {
        if occurs_at(gap, pat, j) {
            lemma_occurs_in_part(t, from, t.len() as int, pat, j);
        }
    }
}

/// Before a match stands a gap.
proof fn lemma_gap_before(t: Seq<char>, pat: Seq<char>, from: int, i: int)
    requires
        0 <= from <= i,
        occurs_at(t, pat, i),
        forall|j: int| from <= j < i ==> !#[trigger] occurs_at(t, pat, j),
    ensures
        is_gap(t.subrange(from, i), pat, false),
        t.skip(from) == t.subrange(from, i) + pat + t.skip(i + pat.len()),
{
    let gap = t.subrange(from, i);
    assert(t.subrange(i, i + pat.len()) == pat);
    assert(gap + pat =~= t.subrange(from, i + pat.len())) by {
        assert(t.subrange(from, i + pat.len()) =~= gap + t.subrange(i, i + pat.len()));
    }
    assert(t.skip(from) =~= gap + t.subrange(i, i + pat.len()) + t.skip(i + pat.len()));
    assert forall|j: int| j < gap.len() implies !#[trigger] occurs_at(gap + pat, pat, j) by {
        if occurs_at(gap + pat, pat, j) {
            lemma_occurs_in_part(t, from, i + pat.len(), pat, j);
        }
    }
}

/// Putting one more gap in front.
proof fn lemma_interleaved_front(gap: Seq<char>, rest: Seq<Seq<char>>, sep: Seq<char>)
    requires
        rest.len() > 0,
    ensures
        interleaved(seq![gap] + rest, sep) == gap + sep + interleaved(rest, sep),
{
    assert((seq![gap] + rest).drop_first() =~= rest);
}

/// The part of [`law_every_match_is_replaced`] on the rest of a text.
proof fn lemma_gaps(t: Seq<char>, pat: Seq<char>, with: Seq<char>, from: int) -> (gaps: Seq<
    Seq<char>,
>)
    requires
        pat.len() > 0,
        0 <= from <= t.len(),
    ensures
        gaps.len() == count_from(t, pat, from) + 1,
        interleaved(gaps, pat) == t.skip(from),
        interleaved(gaps, with) == replace_from(t, pat, with, from),
        forall|k: int| 0 <= k < gaps.len() ==> is_gap(#[trigger] gaps[k], pat, k == gaps.len() - 1),
    decreases t.len() - from,
{
    lemma_find_from(t, pat, from);
    match find_from(t, pat, from) {
        None => {
            lemma_last_gap(t, pat, from);
            assert(t.subrange(from, t.len() as int) =~= t.skip(from));
            seq![t.skip(from)]
        },
        Some(i) => {
            let gap = t.subrange(from, i);
            lemma_gap_before(t, pat, from, i);
            let rest = lemma_gaps(t, pat, with, i + pat.len());
            let gaps = seq![gap] + rest;
            lemma_interleaved_front(gap, rest, pat);
            lemma_interleaved_front(gap, rest, with);
            assert forall|k: int| 0 <= k < gaps.len() implies is_gap(
                #[trigger] gaps[k],
                pat,
                k == gaps.len() - 1,
            ) by {
                if k > 0 {
                    assert(gaps[k] == rest[k - 1]);
                }
            }
            gaps
        },
    }
}

/// Every match is replaced, and nothing else: a text is its gaps with the pattern between
/// them, where the pattern does not occur before a gap has ended; the new text is the same
/// gaps with the replacement between them; and the number of matches is that of the places
/// between the gaps.
pub proof fn law_every_match_is_replaced(t: Seq<char>, pat: Seq<char>, with: Seq<char>) -> (gaps:
    Seq<Seq<char>>)
    requires
        pat.len() > 0,
    ensures
        gaps.len() == count_matches(t, pat) + 1,
        interleaved(gaps, pat) == t,
        interleaved(gaps, with) == replace_matches(t, pat, with),
        forall|k: int| 0 <= k < gaps.len() ==> is_gap(#[trigger] gaps[k], pat, k == gaps.len() - 1),
{
    let gaps = lemma_gaps(t, pat, with, 0);
    assert(t.skip(0) =~= t);
    gaps
}

} // verus!
