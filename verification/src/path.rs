//! The paths that a request may name, as Unix and as Windows read them. On Unix `/`
//! separates components, and a path that starts with it is absolute. On Windows `\` does
//! so too, and a path is absolute where it starts at the root of a drive or of a share.

use crate::matching;
use crate::text;
use crate::text::{blank, chars_of, string_of};
use vstd::prelude::*;

verus! {

/// How a host reads paths.
#[derive(Debug, Clone, Copy, PartialEq, Eq, Structural)]
pub enum Style {
    Unix,
    Windows,
}

/// The character separates components.
pub open spec fn is_separator(style: Style, c: char) -> bool {
    c == '/' || (style == Style::Windows && c == '\\')
}

/// Where the component that starts at `from` ends: at the first separator, or at
/// the end of the path.
pub open spec fn component_end(style: Style, t: Seq<char>, from: int) -> int
    decreases t.len() - from,
{
    if from >= t.len() || is_separator(style, t[from]) {
        from
    } else {
        component_end(style, t, from + 1)
    }
}

/// A component ends where it starts or later, and not past the end of the path.
pub proof fn lemma_component_end(style: Style, t: Seq<char>, from: int)
    ensures
        from <= component_end(style, t, from),
        from <= t.len() ==> component_end(style, t, from) <= t.len(),
        forall|i: int|
            from <= i < component_end(style, t, from) ==> !is_separator(style, #[trigger] t[i]),
    decreases t.len() - from,
{
    if !(from >= t.len() || is_separator(style, t[from])) {
        lemma_component_end(style, t, from + 1);
    }
}

/// A component that names nothing: an empty one, or `.`.
pub open spec fn is_void(c: Seq<char>) -> bool {
    c.len() == 0 || (c.len() == 1 && c[0] == '.')
}

/// The component that names the parent directory.
pub open spec fn is_parent(c: Seq<char>) -> bool {
    c.len() == 2 && c[0] == '.' && c[1] == '.'
}

/// The components of `t` from position `from` on, without those that name nothing.
pub open spec fn names_from(style: Style, t: Seq<char>, from: int) -> Seq<Seq<char>>
    decreases t.len() + 1 - from,
{
    if from >= t.len() {
        seq![]
    } else {
        proof {
            lemma_component_end(style, t, from);
        }
        let end = component_end(style, t, from);
        let c = t.subrange(from, end);
        if is_void(c) {
            names_from(style, t, end + 1)
        } else {
            seq![c] + names_from(style, t, end + 1)
        }
    }
}

/// The path starts with a drive: a letter and a colon.
pub open spec fn has_drive(t: Seq<char>) -> bool {
    &&& t.len() >= 2
    &&& t[1] == ':'
    &&& 65 <= t[0] as u32 <= 90 || 97 <= t[0] as u32 <= 122
}

/// Where the components of a path start: behind the drive, on Windows.
pub open spec fn names_start(style: Style, t: Seq<char>) -> int {
    if style == Style::Windows && has_drive(t) {
        2
    } else {
        0
    }
}

/// The components of the path `t`, without those that name nothing.
pub open spec fn names(style: Style, t: Seq<char>) -> Seq<Seq<char>> {
    names_from(style, t, names_start(style, t))
}

/// `ns` with a separator between each two.
pub open spec fn joined(ns: Seq<Seq<char>>) -> Seq<char>
    decreases ns.len(),
{
    if ns.len() == 0 {
        seq![]
    } else if ns.len() == 1 {
        ns[0]
    } else {
        joined(ns.drop_last()).push('/') + ns.last()
    }
}

/// A Windows path with one more component: behind a separator, unless the path is empty,
/// ends with one, or is a drive. A component that starts with a drive takes the place of
/// what stands before it.
pub open spec fn extended(buf: Seq<char>, name: Seq<char>) -> Seq<char> {
    if has_drive(name) {
        name
    } else if buf.len() == 0 || is_separator(Style::Windows, buf.last()) || (buf.len() == 2
        && has_drive(buf)) {
        buf + name
    } else {
        buf.push('\\') + name
    }
}

/// A Windows path with more components, one after the other.
pub open spec fn extended_by(buf: Seq<char>, ns: Seq<Seq<char>>) -> Seq<char>
    decreases ns.len(),
{
    if ns.len() == 0 {
        buf
    } else {
        extended(extended_by(buf, ns.drop_last()), ns.last())
    }
}

/// What stands before the components of a Windows path that is not absolute: its drive, or
/// a separator where it starts at the root of the current drive.
pub open spec fn stem(t: Seq<char>) -> Seq<char> {
    if has_drive(t) {
        t.take(2)
    } else if t.len() > 0 && is_separator(Style::Windows, t[0]) {
        seq!['\\']
    } else {
        seq![]
    }
}

/// The path of the components `ns` of the relative Windows path `t`.
#[verifier::opaque]
pub open spec fn assembled_on_windows(t: Seq<char>, ns: Seq<Seq<char>>) -> Seq<char> {
    extended_by(stem(t), ns)
}

/// The path of the components `ns` of the relative path `t`.
pub open spec fn assembled(style: Style, t: Seq<char>, ns: Seq<Seq<char>>) -> Seq<char> {
    match style {
        Style::Unix => joined(ns),
        Style::Windows => assembled_on_windows(t, ns),
    }
}

/// The path starts with two separators, as on Windows the paths of shares and devices do.
pub open spec fn is_remote(t: Seq<char>) -> bool {
    t.len() >= 2 && is_separator(Style::Windows, t[0]) && is_separator(Style::Windows, t[1])
}

/// The path starts with `\\?\`, so that Windows takes it as it stands.
pub open spec fn is_verbatim(t: Seq<char>) -> bool {
    t.len() >= 4 && t[0] == '\\' && t[1] == '\\' && t[2] == '?' && t[3] == '\\'
}

/// The path is that of a device on Windows: it starts with `\\.\`.
pub open spec fn is_device(t: Seq<char>) -> bool {
    is_remote(t) && t.len() >= 4 && t[2] == '.' && is_separator(Style::Windows, t[3])
}

/// The path names a server and a share on Windows: it starts with `\\server\share`.
pub open spec fn is_share(t: Seq<char>) -> bool {
    let server_end = component_end(Style::Windows, t, 2);
    is_remote(t) && server_end > 2 && component_end(Style::Windows, t, server_end + 1) > server_end
        + 1
}

/// The Windows path starts at the root of a drive, of a share or of a device.
#[verifier::opaque]
pub open spec fn is_absolute_on_windows(t: Seq<char>) -> bool {
    ||| is_verbatim(t)
    ||| is_device(t)
    ||| is_share(t)
    ||| has_drive(t) && t.len() >= 3 && is_separator(Style::Windows, t[2])
}

/// The path does not depend on a working directory.
pub open spec fn is_absolute(style: Style, t: Seq<char>) -> bool {
    match style {
        Style::Unix => t.len() > 0 && t[0] == '/',
        Style::Windows => is_absolute_on_windows(t),
    }
}

/// What `t` is as a path of a request: the normalised relative path, or an absolute
/// path as it stands, or the reason for which it is refused.
pub open spec fn clean_path(style: Style, t: Seq<char>) -> Result<Seq<char>, Seq<char>> {
    let ns = names(style, t);
    if text::is_blank(t) {
        Err("empty path"@)
    } else if is_absolute(style, t) {
        Ok(t)
    } else if exists|i: int| 0 <= i < ns.len() && is_parent(#[trigger] ns[i]) {
        Err("path traversal refused: "@ + t)
    } else if t.contains('\0') {
        Err("NUL byte in path"@)
    } else {
        Ok(assembled(style, t, ns))
    }
}

/// The view of the answer of [`safe_relative_path`].
pub open spec fn path_answer(r: Result<String, String>) -> Result<Seq<char>, Seq<char>> {
    match r {
        Ok(s) => Ok(s@),
        Err(m) => Err(m@),
    }
}

/// Whether the character separates components.
fn separator(style: Style, c: char) -> (b: bool)
    ensures
        b == is_separator(style, c),
{
    c == '/' || (matches!(style, Style::Windows) && c == '\\')
}

/// Whether the characters start with a drive.
fn drive(t: &Vec<char>) -> (b: bool)
    ensures
        b == has_drive(t@),
{
    if t.len() < 2 || t[1] != ':' {
        return false;
    }
    let u: u32 = t[0] as u32;
    (65 <= u && u <= 90) || (97 <= u && u <= 122)
}

/// Where the component that starts at `from` ends.
fn end_of(style: Style, t: &Vec<char>, from: usize) -> (end: usize)
    requires
        from <= t@.len(),
    ensures
        end == component_end(style, t@, from as int),
        from <= end <= t@.len(),
{
    let mut end: usize = from;
    while end < t.len() && !separator(style, t[end])
        invariant
            from <= end <= t@.len(),
            component_end(style, t@, end as int) == component_end(style, t@, from as int),
        decreases t@.len() - end,
    {
        end = end + 1;
    }
    end
}

/// Whether the characters are an absolute path of Windows.
fn absolute_on_windows(t: &Vec<char>) -> (b: bool)
    ensures
        b == is_absolute_on_windows(t@),
{
    proof {
        reveal(is_absolute_on_windows);
    }
    let windows = Style::Windows;
    if drive(t) && t.len() >= 3 && separator(windows, t[2]) {
        return true;
    }
    if t.len() < 2 || !separator(windows, t[0]) || !separator(windows, t[1]) {
        return false;
    }
    if t.len() >= 4 && t[0] == '\\' && t[1] == '\\' && t[2] == '?' && t[3] == '\\' {
        return true;
    }
    if t.len() >= 4 && t[2] == '.' && separator(windows, t[3]) {
        return true;
    }
    let server_end: usize = end_of(windows, t, 2);
    server_end > 2 && server_end < t.len() && end_of(windows, t, server_end + 1) > server_end + 1
}

/// Whether the path does not depend on a working directory.
pub fn absolute(style: Style, t: &str) -> (b: bool)
    ensures
        b == is_absolute(style, t@),
{
    match style {
        Style::Unix => !t.is_empty() && t.get_char(0) == '/',
        Style::Windows => absolute_on_windows(&chars_of(t)),
    }
}

/// Whether the characters `from..end` name nothing.
fn void_at(chars: &Vec<char>, from: usize, end: usize) -> (b: bool)
    requires
        from <= end <= chars@.len(),
    ensures
        b == is_void(chars@.subrange(from as int, end as int)),
{
    from == end || (end - from == 1 && chars[from] == '.')
}

/// Whether the characters `from..end` name the parent directory.
fn parent_at(chars: &Vec<char>, from: usize, end: usize) -> (b: bool)
    requires
        from <= end <= chars@.len(),
    ensures
        b == is_parent(chars@.subrange(from as int, end as int)),
{
    end - from == 2 && chars[from] == '.' && chars[from + 1] == '.'
}

/// What stands before the components of a path that is not absolute.
fn stem_of(style: Style, t: &Vec<char>) -> (s: String)
    ensures
        s@ == assembled(style, t@, seq![]),
{
    proof {
        reveal(assembled_on_windows);
    }
    let mut s = String::new();
    if let Style::Windows = style {
        if drive(t) {
            s = string_of(t, 0, 2);
            assert(s@ =~= t@.take(2));
        } else if t.len() > 0 && separator(style, t[0]) {
            s.push('\\');
            assert(s@ =~= seq!['\\']);
        }
    }
    s
}

/// Adds the component `name` to the components `ns`, which `clean` holds.
fn push_name(
    style: Style,
    t: Ghost<Seq<char>>,
    ns: Ghost<Seq<Seq<char>>>,
    clean: &mut String,
    name: &Vec<char>,
)
    requires
        old(clean)@ == assembled(style, t@, ns@),
        style == Style::Unix ==> (old(clean)@.len() == 0 <==> ns@.len() == 0),
    ensures
        final(clean)@ == assembled(style, t@, ns@.push(name@)),
{
    let piece = string_of(name, 0, name.len());
    proof {
        reveal(assembled_on_windows);
        assert(ns@.push(name@).drop_last() =~= ns@);
        assert(piece@ =~= name@);
    }
    match style {
        Style::Unix => {
            if !clean.as_str().is_empty() {
                clean.push('/');
            }
            clean.append(piece.as_str());
            assert(clean@ =~= joined(ns@.push(name@)));
        },
        Style::Windows => {
            let buf = chars_of(clean.as_str());
            if drive(name) {
                *clean = piece;
            } else {
                let bare: bool = buf.len() == 0 || separator(style, buf[buf.len() - 1]) || (
                buf.len() == 2 && drive(&buf));
                if !bare {
                    clean.push('\\');
                }
                clean.append(piece.as_str());
            }
            assert(clean@ =~= extended(buf@, name@));
        },
    }
}

/// Whether the character 0 is among the characters.
fn has_nul(t: &Vec<char>) -> (b: bool)
    ensures
        b == t@.contains('\0'),
{
    let mut i: usize = 0;
    while i < t.len()
        invariant
            i <= t@.len(),
            forall|j: int| 0 <= j < i ==> t@[j] != '\0',
        decreases t@.len() - i,
    {
        if t[i] == '\0' {
            return true;
        }
        i = i + 1;
    }
    false
}

/// Rejects a path that is empty, one that climbs out with `..` and one with a NUL
/// character. Gives the normalised relative path; an absolute path comes back as it
/// stands, for the caller to admit or refuse.
pub fn safe_relative_path_on(style: Style, path: &str) -> (r: Result<String, String>)
    ensures
        path_answer(r) == clean_path(style, path@),
{
    if blank(path) {
        return Err("empty path".to_owned());
    }
    if absolute(style, path) {
        return Ok(path.to_owned());
    }
    let chars = chars_of(path);
    let ghost t = path@;
    let ghost ns = names(style, t);
    let mut clean = stem_of(style, &chars);
    let mut from: usize = 0;
    if let Style::Windows = style {
        if drive(&chars) {
            from = 2;
        }
    }
    let ghost mut done: Seq<Seq<char>> = seq![];
    assert(done + names_from(style, t, from as int) =~= ns);
    while from < chars.len()
        invariant
            chars@ == t,
            path@ == t,
            !text::is_blank(t),
            !is_absolute(style, t),
            ns == names(style, t),
            done + names_from(style, t, from as int) == ns,
            forall|i: int| 0 <= i < done.len() ==> !is_parent(#[trigger] done[i]),
            clean@ == assembled(style, t, done),
            style == Style::Unix ==> (clean@.len() == 0 <==> done.len() == 0),
        decreases chars@.len() - from,
    {
        let end: usize = end_of(style, &chars, from);
        let ghost c = t.subrange(from as int, end as int);
        if parent_at(&chars, from, end) {
            proof {
                let k = done.len() as int;
                assert(ns[k] == c) by {
                    assert((done + names_from(style, t, from as int))[k] == names_from(
                        style,
                        t,
                        from as int,
                    )[0]);
                }
                assert(is_parent(ns[k]));
            }
            let mut m = "path traversal refused: ".to_owned();
            m.append(path);
            return Err(m);
        }
        if !void_at(&chars, from, end) {
            let name = chars_of(string_of(&chars, from, end).as_str());
            push_name(style, Ghost(t), Ghost(done), &mut clean, &name);
            proof {
                let next = done.push(c);
                assert(next.drop_last() =~= done);
                assert(done + names_from(style, t, from as int) =~= next + names_from(
                    style,
                    t,
                    end + 1,
                ));
                done = next;
            }
        }
        if end == chars.len() {
            assert(names_from(style, t, end + 1) =~= names_from(style, t, end as int));
            from = end;
        } else {
            from = end + 1;
        }
    }
    assert(done =~= ns);
    if has_nul(&chars) {
        return Err("NUL byte in path".to_owned());
    }
    Ok(clean)
}

/// Rejects a path that is empty, one that climbs out with `..` and one with a NUL
/// character, as [`safe_relative_path_on`] does for the paths of Unix.
pub fn safe_relative_path(path: &str) -> (r: Result<String, String>)
    ensures
        path_answer(r) == clean_path(Style::Unix, path@),
{
    safe_relative_path_on(Style::Unix, path)
}

/// What a component is: not void, free of separators, made of characters of the path.
proof fn lemma_names(style: Style, t: Seq<char>, from: int, i: int)
    requires
        0 <= from,
        0 <= i < names_from(style, t, from).len(),
    ensures
        !is_void(names_from(style, t, from)[i]),
        forall|j: int|
            0 <= j < names_from(style, t, from)[i].len() ==> !is_separator(
                style,
                #[trigger] names_from(style, t, from)[i][j],
            ) && t.contains(names_from(style, t, from)[i][j]),
    decreases t.len() + 1 - from,
{
    lemma_component_end(style, t, from);
    let end = component_end(style, t, from);
    let c = t.subrange(from, end);
    if is_void(c) {
        lemma_names(style, t, end + 1, i);
    } else if i > 0 {
        lemma_names(style, t, end + 1, i - 1);
    } else {
        assert forall|j: int| 0 <= j < c.len() implies !is_separator(style, #[trigger] c[j])
            && t.contains(c[j]) by {
            assert(c[j] == t[from + j]);
        }
    }
}

/// Components do not depend on what stands before them.
proof fn lemma_names_shift(p: Seq<char>, b: Seq<char>, j: int)
    requires
        0 <= j,
    ensures
        names_from(Style::Unix, p + b, p.len() + j) == names_from(Style::Unix, b, j),
    decreases b.len() + 1 - j,
{
    if j < b.len() {
        lemma_end_shift(p, b, j);
        lemma_component_end(Style::Unix, b, j);
        let end = component_end(Style::Unix, b, j);
        assert((p + b).subrange(p.len() + j, p.len() + end) =~= b.subrange(j, end));
        lemma_names_shift(p, b, end + 1);
    }
}

/// The end of a component does not depend on what stands before it.
proof fn lemma_end_shift(p: Seq<char>, b: Seq<char>, j: int)
    requires
        0 <= j,
    ensures
        component_end(Style::Unix, p + b, p.len() + j) == p.len() + component_end(Style::Unix, b, j),
    decreases b.len() - j,
{
    if !(j >= b.len() || b[j] == '/') {
        lemma_end_shift(p, b, j + 1);
    }
}

/// A component of `a` ends where it is when a separator and more text follow `a`.
proof fn lemma_end_prefix(a: Seq<char>, b: Seq<char>, from: int)
    requires
        0 <= from <= a.len(),
    ensures
        component_end(Style::Unix, a.push('/') + b, from) == component_end(Style::Unix, a, from),
    decreases a.len() - from,
{
    if !(from >= a.len() || a[from] == '/') {
        lemma_end_prefix(a, b, from + 1);
    }
}

/// The components of two paths with a separator between them.
proof fn lemma_names_concat(a: Seq<char>, b: Seq<char>, from: int)
    requires
        0 <= from <= a.len(),
    ensures
        names_from(Style::Unix, a.push('/') + b, from) == names_from(Style::Unix, a, from) + names(
            Style::Unix,
            b,
        ),
    decreases a.len() + 1 - from,
{
    let p = a.push('/');
    let t = p + b;
    lemma_end_prefix(a, b, from);
    lemma_component_end(Style::Unix, a, from);
    let end = component_end(Style::Unix, a, from);
    assert(t.subrange(from, end) =~= a.subrange(from, end));
    if end == a.len() {
        lemma_names_shift(p, b, 0);
        assert(names_from(Style::Unix, a, end + 1) =~= seq![]);
    } else {
        lemma_names_concat(a, b, end + 1);
    }
    assert(names_from(Style::Unix, t, from) =~= names_from(Style::Unix, a, from) + names(Style::Unix, b));
}

/// Joining components and taking them apart again gives the same components.
proof fn lemma_names_of_joined(ns: Seq<Seq<char>>)
    requires
        forall|i: int| 0 <= i < ns.len() ==> !is_void(#[trigger] ns[i]),
        forall|i: int, j: int| 0 <= i < ns.len() && 0 <= j < ns[i].len() ==> ns[i][j] != '/',
    ensures
        names(Style::Unix, joined(ns)) == ns,
    decreases ns.len(),
{
    if ns.len() == 0 {
    } else {
        let n = ns.last();
        lemma_component_end(Style::Unix, n, 0);
        let end = component_end(Style::Unix, n, 0);
        if end < n.len() {
            lemma_component_stop(n, 0);
            assert(ns[ns.len() - 1][end] != '/');
        }
        assert(n.subrange(0, end) =~= n);
        assert(names_from(Style::Unix, n, end + 1) =~= seq![]);
        assert(names(Style::Unix, n) =~= seq![n]);
        if ns.len() > 1 {
            lemma_names_of_joined(ns.drop_last());
            lemma_names_concat(joined(ns.drop_last()), n, 0);
            assert(ns =~= ns.drop_last() + seq![n]);
        } else {
            assert(ns =~= seq![n]);
        }
    }
}

/// A component that ends inside the path ends at a separator.
proof fn lemma_component_stop(t: Seq<char>, from: int)
    requires
        component_end(Style::Unix, t, from) < t.len(),
    ensures
        t[component_end(Style::Unix, t, from)] == '/',
    decreases t.len() - from,
{
    if !(from >= t.len() || t[from] == '/') {
        lemma_component_stop(t, from + 1);
    }
}

/// Every character of joined components is a separator or a character of one of
/// them; the first one is no separator.
proof fn lemma_joined_chars(ns: Seq<Seq<char>>, i: int)
    requires
        forall|k: int| 0 <= k < ns.len() ==> !is_void(#[trigger] ns[k]),
        forall|k: int, j: int| 0 <= k < ns.len() && 0 <= j < ns[k].len() ==> ns[k][j] != '/',
        0 <= i < joined(ns).len(),
    ensures
        joined(ns)[i] == '/' || exists|k: int, j: int|
            0 <= k < ns.len() && 0 <= j < ns[k].len() && joined(ns)[i] == #[trigger] ns[k][j],
        i == 0 ==> joined(ns)[i] != '/',
    decreases ns.len(),
{
    if ns.len() == 1 {
        assert(joined(ns)[i] == ns[0][i]);
    } else {
        let head = joined(ns.drop_last());
        let n = ns.last();
        if i < head.len() {
            lemma_joined_chars(ns.drop_last(), i);
            if joined(ns)[i] != '/' {
                let (k, j) = choose|k: int, j: int|
                    0 <= k < ns.drop_last().len() && 0 <= j < ns.drop_last()[k].len() && head[i]
                        == #[trigger] ns.drop_last()[k][j];
                assert(joined(ns)[i] == ns[k][j]);
            }
        } else if i > head.len() {
            assert(joined(ns)[i] == ns[ns.len() - 1][i - head.len() - 1]);
        }
        if i == 0 && head.len() == 0 {
            assert(!is_void(ns[0]));
            if ns.drop_last().len() > 1 {
                assert(head.len() > 0);
            } else {
                assert(head == ns[0]);
            }
        }
    }
}

/// What a Windows path that is made of a stem and components never starts with: two
/// separators, or a drive and a separator.
spec fn is_tame(t: Seq<char>) -> bool {
    &&& !is_remote(t)
    &&& !(has_drive(t) && t.len() >= 3 && is_separator(Style::Windows, t[2]))
}

/// One more component keeps a Windows path tame.
proof fn lemma_extended_is_tame(buf: Seq<char>, name: Seq<char>)
    requires
        is_tame(buf),
        name.len() > 0,
        forall|j: int| 0 <= j < name.len() ==> !is_separator(Style::Windows, #[trigger] name[j]),
    ensures
        is_tame(extended(buf, name)),
{
    let r = extended(buf, name);
    assert(!is_separator(Style::Windows, name[0]));
    if name.len() > 2 {
        assert(!is_separator(Style::Windows, name[2]));
    }
    if r == buf + name || r == buf.push('\\') + name {
        assert(forall|j: int| 0 <= j < buf.len() ==> r[j] == buf[j]);
        if buf.len() <= 2 {
            assert(r.len() > buf.len());
        }
        if buf.len() < 2 {
            assert(buf.len() == 0 ==> r =~= name);
        }
    }
}

/// Components keep a Windows path tame.
proof fn lemma_extended_by_is_tame(buf: Seq<char>, ns: Seq<Seq<char>>)
    requires
        is_tame(buf),
        forall|i: int| 0 <= i < ns.len() ==> (#[trigger] ns[i]).len() > 0,
        forall|i: int, j: int|
            0 <= i < ns.len() && 0 <= j < ns[i].len() ==> !is_separator(
                Style::Windows,
                #[trigger] ns[i][j],
            ),
    ensures
        is_tame(extended_by(buf, ns)),
    decreases ns.len(),
{
    if ns.len() > 0 {
        lemma_extended_by_is_tame(buf, ns.drop_last());
        lemma_extended_is_tame(extended_by(buf, ns.drop_last()), ns.last());
    }
}

/// The path that comes back for a relative path is relative.
pub proof fn law_clean_path_is_relative(style: Style, t: Seq<char>)
    requires
        clean_path(style, t) is Ok,
        !is_absolute(style, t),
    ensures
        !is_absolute(style, clean_path(style, t)->Ok_0),
{
    match style {
        Style::Unix => {
            law_clean_path_stays_inside(t);
        },
        Style::Windows => {
            let ns = names(style, t);
            let start = names_start(style, t);
            assert forall|i: int| 0 <= i < ns.len() implies (#[trigger] ns[i]).len() > 0 by {
                lemma_names(style, t, start, i);
            }
            assert forall|i: int, j: int| 0 <= i < ns.len() && 0 <= j < ns[i].len() implies
                !is_separator(style, #[trigger] ns[i][j]) by {
                lemma_names(style, t, start, i);
            }
            reveal(is_absolute_on_windows);
            reveal(assembled_on_windows);
            lemma_extended_by_is_tame(stem(t), ns);
        },
    }
}

/// Path confinement: the path that comes back for a relative path is relative, holds
/// the same components and none that climbs to a parent directory, and is already
/// normal: asking again changes nothing. This is about the paths of Unix; on Windows a
/// component that starts with a drive takes the place of what stands before it.
pub proof fn law_clean_path_stays_inside(t: Seq<char>)
    requires
        clean_path(Style::Unix, t) is Ok,
        !is_absolute(Style::Unix, t),
    ensures
        ({
            let c = clean_path(Style::Unix, t)->Ok_0;
            &&& !is_absolute(Style::Unix, c)
            &&& names(Style::Unix, c) == names(Style::Unix, t)
            &&& forall|i: int|
                0 <= i < names(Style::Unix, c).len() ==> !is_parent(
                    #[trigger] names(Style::Unix, c)[i],
                )
            &&& !text::is_blank(c) ==> clean_path(Style::Unix, c) == Ok::<Seq<char>, Seq<char>>(c)
        }),
{
    let c = clean_path(Style::Unix, t)->Ok_0;
    let ns = names(Style::Unix, t);
    assert forall|i: int| 0 <= i < ns.len() implies !is_void(#[trigger] ns[i]) by {
        lemma_names(Style::Unix, t, 0, i);
    }
    assert forall|i: int, j: int| 0 <= i < ns.len() && 0 <= j < ns[i].len() implies ns[i][j]
        != '/' by {
        lemma_names(Style::Unix, t, 0, i);
    }
    lemma_names_of_joined(ns);
    if c.len() > 0 {
        lemma_joined_chars(ns, 0);
    }
    if c.contains('\0') {
        let i = choose|i: int| 0 <= i < c.len() && c[i] == '\0';
        lemma_joined_chars(ns, i);
        let (k, j) = choose|k: int, j: int|
            0 <= k < ns.len() && 0 <= j < ns[k].len() && c[i] == #[trigger] ns[k][j];
        lemma_names(Style::Unix, t, 0, k);
        assert(t.contains(ns[k][j]));
    }
}

/// Pieces of text with one character between each two.
pub open spec fn woven(pieces: Seq<Seq<char>>, between: Seq<char>) -> Seq<char>
    decreases pieces.len(),
{
    if pieces.len() == 0 {
        seq![]
    } else if pieces.len() == 1 {
        pieces[0]
    } else {
        pieces[0] + seq![between[0]] + woven(pieces.drop_first(), between.drop_first())
    }
}

/// Which pieces of a path count: neither nothing nor a single dot.
pub open spec fn counts() -> spec_fn(Seq<char>) -> bool {
    |c: Seq<char>| c.len() > 0 && c != seq!['.']
}

/// Where a path, or the rest of it, falls into pieces.
pub open spec fn falls_into(
    style: Style,
    t: Seq<char>,
    pieces: Seq<Seq<char>>,
    between: Seq<char>,
) -> bool {
    &&& pieces.len() == between.len() + 1
    &&& t == woven(pieces, between)
    &&& forall|k: int|
        0 <= k < between.len() ==> #[trigger] between[k] == '/' || (style == Style::Windows
            && between[k] == '\\')
    &&& forall|k: int, j: int|
        0 <= k < pieces.len() && 0 <= j < pieces[k].len() ==> #[trigger] pieces[k][j] != '/' && !(
        style == Style::Windows && pieces[k][j] == '\\')
}

/// The pieces of a path from a place on.
proof fn lemma_pieces(style: Style, t: Seq<char>, from: int) -> (r: (Seq<Seq<char>>, Seq<char>))
    requires
        0 <= from <= t.len(),
    ensures
        falls_into(style, t.skip(from), r.0, r.1),
        names_from(style, t, from) == r.0.filter(counts()),
    decreases t.len() - from,
{
    reveal(Seq::filter);
    lemma_component_end(style, t, from);
    let end = component_end(style, t, from);
    let c = t.subrange(from, end);
    lemma_component_chars(style, t, from);
    assert(is_void(c) == !counts()(c)) by {
        if c.len() == 1 {
            if c[0] == '.' {
                assert(c =~= seq!['.']);
            }
        }
    }
    assert(seq![c].drop_last() =~= seq![]);
    assert(seq![c].filter(counts()) =~= if is_void(c) {
        seq![]
    } else {
        seq![c]
    }) by {
        assert(seq![c].drop_last().filter(counts()) =~= seq![]);
    }
    if end >= t.len() {
        assert(t.skip(from) =~= c);
        assert(names_from(style, t, end + 1) =~= seq![]);
        (seq![c], seq![])
    } else {
        let (pieces, between) = lemma_pieces(style, t, end + 1);
        let all = seq![c] + pieces;
        let seps = seq![t[end]] + between;
        assert(all.drop_first() =~= pieces);
        assert(seps.drop_first() =~= between);
        assert(t.skip(from) =~= c + seq![t[end]] + t.skip(end + 1));
        Seq::filter_distributes_over_add(seq![c], pieces, counts());
        assert forall|k: int, j: int| 0 <= k < all.len() && 0 <= j < all[k].len() implies
            #[trigger] all[k][j] != '/' && !(style == Style::Windows && all[k][j] == '\\') by {
            if k > 0 {
                assert(all[k] == pieces[k - 1]);
                assert(pieces[k - 1][j] != '/');
            }
        }
        assert forall|k: int| 0 <= k < seps.len() implies #[trigger] seps[k] == '/' || (style
            == Style::Windows && seps[k] == '\\') by {
            if k > 0 {
                assert(seps[k] == between[k - 1]);
            }
        }
        (all, seps)
    }
}

/// A component holds no separator and ends at one, or where the path ends.
proof fn lemma_component_chars(style: Style, t: Seq<char>, from: int)
    requires
        0 <= from <= t.len(),
    ensures
        from <= component_end(style, t, from) <= t.len(),
        component_end(style, t, from) < t.len() ==> is_separator(
            style,
            t[component_end(style, t, from)],
        ),
        forall|k: int|
            from <= k < component_end(style, t, from) ==> !is_separator(style, #[trigger] t[k]),
    decreases t.len() - from,
{
    if from < t.len() && !is_separator(style, t[from]) {
        lemma_component_chars(style, t, from + 1);
    }
}

/// Joined names are names with a slash between each two.
proof fn lemma_joined_is_interleaved(ns: Seq<Seq<char>>)
    ensures
        joined(ns) == matching::interleaved(ns, seq!['/']),
    decreases ns.len(),
{
    if ns.len() >= 2 {
        lemma_joined_is_interleaved(ns.drop_last());
        lemma_interleaved_back(ns.drop_last(), ns.last(), seq!['/']);
        assert(ns.drop_last().push(ns.last()) =~= ns);
        assert(joined(ns.drop_last()).push('/') =~= joined(ns.drop_last()) + seq!['/']);
    }
}

/// One more piece at the back.
proof fn lemma_interleaved_back(ns: Seq<Seq<char>>, name: Seq<char>, sep: Seq<char>)
    requires
        ns.len() > 0,
    ensures
        matching::interleaved(ns.push(name), sep) == matching::interleaved(ns, sep) + sep + name,
    decreases ns.len(),
{
    let all = ns.push(name);
    if ns.len() == 1 {
        assert(all.drop_first() =~= seq![name]);
        assert(matching::interleaved(all.drop_first(), sep) == name);
        assert(matching::interleaved(all, sep) =~= ns[0] + sep + name);
    } else {
        lemma_interleaved_back(ns.drop_first(), name, sep);
        assert(all.drop_first() =~= ns.drop_first().push(name));
        assert(matching::interleaved(all, sep) =~= matching::interleaved(ns, sep) + sep + name);
    }
}

/// What becomes of a path where names are separated by slashes. It falls into pieces at its
/// slashes. A blank path is refused; one that starts with a slash is taken as it stands; a
/// path with the piece `..` is refused, and so is one with a NUL character; and of any other
/// the pieces that are neither nothing nor a dot are kept, in order, with one slash between
/// each two.
pub proof fn law_what_a_path_becomes(t: Seq<char>) -> (r: (Seq<Seq<char>>, Seq<char>))
    ensures
        falls_into(Style::Unix, t, r.0, r.1),
        clean_path(Style::Unix, t) == if text::is_blank(t) {
            Err("empty path"@)
        } else if t[0] == '/' {
            Ok(t)
        } else if r.0.contains(seq!['.', '.']) {
            Err("path traversal refused: "@ + t)
        } else if t.contains('\0') {
            Err("NUL byte in path"@)
        } else {
            Ok::<Seq<char>, Seq<char>>(
                matching::interleaved(r.0.filter(counts()), seq!['/']),
            )
        },
{
    let (pieces, between) = lemma_pieces(Style::Unix, t, 0);
    assert(t.skip(0) =~= t);
    let ns = names(Style::Unix, t);
    lemma_joined_is_interleaved(ns);
    lemma_parents_are_kept(pieces);
    (pieces, between)
}

/// A piece `..` is among those that count exactly where it is among the pieces.
proof fn lemma_parents_are_kept(pieces: Seq<Seq<char>>)
    ensures
        pieces.contains(seq!['.', '.']) <==> exists|i: int|
            0 <= i < pieces.filter(counts()).len() && is_parent(
                #[trigger] pieces.filter(counts())[i],
            ),
    decreases pieces.len(),
{
    reveal(Seq::filter);
    let parent = seq!['.', '.'];
    let kept = pieces.filter(counts());
    if pieces.len() > 0 {
        lemma_parents_are_kept(pieces.drop_last());
        let front = pieces.drop_last();
        let before = front.filter(counts());
        if pieces.contains(parent) {
            let k = choose|k: int| 0 <= k < pieces.len() && pieces[k] == parent;
            if k < front.len() {
                assert(front[k] == parent);
                let i = choose|i: int| 0 <= i < before.len() && is_parent(#[trigger] before[i]);
                assert(kept[i] == before[i]);
            } else {
                assert(counts()(parent));
                assert(kept.last() == parent);
                assert(is_parent(kept[kept.len() - 1]));
            }
        }
        if exists|i: int| 0 <= i < kept.len() && is_parent(#[trigger] kept[i]) {
            let i = choose|i: int| 0 <= i < kept.len() && is_parent(#[trigger] kept[i]);
            assert(kept[i] =~= parent);
            if i < before.len() {
                assert(is_parent(before[i]));
                let k = choose|k: int| 0 <= k < front.len() && front[k] == parent;
                assert(pieces[k] == parent);
            } else {
                assert(pieces[pieces.len() - 1] == parent);
            }
        }
    }
}

/// A letter and a colon stand at the front.
pub open spec fn starts_with_drive(t: Seq<char>) -> bool {
    t.len() >= 2 && t[1] == ':' && (97 <= t[0] as u32 <= 122 || 65 <= t[0] as u32 <= 90)
}

/// A slash or a backslash stands at that place.
pub open spec fn slash_at(t: Seq<char>, i: int) -> bool {
    0 <= i < t.len() && (t[i] == '/' || t[i] == '\\')
}

/// On Windows a path is absolute where a drive and its root stand at the front; or two
/// separators and then the name of a server and that of a share, a dot and a separator, or,
/// all with backslashes, a question mark and a separator. Otherwise it is not.
pub proof fn law_absolute_on_windows(t: Seq<char>)
    ensures
        is_absolute(Style::Windows, t) <==> {
            ||| starts_with_drive(t) && slash_at(t, 2)
            ||| slash_at(t, 0) && slash_at(t, 1) && t.len() > 2 && t[2] == '.' && slash_at(t, 3)
            ||| t.len() >= 4 && t[0] == '\\' && t[1] == '\\' && t[2] == '?' && t[3] == '\\'
            ||| slash_at(t, 0) && slash_at(t, 1) && exists|e: int|
                2 < e && e + 1 < t.len() && #[trigger] slash_at(t, e) && !slash_at(t, e + 1)
                    && forall|k: int| 2 <= k < e ==> !slash_at(t, k)
        },
{
    reveal(is_absolute_on_windows);
    if is_remote(t) {
        lemma_component_chars(Style::Windows, t, 2);
        let end = component_end(Style::Windows, t, 2);
        if end < t.len() {
            lemma_component_chars(Style::Windows, t, end + 1);
            if is_share(t) {
                assert(slash_at(t, end));
                assert(!slash_at(t, end + 1));
                assert forall|k: int| 2 <= k < end implies !slash_at(t, k) by {
                    assert(!is_separator(Style::Windows, t[k]));
                }
            }
        }
        if exists|e: int|
            2 < e && e + 1 < t.len() && #[trigger] slash_at(t, e) && !slash_at(t, e + 1)
                && forall|k: int| 2 <= k < e ==> !slash_at(t, k) {
            let e = choose|e: int|
                2 < e && e + 1 < t.len() && #[trigger] slash_at(t, e) && !slash_at(t, e + 1)
                    && forall|k: int| 2 <= k < e ==> !slash_at(t, k);
            assert(end == e) by {
                if end < e {
                    assert(!slash_at(t, end));
                }
                if e < end {
                    assert(!is_separator(Style::Windows, t[e]));
                }
            }
        }
    }
}

/// Names that are added one by one, none of which has a drive, are joined by backslashes.
proof fn lemma_extended_is_interleaved(lead: Seq<char>, ns: Seq<Seq<char>>)
    requires
        lead.len() == 0 || lead == seq!['\\'] || (lead.len() == 2 && has_drive(lead)),
        forall|i: int| 0 <= i < ns.len() ==> (#[trigger] ns[i]).len() > 0 && !has_drive(ns[i]),
        forall|i: int, j: int|
            0 <= i < ns.len() && 0 <= j < ns[i].len() ==> !is_separator(
                Style::Windows,
                #[trigger] ns[i][j],
            ),
    ensures
        extended_by(lead, ns) == lead + matching::interleaved(ns, seq!['\\']),
    decreases ns.len(),
{
    let sep = seq!['\\'];
    if ns.len() == 0 {
        assert(lead + matching::interleaved(ns, sep) =~= lead);
    } else {
        let front = ns.drop_last();
        let name = ns.last();
        assert forall|i: int| 0 <= i < front.len() implies (#[trigger] front[i]).len() > 0
            && !has_drive(front[i]) by {
            assert(front[i] == ns[i]);
        }
        assert forall|i: int, j: int| 0 <= i < front.len() && 0 <= j < front[i].len() implies
            !is_separator(Style::Windows, #[trigger] front[i][j]) by {
            assert(front[i][j] == ns[i][j]);
        }
        lemma_extended_is_interleaved(lead, front);
        assert(front.push(name) =~= ns);
        assert(!has_drive(name)) by {
            assert(name == ns[ns.len() - 1]);
        }
        if front.len() == 0 {
            assert(matching::interleaved(front, sep) =~= seq![]);
            assert(extended_by(lead, front) =~= lead);
            assert(matching::interleaved(ns, sep) =~= name);
        } else {
            let buf = extended_by(lead, front);
            let tail = matching::interleaved(front, sep);
            lemma_interleaved_back(front, name, sep);
            lemma_interleaved_end(front, sep);
            lemma_interleaved_start(front, sep);
            let last = front.last();
            assert(last == front[front.len() - 1]);
            assert(buf.last() == last[last.len() - 1]);
            assert(!is_separator(Style::Windows, front[front.len() - 1][last.len() - 1]));
            if buf.len() == 2 && has_drive(buf) {
                if lead.len() == 0 {
                    assert(buf =~= tail);
                    let first = front[0];
                    assert(first.len() > 0 && !has_drive(first));
                    if first.len() == 1 {
                        assert(tail[1] == '\\');
                    }
                } else {
                    assert(buf[0] == lead[0]);
                }
            }
            assert(buf.push('\\') + name =~= lead + (tail + sep + name));
        }
    }
}

/// The last character of joined names is that of the last name.
proof fn lemma_interleaved_end(ns: Seq<Seq<char>>, sep: Seq<char>)
    requires
        ns.len() > 0,
        ns.last().len() > 0,
    ensures
        matching::interleaved(ns, sep).len() > 0,
        matching::interleaved(ns, sep).last() == ns.last().last(),
{
    if ns.len() > 1 {
        lemma_interleaved_back(ns.drop_last(), ns.last(), sep);
        assert(ns.drop_last().push(ns.last()) =~= ns);
    }
}

/// Joined names start with the first name and, where there is another one, the separator.
proof fn lemma_interleaved_start(ns: Seq<Seq<char>>, sep: Seq<char>)
    requires
        ns.len() > 0,
    ensures
        ns.len() == 1 ==> matching::interleaved(ns, sep) == ns[0],
        ns.len() > 1 ==> matching::interleaved(ns, sep).len() >= ns[0].len() + sep.len(),
        matching::interleaved(ns, sep).take(ns[0].len() as int) == ns[0],
        ns.len() > 1 ==> forall|i: int|
            0 <= i < sep.len() ==> matching::interleaved(ns, sep)[ns[0].len() + i] == #[trigger] sep[i],
{
    assert(matching::interleaved(ns, sep).take(ns[0].len() as int) =~= ns[0]);
}

/// What becomes of a path on Windows. Behind the drive, where it has one, it falls into pieces
/// at its slashes and backslashes. A blank path is refused; an absolute one is taken as it
/// stands; a path with the piece `..` is refused, and so is one with a NUL character; and of
/// any other, unless a drive stands at the front of a piece, the pieces that are neither
/// nothing nor a dot are kept, in order, with one backslash between each two, behind the
/// drive, or behind a backslash where a separator stands at the front.
pub proof fn law_what_a_windows_path_becomes(t: Seq<char>) -> (r: (Seq<Seq<char>>, Seq<char>))
    ensures
        falls_into(
            Style::Windows,
            t.skip(
                if starts_with_drive(t) {
                    2
                } else {
                    0
                },
            ),
            r.0,
            r.1,
        ),
        ({
            let kept = r.0.filter(counts());
            let lead = if starts_with_drive(t) {
                t.take(2)
            } else if slash_at(t, 0) {
                seq!['\\']
            } else {
                seq![]
            };
            let c = clean_path(Style::Windows, t);
            if text::is_blank(t) {
                c == Err::<Seq<char>, Seq<char>>("empty path"@)
            } else if is_absolute(Style::Windows, t) {
                c == Ok::<Seq<char>, Seq<char>>(t)
            } else if r.0.contains(seq!['.', '.']) {
                c == Err::<Seq<char>, Seq<char>>("path traversal refused: "@ + t)
            } else if t.contains('\0') {
                c == Err::<Seq<char>, Seq<char>>("NUL byte in path"@)
            } else {
                &&& c is Ok
                &&& (forall|k: int| 0 <= k < kept.len() ==> !starts_with_drive(#[trigger] kept[k]))
                    ==> c->Ok_0 == lead + matching::interleaved(kept, seq!['\\'])
            }
        }),
{
    let style = Style::Windows;
    let start = names_start(style, t);
    let (pieces, between) = lemma_pieces(style, t, start);
    lemma_parents_are_kept(pieces);
    reveal(assembled_on_windows);
    let ns = names(style, t);
    if forall|k: int| 0 <= k < ns.len() ==> !starts_with_drive(#[trigger] ns[k]) {
        assert forall|i: int| 0 <= i < ns.len() implies (#[trigger] ns[i]).len() > 0 && !has_drive(
            ns[i],
        ) by {
            lemma_names(style, t, start, i);
            assert(!starts_with_drive(ns[i]));
        }
        assert forall|i: int, j: int| 0 <= i < ns.len() && 0 <= j < ns[i].len() implies
            !is_separator(style, #[trigger] ns[i][j]) by {
            lemma_names(style, t, start, i);
        }
        lemma_extended_is_interleaved(stem(t), ns);
    }
    (pieces, between)
}

} // verus!
