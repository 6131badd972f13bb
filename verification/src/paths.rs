//! Paths as strings, read by the rules of `std::path` on Unix or on Windows.
//!
//! On Unix the only separator is `/`. On Windows both `/` and `\` separate components,
//! except after a verbatim prefix (`\\?\...`), where only `\` does, and a path may begin
//! with a prefix: a drive (`C:`), a UNC share (`\\server\share`), a device
//! (`\\.\name`) or one of their verbatim forms (`\\?\C:`, `\\?\UNC\server\share`,
//! `\\?\name`). The two separators that open a UNC or device prefix may each be `/` or
//! `\`, as may the one after `\\?\UNC`; the verbatim opening `\\?\` is written with `\`
//! only.
//!
//! Components are written as tokens, so that two components compare equal exactly when
//! their tokens do: `p` followed by a code of the prefix (equal codes for equal
//! prefixes, drive letters taken in upper case), `r` for the root, and `n` followed by
//! the text of any other component (`.` and `..` included).
use vstd::prelude::*;
use crate::text::slice_chars;

verus! {

// ---------------------------------------------------------------------------
// Separators and splitting
// ---------------------------------------------------------------------------

/// Whether `c` separates components: `/`, on Windows also `\`, and after a verbatim
/// prefix `\` alone.
pub open spec fn is_sep(c: char, windows: bool, verbatim: bool) -> bool {
    if verbatim {
        c == '\\'
    } else {
        c == '/' || (windows && c == '\\')
    }
}

fn sep_at(c: char, windows: bool, verbatim: bool) -> (b: bool)
    ensures
        b == is_sep(c, windows, verbatim),
{
    if verbatim {
        c == '\\'
    } else {
        c == '/' || (windows && c == '\\')
    }
}

/// `s` split at every separator: never empty.
pub open spec fn split_path(s: Seq<char>, windows: bool, verbatim: bool) -> Seq<Seq<char>>
    decreases s.len(),
{
    if s.len() == 0 {
        seq![seq![]]
    } else {
        let ps = split_path(s.drop_last(), windows, verbatim);
        if is_sep(s.last(), windows, verbatim) {
            ps.push(seq![])
        } else {
            ps.update(ps.len() - 1, ps.last().push(s.last()))
        }
    }
}

proof fn lemma_split_path_nonempty(s: Seq<char>, windows: bool, verbatim: bool)
    ensures
        split_path(s, windows, verbatim).len() >= 1,
    decreases s.len(),
{
    if s.len() > 0 {
        lemma_split_path_nonempty(s.drop_last(), windows, verbatim);
    }
}

/// The views of a vector of character vectors.
pub open spec fn char_views(v: Seq<Vec<char>>) -> Seq<Seq<char>> {
    Seq::new(v.len(), |i: int| v[i]@)
}

fn split_path_exec(s: &Vec<char>, windows: bool, verbatim: bool) -> (r: Vec<Vec<char>>)
    ensures
        char_views(r@) == split_path(s@, windows, verbatim),
{
    let mut parts: Vec<Vec<char>> = Vec::new();
    let mut cur: Vec<char> = Vec::new();
    let mut i: usize = 0;
    assert(s@.take(0) =~= Seq::<char>::empty());
    while i < s.len()
        invariant
            i <= s@.len(),
            char_views(parts@).push(cur@) == split_path(s@.take(i as int), windows, verbatim),
        decreases s@.len() - i,
    {
        let ghost before = char_views(parts@).push(cur@);
        let c = s[i];
        proof {
            assert(s@.take(i + 1).drop_last() == s@.take(i as int));
            assert(s@.take(i + 1).last() == c);
            lemma_split_path_nonempty(s@.take(i as int), windows, verbatim);
        }
        if sep_at(c, windows, verbatim) {
            let done = cur;
            parts.push(done);
            cur = Vec::new();
            assert(char_views(parts@).push(cur@) =~= before.push(seq![]));
        } else {
            cur.push(c);
            assert(char_views(parts@).push(cur@) =~= before.update(
                before.len() - 1,
                before.last().push(c),
            ));
        }
        i = i + 1;
    }
    assert(s@.take(i as int) == s@);
    parts.push(cur);
    assert(char_views(parts@) =~= split_path(s@, windows, verbatim));
    parts
}

/// The index of the first Windows separator in `s` (its length when there is none).
pub open spec fn sep_index(s: Seq<char>, verbatim: bool) -> nat
    decreases s.len(),
{
    if s.len() == 0 || is_sep(s[0], true, verbatim) {
        0
    } else {
        1 + sep_index(s.drop_first(), verbatim)
    }
}

/// The next component of a prefix and what follows its separator.
pub open spec fn next_component(s: Seq<char>, verbatim: bool) -> (Seq<char>, Seq<char>) {
    let i = sep_index(s, verbatim);
    if i < s.len() {
        (s.take(i as int), s.skip(i as int + 1))
    } else {
        (s, seq![])
    }
}

proof fn lemma_sep_index(s: Seq<char>, verbatim: bool, k: int)
    requires
        0 <= k <= s.len(),
        forall|j: int| 0 <= j < k ==> !is_sep(#[trigger] s[j], true, verbatim),
        k == s.len() || is_sep(s[k], true, verbatim),
    ensures
        sep_index(s, verbatim) == k,
    decreases k,
{
    if k > 0 {
        assert(!is_sep(s[0], true, verbatim));
        let t = s.drop_first();
        assert forall|j: int| 0 <= j < k - 1 implies !is_sep(#[trigger] t[j], true, verbatim) by {
            assert(t[j] == s[j + 1]);
        }
        if k < s.len() {
            assert(t[k - 1] == s[k]);
        }
        lemma_sep_index(t, verbatim, k - 1);
    }
}

/// The first Windows separator in `p` at or after `from`.
fn find_sep(p: &Vec<char>, from: usize, verbatim: bool) -> (i: usize)
    requires
        from <= p@.len(),
    ensures
        from <= i <= p@.len(),
        i == from + sep_index(p@.skip(from as int), verbatim),
{
    let mut i = from;
    while i < p.len() && !sep_at(p[i], true, verbatim)
        invariant
            from <= i <= p@.len(),
            forall|j: int| from <= j < i ==> !is_sep(#[trigger] p@[j], true, verbatim),
        decreases p@.len() - i,
    {
        i = i + 1;
    }
    proof {
        let s = p@.skip(from as int);
        assert forall|j: int| 0 <= j < i - from implies !is_sep(#[trigger] s[j], true, verbatim) by {
            assert(s[j] == p@[from + j]);
        }
        if i < p@.len() {
            assert(s[i - from] == p@[i as int]);
        }
        lemma_sep_index(s, verbatim, i - from);
    }
    i
}

// ---------------------------------------------------------------------------
// Prefixes
// ---------------------------------------------------------------------------

/// An ASCII letter.
pub open spec fn is_ascii_alpha(c: char) -> bool {
    ('a' <= c <= 'z') || ('A' <= c <= 'Z')
}

/// `c` in upper case, when it is an ASCII letter.
pub open spec fn ascii_upper(c: char) -> char {
    if 'a' <= c <= 'z' {
        ((c as int) - 32) as char
    } else {
        c
    }
}

fn upper_of(c: char) -> (r: char)
    ensures
        r == ascii_upper(c),
{
    if 'a' <= c && c <= 'z' {
        ((c as u32 - 32) as u8) as char
    } else {
        c
    }
}

/// The prefix of a Windows path: its code, its length, whether it is verbatim and
/// whether it is a plain drive (`C:`).
pub open spec fn win_prefix(p: Seq<char>) -> Option<(Seq<char>, int, bool, bool)> {
    if p.len() >= 2 && is_sep(p[0], true, false) && is_sep(p[1], true, false) {
        if p.len() >= 4 && p[0] == '\\' && p[1] == '\\' && p[2] == '?' && p[3] == '\\' {
            if p.len() >= 8 && p[4] == 'U' && p[5] == 'N' && p[6] == 'C' && is_sep(
                p[7],
                true,
                false,
            ) {
                let (server, rest) = next_component(p.skip(8), true);
                let share = next_component(rest, true).0;
                Some(
                    (
                        seq!['w'] + server + seq!['\\'] + share,
                        (8 + server.len() + if share.len() > 0 {
                            1 + share.len()
                        } else {
                            0
                        }) as int,
                        true,
                        false,
                    ),
                )
            } else if p.len() >= 6 && is_ascii_alpha(p[4]) && p[5] == ':' && (p.len() == 6
                || p[6] == '\\') {
                Some((seq!['e', ascii_upper(p[4])], 6, true, false))
            } else {
                let x = next_component(p.skip(4), true).0;
                Some((seq!['v'] + x, (4 + x.len()) as int, true, false))
            }
        } else if p.len() >= 4 && p[2] == '.' && is_sep(p[3], true, false) {
            let x = next_component(p.skip(4), false).0;
            Some((seq!['n'] + x, (4 + x.len()) as int, false, false))
        } else {
            let (server, rest) = next_component(p.skip(2), false);
            let share = next_component(rest, false).0;
            if server.len() > 0 && share.len() > 0 {
                Some((seq!['u'] + server + seq!['\\'] + share, (3 + server.len() + share.len()) as int, false, false))
            } else {
                None
            }
        }
    } else if p.len() >= 2 && is_ascii_alpha(p[0]) && p[1] == ':' {
        Some((seq!['d', ascii_upper(p[0])], 2, false, true))
    } else {
        None
    }
}

/// The prefix of a path (none on Unix).
pub open spec fn prefix_of(p: Seq<char>, windows: bool) -> Option<(Seq<char>, int, bool, bool)> {
    if windows {
        win_prefix(p)
    } else {
        None
    }
}

/// The view of a computed prefix.
pub open spec fn prefix_view(o: Option<(Vec<char>, usize, bool, bool)>) -> Option<(Seq<char>, int, bool, bool)> {
    match o {
        Some(x) => Some((x.0@, x.1 as int, x.2, x.3)),
        None => None,
    }
}

/// Where the prefix component that starts at `from` ends, and where what follows its
/// separator begins.
fn component_between(p: &Vec<char>, from: usize, verbatim: bool) -> (r: (usize, usize))
    requires
        from <= p@.len(),
    ensures
        from <= r.0 <= p@.len(),
        r.1 <= p@.len(),
        r.0 < p@.len() ==> r.1 == r.0 + 1,
        r.0 == p@.len() ==> r.1 == p@.len(),
        next_component(p@.skip(from as int), verbatim) == (
            p@.subrange(from as int, r.0 as int),
            p@.skip(r.1 as int),
        ),
{
    let e = find_sep(p, from, verbatim);
    let ghost s = p@.skip(from as int);
    if e < p.len() {
        assert(s.take(e - from) =~= p@.subrange(from as int, e as int));
        assert(s.skip(e - from + 1) =~= p@.skip(e + 1));
        (e, e + 1)
    } else {
        assert(s =~= p@.subrange(from as int, e as int));
        assert(p@.skip(e as int) =~= Seq::<char>::empty());
        (e, e)
    }
}

fn tagged(tag: char, a: &Vec<char>, from: usize, to: usize) -> (r: Vec<char>)
    requires
        from <= to <= a@.len(),
    ensures
        r@ == seq![tag] + a@.subrange(from as int, to as int),
{
    let mut r: Vec<char> = Vec::new();
    r.push(tag);
    let mut i = from;
    while i < to
        invariant
            from <= i <= to <= a@.len(),
            r@ == seq![tag] + a@.subrange(from as int, i as int),
        decreases to - i,
    {
        r.push(a[i]);
        i = i + 1;
        assert(a@.subrange(from as int, i as int) =~= a@.subrange(from as int, i - 1).push(
            a@[i - 1],
        ));
    }
    r
}

fn push_range(r: &mut Vec<char>, a: &Vec<char>, from: usize, to: usize)
    requires
        from <= to <= a@.len(),
    ensures
        final(r)@ == old(r)@ + a@.subrange(from as int, to as int),
{
    let mut i = from;
    while i < to
        invariant
            from <= i <= to <= a@.len(),
            r@ == old(r)@ + a@.subrange(from as int, i as int),
        decreases to - i,
    {
        r.push(a[i]);
        i = i + 1;
        assert(a@.subrange(from as int, i as int) =~= a@.subrange(from as int, i - 1).push(
            a@[i - 1],
        ));
    }
}

/// A server and share (`\\server\share` and its verbatim form) starting at `from`.
fn server_share(p: &Vec<char>, from: usize, tag: char, verbatim: bool) -> (r: (Vec<char>, usize, usize))
    requires
        from <= p@.len(),
    ensures
        ({
            let (server, rest) = next_component(p@.skip(from as int), verbatim);
            let share = next_component(rest, verbatim).0;
            &&& r.0@ == seq![tag] + server + seq!['\\'] + share
            &&& r.1 == server.len()
            &&& r.2 == share.len()
            &&& from + server.len() + (if share.len() > 0 { 1 + share.len() } else { 0 }) <= p@.len()
        }),
{
    let (e1, s2) = component_between(p, from, verbatim);
    let (e2, _) = component_between(p, s2, verbatim);
    let mut t = tagged(tag, p, from, e1);
    t.push('\\');
    push_range(&mut t, p, s2, e2);
    (t, e1 - from, e2 - s2)
}

/// The prefix of a Windows path ([`win_prefix`]).
fn windows_prefix(p: &Vec<char>) -> (r: Option<(Vec<char>, usize, bool, bool)>)
    ensures
        prefix_view(r) == win_prefix(p@),
        r matches Some(x) ==> x.1 <= p@.len(),
{
    let n = p.len();
    if n >= 2 && sep_at(p[0], true, false) && sep_at(p[1], true, false) {
        if n >= 4 && p[0] == '\\' && p[1] == '\\' && p[2] == '?' && p[3] == '\\' {
            if n >= 8 && p[4] == 'U' && p[5] == 'N' && p[6] == 'C' && sep_at(p[7], true, false) {
                let (t, a, b) = server_share(p, 8, 'w', true);
                let len = if b > 0 {
                    8 + a + 1 + b
                } else {
                    8 + a
                };
                Some((t, len, true, false))
            } else if n >= 6 && (('a' <= p[4] && p[4] <= 'z') || ('A' <= p[4] && p[4] <= 'Z'))
                && p[5] == ':' && (n == 6 || p[6] == '\\') {
                let t = vec!['e', upper_of(p[4])];
                assert(t@ =~= seq!['e', ascii_upper(p@[4])]);
                Some((t, 6, true, false))
            } else {
                let (e, _) = component_between(p, 4, true);
                let t = tagged('v', p, 4, e);
                Some((t, e, true, false))
            }
        } else if n >= 4 && p[2] == '.' && sep_at(p[3], true, false) {
            let (e, _) = component_between(p, 4, false);
            let t = tagged('n', p, 4, e);
            Some((t, e, false, false))
        } else {
            let (t, a, b) = server_share(p, 2, 'u', false);
            if a > 0 && b > 0 {
                Some((t, 3 + a + b, false, false))
            } else {
                None
            }
        }
    } else if n >= 2 && (('a' <= p[0] && p[0] <= 'z') || ('A' <= p[0] && p[0] <= 'Z')) && p[1]
        == ':' {
        let t = vec!['d', upper_of(p[0])];
        assert(t@ =~= seq!['d', ascii_upper(p@[0])]);
        Some((t, 2, false, true))
    } else {
        None
    }
}

/// The prefix of a path ([`prefix_of`]).
fn path_prefix(p: &Vec<char>, windows: bool) -> (r: Option<(Vec<char>, usize, bool, bool)>)
    ensures
        prefix_view(r) == prefix_of(p@, windows),
        r matches Some(x) ==> x.1 <= p@.len(),
{
    if windows {
        windows_prefix(p)
    } else {
        None
    }
}

// ---------------------------------------------------------------------------
// Roots and components
// ---------------------------------------------------------------------------

/// The length of the prefix (0 without one).
pub open spec fn prefix_len(p: Seq<char>, windows: bool) -> int {
    match prefix_of(p, windows) {
        Some(x) => x.1,
        None => 0,
    }
}

/// Whether the path has a verbatim prefix.
pub open spec fn is_verbatim(p: Seq<char>, windows: bool) -> bool {
    match prefix_of(p, windows) {
        Some(x) => x.2,
        None => false,
    }
}

/// Whether a separator follows the prefix.
pub open spec fn has_physical_root(p: Seq<char>, windows: bool) -> bool {
    let k = prefix_len(p, windows);
    0 <= k < p.len() && is_sep(p[k], windows, false)
}

/// `Path::has_root`: a separator after the prefix, or a prefix other than a drive.
pub open spec fn has_root(p: Seq<char>, windows: bool) -> bool {
    has_physical_root(p, windows) || (match prefix_of(p, windows) {
        Some(x) => !x.3,
        None => false,
    })
}

/// `Path::is_absolute`: a root, and on Windows a prefix too.
pub open spec fn is_absolute(p: Seq<char>, windows: bool) -> bool {
    has_root(p, windows) && (!windows || prefix_of(p, windows) is Some)
}

/// The token of the root component.
pub open spec fn root_token() -> Seq<char> {
    seq!['r']
}

/// The token of a component written as `part`.
pub open spec fn part_token(part: Seq<char>) -> Seq<char> {
    seq!['n'] + part
}

/// Whether part `j` of a split body is a component: empty parts never are, and `.` only
/// after a verbatim prefix or at the start of a path with neither prefix nor root.
pub open spec fn keeps_part(part: Seq<char>, j: int, verbatim: bool, lead_dot: bool) -> bool {
    part.len() > 0 && (part != seq!['.'] || verbatim || (j == 0 && lead_dot))
}

/// The tokens of the parts that are components, in order.
pub open spec fn part_tokens(ps: Seq<Seq<char>>, verbatim: bool, lead_dot: bool) -> Seq<Seq<char>>
    decreases ps.len(),
{
    if ps.len() == 0 {
        seq![]
    } else {
        let rest = part_tokens(ps.drop_last(), verbatim, lead_dot);
        if keeps_part(ps.last(), ps.len() - 1, verbatim, lead_dot) {
            rest.push(part_token(ps.last()))
        } else {
            rest
        }
    }
}

/// What follows the prefix and the separator of a physical root.
pub open spec fn path_body(p: Seq<char>, windows: bool) -> Seq<char> {
    p.skip(prefix_len(p, windows) + if has_physical_root(p, windows) {
        1int
    } else {
        0int
    })
}

/// `Path::components`, as tokens: the prefix, the root (a separator after the prefix,
/// or a UNC or device prefix), then the parts of the body.
pub open spec fn components(p: Seq<char>, windows: bool) -> Seq<Seq<char>> {
    let v = is_verbatim(p, windows);
    let root = has_physical_root(p, windows);
    (match prefix_of(p, windows) {
        Some(x) => seq![seq!['p'] + x.0],
        None => seq![],
    }) + (if root || (has_root(p, windows) && !v) {
        seq![root_token()]
    } else {
        seq![]
    }) + part_tokens(
        split_path(path_body(p, windows), windows, v),
        v,
        prefix_of(p, windows) is None && !root,
    )
}

/// `Path::starts_with`: the components of `base` begin the components of `p`.
pub open spec fn path_starts_with(p: Seq<char>, base: Seq<char>, windows: bool) -> bool {
    let a = components(p, windows);
    let b = components(base, windows);
    b.len() <= a.len() && a.take(b.len() as int) == b
}

/// Whether two character vectors are equal.
pub fn chars_eq(a: &Vec<char>, b: &Vec<char>) -> (r: bool)
    ensures
        r == (a@ == b@),
{
    if a.len() != b.len() {
        return false;
    }
    let mut i: usize = 0;
    while i < a.len()
        invariant
            i <= a@.len(),
            a@.len() == b@.len(),
            forall|j: int| 0 <= j < i ==> a@[j] == b@[j],
        decreases a@.len() - i,
    {
        if a[i] != b[i] {
            return false;
        }
        i = i + 1;
    }
    assert(a@ =~= b@);
    true
}

/// The prefix length, verbatim flag and physical root of `p`.
fn path_head(p: &Vec<char>, windows: bool) -> (r: (Option<(Vec<char>, usize, bool, bool)>, usize, bool, bool))
    ensures
        prefix_view(r.0) == prefix_of(p@, windows),
        r.1 == prefix_len(p@, windows),
        r.1 <= p@.len(),
        r.2 == is_verbatim(p@, windows),
        r.3 == has_physical_root(p@, windows),
{
    let pre = path_prefix(p, windows);
    let (plen, verbatim) = match &pre {
        Some(x) => (x.1, x.2),
        None => (0, false),
    };
    let root = plen < p.len() && sep_at(p[plen], windows, false);
    (pre, plen, verbatim, root)
}

/// Whether `p` is absolute ([`is_absolute`]).
pub fn path_is_absolute(p: &Vec<char>, windows: bool) -> (b: bool)
    ensures
        b == is_absolute(p@, windows),
{
    let (pre, _, _, root) = path_head(p, windows);
    match pre {
        Some(x) => root || !x.3,
        None => root && !windows,
    }
}

/// The components of `p` ([`components`]).
pub fn path_components(p: &Vec<char>, windows: bool) -> (r: Vec<Vec<char>>)
    ensures
        char_views(r@) == components(p@, windows),
{
    let (pre, plen, verbatim, root) = path_head(p, windows);
    assert(root ==> plen < p@.len());
    let mut out: Vec<Vec<char>> = Vec::new();
    let mut implicit = false;
    let mut lead_dot = !root;
    match &pre {
        Some(x) => {
            let t = tagged('p', &x.0, 0, x.0.len());
            assert(x.0@.subrange(0, x.0@.len() as int) =~= x.0@);
            out.push(t);
            implicit = !x.3;
            lead_dot = false;
        },
        None => {},
    }
    let ghost first = char_views(out@);
    assert(first =~= (match prefix_of(p@, windows) {
        Some(x) => seq![seq!['p'] + x.0],
        None => seq![],
    }));
    assert(implicit == (has_root(p@, windows) && !root) || root);
    if root || (implicit && !verbatim) {
        let rt = vec!['r'];
        assert(rt@ =~= root_token());
        out.push(rt);
    }
    let ghost head = char_views(out@);
    assert(head =~= first + (if root || (has_root(p@, windows) && !verbatim) {
        seq![root_token()]
    } else {
        seq![]
    }));
    let n = p.len();
    let start = if root {
        assert(plen < n);
        plen + 1
    } else {
        plen
    };
    let body = slice_chars(p, start, p.len());
    assert(body@ =~= path_body(p@, windows));
    let parts = split_path_exec(&body, windows, verbatim);
    let mut i: usize = 0;
    assert(char_views(parts@).take(0) =~= Seq::<Seq<char>>::empty());
    assert(head + part_tokens(Seq::<Seq<char>>::empty(), verbatim, lead_dot) =~= head);
    let dot: Vec<char> = vec!['.'];
    assert(dot@ =~= seq!['.']);
    while i < parts.len()
        invariant
            i <= parts@.len(),
            dot@ == seq!['.'],
            char_views(out@) == head + part_tokens(char_views(parts@).take(i as int), verbatim, lead_dot),
        decreases parts@.len() - i,
    {
        let ghost before = char_views(out@);
        let ghost pre_parts = char_views(parts@).take(i as int);
        proof {
            assert(char_views(parts@).take(i + 1).drop_last() =~= pre_parts);
            assert(char_views(parts@).take(i + 1).last() == parts@[i as int]@);
        }
        let part = &parts[i];
        let is_dot = chars_eq(part, &dot);
        if part.len() > 0 && (!is_dot || verbatim || (i == 0 && lead_dot)) {
            let t = tagged('n', part, 0, part.len());
            assert(part@.subrange(0, part@.len() as int) =~= part@);
            out.push(t);
            assert(char_views(out@) =~= before.push(part_token(part@)));
            assert(head + part_tokens(pre_parts, verbatim, lead_dot).push(part_token(part@)) =~= (head
                + part_tokens(pre_parts, verbatim, lead_dot)).push(part_token(part@)));
        }
        i = i + 1;
    }
    assert(char_views(parts@).take(i as int) =~= char_views(parts@));
    out
}

/// Whether `p` lies at or under `base` ([`path_starts_with`]).
pub fn starts_with_path(p: &Vec<char>, base: &Vec<char>, windows: bool) -> (r: bool)
    ensures
        r == path_starts_with(p@, base@, windows),
{
    let a = path_components(p, windows);
    let b = path_components(base, windows);
    if b.len() > a.len() {
        return false;
    }
    let mut i: usize = 0;
    while i < b.len()
        invariant
            i <= b@.len() <= a@.len(),
            char_views(a@) == components(p@, windows),
            char_views(b@) == components(base@, windows),
            forall|j: int| 0 <= j < i ==> char_views(a@)[j] == char_views(b@)[j],
        decreases b@.len() - i,
    {
        if !chars_eq(&a[i], &b[i]) {
            assert(char_views(a@).take(b@.len() as int)[i as int] != char_views(b@)[i as int]);
            assert(char_views(a@).take(b@.len() as int) != char_views(b@));
            return false;
        }
        i = i + 1;
    }
    assert(char_views(a@).take(b@.len() as int) =~= char_views(b@));
    true
}

// ---------------------------------------------------------------------------
// Joining
// ---------------------------------------------------------------------------

/// The separator that joining writes: `\` on Windows, `/` on Unix.
pub open spec fn main_sep(windows: bool) -> char {
    if windows {
        '\\'
    } else {
        '/'
    }
}

/// A token of a component that is neither a prefix, the root, `.` nor `..`.
pub open spec fn is_normal_token(t: Seq<char>) -> bool {
    t.len() > 0 && t[0] == 'n' && t != part_token(seq!['.']) && t != part_token(seq!['.', '.'])
}

/// One component of a relative path added to the components of a verbatim path: the
/// root goes back to the prefix, `.` is dropped, `..` removes a preceding normal
/// component (and is dropped otherwise), any other component is appended.
pub open spec fn verbatim_push(buf: Seq<Seq<char>>, c: Seq<char>) -> Seq<Seq<char>> {
    if c == root_token() {
        (if buf.len() > 0 {
            buf.take(1)
        } else {
            buf
        }).push(c)
    } else if c == part_token(seq!['.']) {
        buf
    } else if c == part_token(seq!['.', '.']) {
        if buf.len() > 0 && is_normal_token(buf.last()) {
            buf.drop_last()
        } else {
            buf
        }
    } else {
        buf.push(c)
    }
}

/// The components of a relative path added one by one ([`verbatim_push`]).
pub open spec fn verbatim_fold(buf: Seq<Seq<char>>, cs: Seq<Seq<char>>) -> Seq<Seq<char>>
    decreases cs.len(),
{
    if cs.len() == 0 {
        buf
    } else {
        verbatim_fold(verbatim_push(buf, cs[0]), cs.drop_first())
    }
}

/// The text of a component token (what follows its tag).
pub open spec fn token_text(t: Seq<char>) -> Seq<char> {
    if t.len() > 0 {
        t.drop_first()
    } else {
        t
    }
}

/// Components written out after a verbatim prefix: the root as `\`, every other
/// component preceded by `\` unless it follows the root.
pub open spec fn render(cs: Seq<Seq<char>>, need_sep: bool) -> Seq<char>
    decreases cs.len(),
{
    if cs.len() == 0 {
        seq![]
    } else if cs[0] == root_token() {
        seq!['\\'] + render(cs.drop_first(), false)
    } else {
        (if need_sep {
            seq!['\\']
        } else {
            seq![]
        }) + token_text(cs[0]) + render(cs.drop_first(), true)
    }
}

/// Whether `p` is a drive and nothing more (`C:`).
pub open spec fn is_bare_drive(p: Seq<char>, windows: bool) -> bool {
    match prefix_of(p, windows) {
        Some(x) => x.3 && x.1 == p.len(),
        None => false,
    }
}

/// `Path::join`: a `rel` that is absolute or has a prefix replaces `base`; after a
/// verbatim `base`, `.` and `..` of `rel` are resolved and the result is written with
/// `\`; a `rel` with a root keeps only the prefix of `base`; otherwise `rel` is appended
/// after a separator unless `base` is empty, ends with a separator or is a bare drive.
pub open spec fn join(base: Seq<char>, rel: Seq<char>, windows: bool) -> Seq<char> {
    if is_absolute(rel, windows) || prefix_of(rel, windows) is Some {
        rel
    } else if is_verbatim(base, windows) && rel.len() > 0 {
        base.take(prefix_len(base, windows)) + render(
            verbatim_fold(components(base, windows), components(rel, windows)).drop_first(),
            true,
        )
    } else if has_root(rel, windows) {
        base.take(prefix_len(base, windows)) + rel
    } else if base.len() > 0 && !is_sep(base.last(), windows, false) && !is_bare_drive(
        base,
        windows,
    ) {
        base + seq![main_sep(windows)] + rel
    } else {
        base + rel
    }
}

proof fn lemma_verbatim_fold_keeps_head(buf: Seq<Seq<char>>, cs: Seq<Seq<char>>)
    requires
        buf.len() >= 1,
        buf[0].len() > 0,
        buf[0][0] == 'p',
    ensures
        verbatim_fold(buf, cs).len() >= 1,
        verbatim_fold(buf, cs)[0] == buf[0],
    decreases cs.len(),
{
    if cs.len() > 0 {
        let next = verbatim_push(buf, cs[0]);
        if buf.len() == 1 {
            assert(buf.last() == buf[0]);
        }
        assert(next.len() >= 1 && next[0] == buf[0]);
        lemma_verbatim_fold_keeps_head(next, cs.drop_first());
    }
}

fn copy_chars(v: &Vec<char>) -> (r: Vec<char>)
    ensures
        r@ == v@,
{
    let r = slice_chars(v, 0, v.len());
    assert(r@ =~= v@);
    r
}

fn is_token(c: &Vec<char>, a: char, b: char, n: usize) -> (r: bool)
    requires
        1 <= n <= 3,
    ensures
        r == (c@ == (if n == 1 {
            seq![a]
        } else if n == 2 {
            seq![a, b]
        } else {
            seq![a, b, b]
        })),
{
    if c.len() != n {
        return false;
    }
    let r = c[0] == a && (n < 2 || c[1] == b) && (n < 3 || c[2] == b);
    proof {
        if n == 1 {
            assert(r == (c@ =~= seq![a]));
        } else if n == 2 {
            assert(r == (c@ =~= seq![a, b]));
        } else {
            assert(r == (c@ =~= seq![a, b, b]));
        }
    }
    r
}

fn verbatim_fold_exec(buf: Vec<Vec<char>>, cs: &Vec<Vec<char>>) -> (r: Vec<Vec<char>>)
    ensures
        char_views(r@) == verbatim_fold(char_views(buf@), char_views(cs@)),
{
    let ghost goal = verbatim_fold(char_views(buf@), char_views(cs@));
    let mut b = buf;
    let mut i: usize = 0;
    assert(char_views(cs@).skip(0) =~= char_views(cs@));
    while i < cs.len()
        invariant
            i <= cs@.len(),
            verbatim_fold(char_views(b@), char_views(cs@).skip(i as int)) == goal,
        decreases cs@.len() - i,
    {
        let ghost rest = char_views(cs@).skip(i as int);
        let ghost before = char_views(b@);
        assert(rest[0] == cs@[i as int]@);
        assert(rest.drop_first() =~= char_views(cs@).skip(i + 1));
        let c = &cs[i];
        assert(root_token() =~= seq!['r']);
        assert(part_token(seq!['.']) =~= seq!['n', '.']);
        assert(part_token(seq!['.', '.']) =~= seq!['n', '.', '.']);
        if is_token(c, 'r', 'r', 1) {
            b.truncate(1);
            b.push(copy_chars(c));
            assert(char_views(b@) =~= (if before.len() > 0 {
                before.take(1)
            } else {
                before
            }).push(c@));
        } else if is_token(c, 'n', '.', 2) {
        } else if is_token(c, 'n', '.', 3) {
            let bl = b.len();
            if bl > 0 {
                let last = &b[bl - 1];
                let normal = last.len() > 0 && last[0] == 'n' && !is_token(last, 'n', '.', 2)
                    && !is_token(last, 'n', '.', 3);
                assert(before.last() == last@);
                if normal {
                    b.pop();
                    assert(char_views(b@) =~= before.drop_last());
                }
            }
        } else {
            b.push(copy_chars(c));
            assert(char_views(b@) =~= before.push(c@));
        }
        assert(char_views(b@) == verbatim_push(before, rest[0]));
        i = i + 1;
    }
    assert(char_views(cs@).skip(i as int) =~= Seq::<Seq<char>>::empty());
    b
}

fn render_into(out: &mut Vec<char>, cs: &Vec<Vec<char>>, from: usize)
    requires
        from <= cs@.len(),
    ensures
        final(out)@ == old(out)@ + render(char_views(cs@).skip(from as int), true),
{
    let mut need = true;
    let mut i = from;
    while i < cs.len()
        invariant
            from <= i <= cs@.len(),
            out@ + render(char_views(cs@).skip(i as int), need) == old(out)@ + render(
                char_views(cs@).skip(from as int),
                true,
            ),
        decreases cs@.len() - i,
    {
        let ghost rest = char_views(cs@).skip(i as int);
        let ghost o = out@;
        assert(rest[0] == cs@[i as int]@);
        assert(rest.drop_first() =~= char_views(cs@).skip(i + 1));
        assert(root_token() =~= seq!['r']);
        let c = &cs[i];
        if is_token(c, 'r', 'r', 1) {
            out.push('\\');
            assert(o + render(rest, need) =~= out@ + render(rest.drop_first(), false));
            need = false;
        } else {
            if need {
                out.push('\\');
            }
            let ghost o2 = out@;
            if c.len() > 0 {
                push_range(out, c, 1, c.len());
                assert(c@.subrange(1, c@.len() as int) =~= token_text(c@));
            }
            assert(o + render(rest, need) =~= out@ + render(rest.drop_first(), true));
            need = true;
        }
        i = i + 1;
    }
    assert(char_views(cs@).skip(i as int) =~= Seq::<Seq<char>>::empty());
    assert(out@ + render(Seq::<Seq<char>>::empty(), need) =~= out@);
}

/// `base.join(rel)` ([`join`]).
pub fn join_path(base: &Vec<char>, rel: &Vec<char>, windows: bool) -> (r: Vec<char>)
    ensures
        r@ == join(base@, rel@, windows),
{
    let (rpre, _, _, rroot) = path_head(rel, windows);
    let rabs = path_is_absolute(rel, windows);
    if rabs || rpre.is_some() {
        return copy_chars(rel);
    }
    let (bpre, bplen, bverb, _) = path_head(base, windows);
    if bverb && rel.len() > 0 {
        let bc = path_components(base, windows);
        let rc = path_components(rel, windows);
        let buf = verbatim_fold_exec(bc, &rc);
        let mut out = slice_chars(base, 0, bplen);
        assert(out@ =~= base@.take(prefix_len(base@, windows)));
        proof {
            let bcs = components(base@, windows);
            assert(bcs[0] == seq!['p'] + prefix_of(base@, windows).unwrap().0);
            lemma_verbatim_fold_keeps_head(bcs, components(rel@, windows));
        }
        if buf.len() >= 1 {
            render_into(&mut out, &buf, 1);
            assert(char_views(buf@).skip(1) =~= char_views(buf@).drop_first());
        }
        return out;
    }
    if rroot {
        let mut out = slice_chars(base, 0, bplen);
        push_range(&mut out, rel, 0, rel.len());
        assert(out@ =~= base@.take(prefix_len(base@, windows)) + rel@);
        return out;
    }
    let bare = match &bpre {
        Some(x) => x.3 && x.1 == base.len(),
        None => false,
    };
    let mut out = copy_chars(base);
    if base.len() > 0 && !sep_at(base[base.len() - 1], windows, false) && !bare {
        out.push(if windows {
            '\\'
        } else {
            '/'
        });
    }
    push_range(&mut out, rel, 0, rel.len());
    assert(rel@.subrange(0, rel@.len() as int) =~= rel@);
    out
}

} // verus!
