//! The `printf` applet: escape sequences, conversion directives and the
//! argument-recycling formatting loop.
//!
//! The formatter produces a stream of [`Chunk`]s: literal characters, messages
//! for standard error, and floating-point conversions, which the caller renders.
use vstd::prelude::*;
use crate::text::{
    chars_of, string_from_chars, push_all, push_str, contains_char, has_char, is_digit, is_ws,
    trim, trim_chars, strip_leading, strip_leading_chars, parse_i64, parse_i64_chars, utf8_len,
    utf8_len_below, radix, decimal, signed_decimal, magnitude, magnitude_of, signed_decimal_string, starts_with_char, slice_chars, lemma_radix_props, all_digits,
    digits_value, digit_char, trim_start, trim_end, lemma_utf8_len_ge_len, radix_string,
};

verus! {

// ---------------------------------------------------------------------------
// Options and output chunks
// ---------------------------------------------------------------------------

/// Parsed command line of `printf FORMAT [ARGUMENT]...`.
pub struct PrintfOptions {
    pub format: String,
    pub arguments: Vec<String>,
}

/// A floating-point conversion (`%f %F %e %E %g %G`) left for the caller to render.
pub struct FloatDirective {
    /// The conversion character.
    pub conv: char,
    /// The argument the conversion consumes (`""` when arguments ran out).
    pub arg: String,
    /// The flag characters of the directive.
    pub flags: String,
    /// The field width, if any.
    pub width: Option<i64>,
    /// The precision, if any.
    pub precision: Option<i64>,
    /// Whether a malformed argument is reported on standard error (the streaming applet)
    /// or silently read as zero (the string formatter).
    pub report_errors: bool,
}

/// Spec view of a [`FloatDirective`].
pub struct SpecFloat {
    pub conv: char,
    pub arg: Seq<char>,
    pub flags: Seq<char>,
    pub width: Option<i64>,
    pub precision: Option<i64>,
    pub report_errors: bool,
}

impl View for FloatDirective {
    type V = SpecFloat;

    open spec fn view(&self) -> SpecFloat {
        SpecFloat {
            conv: self.conv,
            arg: self.arg@,
            flags: self.flags@,
            width: self.width,
            precision: self.precision,
            report_errors: self.report_errors,
        }
    }
}

/// One piece of formatter output.
pub enum Chunk {
    /// A character for standard output.
    Lit(char),
    /// A floating-point conversion for standard output.
    Float(FloatDirective),
    /// A line for standard error.
    Diag(String),
}

/// Spec view of a [`Chunk`].
pub enum SpecChunk {
    Lit(char),
    Float(SpecFloat),
    Diag(Seq<char>),
}

impl View for Chunk {
    type V = SpecChunk;

    open spec fn view(&self) -> SpecChunk {
        match self {
            Chunk::Lit(c) => SpecChunk::Lit(*c),
            Chunk::Float(f) => SpecChunk::Float(f@),
            Chunk::Diag(m) => SpecChunk::Diag(m@),
        }
    }
}

/// The spec view of a chunk sequence.
pub open spec fn chunks_view(v: Seq<Chunk>) -> Seq<SpecChunk> {
    Seq::new(v.len(), |i: int| v[i]@)
}

/// Literal chunks for the characters of `s`.
pub open spec fn lits(s: Seq<char>) -> Seq<SpecChunk> {
    Seq::new(s.len(), |i: int| lit_chunk(s[i]))
}

/// The literal chunk of one character.
pub open spec fn lit_chunk(c: char) -> SpecChunk {
    SpecChunk::Lit(c)
}

/// The literal chunks of a concatenation are the concatenated literal chunks.
proof fn lemma_lits_concat(a: Seq<char>, b: Seq<char>)
    ensures
        lits(a + b) == lits(a) + lits(b),
{
    assert forall|i: int| 0 <= i < a.len() + b.len() implies #[trigger] lits(a + b)[i] == (lits(a)
        + lits(b))[i] by {
        if i < a.len() {
            assert((a + b)[i] == a[i]);
        } else {
            assert((a + b)[i] == b[i - a.len()]);
        }
    }
    assert(lits(a + b) =~= lits(a) + lits(b));
}

/// The literal chunks of a single character.
proof fn lemma_lits_one(c: char)
    ensures
        lits(seq![c]) == seq![SpecChunk::Lit(c)],
{
    assert(lits(seq![c])[0] == SpecChunk::Lit(c));
    assert(lits(seq![c]) =~= seq![SpecChunk::Lit(c)]);
}

/// No characters, no chunks.
proof fn lemma_lits_empty()
    ensures
        lits(Seq::<char>::empty()) == Seq::<SpecChunk>::empty(),
{
    assert(lits(Seq::<char>::empty()) =~= Seq::<SpecChunk>::empty());
}

fn push_chunk(out: &mut Vec<Chunk>, c: Chunk)
    ensures
        chunks_view(final(out)@) == chunks_view(old(out)@).push(c@),
{
    let ghost v = c@;
    out.push(c);
    assert(chunks_view(out@) =~= chunks_view(old(out)@).push(v));
}

fn push_lit(out: &mut Vec<Chunk>, c: char)
    ensures
        chunks_view(final(out)@) == chunks_view(old(out)@) + lits(seq![c]),
{
    push_chunk(out, Chunk::Lit(c));
    proof {
        lemma_lits_one(c);
        assert(chunks_view(old(out)@).push(SpecChunk::Lit(c)) =~= chunks_view(old(out)@) + seq![
            SpecChunk::Lit(c),
        ]);
    }
}

fn push_lits(out: &mut Vec<Chunk>, s: &Vec<char>)
    ensures
        chunks_view(final(out)@) == chunks_view(old(out)@) + lits(s@),
{
    let mut i: usize = 0;
    proof {
        assert(s@.take(0) =~= Seq::<char>::empty());
        lemma_lits_empty();
        assert(chunks_view(old(out)@) + Seq::<SpecChunk>::empty() =~= chunks_view(old(out)@));
    }
    while i < s.len()
        invariant
            0 <= i <= s@.len(),
            chunks_view(out@) == chunks_view(old(out)@) + lits(s@.take(i as int)),
        decreases s@.len() - i,
    {
        push_lit(out, s[i]);
        proof {
            assert(s@.take(i + 1) == s@.take(i as int) + seq![s@[i as int]]);
            lemma_lits_concat(s@.take(i as int), seq![s@[i as int]]);
        }
        i = i + 1;
    }
    assert(s@.take(i as int) == s@);
}

// ---------------------------------------------------------------------------
// Escape sequences
// ---------------------------------------------------------------------------

/// Octal digit `0-7`.
pub open spec fn is_octal(c: char) -> bool {
    '0' <= c <= '7'
}

/// ASCII hexadecimal digit (`char::is_ascii_hexdigit`).
pub open spec fn is_hex(c: char) -> bool {
    ('0' <= c <= '9') || ('a' <= c <= 'f') || ('A' <= c <= 'F')
}

/// Value of a hexadecimal (or octal, or decimal) digit.
pub open spec fn hex_value(c: char) -> nat {
    if '0' <= c <= '9' {
        ((c as u32) - 48) as nat
    } else if 'a' <= c <= 'f' {
        ((c as u32) - 87) as nat
    } else {
        ((c as u32) - 55) as nat
    }
}

/// Value of the digit string `s` in base `base`.
pub open spec fn base_value(s: Seq<char>, base: nat) -> nat
    decreases s.len(),
{
    if s.len() == 0 {
        0
    } else {
        base_value(s.drop_last(), base) * base + hex_value(s.last())
    }
}

/// Whether position `k` of `s` holds an octal digit.
pub open spec fn octal_at(s: Seq<char>, k: int) -> bool {
    0 <= k < s.len() && is_octal(s[k])
}

/// Whether position `k` of `s` holds a hexadecimal digit.
pub open spec fn hex_at(s: Seq<char>, k: int) -> bool {
    0 <= k < s.len() && is_hex(s[k])
}

/// Number of octal digits (at most three) starting at `j`.
pub open spec fn octal_run(s: Seq<char>, j: int) -> int {
    if !octal_at(s, j) {
        0
    } else if !octal_at(s, j + 1) {
        1
    } else if !octal_at(s, j + 2) {
        2
    } else {
        3
    }
}

/// Number of hexadecimal digits (at most two) starting at `j`.
pub open spec fn hex_run(s: Seq<char>, j: int) -> int {
    if !hex_at(s, j) {
        0
    } else if !hex_at(s, j + 1) {
        1
    } else {
        2
    }
}

/// The character with code point `v` (`char::from(v as u8)` for `v <= 255`).
pub open spec fn byte_char(v: nat) -> char {
    (v as u8) as char
}

/// The escape sequence whose letter is at `j` (just after a backslash): the text it
/// stands for, the index after it, and whether it is `\c` (stop all output).
pub open spec fn escape(s: Seq<char>, j: int) -> (Seq<char>, int, bool) {
    if j >= s.len() {
        (seq!['\\'], j, false)
    } else {
        let c = s[j];
        if c == '\\' {
            (seq!['\\'], j + 1, false)
        } else if c == 'a' {
            (seq![7u8 as char], j + 1, false)
        } else if c == 'b' {
            (seq![8u8 as char], j + 1, false)
        } else if c == 'f' {
            (seq![12u8 as char], j + 1, false)
        } else if c == 'n' {
            (seq!['\n'], j + 1, false)
        } else if c == 'r' {
            (seq!['\r'], j + 1, false)
        } else if c == 't' {
            (seq!['\t'], j + 1, false)
        } else if c == 'v' {
            (seq![11u8 as char], j + 1, false)
        } else if c == 'e' {
            (seq![27u8 as char], j + 1, false)
        } else if c == '0' {
            let e = j + 1 + octal_run(s, j + 1);
            let v = base_value(s.subrange(j + 1, e), 8);
            (
                if v <= 255 {
                    seq![byte_char(v)]
                } else {
                    seq![]
                },
                e,
                false,
            )
        } else if c == 'x' {
            let e = j + 1 + hex_run(s, j + 1);
            if e == j + 1 {
                (seq!['\\', 'x'], e, false)
            } else {
                (seq![byte_char(base_value(s.subrange(j + 1, e), 16))], e, false)
            }
        } else if c == 'c' {
            (seq![], j + 1, true)
        } else {
            (seq!['\\', c], j + 1, false)
        }
    }
}

/// The text of `s[i..]` with escape sequences interpreted, and whether `\c` ended it.
pub open spec fn unescape_from(s: Seq<char>, i: int) -> (Seq<char>, bool)
    decreases s.len() - i,
{
    if i < 0 || i >= s.len() {
        (seq![], false)
    } else if s[i] != '\\' {
        let r = unescape_from(s, i + 1);
        (seq![s[i]] + r.0, r.1)
    } else {
        let e = escape(s, i + 1);
        if e.2 {
            (e.0, true)
        } else {
            let r = unescape_from(s, e.1);
            (e.0 + r.0, r.1)
        }
    }
}

/// `s[i..]` as printed by a format without conversions: escapes interpreted and `%%` as `%`.
pub open spec fn plain_from(s: Seq<char>, i: int) -> Seq<char>
    decreases s.len() - i,
{
    if i < 0 || i >= s.len() {
        seq![]
    } else if s[i] == '\\' {
        let e = escape(s, i + 1);
        if e.2 {
            e.0
        } else {
            e.0 + plain_from(s, e.1)
        }
    } else if s[i] == '%' && i + 1 < s.len() && s[i + 1] == '%' {
        seq!['%'] + plain_from(s, i + 2)
    } else {
        seq![s[i]] + plain_from(s, i + 1)
    }
}

/// Whether `s[i..]` holds a `%` that is not part of `%%`.
pub open spec fn has_spec_from(s: Seq<char>, i: int) -> bool
    decreases s.len() - i,
{
    if i < 0 || i >= s.len() {
        false
    } else if s[i] == '%' {
        if i + 1 < s.len() && s[i + 1] == '%' {
            has_spec_from(s, i + 2)
        } else {
            true
        }
    } else {
        has_spec_from(s, i + 1)
    }
}

fn octal_at_exec(s: &Vec<char>, k: usize) -> (b: bool)
    ensures
        b == octal_at(s@, k as int),
{
    k < s.len() && '0' <= s[k] && s[k] <= '7'
}

fn hex_at_exec(s: &Vec<char>, k: usize) -> (b: bool)
    ensures
        b == hex_at(s@, k as int),
{
    k < s.len() && (('0' <= s[k] && s[k] <= '9') || ('a' <= s[k] && s[k] <= 'f') || ('A' <= s[k]
        && s[k] <= 'F'))
}

/// Value of the digits `s[from..to]` in `base` (never more than three digits here).
fn small_base_value(s: &Vec<char>, from: usize, to: usize, base: u32) -> (v: u32)
    requires
        from <= to <= s@.len(),
        to - from <= 3,
        base == 8 || base == 16,
        forall|k: int| from <= k < to ==> is_hex(#[trigger] s@[k]),
    ensures
        v as nat == base_value(s@.subrange(from as int, to as int), base as nat),
{
    let mut v: u32 = 0;
    let mut i = from;
    while i < to
        invariant
            from <= i <= to <= s@.len(),
            to - from <= 3,
            base == 8 || base == 16,
            forall|k: int| from <= k < to ==> is_hex(#[trigger] s@[k]),
            v as nat == base_value(s@.subrange(from as int, i as int), base as nat),
            i - from <= 3,
            v < pow16(i - from),
        decreases to - i,
    {
        let c = s[i];
        let d: u32 = if '0' <= c && c <= '9' {
            c as u32 - 48
        } else if 'a' <= c && c <= 'f' {
            c as u32 - 87
        } else {
            c as u32 - 55
        };
        proof {
            assert(s@.subrange(from as int, i + 1).drop_last() == s@.subrange(from as int, i as int));
            assert(is_hex(s@[i as int]));
            assert(d < 16);
            assert(pow16(i + 1 - from) == 16 * pow16(i - from));
            assert(v * base + d < 16 * pow16(i - from)) by (nonlinear_arith)
                requires
                    v < pow16(i - from),
                    d < 16,
                    base == 8 || base == 16,
            ;
        }
        v = v * base + d;
        i = i + 1;
    }
    v
}

/// `16^k` for `k <= 4`.
pub open spec fn pow16(k: int) -> nat {
    if k <= 0 {
        1
    } else if k == 1 {
        16
    } else if k == 2 {
        256
    } else if k == 3 {
        4096
    } else {
        65536
    }
}

pub(crate) fn push1(out: &mut Vec<char>, c: char)
    ensures
        final(out)@ == old(out)@ + seq![c],
{
    out.push(c);
    assert(old(out)@.push(c) =~= old(out)@ + seq![c]);
}

/// Interprets the escape whose letter is at `j`, appending its text to `out`.
fn escape_exec(s: &Vec<char>, j: usize, out: &mut Vec<char>) -> (r: (usize, bool))
    requires
        j <= s@.len(),
    ensures
        final(out)@ == old(out)@ + escape(s@, j as int).0,
        j <= r.0 <= s@.len(),
        r.0 == escape(s@, j as int).1,
        r.1 == escape(s@, j as int).2,
{
    if j >= s.len() {
        push1(out, '\\');
        return (j, false);
    }
    let c = s[j];
    if c == '\\' {
        push1(out, '\\');
        (j + 1, false)
    } else if c == 'a' {
        push1(out, 7u8 as char);
        (j + 1, false)
    } else if c == 'b' {
        push1(out, 8u8 as char);
        (j + 1, false)
    } else if c == 'f' {
        push1(out, 12u8 as char);
        (j + 1, false)
    } else if c == 'n' {
        push1(out, '\n');
        (j + 1, false)
    } else if c == 'r' {
        push1(out, '\r');
        (j + 1, false)
    } else if c == 't' {
        push1(out, '\t');
        (j + 1, false)
    } else if c == 'v' {
        push1(out, 11u8 as char);
        (j + 1, false)
    } else if c == 'e' {
        push1(out, 27u8 as char);
        (j + 1, false)
    } else if c == '0' {
        let mut e = j + 1;
        if octal_at_exec(s, e) {
            e = e + 1;
            if octal_at_exec(s, e) {
                e = e + 1;
                if octal_at_exec(s, e) {
                    e = e + 1;
                }
            }
        }
        assert(e == j + 1 + octal_run(s@, j + 1));
        let v = small_base_value(s, j + 1, e, 8);
        if v <= 255 {
            push1(out, (v as u8) as char);
        }
        (e, false)
    } else if c == 'x' {
        let mut e = j + 1;
        if hex_at_exec(s, e) {
            e = e + 1;
            if hex_at_exec(s, e) {
                e = e + 1;
            }
        }
        assert(e == j + 1 + hex_run(s@, j + 1));
        if e == j + 1 {
            push1(out, '\\');
            push1(out, 'x');
            assert(old(out)@.push('\\').push('x') == old(out)@ + seq!['\\', 'x']);
        } else {
            let v = small_base_value(s, j + 1, e, 16);
            push1(out, (v as u8) as char);
        }
        (e, false)
    } else if c == 'c' {
        assert(old(out)@ + seq![] == old(out)@);
        (j + 1, true)
    } else {
        push1(out, '\\');
        push1(out, c);
        assert(old(out)@.push('\\').push(c) == old(out)@ + seq!['\\', c]);
        (j + 1, false)
    }
}


/// The text of a `%b` argument: escapes interpreted, cut short by `\c`.
pub struct ParsedEscapes {
    pub result: String,
    /// Whether `\c` was met (all further output is suppressed).
    pub stopped: bool,
}

/// Interprets the escape sequences of `s` (`\n`, `\t`, `\xHH`, `\0NNN`, ...), stopping at `\c`.
pub fn parse_escapes_with_stop(s: &str) -> (r: ParsedEscapes)
    ensures
        r.result@ == unescape_from(s@, 0).0,
        r.stopped == unescape_from(s@, 0).1,
{
    let v = chars_of(s);
    let mut out: Vec<char> = Vec::new();
    let mut i: usize = 0;
    while i < v.len()
        invariant
            i <= v@.len(),
            v@ == s@,
            out@ + unescape_from(v@, i as int).0 == unescape_from(v@, 0).0,
            unescape_from(v@, i as int).1 == unescape_from(v@, 0).1,
        decreases v@.len() - i,
    {
        let ghost before = out@;
        if v[i] != '\\' {
            push1(&mut out, v[i]);
            proof {
                assert(before + unescape_from(v@, i as int).0 == out@ + unescape_from(
                    v@,
                    i + 1,
                ).0);
            }
            i = i + 1;
        } else {
            let (e, stop) = escape_exec(&v, i + 1, &mut out);
            if stop {
                assert(out@ == before + escape(v@, i + 1).0);
                return ParsedEscapes { result: string_from_chars(&out), stopped: true };
            }
            proof {
                assert(before + unescape_from(v@, i as int).0 == out@ + unescape_from(
                    v@,
                    e as int,
                ).0);
            }
            i = e;
        }
    }
    assert(out@ + Seq::<char>::empty() == out@);
    ParsedEscapes { result: string_from_chars(&out), stopped: false }
}

/// Renders a format string that holds no conversion: escapes interpreted, `%%` as `%`.
pub fn process_escapes_in_format(format: &str) -> (r: String)
    ensures
        r@ == plain_from(format@, 0),
{
    let v = chars_of(format);
    let mut out: Vec<char> = Vec::new();
    let mut i: usize = 0;
    while i < v.len()
        invariant
            i <= v@.len(),
            v@ == format@,
            out@ + plain_from(v@, i as int) == plain_from(v@, 0),
        decreases v@.len() - i,
    {
        let ghost before = out@;
        if v[i] == '\\' {
            let (e, stop) = escape_exec(&v, i + 1, &mut out);
            if stop {
                return string_from_chars(&out);
            }
            proof {
                assert(before + plain_from(v@, i as int) == out@ + plain_from(v@, e as int));
            }
            i = e;
        } else if v[i] == '%' && i + 1 < v.len() && v[i + 1] == '%' {
            push1(&mut out, '%');
            proof {
                assert(before + plain_from(v@, i as int) == out@ + plain_from(v@, i + 2));
            }
            i = i + 2;
        } else {
            push1(&mut out, v[i]);
            proof {
                assert(before + plain_from(v@, i as int) == out@ + plain_from(v@, i + 1));
            }
            i = i + 1;
        }
    }
    assert(out@ + Seq::<char>::empty() == out@);
    string_from_chars(&out)
}

/// Whether `format` holds a conversion that consumes arguments (`%%` does not).
pub fn has_format_specifiers(format: &str) -> (b: bool)
    ensures
        b == has_spec_from(format@, 0),
{
    let v = chars_of(format);
    let mut i: usize = 0;
    while i < v.len()
        invariant
            i <= v@.len() + 1,
            v@ == format@,
            has_spec_from(v@, i as int) == has_spec_from(v@, 0),
        decreases v@.len() + 1 - i,
    {
        if v[i] == '%' {
            if i + 1 < v.len() && v[i + 1] == '%' {
                i = i + 2;
            } else {
                return true;
            }
        } else {
            i = i + 1;
        }
    }
    false
}


// ---------------------------------------------------------------------------
// Field padding and integer rendering
// ---------------------------------------------------------------------------

/// `n` spaces.
pub open spec fn spaces(n: nat) -> Seq<char> {
    Seq::new(n, |i: int| ' ')
}

/// `n` zeros.
pub open spec fn zeros(n: nat) -> Seq<char> {
    Seq::new(n, |i: int| '0')
}

/// `s` padded with spaces to `w` characters (on the right when `left`), which happens
/// only when `w > 0` and `s` takes fewer than `w` bytes.
pub open spec fn pad_field(s: Seq<char>, left: bool, w: nat) -> Seq<char> {
    if w > 0 && utf8_len(s) < w {
        if left {
            s + spaces((w - s.len()) as nat)
        } else {
            spaces((w - s.len()) as nat) + s
        }
    } else {
        s
    }
}

/// A field is left-aligned under the `-` flag or a negative width.
pub open spec fn left_aligned(flags: Seq<char>, width: Option<i64>) -> bool {
    has_char(flags, '-') || (width is Some && width->0 < 0)
}

/// The magnitude of the width (zero when there is none).
pub open spec fn width_magnitude(width: Option<i64>) -> nat {
    match width {
        Some(w) => magnitude(w as int),
        None => 0,
    }
}

/// `s` placed in a field of the directive's width (`apply_width`).
pub open spec fn field(s: Seq<char>, flags: Seq<char>, width: Option<i64>) -> Seq<char> {
    pad_field(s, left_aligned(flags, width), width_magnitude(width))
}

/// The minimum number of digits an integer conversion prints.
pub open spec fn min_digits(precision: Option<i64>) -> nat {
    match precision {
        Some(p) => if p < 0 {
            1
        } else {
            p as nat
        },
        None => 1,
    }
}

/// The digits of `|v|`, zero-extended to the precision, with the sign a signed conversion
/// shows (`-`, or `+` under `+`, or a space under ` `).
pub open spec fn signed_digits(v: int, flags: Seq<char>, precision: Option<i64>, signed: bool) -> Seq<
    char,
> {
    let digits = decimal(magnitude(v));
    let padded = if digits.len() < min_digits(precision) {
        zeros((min_digits(precision) - digits.len()) as nat) + digits
    } else {
        digits
    };
    if !signed {
        padded
    } else if v < 0 {
        seq!['-'] + padded
    } else if has_char(flags, '+') {
        seq!['+'] + padded
    } else if has_char(flags, ' ') {
        seq![' '] + padded
    } else {
        padded
    }
}

/// Whether `s` begins with a sign character.
pub open spec fn starts_with_sign(s: Seq<char>) -> bool {
    starts_with_char(s, '-') || starts_with_char(s, '+') || starts_with_char(s, ' ')
}

/// An integer conversion (`%d %i %u`): the signed digits in a field of the width, padded
/// with zeros after the sign under the `0` flag unless left-aligned.
pub open spec fn int_text(
    v: int,
    flags: Seq<char>,
    width: Option<i64>,
    precision: Option<i64>,
    signed: bool,
) -> Seq<char> {
    let num = signed_digits(v, flags, precision, signed);
    let w = width_magnitude(width);
    if w > 0 && utf8_len(num) < w {
        let fill = (w - num.len()) as nat;
        if left_aligned(flags, width) {
            num + spaces(fill)
        } else if has_char(flags, '0') {
            if starts_with_sign(num) {
                seq![num[0]] + zeros(fill) + num.drop_first()
            } else {
                zeros(fill) + num
            }
        } else {
            spaces(fill) + num
        }
    } else {
        num
    }
}

pub(crate) fn push_repeat(out: &mut Vec<char>, c: char, n: u64)
    ensures
        final(out)@ == old(out)@ + Seq::new(n as nat, |i: int| c),
{
    let mut k: u64 = 0;
    while k < n
        invariant
            k <= n,
            out@ == old(out)@ + Seq::new(k as nat, |i: int| c),
        decreases n - k,
    {
        out.push(c);
        k = k + 1;
        assert(out@ =~= old(out)@ + Seq::new(k as nat, |i: int| c));
    }
}

/// Appends `s` padded to `w` characters as [`pad_field`] says.
fn push_padded(out: &mut Vec<char>, s: &Vec<char>, left: bool, w: u64)
    ensures
        final(out)@ == old(out)@ + pad_field(s@, left, w as nat),
{
    if w > 0 && utf8_len_below(s, w) {
        proof {
            lemma_utf8_len_ge_len(s@);
        }
        let fill = w - s.len() as u64;
        if left {
            push_all(out, s);
            push_repeat(out, ' ', fill);
            assert(out@ == old(out)@ + (s@ + spaces(fill as nat)));
        } else {
            push_repeat(out, ' ', fill);
            push_all(out, s);
            assert(out@ == old(out)@ + (spaces(fill as nat) + s@));
        }
    } else {
        push_all(out, s);
    }
}

/// Left alignment of a directive: the `-` flag or a negative width.
fn is_left_aligned(flags: &Vec<char>, width: Option<i64>) -> (b: bool)
    ensures
        b == left_aligned(flags@, width),
{
    contains_char(flags, '-') || match width {
        Some(w) => w < 0,
        None => false,
    }
}

fn width_of(width: Option<i64>) -> (w: u64)
    ensures
        w as nat == width_magnitude(width),
{
    match width {
        Some(w) => magnitude_of(w),
        None => 0,
    }
}

/// Appends `s` placed in the directive's field ([`field`]).
fn push_field(out: &mut Vec<char>, s: &Vec<char>, flags: &Vec<char>, width: Option<i64>)
    ensures
        final(out)@ == old(out)@ + field(s@, flags@, width),
{
    let left = is_left_aligned(flags, width);
    let w = width_of(width);
    push_padded(out, s, left, w);
}

/// The signed digits of an integer conversion ([`signed_digits`]).
fn signed_digits_vec(v: i64, flags: &Vec<char>, precision: Option<i64>, signed: bool) -> (r: Vec<
    char,
>)
    ensures
        r@ == signed_digits(v as int, flags@, precision, signed),
{
    let digits = radix_string(magnitude_of(v), 10, false);
    let md: u64 = match precision {
        Some(p) => if p < 0 {
            1
        } else {
            p as u64
        },
        None => 1,
    };
    let mut padded: Vec<char> = Vec::new();
    if (digits.len() as u64) < md {
        push_repeat(&mut padded, '0', md - digits.len() as u64);
    }
    push_all(&mut padded, &digits);
    assert(padded@ == (if digits@.len() < min_digits(precision) {
        zeros((min_digits(precision) - digits@.len()) as nat) + digits@
    } else {
        digits@
    }));
    if !signed {
        return padded;
    }
    let mut r: Vec<char> = Vec::new();
    if v < 0 {
        r.push('-');
    } else if contains_char(flags, '+') {
        r.push('+');
    } else if contains_char(flags, ' ') {
        r.push(' ');
    }
    push_all(&mut r, &padded);
    r
}

/// Appends an integer conversion ([`int_text`]) to `out`.
fn push_int(
    out: &mut Vec<char>,
    v: i64,
    flags: &Vec<char>,
    width: Option<i64>,
    precision: Option<i64>,
    signed: bool,
)
    ensures
        final(out)@ == old(out)@ + int_text(v as int, flags@, width, precision, signed),
{
    let num = signed_digits_vec(v, flags, precision, signed);
    let w = width_of(width);
    if w > 0 && utf8_len_below(&num, w) {
        proof {
            lemma_utf8_len_ge_len(num@);
        }
        let fill = w - num.len() as u64;
        if is_left_aligned(flags, width) {
            push_all(out, &num);
            push_repeat(out, ' ', fill);
            assert(out@ == old(out)@ + (num@ + spaces(fill as nat)));
        } else if contains_char(flags, '0') {
            if num[0] == '-' || num[0] == '+' || num[0] == ' ' {
                out.push(num[0]);
                push_repeat(out, '0', fill);
                let rest = slice_chars(&num, 1, num.len());
                push_all(out, &rest);
                assert(rest@ == num@.drop_first());
                assert(out@ == old(out)@ + (seq![num@[0]] + zeros(fill as nat) + num@.drop_first()));
            } else {
                push_repeat(out, '0', fill);
                push_all(out, &num);
                assert(out@ == old(out)@ + (zeros(fill as nat) + num@));
            }
        } else {
            push_repeat(out, ' ', fill);
            push_all(out, &num);
            assert(out@ == old(out)@ + (spaces(fill as nat) + num@));
        }
    } else {
        push_all(out, &num);
    }
}


// ---------------------------------------------------------------------------
// Numeric arguments
// ---------------------------------------------------------------------------

/// An argument written as a quote and a character (`'A` or `"A`) stands for the
/// character's code point.
pub open spec fn quoted_char(arg: Seq<char>) -> bool {
    (starts_with_char(arg, '\'') || starts_with_char(arg, '"')) && arg.len() >= 2
}

/// The code point of a character.
pub open spec fn code_point(c: char) -> i64 {
    (c as u32) as i64
}

/// The argument with surrounding whitespace and leading `+` signs removed.
pub open spec fn numeric_body(arg: Seq<char>) -> Seq<char> {
    strip_leading(trim(arg), '+')
}

/// The value of an integer argument, malformed ones read as zero (`parse_numeric_arg`).
pub open spec fn num_arg(arg: Seq<char>) -> i64 {
    if quoted_char(arg) {
        code_point(arg[1])
    } else {
        match parse_i64(numeric_body(arg)) {
            Some(v) => v,
            None => 0,
        }
    }
}

/// The message for a malformed numeric argument.
pub open spec fn invalid_number(arg: Seq<char>) -> Seq<char> {
    "printf: invalid number '"@ + trim(arg) + seq!['\'']
}

/// The value of an integer argument and the message a malformed one is reported with
/// (`parse_numeric_arg_with_error`): an argument of only `+` signs reads as zero silently,
/// an empty (or blank) one and any other unparsable one read as zero with a message.
pub open spec fn num_arg_checked(arg: Seq<char>) -> (i64, Option<Seq<char>>) {
    if quoted_char(arg) {
        (code_point(arg[1]), None)
    } else if numeric_body(arg).len() == 0 {
        if trim(arg).len() == 0 {
            (0, Some(invalid_number(arg)))
        } else {
            (0, None)
        }
    } else {
        match parse_i64(numeric_body(arg)) {
            Some(v) => (v, None),
            None => (0, Some(invalid_number(arg))),
        }
    }
}

fn numeric_body_vec(a: &Vec<char>) -> (r: Vec<char>)
    ensures
        r@ == numeric_body(a@),
{
    let t = trim_chars(a);
    strip_leading_chars(&t, '+')
}

fn num_arg_vec(a: &Vec<char>) -> (v: i64)
    ensures
        v == num_arg(a@),
{
    if a.len() >= 2 && (a[0] == '\'' || a[0] == '"') {
        return (a[1] as u32) as i64;
    }
    let body = numeric_body_vec(a);
    match parse_i64_chars(&body) {
        Some(v) => v,
        None => 0,
    }
}

fn invalid_number_vec(a: &Vec<char>) -> (m: Vec<char>)
    ensures
        m@ == invalid_number(a@),
{
    let mut m: Vec<char> = Vec::new();
    push_str(&mut m, "printf: invalid number '");
    let t = trim_chars(a);
    push_all(&mut m, &t);
    push1(&mut m, '\'');
    m
}

fn num_arg_checked_vec(a: &Vec<char>) -> (r: (i64, Option<Vec<char>>))
    ensures
        r.0 == num_arg_checked(a@).0,
        match r.1 {
            Some(m) => num_arg_checked(a@).1 == Some(m@),
            None => num_arg_checked(a@).1 is None,
        },
{
    if a.len() >= 2 && (a[0] == '\'' || a[0] == '"') {
        return ((a[1] as u32) as i64, None);
    }
    let body = numeric_body_vec(a);
    if body.len() == 0 {
        let t = trim_chars(a);
        if t.len() == 0 {
            return (0, Some(invalid_number_vec(a)));
        }
        return (0, None);
    }
    match parse_i64_chars(&body) {
        Some(v) => (v, None),
        None => (0, Some(invalid_number_vec(a))),
    }
}

/// The value of an integer argument (`%d %i %u %x %X %o`): `'c` or `"c` gives the code
/// point of `c`; otherwise the trimmed argument without leading `+` is parsed, and read
/// as zero when malformed.
pub fn parse_numeric_arg(arg: &str) -> (v: i64)
    ensures
        v == num_arg(arg@),
{
    let a = chars_of(arg);
    num_arg_vec(&a)
}

/// Like [`parse_numeric_arg`], with the message for a malformed argument.
pub fn parse_numeric_arg_with_error(arg: &str) -> (r: (i64, Option<String>))
    ensures
        r.0 == num_arg_checked(arg@).0,
        match r.1 {
            Some(m) => num_arg_checked(arg@).1 == Some(m@),
            None => num_arg_checked(arg@).1 is None,
        },
{
    let a = chars_of(arg);
    let (v, m) = num_arg_checked_vec(&a);
    match m {
        Some(m) => (v, Some(string_from_chars(&m))),
        None => (v, None),
    }
}


// ---------------------------------------------------------------------------
// Conversion directives: %[flags][width][.precision][length]type
// ---------------------------------------------------------------------------

/// The views of a list of arguments.
pub open spec fn strs(args: Seq<String>) -> Seq<Seq<char>> {
    Seq::new(args.len(), |i: int| args[i]@)
}

/// The argument at `k`, or the empty string once the arguments have run out.
pub open spec fn arg_at(args: Seq<Seq<char>>, k: int) -> Seq<char> {
    if 0 <= k < args.len() {
        args[k]
    } else {
        seq![]
    }
}

/// The argument index after taking one argument at `k`.
pub open spec fn after_arg(args: Seq<Seq<char>>, k: int) -> int {
    if 0 <= k < args.len() {
        k + 1
    } else {
        k
    }
}

/// A `*` width or precision: the argument at `k` parsed as it stands, or zero.
pub open spec fn arg_i64(args: Seq<Seq<char>>, k: int) -> i64 {
    match parse_i64(arg_at(args, k)) {
        Some(v) => v,
        None => 0,
    }
}

/// Takes the next argument, or the empty string when none is left (`get_arg`).
pub fn get_arg(arguments: &[String], arg_index: &mut usize) -> (a: String)
    ensures
        a@ == arg_at(strs(arguments@), *old(arg_index) as int),
        *final(arg_index) as int == after_arg(strs(arguments@), *old(arg_index) as int),
{
    if *arg_index < arguments.len() {
        let a = arguments[*arg_index].clone();
        *arg_index = *arg_index + 1;
        a
    } else {
        String::new()
    }
}

/// Takes the next argument as an `i64` for a `*` width or precision: zero when none is
/// left or it does not parse (`get_arg_i64`).
pub fn get_arg_i64(arguments: &[String], arg_index: &mut usize) -> (v: i64)
    ensures
        v == arg_i64(strs(arguments@), *old(arg_index) as int),
        *final(arg_index) as int == after_arg(strs(arguments@), *old(arg_index) as int),
{
    let a = get_arg(arguments, arg_index);
    let cs = chars_of(a.as_str());
    match parse_i64_chars(&cs) {
        Some(v) => v,
        None => 0,
    }
}

/// A flag character: `-`, `+`, space, `#` or `0`.
pub open spec fn is_flag(c: char) -> bool {
    c == '-' || c == '+' || c == ' ' || c == '#' || c == '0'
}

/// A length modifier character: `h`, `l`, `L`, `z`, `j` or `t`.
pub open spec fn is_length(c: char) -> bool {
    c == 'l' || c == 'h' || c == 'L' || c == 'z' || c == 'j' || c == 't'
}

/// The end of the run of flag characters starting at `j`.
pub open spec fn flags_end(s: Seq<char>, j: int) -> int
    decreases s.len() - j,
{
    if 0 <= j < s.len() && is_flag(s[j]) {
        flags_end(s, j + 1)
    } else {
        j
    }
}

/// A width or precision field as written.
pub enum NumField {
    /// No digits and no `*`.
    Absent,
    /// Digits, read with wrapping `i64` arithmetic.
    Value(i64),
    /// A `*`: the value comes from the next argument.
    Star,
}

/// Reads a width or precision at `j`: digits accumulate into `acc` until a `*` (which
/// ends the field) or another character.
pub open spec fn scan_num(s: Seq<char>, j: int, acc: i64, seen: bool) -> (NumField, int)
    decreases s.len() - j,
{
    if 0 <= j < s.len() && s[j] == '*' {
        (NumField::Star, j + 1)
    } else if 0 <= j < s.len() && is_digit(s[j]) {
        scan_num(s, j + 1, acc.wrapping_mul(10).wrapping_add((s[j] as int - 48) as i64), true)
    } else if seen {
        (NumField::Value(acc), j)
    } else {
        (NumField::Absent, j)
    }
}

/// The end of the length modifiers starting at `j` (`hh` and `ll` count as one).
pub open spec fn length_end(s: Seq<char>, j: int) -> int
    decreases s.len() - j,
{
    if 0 <= j < s.len() && is_length(s[j]) {
        let doubled = j + 1 < s.len() && ((s[j] == 'l' && s[j + 1] == 'l') || (s[j] == 'h' && s[j
            + 1] == 'h'));
        length_end(
            s,
            if doubled {
                j + 2
            } else {
                j + 1
            },
        )
    } else {
        j
    }
}

/// A parsed conversion directive.
pub struct Directive {
    pub flags: Seq<char>,
    pub width: Option<i64>,
    pub precision: Option<i64>,
    pub length: Seq<char>,
    /// The conversion character; `None` when the format ends first.
    pub conv: Option<char>,
    /// The format index after the directive.
    pub next: int,
    /// The argument index after the `*` fields.
    pub k: int,
}

/// The directive whose flags start at `i` (just after `%`), with `k` the argument index.
pub open spec fn directive(s: Seq<char>, args: Seq<Seq<char>>, i: int, k: int) -> Directive {
    let fe = flags_end(s, i);
    let w = scan_num(s, fe, 0, false);
    let width = match w.0 {
        NumField::Absent => None,
        NumField::Value(v) => Some(v),
        NumField::Star => Some(arg_i64(args, k)),
    };
    let k1 = if w.0 is Star {
        after_arg(args, k)
    } else {
        k
    };
    let has_dot = 0 <= w.1 < s.len() && s[w.1] == '.';
    let p = scan_num(s, w.1 + 1, 0, false);
    let precision = if !has_dot {
        None
    } else {
        match p.0 {
            NumField::Absent => Some(0i64),
            NumField::Value(v) => Some(v),
            NumField::Star => Some(arg_i64(args, k1)),
        }
    };
    let k2 = if has_dot && p.0 is Star {
        after_arg(args, k1)
    } else {
        k1
    };
    let pe = if has_dot {
        p.1
    } else {
        w.1
    };
    let le = length_end(s, pe);
    Directive {
        flags: s.subrange(i, fe),
        width,
        precision,
        length: s.subrange(pe, le),
        conv: if 0 <= le < s.len() {
            Some(s[le])
        } else {
            None
        },
        next: if 0 <= le < s.len() {
            le + 1
        } else {
            le
        },
        k: k2,
    }
}

proof fn lemma_flags_end(s: Seq<char>, j: int)
    requires
        0 <= j <= s.len(),
    ensures
        j <= flags_end(s, j) <= s.len(),
    decreases s.len() - j,
{
    if j < s.len() && is_flag(s[j]) {
        lemma_flags_end(s, j + 1);
    }
}

proof fn lemma_scan_num(s: Seq<char>, j: int, acc: i64, seen: bool)
    requires
        0 <= j <= s.len(),
    ensures
        j <= scan_num(s, j, acc, seen).1 <= s.len(),
    decreases s.len() - j,
{
    if j < s.len() && s[j] != '*' && is_digit(s[j]) {
        lemma_scan_num(s, j + 1, acc.wrapping_mul(10).wrapping_add((s[j] as int - 48) as i64), true);
    }
}

proof fn lemma_length_end(s: Seq<char>, j: int)
    requires
        0 <= j <= s.len(),
    ensures
        j <= length_end(s, j) <= s.len(),
    decreases s.len() - j,
{
    if j < s.len() && is_length(s[j]) {
        if j + 1 < s.len() && ((s[j] == 'l' && s[j + 1] == 'l') || (s[j] == 'h' && s[j + 1]
            == 'h')) {
            lemma_length_end(s, j + 2);
        } else {
            lemma_length_end(s, j + 1);
        }
    }
}

/// A directive ends after it starts and within the format.
pub proof fn lemma_directive_bounds(s: Seq<char>, args: Seq<Seq<char>>, i: int, k: int)
    requires
        0 <= i <= s.len(),
    ensures
        i <= directive(s, args, i, k).next <= s.len(),
{
    lemma_flags_end(s, i);
    let fe = flags_end(s, i);
    lemma_scan_num(s, fe, 0, false);
    let w = scan_num(s, fe, 0, false);
    if 0 <= w.1 < s.len() && s[w.1] == '.' {
        lemma_scan_num(s, w.1 + 1, 0, false);
        lemma_length_end(s, scan_num(s, w.1 + 1, 0, false).1);
    } else {
        lemma_length_end(s, w.1);
    }
}

/// The executable form of a [`Directive`].
struct DirectiveParts {
    flags: Vec<char>,
    width: Option<i64>,
    precision: Option<i64>,
    length: Vec<char>,
    conv: Option<char>,
    next: usize,
    k: usize,
}

impl DirectiveParts {
    spec fn view(&self) -> Directive {
        Directive {
            flags: self.flags@,
            width: self.width,
            precision: self.precision,
            length: self.length@,
            conv: self.conv,
            next: self.next as int,
            k: self.k as int,
        }
    }
}

fn scan_num_exec(s: &Vec<char>, j0: usize) -> (r: (NumField, usize))
    requires
        j0 <= s@.len(),
    ensures
        r.0 == scan_num(s@, j0 as int, 0, false).0,
        r.1 == scan_num(s@, j0 as int, 0, false).1,
{
    let mut j = j0;
    let mut acc: i64 = 0;
    let mut seen = false;
    while j < s.len() && '0' <= s[j] && s[j] <= '9'
        invariant
            j0 <= j <= s@.len(),
            scan_num(s@, j as int, acc, seen) == scan_num(s@, j0 as int, 0, false),
        decreases s@.len() - j,
    {
        let c = s[j];
        let d = (c as u32 - 48) as i64;
        assert(d == (c as int - 48) as i64);
        acc = acc.wrapping_mul(10).wrapping_add(d);
        seen = true;
        j = j + 1;
    }
    if j < s.len() && s[j] == '*' {
        return (NumField::Star, j + 1);
    }
    if seen {
        (NumField::Value(acc), j)
    } else {
        (NumField::Absent, j)
    }
}

/// Parses the directive whose flags start at `i`, taking `*` fields from the arguments.
fn parse_directive(s: &Vec<char>, args: &[String], i: usize, k: usize) -> (d: DirectiveParts)
    requires
        i <= s@.len(),
        k <= args@.len(),
    ensures
        d.view() == directive(s@, strs(args@), i as int, k as int),
        i <= d.next <= s@.len(),
        k <= d.k <= args@.len(),
{
    let ghost sargs = strs(args@);
    let mut j = i;
    while j < s.len() && (s[j] == '-' || s[j] == '+' || s[j] == ' ' || s[j] == '#' || s[j] == '0')
        invariant
            i <= j <= s@.len(),
            flags_end(s@, j as int) == flags_end(s@, i as int),
        decreases s@.len() - j,
    {
        j = j + 1;
    }
    let fe = j;
    let flags = slice_chars(s, i, fe);
    let (wf, we) = scan_num_exec(s, fe);
    proof {
        lemma_scan_num(s@, fe as int, 0, false);
    }
    let mut kk = k;
    let width = match wf {
        NumField::Absent => None,
        NumField::Value(v) => Some(v),
        NumField::Star => Some(get_arg_i64(args, &mut kk)),
    };
    let has_dot = we < s.len() && s[we] == '.';
    let mut pe = we;
    let mut precision: Option<i64> = None;
    if has_dot {
        let (pf, pend) = scan_num_exec(s, we + 1);
        proof {
            lemma_scan_num(s@, we + 1, 0, false);
        }
        pe = pend;
        precision = match pf {
            NumField::Absent => Some(0i64),
            NumField::Value(v) => Some(v),
            NumField::Star => Some(get_arg_i64(args, &mut kk)),
        };
    }
    let mut le = pe;
    while le < s.len() && (s[le] == 'l' || s[le] == 'h' || s[le] == 'L' || s[le] == 'z' || s[le]
        == 'j' || s[le] == 't')
        invariant
            pe <= le <= s@.len(),
            length_end(s@, le as int) == length_end(s@, pe as int),
        decreases s@.len() - le,
    {
        if le + 1 < s.len() && ((s[le] == 'l' && s[le + 1] == 'l') || (s[le] == 'h' && s[le + 1]
            == 'h')) {
            le = le + 2;
        } else {
            le = le + 1;
        }
    }
    let length = slice_chars(s, pe, le);
    let (conv, next) = if le < s.len() {
        (Some(s[le]), le + 1)
    } else {
        (None, le)
    };
    DirectiveParts { flags, width, precision, length, conv, next, k: kk }
}


// ---------------------------------------------------------------------------
// Rendering a conversion
// ---------------------------------------------------------------------------

/// The stderr chunk for a message, if any.
pub open spec fn diag(err: Option<Seq<char>>) -> Seq<SpecChunk> {
    match err {
        Some(m) => seq![SpecChunk::Diag(m)],
        None => seq![],
    }
}

/// The value of an integer argument and its message: the streaming applet reports
/// malformed arguments, the string formatter reads them as zero silently.
pub open spec fn int_value(arg: Seq<char>, streaming: bool) -> (i64, Option<Seq<char>>) {
    if streaming {
        num_arg_checked(arg)
    } else {
        (num_arg(arg), None)
    }
}

/// `%x %X %o`: the magnitude in base 16 or 8, after the `#` prefix (`0x`, `0X`, or `0`,
/// which the streaming applet leaves out when the digits already start with `0`), in a
/// field of the directive's width.
pub open spec fn radix_text(c: char, arg: Seq<char>, d: Directive, streaming: bool) -> Seq<char> {
    let m = magnitude(int_value(arg, streaming).0 as int);
    let body = if c == 'o' {
        radix(m, 8, false)
    } else {
        radix(m, 16, c == 'X')
    };
    let prefix = if !has_char(d.flags, '#') {
        seq![]
    } else if c == 'x' {
        seq!['0', 'x']
    } else if c == 'X' {
        seq!['0', 'X']
    } else if streaming && starts_with_char(body, '0') {
        seq![]
    } else {
        seq!['0']
    };
    field(prefix + body, d.flags, d.width)
}

/// A floating-point conversion character.
pub open spec fn is_float_conv(c: char) -> bool {
    c == 'f' || c == 'F' || c == 'e' || c == 'E' || c == 'g' || c == 'G'
}

/// An unknown conversion is echoed: `%`, the flags, the width and `.precision` (the string
/// formatter leaves out negative numbers), the length modifiers and the character.
pub open spec fn echo_text(c: char, d: Directive, streaming: bool) -> Seq<char> {
    let w = match d.width {
        Some(w) => if streaming || w >= 0 {
            signed_decimal(w as int)
        } else {
            seq![]
        },
        None => seq![],
    };
    let p = match d.precision {
        Some(p) => seq!['.'] + (if streaming || p >= 0 {
            signed_decimal(p as int)
        } else {
            seq![]
        }),
        None => seq![],
    };
    seq!['%'] + d.flags + w + p + d.length + seq![c]
}

/// The width of a `%s` field: negative widths count as zero.
pub open spec fn string_width(width: Option<i64>) -> nat {
    match width {
        Some(w) => if w > 0 {
            w as nat
        } else {
            0
        },
        None => 0,
    }
}

/// The output of conversion `c` (other than `b` and `r`) applied to `arg`.
pub open spec fn render(c: char, arg: Seq<char>, d: Directive, streaming: bool) -> Seq<SpecChunk> {
    if c == 's' {
        lits(pad_field(arg, left_aligned(d.flags, d.width), string_width(d.width)))
    } else if c == 'd' || c == 'i' || c == 'u' {
        let iv = int_value(arg, streaming);
        diag(iv.1) + lits(int_text(iv.0 as int, d.flags, d.width, d.precision, c != 'u'))
    } else if c == 'x' || c == 'X' || c == 'o' {
        diag(int_value(arg, streaming).1) + lits(radix_text(c, arg, d, streaming))
    } else if is_float_conv(c) {
        seq![
            SpecChunk::Float(
                SpecFloat {
                    conv: c,
                    arg,
                    flags: d.flags,
                    width: d.width,
                    precision: d.precision,
                    report_errors: streaming,
                },
            ),
        ]
    } else if c == 'c' {
        seq![
            lit_chunk(
                if arg.len() > 0 {
                    arg[0]
                } else {
                    '\0'
                },
            ),
        ]
    } else if c == '%' {
        seq![lit_chunk('%')]
    } else {
        lits(echo_text(c, d, streaming))
    }
}

/// How formatting ended.
pub enum Outcome {
    /// The format (and the arguments) were used up.
    Finished,
    /// `\c` stopped all output.
    Stopped,
    /// A malformed directive; the message is for standard error.
    Invalid(String),
}

/// Spec view of an [`Outcome`].
pub enum SpecOutcome {
    Finished,
    Stopped,
    Invalid(Seq<char>),
}

impl View for Outcome {
    type V = SpecOutcome;

    open spec fn view(&self) -> SpecOutcome {
        match self {
            Outcome::Finished => SpecOutcome::Finished,
            Outcome::Stopped => SpecOutcome::Stopped,
            Outcome::Invalid(m) => SpecOutcome::Invalid(m@),
        }
    }
}

/// A directive applied: its output, the argument index after it, and how it ends.
pub open spec fn conversion(d: Directive, args: Seq<Seq<char>>, streaming: bool) -> (
    Seq<SpecChunk>,
    int,
    SpecOutcome,
) {
    match d.conv {
        None => (seq![], d.k, SpecOutcome::Invalid("printf: %: invalid format"@)),
        Some(c) => if c == 'b' {
            let u = unescape_from(arg_at(args, d.k), 0);
            (
                lits(u.0),
                after_arg(args, d.k),
                if u.1 {
                    SpecOutcome::Stopped
                } else {
                    SpecOutcome::Finished
                },
            )
        } else if c == 'r' {
            (seq![], d.k, SpecOutcome::Invalid("printf: %r: invalid format"@))
        } else {
            (render(c, arg_at(args, d.k), d, streaming), after_arg(args, d.k), SpecOutcome::Finished)
        },
    }
}

/// One pass over the format from index `i` with argument index `k`: the output, the
/// argument index at the end, and how the pass ended.
pub open spec fn round_from(
    s: Seq<char>,
    args: Seq<Seq<char>>,
    streaming: bool,
    i: int,
    k: int,
) -> (Seq<SpecChunk>, int, SpecOutcome)
    decreases s.len() - i,
{
    if i < 0 || i >= s.len() {
        (seq![], k, SpecOutcome::Finished)
    } else if s[i] == '\\' {
        let e = escape(s, i + 1);
        if e.2 {
            (lits(e.0), k, SpecOutcome::Stopped)
        } else {
            let r = round_from(s, args, streaming, e.1, k);
            (lits(e.0) + r.0, r.1, r.2)
        }
    } else if s[i] != '%' {
        let r = round_from(s, args, streaming, i + 1, k);
        (seq![lit_chunk(s[i])] + r.0, r.1, r.2)
    } else if i + 1 < s.len() && s[i + 1] == '%' {
        let r = round_from(s, args, streaming, i + 2, k);
        (seq![lit_chunk('%')] + r.0, r.1, r.2)
    } else {
        let d = directive(s, args, i + 1, k);
        let c = conversion(d, args, streaming);
        if !(c.2 is Finished) {
            c
        } else {
            proof {
                lemma_directive_bounds(s, args, i + 1, k);
            }
            let r = round_from(s, args, streaming, d.next, c.1);
            (c.0 + r.0, r.1, r.2)
        }
    }
}

/// The passes over the format starting with argument index `k`: another pass follows
/// while the last one consumed arguments and some are left.
pub open spec fn rounds(s: Seq<char>, args: Seq<Seq<char>>, streaming: bool, k: int) -> (
    Seq<SpecChunk>,
    SpecOutcome,
)
    decreases args.len() - k,
{
    let r = round_from(s, args, streaming, 0, k);
    if !(r.2 is Finished) {
        (r.0, r.2)
    } else if k < r.1 < args.len() {
        let rest = rounds(s, args, streaming, r.1);
        (r.0 + rest.0, rest.1)
    } else {
        (r.0, SpecOutcome::Finished)
    }
}

/// What `printf FORMAT ARGS...` produces: a format without conversions is printed once
/// with escapes interpreted; otherwise it is applied again and again to the arguments.
pub open spec fn printf_output(s: Seq<char>, args: Seq<Seq<char>>, streaming: bool) -> (
    Seq<SpecChunk>,
    SpecOutcome,
) {
    if !has_spec_from(s, 0) {
        (lits(plain_from(s, 0)), SpecOutcome::Finished)
    } else {
        rounds(s, args, streaming, 0)
    }
}


proof fn lemma_assoc<A>(a: Seq<A>, b: Seq<A>, c: Seq<A>)
    ensures
        (a + b) + c == a + (b + c),
{
    assert((a + b) + c =~= a + (b + c));
}

fn push_diag(out: &mut Vec<Chunk>, err: Option<Vec<char>>, ghost_err: Ghost<Option<Seq<char>>>)
    requires
        match err {
            Some(m) => ghost_err@ == Some(m@),
            None => ghost_err@ is None,
        },
    ensures
        chunks_view(final(out)@) == chunks_view(old(out)@) + diag(ghost_err@),
{
    match err {
        Some(m) => {
            push_chunk(out, Chunk::Diag(string_from_chars(&m)));
            assert(chunks_view(old(out)@).push(SpecChunk::Diag(m@)) =~= chunks_view(old(out)@)
                + diag(ghost_err@));
        },
        None => {
            assert(chunks_view(old(out)@) + diag(ghost_err@) =~= chunks_view(old(out)@));
        },
    }
}

/// The value of an integer argument with its message ([`int_value`]).
fn int_value_vec(a: &Vec<char>, streaming: bool) -> (r: (i64, Option<Vec<char>>))
    ensures
        r.0 == int_value(a@, streaming).0,
        match r.1 {
            Some(m) => int_value(a@, streaming).1 == Some(m@),
            None => int_value(a@, streaming).1 is None,
        },
{
    if streaming {
        num_arg_checked_vec(a)
    } else {
        (num_arg_vec(a), None)
    }
}

/// Appends the output of conversion `c` applied to `arg` ([`render`]).
fn push_conversion(out: &mut Vec<Chunk>, c: char, arg: &Vec<char>, d: &DirectiveParts, streaming: bool)
    ensures
        chunks_view(final(out)@) == chunks_view(old(out)@) + render(c, arg@, d.view(), streaming),
{
    let ghost dv = d.view();
    if c == 's' {
        let sw: u64 = match d.width {
            Some(w) => if w > 0 {
                w as u64
            } else {
                0
            },
            None => 0,
        };
        let left = is_left_aligned(&d.flags, d.width);
        let mut text: Vec<char> = Vec::new();
        push_padded(&mut text, arg, left, sw);
        assert(text@ == Seq::<char>::empty() + pad_field(arg@, left, sw as nat));
        assert(Seq::<char>::empty() + pad_field(arg@, left, sw as nat) == pad_field(arg@, left, sw as nat));
        push_lits(out, &text);
    } else if c == 'd' || c == 'i' || c == 'u' {
        let (v, err) = int_value_vec(arg, streaming);
        push_diag(out, err, Ghost(int_value(arg@, streaming).1));
        let mut text: Vec<char> = Vec::new();
        push_int(&mut text, v, &d.flags, d.width, d.precision, c != 'u');
        assert(text@ == Seq::<char>::empty() + int_text(v as int, dv.flags, dv.width, dv.precision, c != 'u'));
        push_lits(out, &text);
        proof {
            lemma_assoc(chunks_view(old(out)@), diag(int_value(arg@, streaming).1), lits(text@));
        }
    } else if c == 'x' || c == 'X' || c == 'o' {
        let (v, err) = int_value_vec(arg, streaming);
        push_diag(out, err, Ghost(int_value(arg@, streaming).1));
        let m = magnitude_of(v);
        let body = if c == 'o' {
            radix_string(m, 8, false)
        } else {
            radix_string(m, 16, c == 'X')
        };
        proof {
            lemma_radix_props(m as nat, if c == 'o' { 8 } else { 16 }, c == 'X');
        }
        let mut num: Vec<char> = Vec::new();
        if contains_char(&d.flags, '#') {
            if c == 'x' {
                num.push('0');
                num.push('x');
            } else if c == 'X' {
                num.push('0');
                num.push('X');
            } else if streaming && body[0] == '0' {
            } else {
                num.push('0');
            }
        }
        push_all(&mut num, &body);
        let mut text: Vec<char> = Vec::new();
        push_field(&mut text, &num, &d.flags, d.width);
        assert(num@ =~= (if !has_char(dv.flags, '#') {
            seq![]
        } else if c == 'x' {
            seq!['0', 'x']
        } else if c == 'X' {
            seq!['0', 'X']
        } else if streaming && starts_with_char(body@, '0') {
            seq![]
        } else {
            seq!['0']
        }) + body@);
        assert(text@ == Seq::<char>::empty() + radix_text(c, arg@, dv, streaming));
        push_lits(out, &text);
        proof {
            lemma_assoc(chunks_view(old(out)@), diag(int_value(arg@, streaming).1), lits(text@));
        }
    } else if c == 'f' || c == 'F' || c == 'e' || c == 'E' || c == 'g' || c == 'G' {
        let f = FloatDirective {
            conv: c,
            arg: string_from_chars(arg),
            flags: string_from_chars(&d.flags),
            width: d.width,
            precision: d.precision,
            report_errors: streaming,
        };
        push_chunk(out, Chunk::Float(f));
        assert(chunks_view(old(out)@).push(SpecChunk::Float(f@)) =~= chunks_view(old(out)@)
            + render(c, arg@, dv, streaming));
    } else if c == 'c' {
        let ch = if arg.len() > 0 {
            arg[0]
        } else {
            '\0'
        };
        push_chunk(out, Chunk::Lit(ch));
        assert(chunks_view(old(out)@).push(SpecChunk::Lit(ch)) =~= chunks_view(old(out)@)
            + render(c, arg@, dv, streaming));
    } else if c == '%' {
        push_chunk(out, Chunk::Lit('%'));
        assert(chunks_view(old(out)@).push(SpecChunk::Lit('%')) =~= chunks_view(old(out)@)
            + render(c, arg@, dv, streaming));
    } else {
        let mut text: Vec<char> = Vec::new();
        text.push('%');
        push_all(&mut text, &d.flags);
        match d.width {
            Some(w) => {
                if streaming || w >= 0 {
                    let ws = signed_decimal_string(w);
                    push_all(&mut text, &ws);
                }
            },
            None => {},
        }
        match d.precision {
            Some(p) => {
                text.push('.');
                if streaming || p >= 0 {
                    let ps = signed_decimal_string(p);
                    push_all(&mut text, &ps);
                }
            },
            None => {},
        }
        push_all(&mut text, &d.length);
        text.push(c);
        assert(text@ =~= echo_text(c, dv, streaming));
        push_lits(out, &text);
    }
}


fn invalid(msg: &str) -> (o: Outcome)
    ensures
        o@ == SpecOutcome::Invalid(msg@),
{
    Outcome::Invalid(msg.to_owned())
}

/// One pass over the format from argument index `k0` ([`round_from`]), appending its
/// output to `out`; returns the argument index at the end and how the pass ended.
fn run_round(fmt: &Vec<char>, args: &[String], streaming: bool, k0: usize, out: &mut Vec<Chunk>) -> (r: (
    usize,
    Outcome,
))
    requires
        k0 <= args@.len(),
    ensures
        chunks_view(final(out)@) == chunks_view(old(out)@) + round_from(
            fmt@,
            strs(args@),
            streaming,
            0,
            k0 as int,
        ).0,
        r.0 == round_from(fmt@, strs(args@), streaming, 0, k0 as int).1,
        r.1@ == round_from(fmt@, strs(args@), streaming, 0, k0 as int).2,
        r.0 <= args@.len(),
{
    let ghost sargs = strs(args@);
    let ghost total = round_from(fmt@, sargs, streaming, 0, k0 as int);
    let mut i: usize = 0;
    let mut k: usize = k0;
    proof {
        assert(chunks_view(old(out)@) + total.0 == chunks_view(old(out)@) + total.0);
    }
    while i < fmt.len()
        invariant
            i <= fmt@.len(),
            k <= args@.len(),
            sargs == strs(args@),
            total == round_from(fmt@, sargs, streaming, 0, k0 as int),
            chunks_view(out@) + round_from(fmt@, sargs, streaming, i as int, k as int).0
                == chunks_view(old(out)@) + total.0,
            round_from(fmt@, sargs, streaming, i as int, k as int).1 == total.1,
            round_from(fmt@, sargs, streaming, i as int, k as int).2 == total.2,
        decreases fmt@.len() - i,
    {
        let ghost before = chunks_view(out@);
        let ghost cur = round_from(fmt@, sargs, streaming, i as int, k as int);
        let c = fmt[i];
        if c == '\\' {
            let mut text: Vec<char> = Vec::new();
            let (e, stop) = escape_exec(fmt, i + 1, &mut text);
            assert(text@ == Seq::<char>::empty() + escape(fmt@, i + 1).0);
            assert(Seq::<char>::empty() + escape(fmt@, i + 1).0 == escape(fmt@, i + 1).0);
            push_lits(out, &text);
            if stop {
                assert(cur.0 == lits(text@));
                return (k, Outcome::Stopped);
            }
            proof {
                lemma_assoc(before, lits(text@), round_from(fmt@, sargs, streaming, e as int, k as int).0);
            }
            i = e;
        } else if c != '%' {
            push_chunk(out, Chunk::Lit(c));
            proof {
                assert(before.push(SpecChunk::Lit(c)) == before + seq![lit_chunk(c)]);
                lemma_assoc(before, seq![lit_chunk(c)], round_from(fmt@, sargs, streaming, i + 1, k as int).0);
            }
            i = i + 1;
        } else if i + 1 < fmt.len() && fmt[i + 1] == '%' {
            push_chunk(out, Chunk::Lit('%'));
            proof {
                assert(before.push(SpecChunk::Lit('%')) == before + seq![lit_chunk('%')]);
                lemma_assoc(before, seq![lit_chunk('%')], round_from(fmt@, sargs, streaming, i + 2, k as int).0);
            }
            i = i + 2;
        } else {
            let d = parse_directive(fmt, args, i + 1, k);
            let ghost conv = conversion(d.view(), sargs, streaming);
            match d.conv {
                None => {
                    assert(conv.0 == Seq::<SpecChunk>::empty());
                    assert(before + Seq::<SpecChunk>::empty() == before);
                    return (d.k, invalid("printf: %: invalid format"));
                },
                Some(cc) => {
                    if cc == 'b' {
                        let mut kk = d.k;
                        let a = get_arg(args, &mut kk);
                        let pe = parse_escapes_with_stop(a.as_str());
                        let text = chars_of(pe.result.as_str());
                        push_lits(out, &text);
                        if pe.stopped {
                            return (kk, Outcome::Stopped);
                        }
                        proof {
                            lemma_assoc(before, lits(text@), round_from(fmt@, sargs, streaming, d.next as int, kk as int).0);
                        }
                        k = kk;
                        i = d.next;
                    } else if cc == 'r' {
                        assert(before + Seq::<SpecChunk>::empty() == before);
                        return (d.k, invalid("printf: %r: invalid format"));
                    } else {
                        let mut kk = d.k;
                        let a = get_arg(args, &mut kk);
                        let av = chars_of(a.as_str());
                        push_conversion(out, cc, &av, &d, streaming);
                        proof {
                            lemma_assoc(before, conv.0, round_from(fmt@, sargs, streaming, d.next as int, kk as int).0);
                        }
                        k = kk;
                        i = d.next;
                    }
                },
            }
        }
    }
    assert(chunks_view(out@) + Seq::<SpecChunk>::empty() == chunks_view(out@));
    (k, Outcome::Finished)
}


/// Applies the format to the arguments pass after pass ([`rounds`]).
fn run_rounds(fmt: &Vec<char>, args: &[String], streaming: bool) -> (r: (Vec<Chunk>, Outcome))
    ensures
        chunks_view(r.0@) == rounds(fmt@, strs(args@), streaming, 0).0,
        r.1@ == rounds(fmt@, strs(args@), streaming, 0).1,
{
    let ghost sargs = strs(args@);
    let mut out: Vec<Chunk> = Vec::new();
    let mut k: usize = 0;
    proof {
        assert(chunks_view(out@) =~= Seq::<SpecChunk>::empty());
        assert(Seq::<SpecChunk>::empty() + rounds(fmt@, sargs, streaming, 0).0 == rounds(
            fmt@,
            sargs,
            streaming,
            0,
        ).0);
    }
    loop
        invariant
            k <= args@.len(),
            sargs == strs(args@),
            chunks_view(out@) + rounds(fmt@, sargs, streaming, k as int).0 == rounds(
                fmt@,
                sargs,
                streaming,
                0,
            ).0,
            rounds(fmt@, sargs, streaming, k as int).1 == rounds(fmt@, sargs, streaming, 0).1,
        decreases args@.len() - k,
    {
        let ghost before = chunks_view(out@);
        let ghost r = round_from(fmt@, sargs, streaming, 0, k as int);
        let (k2, oc) = run_round(fmt, args, streaming, k, &mut out);
        match oc {
            Outcome::Finished => {},
            _ => {
                return (out, oc);
            },
        }
        if k2 <= k || k2 >= args.len() {
            return (out, Outcome::Finished);
        }
        proof {
            lemma_assoc(before, r.0, rounds(fmt@, sargs, streaming, k2 as int).0);
        }
        k = k2;
    }
}

/// Everything `printf` produces for `format` and `arguments` ([`printf_output`]).
fn printf_chunks(format: &str, arguments: &[String], streaming: bool) -> (r: (Vec<Chunk>, Outcome))
    ensures
        chunks_view(r.0@) == printf_output(format@, strs(arguments@), streaming).0,
        r.1@ == printf_output(format@, strs(arguments@), streaming).1,
{
    if !has_format_specifiers(format) {
        let text = process_escapes_in_format(format);
        let cs = chars_of(text.as_str());
        let mut out: Vec<Chunk> = Vec::new();
        push_lits(&mut out, &cs);
        assert(chunks_view(Seq::<Chunk>::empty()) =~= Seq::<SpecChunk>::empty());
        assert(Seq::<SpecChunk>::empty() + lits(cs@) == lits(cs@));
        return (out, Outcome::Finished);
    }
    let fmt = chars_of(format);
    run_rounds(&fmt, arguments, streaming)
}

/// Formats `arguments` with `format` as the `printf` applet does, reusing the format
/// while arguments remain; a malformed directive is an error with its message.
pub fn format_printf(format: &str, arguments: &[String]) -> (r: Result<Vec<Chunk>, String>)
    ensures
        match r {
            Ok(v) => !(printf_output(format@, strs(arguments@), false).1 is Invalid) && chunks_view(
                v@,
            ) == printf_output(format@, strs(arguments@), false).0,
            Err(m) => printf_output(format@, strs(arguments@), false).1 == SpecOutcome::Invalid(m@),
        },
{
    let (out, oc) = printf_chunks(format, arguments, false);
    match oc {
        Outcome::Invalid(m) => Err(m),
        _ => Ok(out),
    }
}

/// What the `printf` applet writes: the chunks in order (standard output and standard
/// error interleaved as the applet produces them) and how it ended.
pub struct PrintfRun {
    pub chunks: Vec<Chunk>,
    pub outcome: Outcome,
}

/// The output of the streaming applet for `format` and `arguments`, reporting malformed
/// numeric arguments as it goes.
pub fn run_printf(format: &str, arguments: &[String]) -> (r: PrintfRun)
    ensures
        chunks_view(r.chunks@) == printf_output(format@, strs(arguments@), true).0,
        r.outcome@ == printf_output(format@, strs(arguments@), true).1,
{
    let (chunks, outcome) = printf_chunks(format, arguments, true);
    PrintfRun { chunks, outcome }
}

/// The applet on parsed options ([`run_printf`]).
pub fn run(options: PrintfOptions) -> (r: PrintfRun)
    ensures
        chunks_view(r.chunks@) == printf_output(options.format@, strs(options.arguments@), true).0,
        r.outcome@ == printf_output(options.format@, strs(options.arguments@), true).1,
{
    run_printf(options.format.as_str(), options.arguments.as_slice())
}

/// Whether any message went to standard error.
pub open spec fn has_diag(chunks: Seq<SpecChunk>) -> bool {
    exists|i: int| 0 <= i < chunks.len() && chunks[i] is Diag
}

/// Tests whether the chunks hold a message for standard error.
pub fn has_diagnostics(chunks: &Vec<Chunk>) -> (b: bool)
    ensures
        b == has_diag(chunks_view(chunks@)),
{
    let mut i: usize = 0;
    while i < chunks.len()
        invariant
            i <= chunks@.len(),
            forall|j: int| 0 <= j < i ==> !(chunks_view(chunks@)[j] is Diag),
        decreases chunks@.len() - i,
    {
        match &chunks[i] {
            Chunk::Diag(_) => {
                assert(chunks_view(chunks@)[i as int] is Diag);
                return true;
            },
            _ => {},
        }
        i = i + 1;
    }
    false
}

/// The exit status of the applet: 1 after a malformed directive or a malformed argument
/// (`had_error`), 0 otherwise.
pub fn exit_status(outcome: &Outcome, had_error: bool) -> (code: i32)
    ensures
        code == (if outcome@ is Invalid || had_error {
            1i32
        } else {
            0i32
        }),
{
    match outcome {
        Outcome::Invalid(_) => 1,
        _ => if had_error {
            1
        } else {
            0
        },
    }
}

fn set_string(output: &mut String, v: &Vec<char>)
    ensures
        final(output)@ == v@,
{
    *output = string_from_chars(v);
}

/// Appends an integer conversion to `output` ([`int_text`]).
pub fn format_integer(
    output: &mut String,
    val: i64,
    flags: &str,
    width: Option<i64>,
    precision: Option<i64>,
    signed: bool,
)
    ensures
        final(output)@ == old(output)@ + int_text(val as int, flags@, width, precision, signed),
{
    let mut v = chars_of(output.as_str());
    let fl = chars_of(flags);
    push_int(&mut v, val, &fl, width, precision, signed);
    set_string(output, &v);
}

/// An integer conversion as a string ([`int_text`]).
pub fn format_integer_to_string(
    val: i64,
    flags: &str,
    width: Option<i64>,
    precision: Option<i64>,
    signed: bool,
) -> (r: String)
    ensures
        r@ == int_text(val as int, flags@, width, precision, signed),
{
    let mut v: Vec<char> = Vec::new();
    let fl = chars_of(flags);
    push_int(&mut v, val, &fl, width, precision, signed);
    assert(v@ == Seq::<char>::empty() + int_text(val as int, flags@, width, precision, signed));
    assert(Seq::<char>::empty() + int_text(val as int, flags@, width, precision, signed) == int_text(val as int, flags@, width, precision, signed));
    string_from_chars(&v)
}

/// Appends `num_str` placed in the directive's field ([`field`]).
pub fn apply_width(output: &mut String, num_str: &str, flags: &str, width: Option<i64>)
    ensures
        final(output)@ == old(output)@ + field(num_str@, flags@, width),
{
    let mut v = chars_of(output.as_str());
    let fl = chars_of(flags);
    let n = chars_of(num_str);
    push_field(&mut v, &n, &fl, width);
    set_string(output, &v);
}


// ---------------------------------------------------------------------------
// Laws
// ---------------------------------------------------------------------------

/// A format without conversions prints the same whatever the arguments.
pub proof fn lemma_plain_format_ignores_arguments(
    s: Seq<char>,
    args1: Seq<Seq<char>>,
    args2: Seq<Seq<char>>,
    streaming: bool,
)
    requires
        !has_spec_from(s, 0),
    ensures
        printf_output(s, args1, streaming) == printf_output(s, args2, streaming),
{
}

/// A pass over the format takes arguments in order: the argument index never moves back
/// and never passes the end of the arguments.
pub proof fn lemma_round_consumes_in_order(
    s: Seq<char>,
    args: Seq<Seq<char>>,
    streaming: bool,
    i: int,
    k: int,
)
    requires
        0 <= k <= args.len(),
    ensures
        k <= round_from(s, args, streaming, i, k).1 <= args.len(),
    decreases s.len() - i,
{
    if 0 <= i < s.len() {
        if s[i] == '\\' {
            let e = escape(s, i + 1);
            if !e.2 {
                lemma_round_consumes_in_order(s, args, streaming, e.1, k);
            }
        } else if s[i] != '%' {
            lemma_round_consumes_in_order(s, args, streaming, i + 1, k);
        } else if i + 1 < s.len() && s[i + 1] == '%' {
            lemma_round_consumes_in_order(s, args, streaming, i + 2, k);
        } else {
            let d = directive(s, args, i + 1, k);
            let c = conversion(d, args, streaming);
            lemma_directive_bounds(s, args, i + 1, k);
            if c.2 is Finished {
                lemma_round_consumes_in_order(s, args, streaming, d.next, c.1);
            }
        }
    }
}

/// The format is used again while arguments remain: a pass that finishes having consumed
/// arguments, with some left, is followed by the passes from where it stopped; a pass
/// that consumed none, or used them all up, ends the output.
pub proof fn lemma_format_reused(s: Seq<char>, args: Seq<Seq<char>>, streaming: bool, k: int)
    requires
        0 <= k <= args.len(),
    ensures
        ({
            let r = round_from(s, args, streaming, 0, k);
            &&& (r.2 is Finished && r.1 > k && r.1 < args.len()) ==> rounds(s, args, streaming, k)
                == (r.0 + rounds(s, args, streaming, r.1).0, rounds(s, args, streaming, r.1).1)
            &&& (r.2 is Finished && (r.1 == k || r.1 >= args.len())) ==> rounds(
                s,
                args,
                streaming,
                k,
            ) == (r.0, SpecOutcome::Finished)
        }),
{
    lemma_round_consumes_in_order(s, args, streaming, 0, k);
}

/// Whether `s` holds `%%` at or after `i`.
pub open spec fn has_double_percent_from(s: Seq<char>, i: int) -> bool {
    exists|j: int| i <= j && j + 1 < s.len() && s[j] == '%' && #[trigger] s[j + 1] == '%'
}

/// Whether scanning the escapes of `s[i..]` from left to right meets `\c`.
pub open spec fn escape_scan_stops(s: Seq<char>, i: int) -> bool
    decreases s.len() - i,
{
    if i < 0 || i >= s.len() {
        false
    } else if s[i] == '\\' {
        let e = escape(s, i + 1);
        e.2 || escape_scan_stops(s, e.1)
    } else {
        escape_scan_stops(s, i + 1)
    }
}

/// On text without `%%`, interpreting the escapes of a `%b` argument and printing a format
/// without conversions give the same text, and the former stops exactly when the scan
/// meets `\c`.
pub proof fn lemma_escapes_agree(s: Seq<char>, i: int)
    requires
        0 <= i,
        !has_double_percent_from(s, i),
    ensures
        unescape_from(s, i).0 == plain_from(s, i),
        unescape_from(s, i).1 == escape_scan_stops(s, i),
    decreases s.len() - i,
{
    if i < s.len() {
        if s[i] == '\\' {
            let e = escape(s, i + 1);
            if !e.2 {
                assert(!has_double_percent_from(s, e.1)) by {
                    if has_double_percent_from(s, e.1) {
                        let j = choose|j: int|
                            e.1 <= j && j + 1 < s.len() && s[j] == '%' && #[trigger] s[j + 1] == '%';
                        assert(i <= j);
                    }
                }
                lemma_escapes_agree(s, e.1);
            }
        } else {
            assert(!has_double_percent_from(s, i + 1)) by {
                if has_double_percent_from(s, i + 1) {
                    let j = choose|j: int|
                        i + 1 <= j && j + 1 < s.len() && s[j] == '%' && #[trigger] s[j + 1] == '%';
                    assert(i <= j);
                }
            }
            if s[i] == '%' && i + 1 < s.len() {
                assert(s[i + 1] != '%');
            }
            lemma_escapes_agree(s, i + 1);
        }
    }
}

proof fn lemma_decimal_digits(n: nat)
    ensures
        all_digits(decimal(n)),
        digits_value(decimal(n)) == n,
        decimal(n).len() >= 1,
    decreases n,
{
    if n >= 10 {
        lemma_decimal_digits(n / 10);
        let p = decimal(n / 10);
        assert(decimal(n) == p.push(digit_char(n % 10, false)));
        assert(decimal(n).drop_last() == p);
        assert(n == (n / 10) * 10 + n % 10) by (nonlinear_arith);
        assert((digit_char(n % 10, false) as u32) - 48 == n % 10);
        assert(decimal(n).last() == digit_char(n % 10, false));
        assert(digits_value(decimal(n)) == digits_value(p) * 10 + ((decimal(n).last() as u32)
            - 48) as nat);
    } else {
        assert(decimal(n).drop_last() =~= Seq::<char>::empty());
        assert(digits_value(Seq::<char>::empty()) == 0);
        assert((digit_char(n, false) as u32) - 48 == n);
        assert(decimal(n).last() == digit_char(n, false));
        assert(digits_value(decimal(n)) == digits_value(decimal(n).drop_last()) * 10 + ((decimal(n).last() as u32)
            - 48) as nat);
    }
}

/// An integer printed by `%d` (no flags, width or precision) reads back as the same
/// value when given as a numeric argument.
pub proof fn lemma_integer_round_trip(v: i64)
    ensures
        num_arg(int_text(v as int, seq![], None, None, true)) == v,
        num_arg_checked(int_text(v as int, seq![], None, None, true)) == (v, None::<Seq<char>>),
{
    let m = magnitude(v as int);
    lemma_decimal_digits(m);
    let digits = decimal(m);
    let t = int_text(v as int, seq![], None, None, true);
    assert(!has_char(seq![], '+'));
    assert(!has_char(seq![], ' '));
    let expect = if v < 0 {
        seq!['-'] + digits
    } else {
        digits
    };
    assert(t == expect);
    assert(t.len() >= 1);
    assert(is_digit(digits[0]));
    assert(is_digit(digits.last()));
    assert(!is_ws(t[0]));
    assert(t.last() == digits.last());
    assert(!is_ws(t.last()));
    assert(trim_start(t) == t);
    assert(trim_end(t) == t);
    assert(strip_leading(t, '+') == t);
    assert(numeric_body(t) == t);
    if v < 0 {
        assert(t.drop_first() == digits);
    }
}

/// The text of `%x %X %o` before any padding: the `#` prefix, then the digits of the
/// magnitude in base 16 or 8.
pub open spec fn radix_digits(c: char, arg: Seq<char>, d: Directive, streaming: bool) -> Seq<char> {
    let m = magnitude(int_value(arg, streaming).0 as int);
    let body = if c == 'o' {
        radix(m, 8, false)
    } else {
        radix(m, 16, c == 'X')
    };
    let prefix = if !has_char(d.flags, '#') {
        seq![]
    } else if c == 'x' {
        seq!['0', 'x']
    } else if c == 'X' {
        seq!['0', 'X']
    } else if streaming && starts_with_char(body, '0') {
        seq![]
    } else {
        seq!['0']
    };
    prefix + body
}

/// `%x %X %o` align as `%d` and `%s` do: the digits come first and the padding spaces
/// after them under the `-` flag or a negative width, the spaces first otherwise; the
/// field takes at least the width's magnitude in bytes, and nothing but spaces is added.
pub proof fn lemma_radix_alignment(c: char, arg: Seq<char>, d: Directive, streaming: bool)
    ensures
        ({
            let t = radix_text(c, arg, d, streaming);
            let g = radix_digits(c, arg, d, streaming);
            &&& t.len() >= g.len()
            &&& left_aligned(d.flags, d.width) ==> t == g + spaces((t.len() - g.len()) as nat)
            &&& !left_aligned(d.flags, d.width) ==> t == spaces((t.len() - g.len()) as nat) + g
            &&& utf8_len(t) >= width_magnitude(d.width)
        }),
{
    let t = radix_text(c, arg, d, streaming);
    let g = radix_digits(c, arg, d, streaming);
    assert(t == field(g, d.flags, d.width));
    lemma_field_fills_width(g, left_aligned(d.flags, d.width), width_magnitude(d.width));
    let w = width_magnitude(d.width);
    if w > 0 && utf8_len(g) < w {
        lemma_utf8_len_ge_len(g);
    } else {
        assert(g + spaces(0) =~= g);
        assert(spaces(0) + g =~= g);
    }
}

/// A padded field takes at least the field's width in bytes.
pub proof fn lemma_field_fills_width(s: Seq<char>, left: bool, w: nat)
    ensures
        utf8_len(pad_field(s, left, w)) >= w,
{
    if w > 0 && utf8_len(s) < w {
        lemma_utf8_len_ge_len(s);
        let sp = spaces((w - s.len()) as nat);
        lemma_utf8_len_spaces((w - s.len()) as nat);
        lemma_utf8_len_concat(s, sp);
        lemma_utf8_len_concat(sp, s);
    }
}

proof fn lemma_utf8_len_spaces(n: nat)
    ensures
        utf8_len(spaces(n)) == n,
    decreases n,
{
    if n > 0 {
        assert(spaces(n).drop_last() =~= spaces((n - 1) as nat));
        lemma_utf8_len_spaces((n - 1) as nat);
    }
}

proof fn lemma_utf8_len_concat(a: Seq<char>, b: Seq<char>)
    ensures
        utf8_len(a + b) == utf8_len(a) + utf8_len(b),
    decreases b.len(),
{
    if b.len() == 0 {
        assert(a + b =~= a);
    } else {
        assert((a + b).drop_last() =~= a + b.drop_last());
        lemma_utf8_len_concat(a, b.drop_last());
    }
}


proof fn lemma_trim_start_spaces(n: nat, x: Seq<char>)
    ensures
        trim_start(spaces(n) + x) == trim_start(x),
    decreases n,
{
    if n > 0 {
        assert((spaces(n) + x)[0] == ' ');
        assert((spaces(n) + x).drop_first() =~= spaces((n - 1) as nat) + x);
        lemma_trim_start_spaces((n - 1) as nat, x);
    } else {
        assert(spaces(n) + x =~= x);
    }
}

proof fn lemma_trim_end_spaces(x: Seq<char>, n: nat)
    ensures
        trim_end(x + spaces(n)) == trim_end(x),
    decreases n,
{
    if n > 0 {
        assert((x + spaces(n)).last() == ' ');
        assert((x + spaces(n)).drop_last() =~= x + spaces((n - 1) as nat));
        lemma_trim_end_spaces(x, (n - 1) as nat);
    } else {
        assert(x + spaces(n) =~= x);
    }
}

proof fn lemma_zeros_value(z: nat)
    ensures
        all_digits(zeros(z)),
        digits_value(zeros(z)) == 0,
    decreases z,
{
    if z > 0 {
        assert(zeros(z).drop_last() =~= zeros((z - 1) as nat));
        lemma_zeros_value((z - 1) as nat);
    }
}

proof fn lemma_zeros_digits(z: nat, d: Seq<char>)
    requires
        all_digits(d),
    ensures
        all_digits(zeros(z) + d),
        digits_value(zeros(z) + d) == digits_value(d),
    decreases d.len(),
{
    if d.len() == 0 {
        assert(zeros(z) + d =~= zeros(z));
        lemma_zeros_value(z);
    } else {
        lemma_zeros_digits(z, d.drop_last());
        assert((zeros(z) + d).drop_last() =~= zeros(z) + d.drop_last());
        assert((zeros(z) + d).last() == d.last());
        assert(is_digit(d[d.len() - 1]));
    }
}

/// The sign a parsed number starts with: `-`, `+` or none.
pub open spec fn sign_text(neg: bool, plus: bool) -> Seq<char> {
    if neg {
        seq!['-']
    } else if plus {
        seq!['+']
    } else {
        seq![]
    }
}

proof fn lemma_parse_core(neg: bool, plus: bool, b: nat, v: i64)
    requires
        neg <==> v < 0,
    ensures
        parse_i64(sign_text(neg, plus) + zeros(b) + decimal(magnitude(v as int))) == Some(v),
{
    let d = decimal(magnitude(v as int));
    lemma_decimal_digits(magnitude(v as int));
    lemma_zeros_digits(b, d);
    let body = zeros(b) + d;
    let t = sign_text(neg, plus) + zeros(b) + d;
    assert(t =~= sign_text(neg, plus) + body);
    assert(body.len() >= 1);
    assert(is_digit(body[0]));
    assert(digits_value(body) == magnitude(v as int));
    if neg {
        assert(t.drop_first() =~= body);
        assert(t[0] == '-');
        assert(-(digits_value(body) as int) == v as int);
    } else if plus {
        assert(t.drop_first() =~= body);
        assert(t[0] == '+');
        assert(digits_value(body) as int == v as int);
    } else {
        assert(t =~= body);
        assert(t[0] != '-' && t[0] != '+');
        assert(digits_value(body) as int == v as int);
    }
}

proof fn lemma_trim_core(x: nat, space: bool, core: Seq<char>, y: nat)
    requires
        core.len() > 0,
        !is_ws(core[0]),
        !is_ws(core.last()),
    ensures
        trim(spaces(x) + (if space {
            seq![' ']
        } else {
            seq![]
        }) + core + spaces(y)) == core,
{
    let sp: Seq<char> = if space {
        seq![' ']
    } else {
        seq![]
    };
    let whole = spaces(x) + sp + core + spaces(y);
    let lead = if space {
        (x + 1) as nat
    } else {
        x
    };
    assert(whole =~= spaces(lead) + (core + spaces(y)));
    lemma_trim_start_spaces(lead, core + spaces(y));
    assert((core + spaces(y))[0] == core[0]);
    assert(trim_start(core + spaces(y)) == core + spaces(y));
    lemma_trim_end_spaces(core, y);
}

/// An integer printed by `%d`, `%i` (any flags, width and precision) reads back as the
/// same value once surrounding spaces are trimmed, and takes at least the width in bytes.
#[verifier::rlimit(80)]
pub proof fn lemma_signed_integer_round_trip(
    v: i64,
    flags: Seq<char>,
    width: Option<i64>,
    precision: Option<i64>,
)
    ensures
        parse_i64(trim(int_text(v as int, flags, width, precision, true))) == Some(v),
        utf8_len(int_text(v as int, flags, width, precision, true)) >= width_magnitude(width),
{
    let m = magnitude(v as int);
    let digits = decimal(m);
    lemma_decimal_digits(m);
    let md = min_digits(precision);
    let a: nat = if digits.len() < md {
        (md - digits.len()) as nat
    } else {
        0
    };
    let padded = zeros(a) + digits;
    assert(padded =~= (if digits.len() < md {
        zeros((md - digits.len()) as nat) + digits
    } else {
        digits
    }));
    let neg = v < 0;
    let plus = !neg && has_char(flags, '+');
    let space = !neg && !plus && has_char(flags, ' ');
    let sp: Seq<char> = if space {
        seq![' ']
    } else {
        seq![]
    };
    let num = signed_digits(v as int, flags, precision, true);
    assert(num =~= sp + sign_text(neg, plus) + padded);
    let w = width_magnitude(width);
    let r = int_text(v as int, flags, width, precision, true);
    lemma_utf8_len_ge_len(num);
    lemma_utf8_len_ge_len(r);
    assert(is_digit(digits[0]) && is_digit(digits.last()));
    if w > 0 && utf8_len(num) < w {
        let fill = (w - num.len()) as nat;
        if left_aligned(flags, width) {
            assert(r =~= spaces(0) + sp + (sign_text(neg, plus) + zeros(a) + digits) + spaces(fill));
            lemma_trim_core(0, space, sign_text(neg, plus) + zeros(a) + digits, fill);
            lemma_parse_core(neg, plus, a, v);
        } else if has_char(flags, '0') {
            if starts_with_sign(num) {
                assert(r =~= spaces(0) + sp + (sign_text(neg, plus) + zeros(fill + a) + digits)
                    + spaces(0)) by {
                    assert(zeros(fill) + zeros(a) =~= zeros(fill + a));
                }
                lemma_trim_core(0, space, sign_text(neg, plus) + zeros(fill + a) + digits, 0);
                lemma_parse_core(neg, plus, fill + a, v);
            } else {
                assert(!space && !neg && !plus);
                assert(r =~= spaces(0) + sp + (sign_text(neg, plus) + zeros(fill + a) + digits)
                    + spaces(0)) by {
                    assert(zeros(fill) + zeros(a) =~= zeros(fill + a));
                }
                lemma_trim_core(0, space, sign_text(neg, plus) + zeros(fill + a) + digits, 0);
                lemma_parse_core(neg, plus, fill + a, v);
            }
        } else {
            assert(r =~= spaces(fill) + sp + (sign_text(neg, plus) + zeros(a) + digits) + spaces(0));
            lemma_trim_core(fill, space, sign_text(neg, plus) + zeros(a) + digits, 0);
            lemma_parse_core(neg, plus, a, v);
        }
        assert(r.len() == w);
    } else {
        assert(r =~= spaces(0) + sp + (sign_text(neg, plus) + zeros(a) + digits) + spaces(0));
        lemma_trim_core(0, space, sign_text(neg, plus) + zeros(a) + digits, 0);
        lemma_parse_core(neg, plus, a, v);
    }
}


/// The directive whose flags start at `j` takes its width and precision from the format,
/// not from `*` arguments.
pub open spec fn fixed_fields(s: Seq<char>, j: int) -> bool {
    let w = scan_num(s, flags_end(s, j), 0, false);
    let has_dot = 0 <= w.1 < s.len() && s[w.1] == '.';
    !(w.0 is Star) && !(has_dot && scan_num(s, w.1 + 1, 0, false).0 is Star)
}

/// Every conversion of `s[i..]` (up to a `\c`) is `%s`, `%b` or `%c`, with fixed width
/// and precision.
pub open spec fn sbc_only(s: Seq<char>, i: int) -> bool
    decreases s.len() - i,
{
    if i < 0 || i >= s.len() {
        true
    } else if s[i] == '\\' {
        let e = escape(s, i + 1);
        e.2 || sbc_only(s, e.1)
    } else if s[i] != '%' {
        sbc_only(s, i + 1)
    } else if i + 1 < s.len() && s[i + 1] == '%' {
        sbc_only(s, i + 2)
    } else {
        let d = directive(s, seq![], i + 1, 0);
        proof {
            lemma_directive_bounds(s, seq![], i + 1, 0);
        }
        fixed_fields(s, i + 1) && (d.conv matches Some(c) && (c == 's' || c == 'b' || c == 'c'))
            && sbc_only(s, d.next)
    }
}

/// Whether every chunk is a literal character.
pub open spec fn all_lits(q: Seq<SpecChunk>) -> bool {
    forall|j: int| 0 <= j < q.len() ==> (#[trigger] q[j]) is Lit
}

proof fn lemma_all_lits_concat(a: Seq<SpecChunk>, b: Seq<SpecChunk>)
    requires
        all_lits(a),
        all_lits(b),
    ensures
        all_lits(a + b),
{
    assert forall|j: int| 0 <= j < (a + b).len() implies (#[trigger] (a + b)[j]) is Lit by {
        if j < a.len() {
            assert((a + b)[j] == a[j]);
        } else {
            assert((a + b)[j] == b[j - a.len()]);
        }
    }
}

proof fn lemma_lits_all(t: Seq<char>)
    ensures
        all_lits(lits(t)),
{
}

proof fn lemma_fixed_directive(s: Seq<char>, args: Seq<Seq<char>>, j: int, k: int)
    requires
        fixed_fields(s, j),
    ensures
        directive(s, args, j, k).next == directive(s, seq![], j, 0).next,
        directive(s, args, j, k).conv == directive(s, seq![], j, 0).conv,
        directive(s, args, j, k).flags == directive(s, seq![], j, 0).flags,
        directive(s, args, j, k).width == directive(s, seq![], j, 0).width,
        directive(s, args, j, k).precision == directive(s, seq![], j, 0).precision,
        directive(s, args, j, k).length == directive(s, seq![], j, 0).length,
        directive(s, args, j, k).k == k,
{
}

proof fn lemma_round_modes_agree(s: Seq<char>, args: Seq<Seq<char>>, i: int, k: int)
    requires
        0 <= i,
        sbc_only(s, i),
    ensures
        round_from(s, args, true, i, k) == round_from(s, args, false, i, k),
        all_lits(round_from(s, args, true, i, k).0),
        !(round_from(s, args, true, i, k).2 is Invalid),
    decreases s.len() - i,
{
    if i < s.len() {
        if s[i] == '\\' {
            let e = escape(s, i + 1);
            lemma_lits_all(e.0);
            if !e.2 {
                lemma_round_modes_agree(s, args, e.1, k);
                lemma_all_lits_concat(lits(e.0), round_from(s, args, true, e.1, k).0);
            }
        } else if s[i] != '%' {
            lemma_round_modes_agree(s, args, i + 1, k);
            lemma_all_lits_concat(seq![lit_chunk(s[i])], round_from(s, args, true, i + 1, k).0);
        } else if i + 1 < s.len() && s[i + 1] == '%' {
            lemma_round_modes_agree(s, args, i + 2, k);
            lemma_all_lits_concat(seq![lit_chunk('%')], round_from(s, args, true, i + 2, k).0);
        } else {
            lemma_directive_bounds(s, seq![], i + 1, 0);
            lemma_directive_bounds(s, args, i + 1, k);
            lemma_fixed_directive(s, args, i + 1, k);
            let d = directive(s, args, i + 1, k);
            let c = conversion(d, args, true);
            assert(c == conversion(d, args, false));
            let a = arg_at(args, d.k);
            lemma_lits_all(unescape_from(a, 0).0);
            lemma_lits_all(pad_field(a, left_aligned(d.flags, d.width), string_width(d.width)));
            assert(all_lits(c.0));
            if c.2 is Finished {
                lemma_round_modes_agree(s, args, d.next, c.1);
                lemma_all_lits_concat(c.0, round_from(s, args, true, d.next, c.1).0);
            }
        }
    }
}

proof fn lemma_rounds_modes_agree(s: Seq<char>, args: Seq<Seq<char>>, k: int)
    requires
        sbc_only(s, 0),
    ensures
        rounds(s, args, true, k) == rounds(s, args, false, k),
        all_lits(rounds(s, args, true, k).0),
        !(rounds(s, args, true, k).1 is Invalid),
    decreases args.len() - k,
{
    lemma_round_modes_agree(s, args, 0, k);
    let r = round_from(s, args, true, 0, k);
    if r.2 is Finished && k < r.1 < args.len() {
        lemma_rounds_modes_agree(s, args, r.1);
        lemma_all_lits_concat(r.0, rounds(s, args, true, r.1).0);
    }
}

/// For a format without conversions, or whose conversions are all `%s`, `%b` or `%c` with
/// fixed width and precision, the streaming applet writes exactly what the string
/// formatter returns, reports nothing on standard error, and never meets a malformed
/// directive.
pub proof fn lemma_streaming_matches_formatter(s: Seq<char>, args: Seq<Seq<char>>)
    requires
        !has_spec_from(s, 0) || sbc_only(s, 0),
    ensures
        printf_output(s, args, true) == printf_output(s, args, false),
        !has_diag(printf_output(s, args, true).0),
        !(printf_output(s, args, true).1 is Invalid),
{
    if has_spec_from(s, 0) {
        lemma_rounds_modes_agree(s, args, 0);
    } else {
        lemma_lits_all(plain_from(s, 0));
    }
    let q = printf_output(s, args, true).0;
    assert(all_lits(q));
    assert(!has_diag(q)) by {
        if has_diag(q) {
            let j = choose|j: int| 0 <= j < q.len() && q[j] is Diag;
            assert(q[j] is Lit);
        }
    }
}


/// The conversion characters of `s[i..]` in order, when every directive there has a fixed
/// width and precision and a conversion that does not fail, and no `\c` stops the format.
pub open spec fn fixed_convs(s: Seq<char>, i: int) -> Option<Seq<char>>
    decreases s.len() - i,
{
    if i < 0 || i >= s.len() {
        Some(seq![])
    } else if s[i] == '\\' {
        let e = escape(s, i + 1);
        if e.2 {
            None
        } else {
            fixed_convs(s, e.1)
        }
    } else if s[i] != '%' {
        fixed_convs(s, i + 1)
    } else if i + 1 < s.len() && s[i + 1] == '%' {
        fixed_convs(s, i + 2)
    } else {
        let d = directive(s, seq![], i + 1, 0);
        proof {
            lemma_directive_bounds(s, seq![], i + 1, 0);
        }
        match d.conv {
            Some(c) => if fixed_fields(s, i + 1) && c != 'r' {
                match fixed_convs(s, d.next) {
                    Some(cs) => Some(seq![c] + cs),
                    None => None,
                }
            } else {
                None
            },
            None => None,
        }
    }
}

proof fn lemma_render_same(c: char, a: Seq<char>, d1: Directive, d2: Directive, st: bool)
    requires
        d1.flags == d2.flags,
        d1.width == d2.width,
        d1.precision == d2.precision,
        d1.length == d2.length,
    ensures
        render(c, a, d1, st) == render(c, a, d2, st),
{
    assert(echo_text(c, d1, st) == echo_text(c, d2, st));
    assert(radix_text(c, a, d1, st) == radix_text(c, a, d2, st));
}

/// A pass over the arguments `k0 + t ..` reads them as the same pass over the window
/// `args[k0 .. k0 + len]` reads its own arguments from `t`.
proof fn lemma_round_window(
    s: Seq<char>,
    args: Seq<Seq<char>>,
    st: bool,
    i: int,
    k0: int,
    t: int,
    len: int,
    cs: Seq<char>,
)
    requires
        0 <= i,
        0 <= k0,
        0 <= t,
        k0 + len <= args.len(),
        fixed_convs(s, i) == Some(cs),
        t + cs.len() <= len,
        forall|u: int|
            0 <= u < cs.len() && cs[u] == 'b' ==> !unescape_from(#[trigger] args[k0 + t + u], 0).1,
    ensures
        ({
            let r = round_from(s, args.subrange(k0, k0 + len), st, i, t);
            &&& round_from(s, args, st, i, k0 + t) == (r.0, r.1 + k0, r.2)
            &&& r.2 is Finished
            &&& r.1 == t + cs.len()
        }),
    decreases s.len() - i,
{
    let w = args.subrange(k0, k0 + len);
    if i < s.len() {
        if s[i] == '\\' {
            let e = escape(s, i + 1);
            lemma_round_window(s, args, st, e.1, k0, t, len, cs);
        } else if s[i] != '%' {
            lemma_round_window(s, args, st, i + 1, k0, t, len, cs);
        } else if i + 1 < s.len() && s[i + 1] == '%' {
            lemma_round_window(s, args, st, i + 2, k0, t, len, cs);
        } else {
            lemma_directive_bounds(s, seq![], i + 1, 0);
            lemma_fixed_directive(s, args, i + 1, k0 + t);
            lemma_fixed_directive(s, w, i + 1, t);
            let d = directive(s, args, i + 1, k0 + t);
            let dw = directive(s, w, i + 1, t);
            let c = d.conv->0;
            let rest = cs.drop_first();
            assert(cs == seq![c] + rest);
            assert(fixed_convs(s, d.next) == Some(rest));
            assert(arg_at(args, k0 + t) == args[k0 + t]);
            assert(arg_at(w, t) == args[k0 + t]);
            assert(cs[0] == c);
            lemma_render_same(c, args[k0 + t], d, dw, st);
            let cv = conversion(d, args, st);
            let cw = conversion(dw, w, st);
            assert(d.conv == Some(c) && dw.conv == Some(c) && c != 'r');
            assert(d.k == k0 + t && dw.k == t && t < len);
            assert(after_arg(args, k0 + t) == k0 + t + 1);
            assert(after_arg(w, t) == t + 1);
            if c == 'b' {
                assert(cs[0] == 'b');
                assert(args[k0 + t + 0] == args[k0 + t]);
                assert(!unescape_from(args[k0 + t], 0).1);
            }
            assert(cv.0 == cw.0 && cv.1 == cw.1 + k0 && cv.2 == cw.2 && cv.2 is Finished);
            assert forall|u: int|
                0 <= u < rest.len() && rest[u] == 'b' implies !unescape_from(
                #[trigger] args[k0 + (t + 1) + u],
                0,
            ).1 by {
                assert(cs[u + 1] == rest[u]);
                assert(k0 + t + (u + 1) == k0 + (t + 1) + u);
            }
            lemma_round_window(s, args, st, d.next, k0, t + 1, len, rest);
        }
    }
}

/// The outputs of the format on the argument slices `j*k .. (j+1)*k` for `j` from `j0` up
/// to `m`, concatenated.
pub open spec fn slice_outputs(
    s: Seq<char>,
    args: Seq<Seq<char>>,
    st: bool,
    k: int,
    j0: int,
    m: int,
) -> Seq<SpecChunk>
    decreases m - j0,
{
    if j0 >= m {
        seq![]
    } else {
        printf_output(s, args.subrange(j0 * k, j0 * k + k), st).0 + slice_outputs(
            s,
            args,
            st,
            k,
            j0 + 1,
            m,
        )
    }
}

proof fn lemma_slice_output(
    s: Seq<char>,
    args: Seq<Seq<char>>,
    st: bool,
    k: int,
    j: int,
    cs: Seq<char>,
)
    requires
        has_spec_from(s, 0),
        fixed_convs(s, 0) == Some(cs),
        cs.len() == k,
        k >= 1,
        0 <= j * k,
        j * k + k <= args.len(),
        forall|u: int| 0 <= u < k && cs[u] == 'b' ==> !unescape_from(#[trigger] args[j * k + u], 0).1,
    ensures
        printf_output(s, args.subrange(j * k, j * k + k), st) == (
            round_from(s, args.subrange(j * k, j * k + k), st, 0, 0).0,
            SpecOutcome::Finished,
        ),
        round_from(s, args, st, 0, j * k) == (
            round_from(s, args.subrange(j * k, j * k + k), st, 0, 0).0,
            j * k + k,
            SpecOutcome::Finished,
        ),
{
    let sl = args.subrange(j * k, j * k + k);
    assert forall|u: int| 0 <= u < cs.len() && cs[u] == 'b' implies !unescape_from(
        #[trigger] args[j * k + 0 + u],
        0,
    ).1 by {
        assert(args[j * k + 0 + u] == args[j * k + u]);
    }
    lemma_round_window(s, args, st, 0, j * k, 0, k, cs);
    assert forall|u: int| 0 <= u < cs.len() && cs[u] == 'b' implies !unescape_from(
        #[trigger] sl[0 + 0 + u],
        0,
    ).1 by {
        assert(sl[u] == args[j * k + u]);
    }
    lemma_round_window(s, sl, st, 0, 0, 0, k, cs);
    assert(sl.subrange(0, k) =~= sl);
}

/// The format is applied again to each further set of arguments: when every pass takes
/// the same `k` arguments (fixed widths, no failing conversion, no `\c`), the output on
/// `m * k` arguments is the outputs on the `m` slices of `k` arguments, concatenated.
pub proof fn lemma_format_reused_per_slice(
    s: Seq<char>,
    args: Seq<Seq<char>>,
    st: bool,
    cs: Seq<char>,
    k: int,
    m: int,
)
    requires
        has_spec_from(s, 0),
        fixed_convs(s, 0) == Some(cs),
        cs.len() == k,
        k >= 1,
        m >= 1,
        args.len() == m * k,
        forall|j: int, u: int|
            0 <= j < m && 0 <= u < k && cs[u] == 'b' ==> !unescape_from(
                #[trigger] args[j * k + u],
                0,
            ).1,
    ensures
        printf_output(s, args, st) == (slice_outputs(s, args, st, k, 0, m), SpecOutcome::Finished),
{
    lemma_rounds_per_slice(s, args, st, cs, k, m, 0);
    assert(0 * k == 0);
}

proof fn lemma_rounds_per_slice(
    s: Seq<char>,
    args: Seq<Seq<char>>,
    st: bool,
    cs: Seq<char>,
    k: int,
    m: int,
    j: int,
)
    requires
        has_spec_from(s, 0),
        fixed_convs(s, 0) == Some(cs),
        cs.len() == k,
        k >= 1,
        0 <= j < m,
        args.len() == m * k,
        forall|j: int, u: int|
            0 <= j < m && 0 <= u < k && cs[u] == 'b' ==> !unescape_from(
                #[trigger] args[j * k + u],
                0,
            ).1,
    ensures
        rounds(s, args, st, j * k) == (slice_outputs(s, args, st, k, j, m), SpecOutcome::Finished),
    decreases m - j,
{
    assert(0 <= j * k) by (nonlinear_arith)
        requires
            0 <= j,
            k >= 1,
    ;
    assert(j * k + k <= m * k) by (nonlinear_arith)
        requires
            j < m,
            k >= 1,
    ;
    assert(j * k + k == (j + 1) * k) by (nonlinear_arith);
    lemma_slice_output(s, args, st, k, j, cs);
    let r = round_from(s, args, st, 0, j * k);
    if j + 1 < m {
        assert((j + 1) * k < m * k) by (nonlinear_arith)
            requires
                j + 1 < m,
                k >= 1,
        ;
        lemma_rounds_per_slice(s, args, st, cs, k, m, j + 1);
        assert(slice_outputs(s, args, st, k, j + 1 + 1, m) == slice_outputs(s, args, st, k, j + 2, m));
    } else {
        assert(j + 1 == m);
        assert(slice_outputs(s, args, st, k, j + 1, m) == Seq::<SpecChunk>::empty());
        assert(r.0 + Seq::<SpecChunk>::empty() =~= r.0);
    }
}

} // verus!
