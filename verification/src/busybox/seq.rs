//! The `seq` applet: the shape of the command line (which number is first, increment
//! and last, the precision and the `-w` widths), `-f` format parsing and the integer
//! and flag handling of formatted numbers.
//!
//! Parsing the numbers themselves, stepping through them and rendering floating-point
//! values are left to the caller.
use vstd::prelude::*;
use crate::text::{
    chars_of, string_from_chars, push_all, push_str, contains_char, has_char, is_digit, utf8_len,
    utf8_len_below, lemma_utf8_len_ge_len, radix, decimal, magnitude, magnitude_of, push_radix,
    slice_chars, starts_with_char,
};
use crate::busybox::printf::{flags_end, spaces, zeros, push_repeat, push1};

verus! {

// ---------------------------------------------------------------------------
// Widths and decimal places of the number arguments
// ---------------------------------------------------------------------------

/// The first index at or after `i` where `s` holds `c`.
pub open spec fn find_from(s: Seq<char>, c: char, i: int) -> Option<int>
    decreases s.len() - i,
{
    if i < 0 || i >= s.len() {
        None
    } else if s[i] == c {
        Some(i)
    } else {
        find_from(s, c, i + 1)
    }
}

/// Finds the first `c` in `v` (`str::find` with a character, counted in characters).
fn find_char(v: &Vec<char>, c: char) -> (r: Option<usize>)
    ensures
        match r {
            Some(p) => find_from(v@, c, 0) == Some(p as int) && p < v@.len(),
            None => find_from(v@, c, 0) is None,
        },
{
    let mut i: usize = 0;
    while i < v.len()
        invariant
            i <= v@.len(),
            find_from(v@, c, i as int) == find_from(v@, c, 0),
        decreases v@.len() - i,
    {
        if v[i] == c {
            return Some(i);
        }
        i = i + 1;
    }
    None
}

/// The part of a number before its decimal point.
pub open spec fn integer_part(s: Seq<char>) -> Seq<char> {
    match find_from(s, '.', 0) {
        Some(p) => s.take(p),
        None => s,
    }
}

/// The display width of a number argument: the bytes before the decimal point, without
/// a leading sign (`"003"` has width 3, `"-04.5"` width 2).
pub open spec fn string_width(s: Seq<char>) -> nat {
    let ip = integer_part(s);
    if starts_with_char(ip, '-') || starts_with_char(ip, '+') {
        utf8_len(ip.drop_first())
    } else {
        utf8_len(ip)
    }
}

/// Counts the UTF-8 bytes of `v` (`str::len`).
fn utf8_count(v: &Vec<char>) -> (n: usize)
    requires
        v@.len() <= usize::MAX / 4,
    ensures
        n == utf8_len(v@),
{
    let mut n: usize = 0;
    let mut i: usize = 0;
    assert(v@.take(0) =~= Seq::<char>::empty());
    while i < v.len()
        invariant
            i <= v@.len() <= usize::MAX / 4,
            n == utf8_len(v@.take(i as int)),
            n <= 4 * i,
        decreases v@.len() - i,
    {
        let code = v[i] as u32;
        let w: usize = if code < 0x80 {
            1
        } else if code < 0x800 {
            2
        } else if code < 0x10000 {
            3
        } else {
            4
        };
        assert(v@.take(i + 1).drop_last() == v@.take(i as int));
        n = n + w;
        i = i + 1;
    }
    assert(v@.take(i as int) == v@);
    n
}

/// The display width of a number argument ([`string_width`]).
pub fn get_string_width(s: &str) -> (w: usize)
    requires
        s@.len() <= usize::MAX / 4,
    ensures
        w == string_width(s@),
{
    let v = chars_of(s);
    let ip = match find_char(&v, '.') {
        Some(p) => slice_chars(&v, 0, p),
        None => slice_chars(&v, 0, v.len()),
    };
    assert(ip@ == integer_part(v@)) by {
        assert(v@.subrange(0, v@.len() as int) == v@);
    }
    if ip.len() > 0 && (ip[0] == '-' || ip[0] == '+') {
        let rest = slice_chars(&ip, 1, ip.len());
        assert(rest@ == ip@.drop_first());
        utf8_count(&rest)
    } else {
        utf8_count(&ip)
    }
}

/// Whether a number is written in scientific notation.
pub open spec fn is_scientific(s: Seq<char>) -> bool {
    has_char(s, 'e') || has_char(s, 'E')
}

/// The bytes after the first decimal point (none without one).
pub open spec fn fraction_len(s: Seq<char>) -> nat {
    match find_from(s, '.', 0) {
        Some(p) => utf8_len(s.skip(p + 1)),
        None => 0,
    }
}

/// The decimal places of a number argument: those after its decimal point, trailing
/// zeros included. A number in scientific notation is counted in `expansion`, the
/// plain rendering of its value (`format!("{}", value)`), or as written when it does
/// not parse (`expansion` is `None`).
pub open spec fn decimal_places(s: Seq<char>, expansion: Option<Seq<char>>) -> nat {
    if is_scientific(s) {
        match expansion {
            Some(e) => fraction_len(e),
            None => fraction_len(s),
        }
    } else {
        fraction_len(s)
    }
}

fn fraction_len_of(v: &Vec<char>) -> (n: usize)
    requires
        v@.len() <= usize::MAX / 4,
    ensures
        n == fraction_len(v@),
{
    match find_char(v, '.') {
        Some(p) => {
            let rest = slice_chars(v, p + 1, v.len());
            assert(rest@ == v@.skip(p + 1));
            utf8_count(&rest)
        },
        None => 0,
    }
}

/// The decimal places of a number argument ([`decimal_places`]).
pub fn count_decimal_places(s: &str, expansion: Option<&str>) -> (n: usize)
    requires
        s@.len() <= usize::MAX / 4,
        match expansion {
            Some(e) => e@.len() <= usize::MAX / 4,
            None => true,
        },
    ensures
        n == decimal_places(
            s@,
            match expansion {
                Some(e) => Some(e@),
                None => None,
            },
        ),
{
    let v = chars_of(s);
    if contains_char(&v, 'e') || contains_char(&v, 'E') {
        match expansion {
            Some(e) => {
                let ev = chars_of(e);
                fraction_len_of(&ev)
            },
            None => fraction_len_of(&v),
        }
    } else {
        fraction_len_of(&v)
    }
}

// ---------------------------------------------------------------------------
// The command line: seq [FIRST [INCREMENT]] LAST
// ---------------------------------------------------------------------------

/// Which argument is which, and the precision and widths they give.
pub struct SeqShape {
    /// The argument holding FIRST (absent: FIRST is 1).
    pub first_index: Option<usize>,
    /// The argument holding INCREMENT (absent: INCREMENT is 1).
    pub increment_index: Option<usize>,
    /// The argument holding LAST.
    pub last_index: usize,
    /// The decimal places printed by default.
    pub precision: usize,
    pub first_width: usize,
    pub last_width: usize,
    pub incr_width: usize,
}

/// The shape of `seq` with the given arguments and decimal places: one argument is LAST;
/// two are FIRST LAST with the larger of their precisions; three are FIRST INCREMENT
/// LAST with the precision of INCREMENT. Absent numbers have width 1.
pub open spec fn seq_shape_of(
    n: nat,
    places: spec_fn(int) -> nat,
    widths: spec_fn(int) -> nat,
) -> Option<(Option<int>, Option<int>, int, nat, nat, nat, nat)> {
    if n == 1 {
        Some((None, None, 0, places(0), 1, widths(0), 1))
    } else if n == 2 {
        Some(
            (
                Some(0),
                None,
                1,
                if places(0) >= places(1) {
                    places(0)
                } else {
                    places(1)
                },
                widths(0),
                widths(1),
                1,
            ),
        )
    } else if n == 3 {
        Some((Some(0), Some(1), 2, places(1), widths(0), widths(2), widths(1)))
    } else {
        None
    }
}

/// The view of a [`SeqShape`].
pub open spec fn shape_view(s: SeqShape) -> (Option<int>, Option<int>, int, nat, nat, nat, nat) {
    (
        match s.first_index {
            Some(i) => Some(i as int),
            None => None,
        },
        match s.increment_index {
            Some(i) => Some(i as int),
            None => None,
        },
        s.last_index as int,
        s.precision as nat,
        s.first_width as nat,
        s.last_width as nat,
        s.incr_width as nat,
    )
}

/// The decimal places of the arguments, each with its expansion.
pub open spec fn places_of(numbers: Seq<String>, expansions: Seq<Option<String>>) -> spec_fn(
    int,
) -> nat {
    |i: int|
        decimal_places(
            numbers[i]@,
            match expansions[i] {
                Some(e) => Some(e@),
                None => None,
            },
        )
}

/// The widths of the arguments.
pub open spec fn widths_of(numbers: Seq<String>) -> spec_fn(int) -> nat {
    |i: int| string_width(numbers[i]@)
}

fn places_at(numbers: &[String], expansions: &[Option<String>], i: usize) -> (n: usize)
    requires
        i < numbers@.len(),
        i < expansions@.len(),
        numbers@[i as int]@.len() <= usize::MAX / 4,
        match expansions@[i as int] {
            Some(e) => e@.len() <= usize::MAX / 4,
            None => true,
        },
    ensures
        n == places_of(numbers@, expansions@)(i as int),
{
    match &expansions[i] {
        Some(e) => count_decimal_places(numbers[i].as_str(), Some(e.as_str())),
        None => count_decimal_places(numbers[i].as_str(), None),
    }
}

/// Assigns the number arguments their roles ([`seq_shape_of`]); `expansions[i]` is the
/// plain rendering of the value of `numbers[i]` when it is in scientific notation.
pub fn seq_shape(numbers: &[String], expansions: &[Option<String>]) -> (r: Result<SeqShape, String>)
    requires
        expansions@.len() == numbers@.len(),
        forall|i: int| 0 <= i < numbers@.len() ==> (#[trigger] numbers@[i])@.len() <= usize::MAX / 4,
        forall|i: int|
            0 <= i < expansions@.len() ==> match #[trigger] expansions@[i] {
                Some(e) => e@.len() <= usize::MAX / 4,
                None => true,
            },
    ensures
        match r {
            Ok(s) => seq_shape_of(
                numbers@.len(),
                places_of(numbers@, expansions@),
                widths_of(numbers@),
            ) == Some(shape_view(s)),
            Err(m) => seq_shape_of(
                numbers@.len(),
                places_of(numbers@, expansions@),
                widths_of(numbers@),
            ) is None && m@ == "seq: too many arguments"@,
        },
{
    let n = numbers.len();
    if n == 1 {
        let p = places_at(numbers, expansions, 0);
        let w = get_string_width(numbers[0].as_str());
        Ok(
            SeqShape {
                first_index: None,
                increment_index: None,
                last_index: 0,
                precision: p,
                first_width: 1,
                last_width: w,
                incr_width: 1,
            },
        )
    } else if n == 2 {
        let p0 = places_at(numbers, expansions, 0);
        let p1 = places_at(numbers, expansions, 1);
        let w0 = get_string_width(numbers[0].as_str());
        let w1 = get_string_width(numbers[1].as_str());
        Ok(
            SeqShape {
                first_index: Some(0),
                increment_index: None,
                last_index: 1,
                precision: if p0 >= p1 {
                    p0
                } else {
                    p1
                },
                first_width: w0,
                last_width: w1,
                incr_width: 1,
            },
        )
    } else if n == 3 {
        let p1 = places_at(numbers, expansions, 1);
        let w0 = get_string_width(numbers[0].as_str());
        let w1 = get_string_width(numbers[1].as_str());
        let w2 = get_string_width(numbers[2].as_str());
        Ok(
            SeqShape {
                first_index: Some(0),
                increment_index: Some(1),
                last_index: 2,
                precision: p1,
                first_width: w0,
                last_width: w2,
                incr_width: w1,
            },
        )
    } else {
        Err("seq: too many arguments".to_owned())
    }
}


// ---------------------------------------------------------------------------
// -f FORMAT
// ---------------------------------------------------------------------------

/// A parsed `-f` format: `%[flags][width][.precision]type`.
pub struct SeqFormat {
    pub flags: String,
    pub width: Option<usize>,
    pub precision: Option<usize>,
    /// One of `f F e E g G d i u o x X`.
    pub conv: char,
}

/// Spec view of a [`SeqFormat`].
pub struct SpecSeqFormat {
    pub flags: Seq<char>,
    pub width: Option<usize>,
    pub precision: Option<usize>,
    pub conv: char,
}

impl View for SeqFormat {
    type V = SpecSeqFormat;

    open spec fn view(&self) -> SpecSeqFormat {
        SpecSeqFormat {
            flags: self.flags@,
            width: self.width,
            precision: self.precision,
            conv: self.conv,
        }
    }
}

/// Digits at `j`, accumulated with wrapping `usize` arithmetic.
pub open spec fn seq_digits(s: Seq<char>, j: int, acc: usize, seen: bool) -> (Option<usize>, int)
    decreases s.len() - j,
{
    if 0 <= j < s.len() && is_digit(s[j]) {
        seq_digits(s, j + 1, acc.wrapping_mul(10).wrapping_add((s[j] as int - 48) as usize), true)
    } else if seen {
        (Some(acc), j)
    } else {
        (None, j)
    }
}

/// A conversion `seq` can format a number with.
pub open spec fn is_seq_conv(c: char) -> bool {
    c == 'f' || c == 'F' || c == 'e' || c == 'E' || c == 'g' || c == 'G' || c == 'd' || c == 'i'
        || c == 'u' || c == 'o' || c == 'x' || c == 'X'
}

/// An integer conversion.
pub open spec fn is_seq_int_conv(c: char) -> bool {
    c == 'd' || c == 'i' || c == 'u' || c == 'o' || c == 'x' || c == 'X'
}

/// `s` quoted in a message: `'s'`.
pub open spec fn quoted(s: Seq<char>) -> Seq<char> {
    seq!['\''] + s + seq!['\'']
}

/// The parsed `-f` format, or the message it is refused with: it must start with `%`
/// (not `%%`) and end with its conversion character.
pub open spec fn seq_format_spec(s: Seq<char>) -> Result<SpecSeqFormat, Seq<char>> {
    if !starts_with_char(s, '%') {
        Err("seq: invalid format "@ + quoted(s))
    } else if s.len() > 1 && s[1] == '%' {
        Err("seq: format must be suitable for 'double' argument"@)
    } else {
        let fe = flags_end(s, 1);
        let w = seq_digits(s, fe, 0, false);
        let has_dot = 0 <= w.1 < s.len() && s[w.1] == '.';
        let p = seq_digits(s, w.1 + 1, 0, false);
        let precision = if !has_dot {
            None
        } else {
            match p.0 {
                Some(v) => Some(v),
                None => Some(0usize),
            }
        };
        let te = if has_dot {
            p.1
        } else {
            w.1
        };
        if te + 1 < s.len() {
            Err("seq: format "@ + quoted(s) + " has trailing characters"@)
        } else if te >= s.len() {
            Err("seq: format "@ + quoted(s) + " missing type specifier"@)
        } else if is_seq_conv(s[te]) {
            Ok(SpecSeqFormat { flags: s.subrange(1, fe), width: w.0, precision, conv: s[te] })
        } else {
            Err("seq: format "@ + quoted(s) + " has unknown type "@ + quoted(seq![s[te]]))
        }
    }
}

fn seq_digits_exec(s: &Vec<char>, j0: usize) -> (r: (Option<usize>, usize))
    requires
        j0 <= s@.len(),
    ensures
        r.0 == seq_digits(s@, j0 as int, 0, false).0,
        r.1 == seq_digits(s@, j0 as int, 0, false).1,
        j0 <= r.1 <= s@.len(),
{
    let mut j = j0;
    let mut acc: usize = 0;
    let mut seen = false;
    while j < s.len() && '0' <= s[j] && s[j] <= '9'
        invariant
            j0 <= j <= s@.len(),
            seq_digits(s@, j as int, acc, seen) == seq_digits(s@, j0 as int, 0, false),
        decreases s@.len() - j,
    {
        let d = (s[j] as u32 - 48) as usize;
        assert(d == (s@[j as int] as int - 48) as usize);
        acc = acc.wrapping_mul(10).wrapping_add(d);
        seen = true;
        j = j + 1;
    }
    if seen {
        (Some(acc), j)
    } else {
        (None, j)
    }
}

fn quoted_vec(out: &mut Vec<char>, s: &Vec<char>)
    ensures
        final(out)@ == old(out)@ + quoted(s@),
{
    push1(out, '\'');
    push_all(out, s);
    push1(out, '\'');
    assert(old(out)@ + seq!['\''] + s@ + seq!['\''] == old(out)@ + quoted(s@));
}

/// Parses a `-f` format ([`seq_format_spec`]).
pub fn parse_seq_format(format: &str) -> (r: Result<SeqFormat, String>)
    ensures
        match r {
            Ok(f) => seq_format_spec(format@) == Ok::<SpecSeqFormat, Seq<char>>(f@),
            Err(m) => seq_format_spec(format@) == Err::<SpecSeqFormat, Seq<char>>(m@),
        },
{
    let s = chars_of(format);
    if !(s.len() > 0 && s[0] == '%') {
        let mut m: Vec<char> = Vec::new();
        push_str(&mut m, "seq: invalid format ");
        quoted_vec(&mut m, &s);
        return Err(string_from_chars(&m));
    }
    if s.len() > 1 && s[1] == '%' {
        return Err("seq: format must be suitable for 'double' argument".to_owned());
    }
    let mut j: usize = 1;
    while j < s.len() && (s[j] == '-' || s[j] == '+' || s[j] == ' ' || s[j] == '#' || s[j] == '0')
        invariant
            1 <= j <= s@.len(),
            flags_end(s@, j as int) == flags_end(s@, 1),
        decreases s@.len() - j,
    {
        j = j + 1;
    }
    let fe = j;
    let (width, we) = seq_digits_exec(&s, fe);
    let has_dot = we < s.len() && s[we] == '.';
    let mut te = we;
    let mut precision: Option<usize> = None;
    if has_dot {
        let (pv, pe) = seq_digits_exec(&s, we + 1);
        te = pe;
        precision = match pv {
            Some(v) => Some(v),
            None => Some(0usize),
        };
    }
    let mut m: Vec<char> = Vec::new();
    push_str(&mut m, "seq: format ");
    quoted_vec(&mut m, &s);
    if te < s.len() && s.len() - te > 1 {
        push_str(&mut m, " has trailing characters");
        return Err(string_from_chars(&m));
    }
    if te >= s.len() {
        push_str(&mut m, " missing type specifier");
        return Err(string_from_chars(&m));
    }
    let c = s[te];
    if c == 'f' || c == 'F' || c == 'e' || c == 'E' || c == 'g' || c == 'G' || c == 'd' || c == 'i'
        || c == 'u' || c == 'o' || c == 'x' || c == 'X' {
        let flags = slice_chars(&s, 1, fe);
        Ok(SeqFormat { flags: string_from_chars(&flags), width, precision, conv: c })
    } else {
        push_str(&mut m, " has unknown type ");
        let cv = vec![c];
        assert(cv@ == seq![c]);
        quoted_vec(&mut m, &cv);
        Err(string_from_chars(&m))
    }
}

// ---------------------------------------------------------------------------
// Flags and widths of formatted numbers
// ---------------------------------------------------------------------------

/// Whether `s` begins with a sign character (`-`, `+` or a space).
pub open spec fn sign_first(s: Seq<char>) -> bool {
    starts_with_char(s, '-') || starts_with_char(s, '+') || starts_with_char(s, ' ')
}

/// Whether `s` begins with `0x` or `0X`.
pub open spec fn hex_first(s: Seq<char>) -> bool {
    s.len() >= 2 && s[0] == '0' && (s[1] == 'x' || s[1] == 'X')
}

/// `r` padded to the width (when it takes fewer bytes): on the right under `-`, with
/// zeros after a sign (or after `0x` when `hex` is set) under `0`, else with spaces on
/// the left.
pub open spec fn seq_pad(r: Seq<char>, flags: Seq<char>, width: Option<usize>, hex: bool) -> Seq<char> {
    match width {
        Some(w) => if utf8_len(r) < w {
            let fill = (w - r.len()) as nat;
            if has_char(flags, '-') {
                r + spaces(fill)
            } else if has_char(flags, '0') {
                if sign_first(r) {
                    seq![r[0]] + zeros(fill) + r.drop_first()
                } else if hex && hex_first(r) {
                    r.take(2) + zeros(fill) + r.skip(2)
                } else {
                    zeros(fill) + r
                }
            } else {
                spaces(fill) + r
            }
        } else {
            r
        },
        None => r,
    }
}

/// A rendered floating-point number with the flags applied (`apply_flags`): a positive
/// number gets `+` under `+` or a space under ` `, then the width.
pub open spec fn float_flags(num: Seq<char>, flags: Seq<char>, width: Option<usize>, is_positive: bool) -> Seq<
    char,
> {
    let show = has_char(flags, '+');
    let space = has_char(flags, ' ') && !show;
    let signed = if is_positive && (show || space) && !starts_with_char(num, '-') {
        if show {
            seq!['+'] + num
        } else {
            seq![' '] + num
        }
    } else {
        num
    };
    seq_pad(signed, flags, width, false)
}

/// The digits of an integer conversion with the flags applied (`apply_flags_int`): the
/// `#` prefix (`0` for octal unless already there, `0x`, `0X`), the sign of `d`/`i`
/// (`-`, or `+`/space for positive numbers), then the width.
pub open spec fn int_flags(
    num: Seq<char>,
    flags: Seq<char>,
    width: Option<usize>,
    is_positive: bool,
    conv: char,
) -> Seq<char> {
    let show = has_char(flags, '+');
    let signed_conv = conv == 'd' || conv == 'i';
    let space = has_char(flags, ' ') && !show && signed_conv;
    let alt = if !has_char(flags, '#') {
        num
    } else if conv == 'o' {
        if starts_with_char(num, '0') {
            num
        } else {
            seq!['0'] + num
        }
    } else if conv == 'x' {
        seq!['0', 'x'] + num
    } else if conv == 'X' {
        seq!['0', 'X'] + num
    } else {
        num
    };
    let signed = if is_positive && signed_conv {
        if show {
            seq!['+'] + alt
        } else if space {
            seq![' '] + alt
        } else {
            alt
        }
    } else if !is_positive && signed_conv {
        seq!['-'] + alt
    } else {
        alt
    };
    seq_pad(signed, flags, width, true)
}

fn push_seq_pad(out: &mut Vec<char>, r: &Vec<char>, flags: &Vec<char>, width: Option<usize>, hex: bool)
    ensures
        final(out)@ == old(out)@ + seq_pad(r@, flags@, width, hex),
{
    match width {
        Some(w) => {
            if utf8_len_below(r, w as u64) {
                proof {
                    lemma_utf8_len_ge_len(r@);
                }
                let fill = (w - r.len()) as u64;
                if contains_char(flags, '-') {
                    push_all(out, r);
                    push_repeat(out, ' ', fill);
                    assert(out@ == old(out)@ + (r@ + spaces(fill as nat)));
                } else if contains_char(flags, '0') {
                    if r.len() > 0 && (r[0] == '-' || r[0] == '+' || r[0] == ' ') {
                        out.push(r[0]);
                        push_repeat(out, '0', fill);
                        let rest = slice_chars(r, 1, r.len());
                        push_all(out, &rest);
                        assert(rest@ == r@.drop_first());
                        assert(out@ == old(out)@ + (seq![r@[0]] + zeros(fill as nat) + r@.drop_first()));
                    } else if hex && r.len() >= 2 && r[0] == '0' && (r[1] == 'x' || r[1] == 'X') {
                        let pre = slice_chars(r, 0, 2);
                        push_all(out, &pre);
                        push_repeat(out, '0', fill);
                        let rest = slice_chars(r, 2, r.len());
                        push_all(out, &rest);
                        assert(out@ == old(out)@ + (r@.take(2) + zeros(fill as nat) + r@.skip(2)));
                    } else {
                        push_repeat(out, '0', fill);
                        push_all(out, r);
                        assert(out@ == old(out)@ + (zeros(fill as nat) + r@));
                    }
                } else {
                    push_repeat(out, ' ', fill);
                    push_all(out, r);
                    assert(out@ == old(out)@ + (spaces(fill as nat) + r@));
                }
            } else {
                push_all(out, r);
            }
        },
        None => {
            push_all(out, r);
        },
    }
}

/// Applies the flags to a rendered floating-point number ([`float_flags`]).
pub fn apply_flags(num_str: &str, flags: &str, width: Option<usize>, _precision: usize, is_positive: bool) -> (r: String)
    ensures
        r@ == float_flags(num_str@, flags@, width, is_positive),
{
    let num = chars_of(num_str);
    let fl = chars_of(flags);
    let show = contains_char(&fl, '+');
    let space = contains_char(&fl, ' ') && !show;
    let mut signed: Vec<char> = Vec::new();
    if is_positive && (show || space) && !(num.len() > 0 && num[0] == '-') {
        if show {
            signed.push('+');
        } else {
            signed.push(' ');
        }
    }
    push_all(&mut signed, &num);
    let mut out: Vec<char> = Vec::new();
    push_seq_pad(&mut out, &signed, &fl, width, false);
    assert(out@ =~= seq_pad(signed@, fl@, width, false));
    string_from_chars(&out)
}

/// Applies the flags to the digits of an integer conversion ([`int_flags`]).
pub fn apply_flags_int(num_str: &str, flags: &str, width: Option<usize>, is_positive: bool, type_char: char) -> (r: String)
    ensures
        r@ == int_flags(num_str@, flags@, width, is_positive, type_char),
{
    let num = chars_of(num_str);
    let fl = chars_of(flags);
    let r = int_flags_vec(&num, &fl, width, is_positive, type_char);
    string_from_chars(&r)
}

fn int_flags_vec(num: &Vec<char>, fl: &Vec<char>, width: Option<usize>, is_positive: bool, conv: char) -> (r: Vec<char>)
    ensures
        r@ == int_flags(num@, fl@, width, is_positive, conv),
{
    let show = contains_char(fl, '+');
    let signed_conv = conv == 'd' || conv == 'i';
    let space = contains_char(fl, ' ') && !show && signed_conv;
    let mut alt: Vec<char> = Vec::new();
    if contains_char(fl, '#') {
        if conv == 'o' {
            if !(num.len() > 0 && num[0] == '0') {
                alt.push('0');
            }
        } else if conv == 'x' {
            alt.push('0');
            alt.push('x');
        } else if conv == 'X' {
            alt.push('0');
            alt.push('X');
        }
    }
    push_all(&mut alt, num);
    let ghost alt_spec = if !has_char(fl@, '#') {
        num@
    } else if conv == 'o' {
        if starts_with_char(num@, '0') {
            num@
        } else {
            seq!['0'] + num@
        }
    } else if conv == 'x' {
        seq!['0', 'x'] + num@
    } else if conv == 'X' {
        seq!['0', 'X'] + num@
    } else {
        num@
    };
    assert(alt@ =~= alt_spec);
    let mut signed: Vec<char> = Vec::new();
    if is_positive && signed_conv {
        if show {
            signed.push('+');
        } else if space {
            signed.push(' ');
        }
    } else if !is_positive && signed_conv {
        signed.push('-');
    }
    push_all(&mut signed, &alt);
    let ghost signed_spec = if is_positive && signed_conv {
        if show {
            seq!['+'] + alt_spec
        } else if space {
            seq![' '] + alt_spec
        } else {
            alt_spec
        }
    } else if !is_positive && signed_conv {
        seq!['-'] + alt_spec
    } else {
        alt_spec
    };
    assert(signed@ =~= signed_spec);
    let mut out: Vec<char> = Vec::new();
    push_seq_pad(&mut out, &signed, fl, width, true);
    assert(out@ =~= seq_pad(signed@, fl@, width, true));
    out
}

/// The digits of `|v|` for an integer conversion: octal for `o`, hexadecimal for `x`/`X`,
/// decimal otherwise.
pub open spec fn int_digits(v: int, conv: char) -> Seq<char> {
    if conv == 'o' {
        radix(magnitude(v), 8, false)
    } else if conv == 'x' {
        radix(magnitude(v), 16, false)
    } else if conv == 'X' {
        radix(magnitude(v), 16, true)
    } else {
        decimal(magnitude(v))
    }
}

/// An integer conversion of `-f` applied to the rounded value `v`.
pub fn format_seq_int(v: i64, format: &SeqFormat) -> (r: String)
    ensures
        r@ == int_flags(int_digits(v as int, format.conv), format.flags@, format.width, v >= 0, format.conv),
{
    let m = magnitude_of(v);
    let mut digits: Vec<char> = Vec::new();
    if format.conv == 'o' {
        push_radix(&mut digits, m, 8, false);
    } else if format.conv == 'x' {
        push_radix(&mut digits, m, 16, false);
    } else if format.conv == 'X' {
        push_radix(&mut digits, m, 16, true);
    } else {
        push_radix(&mut digits, m, 10, false);
    }
    assert(digits@ =~= int_digits(v as int, format.conv));
    let fl = chars_of(format.flags.as_str());
    let r = int_flags_vec(&digits, &fl, format.width, v >= 0, format.conv);
    string_from_chars(&r)
}

// ---------------------------------------------------------------------------
// -w: equal widths
// ---------------------------------------------------------------------------

/// The precision `-w` pads to: the digits after the first `.` of the `-f` format (zero
/// when it has none), or the default precision without `-f`.
pub open spec fn equal_width_precision(format: Option<Seq<char>>, default: usize) -> usize {
    match format {
        Some(f) => match find_from(f, '.', 0) {
            Some(p) => match seq_digits(f, p + 1, 0, false).0 {
                Some(v) => v,
                None => 0,
            },
            None => 0,
        },
        None => default,
    }
}

/// The precision `-w` pads to ([`equal_width_precision`]).
pub fn format_precision(format: Option<&str>, default: usize) -> (p: usize)
    ensures
        p == equal_width_precision(
            match format {
                Some(f) => Some(f@),
                None => None,
            },
            default,
        ),
{
    match format {
        Some(f) => {
            let v = chars_of(f);
            let n = v.len();
            match find_char(&v, '.') {
                Some(p) => {
                    let (d, _) = seq_digits_exec(&v, p + 1);
                    match d {
                        Some(x) => x,
                        None => 0,
                    }
                },
                None => 0,
            }
        },
        None => default,
    }
}

/// The total width of a `-w` number: the widest argument, then the decimal point and
/// the decimal places when there are any (wrapping `usize` arithmetic).
pub open spec fn equal_width_total(first_width: usize, last_width: usize, incr_width: usize, precision: usize) -> usize {
    let a = if first_width >= last_width {
        first_width
    } else {
        last_width
    };
    let m = if a >= incr_width {
        a
    } else {
        incr_width
    };
    if precision > 0 {
        m.wrapping_add(1).wrapping_add(precision)
    } else {
        m
    }
}

/// The total width of a `-w` number ([`equal_width_total`]).
pub fn total_width(first_width: usize, last_width: usize, incr_width: usize, precision: usize) -> (w: usize)
    ensures
        w == equal_width_total(first_width, last_width, incr_width, precision),
{
    let a = if first_width >= last_width {
        first_width
    } else {
        last_width
    };
    let m = if a >= incr_width {
        a
    } else {
        incr_width
    };
    if precision > 0 {
        m.wrapping_add(1).wrapping_add(precision)
    } else {
        m
    }
}

/// `s` extended with leading zeros to `w` characters (`format!("{:0>w$}", ..)`).
pub open spec fn zero_extend(s: Seq<char>, w: nat) -> Seq<char> {
    if s.len() < w {
        zeros((w - s.len()) as nat) + s
    } else {
        s
    }
}

/// A `-w` number: a negative one keeps its `-` and pads the rest with zeros to one less
/// than the total width; others are padded with zeros to the total width. `body` is the
/// magnitude's digits (or, for a positive number, its full rendering).
pub open spec fn equal_width_text(body: Seq<char>, negative: bool, total: usize) -> Seq<char> {
    if negative {
        seq!['-'] + zero_extend(body, (total - 1) as nat)
    } else {
        zero_extend(body, total as nat)
    }
}

/// Renders a `-w` number from its digits ([`equal_width_text`]).
pub fn equal_width_number(body: &str, negative: bool, total: usize) -> (r: String)
    requires
        negative ==> total >= 1,
    ensures
        r@ == equal_width_text(body@, negative, total),
{
    let b = chars_of(body);
    let mut out: Vec<char> = Vec::new();
    let target: usize = if negative {
        out.push('-');
        total - 1
    } else {
        total
    };
    if b.len() < target {
        push_repeat(&mut out, '0', (target - b.len()) as u64);
    }
    push_all(&mut out, &b);
    assert(out@ =~= equal_width_text(b@, negative, total));
    string_from_chars(&out)
}

/// A `-w` integer (precision zero): `v` is the rounded value, `negative` whether the
/// unrounded value is below zero.
pub fn equal_width_int(v: i64, negative: bool, total: usize) -> (r: String)
    requires
        negative ==> total >= 1,
    ensures
        r@ == equal_width_text(
            if negative {
                decimal(magnitude(v as int))
            } else {
                crate::text::signed_decimal(v as int)
            },
            negative,
            total,
        ),
{
    let digits = if negative {
        crate::text::radix_string(magnitude_of(v), 10, false)
    } else {
        crate::text::signed_decimal_string(v)
    };
    let s = string_from_chars(&digits);
    equal_width_number(s.as_str(), negative, total)
}


/// Every `-w` number takes at least the total width.
pub proof fn lemma_equal_width_fills(body: Seq<char>, negative: bool, total: usize)
    requires
        negative ==> total >= 1,
    ensures
        equal_width_text(body, negative, total).len() >= total,
{
}

/// With two arguments (FIRST LAST) the default precision is that of the more precise of
/// the two: never fewer decimal places than either argument has, and exactly as many as
/// one of them. With one argument it is LAST's; with three, INCREMENT's.
pub proof fn lemma_seq_precision(places: spec_fn(int) -> nat, widths: spec_fn(int) -> nat)
    ensures
        seq_shape_of(2, places, widths) is Some,
        seq_shape_of(2, places, widths).unwrap().3 >= places(0),
        seq_shape_of(2, places, widths).unwrap().3 >= places(1),
        seq_shape_of(2, places, widths).unwrap().3 == places(0) || seq_shape_of(
            2,
            places,
            widths,
        ).unwrap().3 == places(1),
        seq_shape_of(1, places, widths).unwrap().3 == places(0),
        seq_shape_of(3, places, widths).unwrap().3 == places(1),
{
}

/// The roles of `seq [FIRST [INCREMENT]] LAST`: LAST is always the last argument, FIRST
/// the first of two or three, INCREMENT the middle of three; each width is the width of
/// the argument in that role, and a role with no argument has width 1. More than three
/// arguments have no shape.
pub proof fn lemma_seq_roles(n: nat, places: spec_fn(int) -> nat, widths: spec_fn(int) -> nat)
    ensures
        1 <= n <= 3 ==> ({
            let s = seq_shape_of(n, places, widths).unwrap();
            &&& seq_shape_of(n, places, widths) is Some
            &&& s.2 == n - 1
            &&& s.5 == widths(n - 1)
            &&& (n >= 2 ==> s.0 == Some(0int) && s.4 == widths(0))
            &&& (n < 2 ==> s.0 is None && s.4 == 1)
            &&& (n == 3 ==> s.1 == Some(1int) && s.6 == widths(1))
            &&& (n < 3 ==> s.1 is None && s.6 == 1)
        }),
        n > 3 ==> seq_shape_of(n, places, widths) is None,
{
}

} // verus!
