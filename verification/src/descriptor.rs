//! The textual dimension descriptor: `<height>x<width>x<channels>x<precision>`,
//! for example `100x20x3xfp32`. Parsing is total-or-fails: white space
//! around the whole descriptor is trimmed, then exactly four
//! `x`-delimited fields are required; the first three must be positive
//! decimal numbers, the fourth a known precision token. The grammar is
//! stated by the spec functions here, and the executable parser and
//! formatter are proved against them.

use vstd::prelude::*;

use crate::error::ConversionError;
use crate::model::Dimensions;
use crate::model::Precision;

verus! {

/// White space that trimming strips from either end of a descriptor:
/// the characters with the Unicode `White_Space` property, as
/// `str::trim` removes.
pub open spec fn is_space(c: char) -> bool {
    c == '\t' || c == '\n' || c == '\u{b}' || c == '\u{c}' || c == '\r' || c == ' ' || c
        == '\u{85}' || c == '\u{a0}' || c == '\u{1680}' || ('\u{2000}' <= c && c <= '\u{200a}')
        || c == '\u{2028}' || c == '\u{2029}' || c == '\u{202f}' || c == '\u{205f}' || c
        == '\u{3000}'
}

/// The descriptor with surrounding white space removed.
pub open spec fn spec_trim(s: Seq<char>) -> Seq<char>
    decreases s.len(),
{
    if s.len() > 0 && is_space(s.first()) {
        spec_trim(s.drop_first())
    } else if s.len() > 0 && is_space(s.last()) {
        spec_trim(s.drop_last())
    } else {
        s
    }
}

/// Index of the first `'x'` in `s`, or a negative value if there is
/// none.
pub open spec fn first_x(s: Seq<char>) -> int
    decreases s.len(),
{
    if s.len() == 0 {
        -1
    } else if s.first() == 'x' {
        0
    } else {
        let r = first_x(s.drop_first());
        if r < 0 {
            -1
        } else {
            r + 1
        }
    }
}

/// Splits `s` at its `'x'` delimiters into exactly four fields, or
/// fails when the delimiter count is not exactly three.
pub open spec fn spec_split4(s: Seq<char>) -> Option<(Seq<char>, Seq<char>, Seq<char>, Seq<char>)> {
    let i = first_x(s);
    if i < 0 {
        None
    } else {
        let f0 = s.take(i);
        let r1 = s.skip(i + 1);
        let j = first_x(r1);
        if j < 0 {
            None
        } else {
            let f1 = r1.take(j);
            let r2 = r1.skip(j + 1);
            let k = first_x(r2);
            if k < 0 {
                None
            } else {
                let f2 = r2.take(k);
                let f3 = r2.skip(k + 1);
                if first_x(f3) >= 0 {
                    None
                } else {
                    Some((f0, f1, f2, f3))
                }
            }
        }
    }
}

pub open spec fn is_digit(c: char) -> bool {
    '0' <= c && c <= '9'
}

pub open spec fn digit_val(c: char) -> int {
    c as int - '0' as int
}

pub open spec fn all_digits(s: Seq<char>) -> bool {
    forall|i: int| 0 <= i < s.len() ==> is_digit(#[trigger] s[i])
}

/// The number a string of decimal digits denotes.
pub open spec fn digits_to_int(s: Seq<char>) -> int
    decreases s.len(),
{
    if s.len() == 0 {
        0
    } else {
        digits_to_int(s.drop_last()) * 10 + digit_val(s.last())
    }
}

/// A numeric descriptor field: nonempty, all digits, and denoting a
/// positive number an `i32` extent can hold.
pub open spec fn is_pos_num(s: Seq<char>) -> bool {
    0 < s.len() && all_digits(s) && 0 < digits_to_int(s) <= i32::MAX
}

/// The precision a descriptor field names, if any.
pub open spec fn spec_precision_token(s: Seq<char>) -> Option<Precision> {
    if s == seq!['u', '8'] {
        Some(Precision::U8)
    } else if s == seq!['f', 'p', '3', '2'] {
        Some(Precision::FP32)
    } else {
        None
    }
}

/// What a descriptor string denotes: the shape it describes, or
/// nothing when any part of the grammar is violated.
pub open spec fn spec_parse(s: Seq<char>) -> Option<Dimensions> {
    match spec_split4(spec_trim(s)) {
        Some((f0, f1, f2, f3)) => {
            if is_pos_num(f0) && is_pos_num(f1) && is_pos_num(f2) && spec_precision_token(f3)
                is Some {
                Some(
                    Dimensions {
                        height: digits_to_int(f0) as i32,
                        width: digits_to_int(f1) as i32,
                        channels: digits_to_int(f2) as i32,
                        precision: spec_precision_token(f3)->0,
                    },
                )
            } else {
                None
            }
        },
        None => None,
    }
}

/// The decimal digit string of a nonnegative number.
pub open spec fn spec_digit_char(d: int) -> char {
    if d == 0 {
        '0'
    } else if d == 1 {
        '1'
    } else if d == 2 {
        '2'
    } else if d == 3 {
        '3'
    } else if d == 4 {
        '4'
    } else if d == 5 {
        '5'
    } else if d == 6 {
        '6'
    } else if d == 7 {
        '7'
    } else if d == 8 {
        '8'
    } else {
        '9'
    }
}

pub open spec fn spec_digits_of(n: int) -> Seq<char>
    decreases n,
{
    if n < 10 {
        seq![spec_digit_char(n)]
    } else {
        spec_digits_of(n / 10).push(spec_digit_char(n % 10))
    }
}

/// The token that names a precision in a descriptor.
pub open spec fn spec_precision_chars(p: Precision) -> Seq<char> {
    match p {
        Precision::U8 => seq!['u', '8'],
        Precision::FP32 => seq!['f', 'p', '3', '2'],
    }
}

/// The canonical descriptor of a shape.
pub open spec fn spec_descriptor(d: Dimensions) -> Seq<char> {
    spec_digits_of(d.height as int) + seq!['x'] + spec_digits_of(d.width as int) + seq!['x']
        + spec_digits_of(d.channels as int) + seq!['x'] + spec_precision_chars(d.precision)
}

proof fn lemma_first_x_props(s: Seq<char>)
    ensures
        first_x(s) < 0 ==> forall|i: int| 0 <= i < s.len() ==> s[i] != 'x',
        first_x(s) >= 0 ==> 0 <= first_x(s) < s.len() && s[first_x(s)] == 'x' && forall|i: int|
            0 <= i < first_x(s) ==> s[i] != 'x',
    decreases s.len(),
{
    if s.len() == 0 {
    } else if s.first() == 'x' {
    } else {
        lemma_first_x_props(s.drop_first());
        let r = first_x(s.drop_first());
        if r < 0 {
            assert forall|i: int| 0 <= i < s.len() implies s[i] != 'x' by {
                if i > 0 {
                    assert(s[i] == s.drop_first()[i - 1]);
                }
            }
        } else {
            assert(s[r + 1] == s.drop_first()[r]);
            assert forall|i: int| 0 <= i < r + 1 implies s[i] != 'x' by {
                if i > 0 {
                    assert(s[i] == s.drop_first()[i - 1]);
                }
            }
        }
    }
}

/// `first_x` finds exactly the least `'x'` position.
proof fn lemma_first_x_at(s: Seq<char>, j: int)
    requires
        0 <= j < s.len(),
        s[j] == 'x',
        forall|i: int| 0 <= i < j ==> s[i] != 'x',
    ensures
        first_x(s) == j,
{
    lemma_first_x_props(s);
    if first_x(s) < 0 {
        assert(s[j] != 'x');
    } else if first_x(s) < j {
        assert(s[first_x(s)] != 'x');
    } else if first_x(s) > j {
        assert(s[j] != 'x');
    }
}

proof fn lemma_first_x_none(s: Seq<char>)
    requires
        forall|i: int| 0 <= i < s.len() ==> s[i] != 'x',
    ensures
        first_x(s) < 0,
{
    lemma_first_x_props(s);
    if first_x(s) >= 0 {
        assert(s[first_x(s)] != 'x');
    }
}

proof fn lemma_trim_all_space(s: Seq<char>)
    requires
        forall|i: int| 0 <= i < s.len() ==> is_space(#[trigger] s[i]),
    ensures
        spec_trim(s) == Seq::<char>::empty(),
    decreases s.len(),
{
    if s.len() == 0 {
        assert(s =~= Seq::<char>::empty());
    } else {
        assert(is_space(s.first()));
        assert forall|i: int| 0 <= i < s.drop_first().len() implies is_space(
            #[trigger] s.drop_first()[i],
        ) by {
            assert(s.drop_first()[i] == s[i + 1]);
        }
        lemma_trim_all_space(s.drop_first());
    }
}

/// Trimming keeps exactly the characters between the first and the
/// last that are not white space.
proof fn lemma_trim_range(s: Seq<char>, a: int, b: int)
    requires
        0 <= a <= b < s.len(),
        !is_space(s[a]),
        !is_space(s[b]),
        forall|i: int| 0 <= i < a ==> is_space(#[trigger] s[i]),
        forall|i: int| b < i < s.len() ==> is_space(#[trigger] s[i]),
    ensures
        spec_trim(s) == s.subrange(a, b + 1),
    decreases s.len(),
{
    if a > 0 {
        assert(is_space(s.first()));
        let t = s.drop_first();
        assert(t[a - 1] == s[a]);
        assert(t[b - 1] == s[b]);
        assert forall|i: int| 0 <= i < a - 1 implies is_space(#[trigger] t[i]) by {
            assert(t[i] == s[i + 1]);
        }
        assert forall|i: int| b - 1 < i < t.len() implies is_space(#[trigger] t[i]) by {
            assert(t[i] == s[i + 1]);
        }
        lemma_trim_range(t, a - 1, b - 1);
        assert(t.subrange(a - 1, b) =~= s.subrange(a, b + 1));
    } else if b < s.len() - 1 {
        assert(!is_space(s.first()));
        assert(is_space(s.last()));
        let t = s.drop_last();
        assert(t[a] == s[a]);
        assert(t[b] == s[b]);
        assert forall|i: int| b < i < t.len() implies is_space(#[trigger] t[i]) by {
            assert(t[i] == s[i]);
        }
        lemma_trim_range(t, a, b);
        assert(t.subrange(a, b + 1) =~= s.subrange(a, b + 1));
    } else {
        assert(!is_space(s.first()));
        assert(!is_space(s.last()));
        assert(s.subrange(0, s.len() as int) =~= s);
    }
}

proof fn lemma_digits_to_int_nonneg(s: Seq<char>)
    requires
        all_digits(s),
    ensures
        digits_to_int(s) >= 0,
    decreases s.len(),
{
    if s.len() > 0 {
        assert forall|i: int| 0 <= i < s.drop_last().len() implies is_digit(
            #[trigger] s.drop_last()[i],
        ) by {
            assert(s.drop_last()[i] == s[i]);
        }
        lemma_digits_to_int_nonneg(s.drop_last());
        assert(is_digit(s.last()));
    }
}

/// A digit string denotes at least what any of its prefixes denotes.
proof fn lemma_digits_prefix_le(s: Seq<char>, n: int)
    requires
        all_digits(s),
        0 <= n <= s.len(),
    ensures
        digits_to_int(s.take(n)) <= digits_to_int(s),
    decreases s.len() - n,
{
    assert forall|m: int| 0 <= m <= s.len() implies all_digits(s.take(m)) by {
        assert forall|i: int| 0 <= i < s.take(m).len() implies is_digit(#[trigger] s.take(m)[i]) by {
            assert(s.take(m)[i] == s[i]);
        }
    }
    if n == s.len() {
        assert(s.take(n) =~= s);
    } else {
        assert(s.take(n + 1).drop_last() =~= s.take(n));
        assert(s.take(n + 1).last() == s[n]);
        lemma_digits_to_int_nonneg(s.take(n));
        assert(is_digit(s[n]));
        assert(digits_to_int(s.take(n + 1)) == digits_to_int(s.take(n)) * 10 + digit_val(s[n]));
        lemma_digits_prefix_le(s, n + 1);
    }
}

proof fn lemma_digit_not_special(c: char)
    requires
        is_digit(c),
    ensures
        c != 'x',
        !is_space(c),
{
}

/// The digit string of a nonnegative number is nonempty, consists of
/// digits, and denotes the number itself.
proof fn lemma_digits_of_value(n: int)
    requires
        n >= 0,
    ensures
        spec_digits_of(n).len() >= 1,
        all_digits(spec_digits_of(n)),
        digits_to_int(spec_digits_of(n)) == n,
    decreases n,
{
    if n < 10 {
        let c = spec_digit_char(n);
        let s1 = seq![c];
        assert(is_digit(c));
        assert(spec_digits_of(n) == s1);
        assert(s1.drop_last() =~= Seq::<char>::empty());
        assert(digits_to_int(Seq::<char>::empty()) == 0);
        assert(s1.last() == c);
        assert(digits_to_int(s1) == digits_to_int(s1.drop_last()) * 10 + digit_val(s1.last()));
        assert(digit_val(c) == n);
    } else {
        lemma_digits_of_value(n / 10);
        let p = spec_digits_of(n / 10);
        let c = spec_digit_char(n % 10);
        assert(0 <= n % 10 < 10);
        assert(is_digit(c));
        assert(p.push(c).drop_last() =~= p);
        assert(p.push(c).last() == c);
        assert(digits_to_int(p.push(c)) == digits_to_int(p) * 10 + digit_val(c));
        assert(digit_val(c) == n % 10);
        assert forall|i: int| 0 <= i < p.push(c).len() implies is_digit(#[trigger] p.push(c)[i]) by {
            if i < p.len() {
                assert(p.push(c)[i] == p[i]);
            }
        }
    }
}

fn is_space_char(c: char) -> (r: bool)
    ensures
        r == is_space(c),
{
    c == '\t' || c == '\n' || c == '\u{b}' || c == '\u{c}' || c == '\r' || c == ' ' || c == '\u{85}'
        || c == '\u{a0}' || c == '\u{1680}' || ('\u{2000}' <= c && c <= '\u{200a}') || c
        == '\u{2028}' || c == '\u{2029}' || c == '\u{202f}' || c == '\u{205f}' || c == '\u{3000}'
}

fn is_digit_char(c: char) -> (r: bool)
    ensures
        r == is_digit(c),
{
    '0' <= c && c <= '9'
}

fn digit_value(c: char) -> (d: u32)
    requires
        is_digit(c),
    ensures
        d == digit_val(c),
        d <= 9,
{
    (c as u32) - ('0' as u32)
}

/// Position of the first `'x'` in the character range `[lo, hi)` of
/// `s`, if there is one.
fn scan_x(s: &str, lo: usize, hi: usize) -> (r: Option<usize>)
    requires
        lo <= hi <= s@.len(),
    ensures
        match r {
            Some(p) => lo <= p < hi && s@[p as int] == 'x' && forall|i: int|
                lo <= i < p ==> s@[i] != 'x',
            None => forall|i: int| lo <= i < hi ==> s@[i] != 'x',
        },
{
    let mut i = lo;
    while i < hi
        invariant
            lo <= i <= hi <= s@.len(),
            forall|j: int| lo <= j < i ==> s@[j] != 'x',
        decreases hi - i,
    {
        if s.get_char(i) == 'x' {
            return Some(i);
        }
        i = i + 1;
    }
    None
}

/// Parses the character range `[lo, hi)` of `s` as a positive decimal
/// number, exactly when the range is a well-formed numeric field.
fn parse_pos_int(s: &str, lo: usize, hi: usize) -> (r: Option<i32>)
    requires
        lo <= hi <= s@.len(),
    ensures
        ({
            let f = s@.subrange(lo as int, hi as int);
            match r {
                Some(v) => is_pos_num(f) && v == digits_to_int(f),
                None => !is_pos_num(f),
            }
        }),
{
    let ghost f = s@.subrange(lo as int, hi as int);
    if lo == hi {
        return None;
    }
    let mut v: u64 = 0;
    let mut i = lo;
    while i < hi
        invariant
            lo <= i <= hi <= s@.len(),
            f == s@.subrange(lo as int, hi as int),
            all_digits(f.take(i - lo)),
            v == digits_to_int(f.take(i - lo)),
            v <= i32::MAX as u64,
        decreases hi - i,
    {
        let c = s.get_char(i);
        proof {
            assert(f[i - lo] == s@[i as int]);
        }
        if !is_digit_char(c) {
            proof {
                assert(!all_digits(f));
            }
            return None;
        }
        let d = digit_value(c);
        v = v * 10 + (d as u64);
        proof {
            assert(f.take(i - lo + 1).drop_last() =~= f.take(i - lo));
            assert(f.take(i - lo + 1).last() == f[i - lo]);
            assert forall|j: int| 0 <= j < f.take(i - lo + 1).len() implies is_digit(
                #[trigger] f.take(i - lo + 1)[j],
            ) by {
                assert(f.take(i - lo + 1)[j] == f[j]);
                if j < i - lo {
                    assert(f.take(i - lo)[j] == f[j]);
                }
            }
        }
        if v > i32::MAX as u64 {
            proof {
                if is_pos_num(f) {
                    lemma_digits_prefix_le(f, i - lo + 1);
                }
            }
            return None;
        }
        i = i + 1;
    }
    proof {
        assert(f.take(hi - lo) =~= f);
    }
    if v == 0 {
        return None;
    }
    Some(v as i32)
}

/// Recognizes the precision token in the character range `[lo, hi)` of
/// `s`.
fn parse_precision_field(s: &str, lo: usize, hi: usize) -> (r: Option<Precision>)
    requires
        lo <= hi <= s@.len(),
    ensures
        r == spec_precision_token(s@.subrange(lo as int, hi as int)),
{
    let ghost f = s@.subrange(lo as int, hi as int);
    let n = hi - lo;
    if n == 2 && s.get_char(lo) == 'u' && s.get_char(lo + 1) == '8' {
        proof {
            assert(f =~= seq!['u', '8']);
        }
        Some(Precision::U8)
    } else if n == 4 && s.get_char(lo) == 'f' && s.get_char(lo + 1) == 'p' && s.get_char(lo + 2)
        == '3' && s.get_char(lo + 3) == '2' {
        proof {
            assert(f =~= seq!['f', 'p', '3', '2']);
            assert(seq!['f', 'p', '3', '2'].len() != seq!['u', '8'].len());
        }
        Some(Precision::FP32)
    } else {
        proof {
            if f == seq!['u', '8'] {
                assert(f.len() == 2 && f[0] == 'u' && f[1] == '8');
            }
            if f == seq!['f', 'p', '3', '2'] {
                assert(f.len() == 4 && f[0] == 'f' && f[1] == 'p' && f[2] == '3' && f[3] == '2');
            }
        }
        None
    }
}

fn parse_failed(message: &str) -> (e: ConversionError)
    ensures
        e is ParseFailed,
{
    ConversionError::ParseFailed { message: message.to_owned() }
}

impl Dimensions {
    /// Parses a textual descriptor, `<height>x<width>x<channels>x<precision>`.
    ///
    /// Succeeds with exactly the shape the descriptor denotes, and
    /// fails with a parse error on every string the grammar rejects.
    #[verifier::rlimit(60)]
    pub fn parse(s: &str) -> (r: Result<Dimensions, ConversionError>)
        ensures
            match spec_parse(s@) {
                Some(d) => r == Ok::<Dimensions, ConversionError>(d),
                None => r matches Err(e) && e is ParseFailed,
            },
    {
        let n = s.unicode_len();
        let mut a: usize = 0;
        while a < n && is_space_char(s.get_char(a))
            invariant
                a <= n,
                n == s@.len(),
                forall|i: int| 0 <= i < a ==> is_space(#[trigger] s@[i]),
            decreases n - a,
        {
            a = a + 1;
        }
        if a == n {
            proof {
                lemma_trim_all_space(s@);
                assert(first_x(Seq::<char>::empty()) == -1);
            }
            return Err(
                parse_failed(
                    "Not enough parts in dimension string; should be [height]x[width]x[channels]x[precision]",
                ),
            );
        }
        let mut b: usize = n - 1;
        while is_space_char(s.get_char(b))
            invariant
                a <= b < n,
                n == s@.len(),
                !is_space(s@[a as int]),
                forall|i: int| b < i < n ==> is_space(#[trigger] s@[i]),
            decreases b,
        {
            proof {
                assert(b != a);
            }
            b = b - 1;
        }
        let hi = b + 1;
        let ghost t = s@.subrange(a as int, hi as int);
        proof {
            lemma_trim_range(s@, a as int, b as int);
        }
        let p1 = match scan_x(s, a, hi) {
            Some(p) => p,
            None => {
                proof {
                    assert forall|i: int| 0 <= i < t.len() implies t[i] != 'x' by {
                        assert(t[i] == s@[a + i]);
                    }
                    lemma_first_x_none(t);
                }
                return Err(
                    parse_failed(
                        "Not enough parts in dimension string; should be [height]x[width]x[channels]x[precision]",
                    ),
                );
            },
        };
        proof {
            assert(t[p1 - a] == s@[p1 as int]);
            assert forall|i: int| 0 <= i < p1 - a implies t[i] != 'x' by {
                assert(t[i] == s@[a + i]);
            }
            lemma_first_x_at(t, p1 - a);
        }
        let ghost r1 = t.skip(p1 - a + 1);
        proof {
            assert(r1 =~= s@.subrange(p1 as int + 1, hi as int));
        }
        let p2 = match scan_x(s, p1 + 1, hi) {
            Some(p) => p,
            None => {
                proof {
                    assert forall|i: int| 0 <= i < r1.len() implies r1[i] != 'x' by {
                        assert(r1[i] == s@[p1 + 1 + i]);
                    }
                    lemma_first_x_none(r1);
                }
                return Err(
                    parse_failed(
                        "Not enough parts in dimension string; should be [height]x[width]x[channels]x[precision]",
                    ),
                );
            },
        };
        proof {
            assert(r1[p2 - (p1 + 1)] == s@[p2 as int]);
            assert forall|i: int| 0 <= i < p2 - (p1 + 1) implies r1[i] != 'x' by {
                assert(r1[i] == s@[p1 + 1 + i]);
            }
            lemma_first_x_at(r1, p2 - (p1 + 1));
        }
        let ghost r2 = r1.skip(p2 - p1);
        proof {
            assert(r2 =~= s@.subrange(p2 as int + 1, hi as int));
        }
        let p3 = match scan_x(s, p2 + 1, hi) {
            Some(p) => p,
            None => {
                proof {
                    assert forall|i: int| 0 <= i < r2.len() implies r2[i] != 'x' by {
                        assert(r2[i] == s@[p2 + 1 + i]);
                    }
                    lemma_first_x_none(r2);
                }
                return Err(
                    parse_failed(
                        "Not enough parts in dimension string; should be [height]x[width]x[channels]x[precision]",
                    ),
                );
            },
        };
        proof {
            assert(r2[p3 - (p2 + 1)] == s@[p3 as int]);
            assert forall|i: int| 0 <= i < p3 - (p2 + 1) implies r2[i] != 'x' by {
                assert(r2[i] == s@[p2 + 1 + i]);
            }
            lemma_first_x_at(r2, p3 - (p2 + 1));
        }
        let ghost f3 = r2.skip(p3 - p2);
        proof {
            assert(f3 =~= s@.subrange(p3 as int + 1, hi as int));
        }
        match scan_x(s, p3 + 1, hi) {
            Some(p4) => {
                proof {
                    lemma_first_x_props(f3);
                    if first_x(f3) < 0 {
                        assert(f3[p4 - (p3 + 1)] == s@[p4 as int]);
                    }
                }
                return Err(
                    parse_failed(
                        "Not enough parts in dimension string; should be [height]x[width]x[channels]x[precision]",
                    ),
                );
            },
            None => {
                proof {
                    assert forall|i: int| 0 <= i < f3.len() implies f3[i] != 'x' by {
                        assert(f3[i] == s@[p3 + 1 + i]);
                    }
                    lemma_first_x_none(f3);
                }
            },
        }
        let ghost f0 = t.take(p1 - a);
        let ghost f1 = r1.take(p2 - (p1 + 1));
        let ghost f2 = r2.take(p3 - (p2 + 1));
        proof {
            assert(f0 =~= s@.subrange(a as int, p1 as int));
            assert(f1 =~= s@.subrange(p1 as int + 1, p2 as int));
            assert(f2 =~= s@.subrange(p2 as int + 1, p3 as int));
            assert(spec_split4(t) == Some((f0, f1, f2, f3)));
        }
        let height = match parse_pos_int(s, a, p1) {
            Some(v) => v,
            None => {
                return Err(parse_failed("parsing error: invalid height field"));
            },
        };
        let width = match parse_pos_int(s, p1 + 1, p2) {
            Some(v) => v,
            None => {
                return Err(parse_failed("parsing error: invalid width field"));
            },
        };
        let channels = match parse_pos_int(s, p2 + 1, p3) {
            Some(v) => v,
            None => {
                return Err(parse_failed("parsing error: invalid channels field"));
            },
        };
        let precision = match parse_precision_field(s, p3 + 1, hi) {
            Some(p) => p,
            None => {
                let token = s.substring_char(p3 + 1, hi);
                return Err(
                    ConversionError::ParseFailed {
                        message: "unrecognized precision: ".to_owned().concat(token),
                    },
                );
            },
        };
        Ok(Dimensions { height, width, channels, precision })
    }
}

/// Relies on `String::push`: appends exactly the one character.
#[verifier::external_body]
fn push_char(out: &mut String, c: char)
    ensures
        final(out)@ == old(out)@.push(c),
{
    out.push(c);
}

fn digit_char(d: u32) -> (c: char)
    requires
        d < 10,
    ensures
        c == spec_digit_char(d as int),
{
    match d {
        0 => '0',
        1 => '1',
        2 => '2',
        3 => '3',
        4 => '4',
        5 => '5',
        6 => '6',
        7 => '7',
        8 => '8',
        _ => '9',
    }
}

/// Appends the decimal digit string of `n`.
fn push_decimal(out: &mut String, n: u32)
    ensures
        final(out)@ == old(out)@ + spec_digits_of(n as int),
    decreases n,
{
    if n >= 10 {
        push_decimal(out, n / 10);
        push_char(out, digit_char(n % 10));
        proof {
            assert(out@ =~= old(out)@ + spec_digits_of(n as int));
        }
    } else {
        push_char(out, digit_char(n));
        proof {
            assert(out@ =~= old(out)@ + spec_digits_of(n as int));
        }
    }
}

impl Dimensions {
    /// Formats this shape as its canonical textual descriptor,
    /// `<height>x<width>x<channels>x<precision>`; `parse` inverts it
    /// (see [`lemma_descriptor_round_trip`]).
    pub fn descriptor(&self) -> (r: String)
        requires
            self.wf(),
        ensures
            r@ == spec_descriptor(*self),
    {
        let mut out = String::new();
        push_decimal(&mut out, self.height as u32);
        push_char(&mut out, 'x');
        push_decimal(&mut out, self.width as u32);
        push_char(&mut out, 'x');
        push_decimal(&mut out, self.channels as u32);
        push_char(&mut out, 'x');
        match self.precision {
            Precision::U8 => out.append("u8"),
            Precision::FP32 => out.append("fp32"),
        }
        proof {
            reveal_strlit("u8");
            reveal_strlit("fp32");
            assert("u8"@ =~= spec_precision_chars(Precision::U8));
            assert("fp32"@ =~= spec_precision_chars(Precision::FP32));
            assert(out@ =~= spec_descriptor(*self));
        }
        out
    }
}

impl core::str::FromStr for Dimensions {
    type Err = ConversionError;

    fn from_str(s: &str) -> Result<Dimensions, ConversionError> {
        Dimensions::parse(s)
    }
}

impl Precision {
    /// Parses a precision token: exactly `u8` or `fp32`, nothing else.
    pub fn parse(s: &str) -> (r: Result<Precision, ConversionError>)
        ensures
            match spec_precision_token(s@) {
                Some(p) => r == Ok::<Precision, ConversionError>(p),
                None => r matches Err(e) && e is ParseFailed,
            },
    {
        let n = s.unicode_len();
        proof {
            assert(s@.subrange(0, n as int) =~= s@);
        }
        match parse_precision_field(s, 0, n) {
            Some(p) => Ok(p),
            None => Err(
                ConversionError::ParseFailed {
                    message: "unrecognized precision: ".to_owned().concat(s),
                },
            ),
        }
    }
}

impl core::str::FromStr for Precision {
    type Err = ConversionError;

    fn from_str(s: &str) -> Result<Precision, ConversionError> {
        Precision::parse(s)
    }
}

proof fn lemma_precision_chars_props(p: Precision)
    ensures
        spec_precision_chars(p).len() >= 1,
        !is_space(spec_precision_chars(p).last()),
        forall|i: int| 0 <= i < spec_precision_chars(p).len() ==> spec_precision_chars(p)[i] != 'x',
        spec_precision_token(spec_precision_chars(p)) == Some(p),
{
    let pt = spec_precision_chars(p);
    match p {
        Precision::U8 => {
            assert(pt == seq!['u', '8']);
            assert(pt[0] == 'u' && pt[1] == '8');
            assert(pt.last() == '8');
            assert forall|i: int| 0 <= i < pt.len() implies pt[i] != 'x' by {
                assert(pt[0] == 'u' && pt[1] == '8');
            }
        },
        Precision::FP32 => {
            assert(pt == seq!['f', 'p', '3', '2']);
            assert(pt[0] == 'f' && pt[1] == 'p' && pt[2] == '3' && pt[3] == '2');
            assert(pt.last() == '2');
            assert forall|i: int| 0 <= i < pt.len() implies pt[i] != 'x' by {
                assert(pt[0] == 'f' && pt[1] == 'p' && pt[2] == '3' && pt[3] == '2');
            }
            assert(seq!['u', '8'].len() == 2);
            assert(pt.len() == 4);
        },
    }
}

/// A nonempty digit field followed by an `'x'` delimiter splits off
/// exactly at the delimiter.
proof fn lemma_split_field(s: Seq<char>, f: Seq<char>, rest: Seq<char>)
    requires
        s == f + seq!['x'] + rest,
        f.len() >= 1,
        all_digits(f),
    ensures
        first_x(s) == f.len(),
        s.take(f.len() as int) == f,
        s.skip(f.len() as int + 1) == rest,
{
    assert(s[f.len() as int] == 'x');
    assert forall|i: int| 0 <= i < f.len() implies s[i] != 'x' by {
        assert(s[i] == f[i]);
        lemma_digit_not_special(f[i]);
    }
    lemma_first_x_at(s, f.len() as int);
    assert(s.take(f.len() as int) =~= f);
    assert(s.skip(f.len() as int + 1) =~= rest);
}

/// The descriptor of any well-formed shape parses back to that very
/// shape: `parse` inverts `descriptor`, so the textual form loses
/// nothing.
pub proof fn lemma_descriptor_round_trip(d: Dimensions)
    requires
        d.wf(),
    ensures
        spec_parse(spec_descriptor(d)) == Some(d),
{
    let h = spec_digits_of(d.height as int);
    let w = spec_digits_of(d.width as int);
    let c = spec_digits_of(d.channels as int);
    let pt = spec_precision_chars(d.precision);
    let t = spec_descriptor(d);
    lemma_digits_of_value(d.height as int);
    lemma_digits_of_value(d.width as int);
    lemma_digits_of_value(d.channels as int);
    lemma_precision_chars_props(d.precision);

    let rest2 = c + seq!['x'] + pt;
    let rest1 = w + seq!['x'] + rest2;
    assert(t =~= h + seq!['x'] + rest1);

    // No white space at either end, so trimming changes nothing.
    assert(t.first() == h.first());
    assert(is_digit(h.first()));
    lemma_digit_not_special(h.first());
    assert(t.last() == pt.last());
    assert(spec_trim(t) == t);

    // The three delimiters split the descriptor back into its fields.
    lemma_split_field(t, h, rest1);
    lemma_split_field(rest1, w, rest2);
    lemma_split_field(rest2, c, pt);
    lemma_first_x_none(pt);
    assert(spec_split4(t) == Some((h, w, c, pt)));

    // Each numeric field denotes the extent it was printed from.
    assert(is_pos_num(h));
    assert(is_pos_num(w));
    assert(is_pos_num(c));
    assert(digits_to_int(h) as i32 == d.height);
    assert(digits_to_int(w) as i32 == d.width);
    assert(digits_to_int(c) as i32 == d.channels);
    assert(spec_parse(t) == Some(d));
}

} // verus!
