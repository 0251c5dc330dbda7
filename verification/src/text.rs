//! Character-level helpers: trimming, splitting on spaces, reading and
//! writing decimal integers.
use vstd::prelude::*;

verus! {

/// Copies the characters of `s` into a vector.
pub fn chars_of(s: &str) -> (out: Vec<char>)
    ensures
        out@ == s@,
{
    let mut out: Vec<char> = Vec::new();
    for c in it: s.chars()
        invariant
            out@ == it.seq().take(it.index() as int),
    {
        out.push(c);
    }
    out
}

// ---------------------------------------------------------------------------
// Whitespace and trimming
// ---------------------------------------------------------------------------

/// Unicode `White_Space`, the set that `char::is_whitespace` tests.
pub open spec fn is_white_space(c: char) -> bool {
    ||| ('\u{9}' <= c && c <= '\u{d}')
    ||| c == ' '
    ||| c == '\u{85}'
    ||| c == '\u{a0}'
    ||| c == '\u{1680}'
    ||| ('\u{2000}' <= c && c <= '\u{200a}')
    ||| c == '\u{2028}'
    ||| c == '\u{2029}'
    ||| c == '\u{202f}'
    ||| c == '\u{205f}'
    ||| c == '\u{3000}'
}

/// First index at or after `i` that does not hold white space (or `s.len()`).
pub open spec fn skip_white_from(s: Seq<char>, i: int) -> int
    decreases s.len() - i,
{
    if i < 0 || i >= s.len() || !is_white_space(s[i]) {
        i
    } else {
        skip_white_from(s, i + 1)
    }
}

/// Going back from `j` (exclusive) to `lo`, the end of the last
/// character that is not white space (or `lo`).
pub open spec fn skip_white_back(s: Seq<char>, lo: int, j: int) -> int
    decreases j - lo,
{
    if j <= lo || j > s.len() || !is_white_space(s[j - 1]) {
        j
    } else {
        skip_white_back(s, lo, j - 1)
    }
}

/// Start of `s` with leading white space removed.
pub open spec fn trim_start(s: Seq<char>) -> int {
    skip_white_from(s, 0)
}

/// End of `s` with trailing white space removed.
pub open spec fn trim_end(s: Seq<char>) -> int {
    skip_white_back(s, trim_start(s), s.len() as int)
}

/// `s` without leading and trailing white space, as `str::trim` gives it.
pub open spec fn trimmed(s: Seq<char>) -> Seq<char> {
    s.subrange(trim_start(s), trim_end(s))
}

/// Executable test for `is_white_space`.
pub fn is_white_space_char(c: char) -> (b: bool)
    ensures
        b == is_white_space(c),
{
    ('\u{9}' <= c && c <= '\u{d}') || c == ' ' || c == '\u{85}' || c == '\u{a0}' || c
        == '\u{1680}' || ('\u{2000}' <= c && c <= '\u{200a}') || c == '\u{2028}' || c
        == '\u{2029}' || c == '\u{202f}' || c == '\u{205f}' || c == '\u{3000}'
}

/// The bounds `(start, end)` of `cs` with leading and trailing white space removed.
pub fn trim_bounds(cs: &Vec<char>) -> (r: (usize, usize))
    ensures
        r.0 == trim_start(cs@),
        r.1 == trim_end(cs@),
        r.0 <= r.1 <= cs@.len(),
{
    let n = cs.len();
    let mut i: usize = 0;
    while i < n && is_white_space_char(cs[i])
        invariant
            n == cs@.len(),
            i <= n,
            skip_white_from(cs@, i as int) == trim_start(cs@),
        decreases n - i,
    {
        i = i + 1;
    }
    let mut j: usize = n;
    while j > i && is_white_space_char(cs[j - 1])
        invariant
            n == cs@.len(),
            i <= j <= n,
            i == trim_start(cs@),
            skip_white_back(cs@, i as int, j as int) == trim_end(cs@),
        decreases j,
    {
        j = j - 1;
    }
    (i, j)
}

// ---------------------------------------------------------------------------
// Splitting on spaces
// ---------------------------------------------------------------------------

/// First index at or after `i` that holds a `' '` (or `s.len()`): the end
/// of the field that starts at `i` when splitting with `str::split(' ')`.
pub open spec fn field_end(s: Seq<char>, i: int) -> int
    decreases s.len() - i,
{
    if i < 0 || i >= s.len() || s[i] == ' ' {
        i
    } else {
        field_end(s, i + 1)
    }
}

pub proof fn lemma_field_end_bounds(s: Seq<char>, i: int)
    requires
        0 <= i <= s.len(),
    ensures
        i <= field_end(s, i) <= s.len(),
        field_end(s, i) < s.len() ==> s[field_end(s, i)] == ' ',
        forall|k: int| i <= k < field_end(s, i) ==> s[k] != ' ',
    decreases s.len() - i,
{
    if i < s.len() && s[i] != ' ' {
        lemma_field_end_bounds(s, i + 1);
    }
}

/// The end of the field of `cs` that starts at `from`, looking no further than `hi`.
pub fn find_field_end(cs: &Vec<char>, from: usize, hi: usize) -> (e: usize)
    requires
        from <= hi <= cs@.len(),
    ensures
        e == from + field_end(cs@.subrange(from as int, hi as int), 0),
        from <= e <= hi,
{
    let ghost t = cs@.subrange(from as int, hi as int);
    let mut e: usize = from;
    while e < hi && cs[e] != ' '
        invariant
            from <= e <= hi <= cs@.len(),
            t == cs@.subrange(from as int, hi as int),
            field_end(t, (e - from) as int) == field_end(t, 0),
        decreases hi - e,
    {
        e = e + 1;
    }
    proof {
        lemma_field_end_bounds(t, 0);
    }
    e
}

// ---------------------------------------------------------------------------
// Decimal integers
// ---------------------------------------------------------------------------

pub open spec fn is_decimal_digit(c: char) -> bool {
    '0' <= c && c <= '9'
}

pub open spec fn digit_value(c: char) -> int {
    c as int - '0' as int
}

/// The number that the decimal digits `s` write, most significant first.
pub open spec fn digits_value(s: Seq<char>) -> int
    decreases s.len(),
{
    if s.len() == 0 {
        0
    } else {
        10 * digits_value(s.drop_last()) + digit_value(s.last())
    }
}

/// Why a text is not an `i64`, as `std::num::IntErrorKind` tells it.
#[derive(Debug, Clone, Copy, PartialEq, Eq)]
pub enum IntError {
    /// The text is empty.
    Empty,
    /// The text holds a character that is not a digit where a digit belongs.
    InvalidDigit,
    /// The number is larger than `i64::MAX`.
    PosOverflow,
    /// The number is smaller than `i64::MIN`.
    NegOverflow,
}

impl IntError {
    /// The text that describes the error.
    pub fn message(&self) -> (s: String)
        ensures
            s@ == int_error_text(*self),
    {
        match self {
            IntError::Empty => String::from_str("cannot parse integer from empty string"),
            IntError::InvalidDigit => String::from_str("invalid digit found in string"),
            IntError::PosOverflow => String::from_str("number too large to fit in target type"),
            IntError::NegOverflow => String::from_str("number too small to fit in target type"),
        }
    }
}

pub open spec fn int_error_text(e: IntError) -> Seq<char> {
    match e {
        IntError::Empty => "cannot parse integer from empty string"@,
        IntError::InvalidDigit => "invalid digit found in string"@,
        IntError::PosOverflow => "number too large to fit in target type"@,
        IntError::NegOverflow => "number too small to fit in target type"@,
    }
}

/// The magnitude of a digit prefix is beyond what an `i64` of that sign holds.
pub open spec fn magnitude_overflows(magnitude: int, negative: bool) -> bool {
    if negative {
        magnitude > 9223372036854775808
    } else {
        magnitude > 9223372036854775807
    }
}

/// Reads the digits `u` from position `k` on: the first character that is
/// not a digit, or the first digit at which the number no longer fits,
/// decides the error; otherwise the value of all the digits.
pub open spec fn scan_digits(u: Seq<char>, negative: bool, k: int) -> Result<int, IntError>
    decreases u.len() - k,
{
    if k < 0 || k >= u.len() {
        Ok(digits_value(u))
    } else if !is_decimal_digit(u[k]) {
        Err(IntError::InvalidDigit)
    } else if magnitude_overflows(digits_value(u.take(k + 1)), negative) {
        Err(if negative {
            IntError::NegOverflow
        } else {
            IntError::PosOverflow
        })
    } else {
        scan_digits(u, negative, k + 1)
    }
}

/// What `str::parse::<i64>` gives for `s`: an optional `+` or `-`, then
/// digits read from the left.
pub open spec fn parse_i64_text(s: Seq<char>) -> Result<i64, IntError> {
    if s.len() == 0 {
        Err(IntError::Empty)
    } else if s.len() == 1 && (s[0] == '+' || s[0] == '-') {
        Err(IntError::InvalidDigit)
    } else {
        let negative = s[0] == '-';
        let u = if s[0] == '+' || s[0] == '-' {
            s.drop_first()
        } else {
            s
        };
        match scan_digits(u, negative, 0) {
            Ok(m) => Ok((if negative {
                -m
            } else {
                m
            }) as i64),
            Err(e) => Err(e),
        }
    }
}

/// Reads the characters `cs[lo..hi]` as an `i64` the way `str::parse` does.
pub fn parse_i64_chars(cs: &Vec<char>, lo: usize, hi: usize) -> (r: Result<i64, IntError>)
    requires
        lo <= hi <= cs@.len(),
    ensures
        r == parse_i64_text(cs@.subrange(lo as int, hi as int)),
{
    let ghost s = cs@.subrange(lo as int, hi as int);
    if lo == hi {
        return Err(IntError::Empty);
    }
    let negative = cs[lo] == '-';
    let signed = cs[lo] == '-' || cs[lo] == '+';
    if signed && hi - lo == 1 {
        return Err(IntError::InvalidDigit);
    }
    let start = if signed {
        lo + 1
    } else {
        lo
    };
    let ghost u = cs@.subrange(start as int, hi as int);
    assert(s[0] == cs@[lo as int]);
    assert(u == (if s[0] == '+' || s[0] == '-' {
        s.drop_first()
    } else {
        s
    }));
    let mut mag: u64 = 0;
    let mut i = start;
    while i < hi
        invariant
            start <= i <= hi <= cs@.len(),
            u == cs@.subrange(start as int, hi as int),
            s == cs@.subrange(lo as int, hi as int),
            s.len() > 0,
            !(s.len() == 1 && (s[0] == '+' || s[0] == '-')),
            negative == (s[0] == '-'),
            u == (if s[0] == '+' || s[0] == '-' {
                s.drop_first()
            } else {
                s
            }),
            mag == digits_value(u.take(i - start)),
            !magnitude_overflows(mag as int, negative),
            scan_digits(u, negative, i - start) == scan_digits(u, negative, 0),
        decreases hi - i,
    {
        let c = cs[i];
        let k = i - start;
        assert(u[k as int] == c);
        if !('0' <= c && c <= '9') {
            return Err(IntError::InvalidDigit);
        }
        assert(u.take(k + 1).drop_last() == u.take(k as int));
        assert(u.take(k + 1).last() == c);
        let d: u64 = ((c as u32) - ('0' as u32)) as u64;
        let limit: u64 = if negative {
            9223372036854775808u64
        } else {
            9223372036854775807u64
        };
        if mag > (limit - d) / 10 {
            assert(magnitude_overflows(digits_value(u.take(k + 1)), negative)) by (nonlinear_arith)
                requires
                    mag > (limit - d) / 10,
                    digits_value(u.take(k + 1)) == 10 * mag + d,
                    limit == (if negative { 9223372036854775808int } else { 9223372036854775807int }),
                    d <= 9,
            ;
            if negative {
                return Err(IntError::NegOverflow);
            } else {
                return Err(IntError::PosOverflow);
            }
        }
        assert(mag * 10 + d <= limit) by (nonlinear_arith)
            requires
                mag <= (limit - d) / 10,
                d <= 9,
                limit >= 9,
        ;
        mag = mag * 10 + d;
        i = i + 1;
    }
    assert(u.take(u.len() as int) == u);
    if negative {
        let v: i128 = -(mag as i128);
        Ok(v as i64)
    } else {
        Ok(mag as i64)
    }
}

/// The character of the decimal digit `d`.
pub open spec fn digit_char(d: int) -> char {
    ('0' as int + d) as char
}

/// Decimal digits of `n`, most significant first, no leading zeros.
pub open spec fn natural_text(n: nat) -> Seq<char>
    decreases n,
{
    if n < 10 {
        seq![digit_char(n as int)]
    } else {
        natural_text(n / 10) + seq![digit_char((n % 10) as int)]
    }
}

/// How `{}` writes the integer `n`: a `-` for negative values, then the digits.
pub open spec fn decimal_text(n: int) -> Seq<char> {
    if n < 0 {
        seq!['-'] + natural_text((-n) as nat)
    } else {
        natural_text(n as nat)
    }
}

/// `n` spaces.
pub open spec fn spaces(n: nat) -> Seq<char> {
    Seq::new(n, |i: int| ' ')
}

/// The number of bytes that `s` takes in UTF-8, which `str::len` returns.
pub open spec fn byte_len(s: Seq<char>) -> nat {
    vstd::utf8::encode_utf8(s).len()
}

fn digit_str(d: u64) -> (s: &'static str)
    requires
        d < 10,
    ensures
        s@ == seq![digit_char(d as int)],
{
    proof {
        reveal_strlit("0");
        reveal_strlit("1");
        reveal_strlit("2");
        reveal_strlit("3");
        reveal_strlit("4");
        reveal_strlit("5");
        reveal_strlit("6");
        reveal_strlit("7");
        reveal_strlit("8");
        reveal_strlit("9");
    }
    if d == 0 {
        "0"
    } else if d == 1 {
        "1"
    } else if d == 2 {
        "2"
    } else if d == 3 {
        "3"
    } else if d == 4 {
        "4"
    } else if d == 5 {
        "5"
    } else if d == 6 {
        "6"
    } else if d == 7 {
        "7"
    } else if d == 8 {
        "8"
    } else {
        "9"
    }
}

/// Appends the decimal digits of `n` to `out`.
pub fn push_natural(out: &mut String, n: u64)
    ensures
        final(out)@ == old(out)@ + natural_text(n as nat),
    decreases n,
{
    if n >= 10 {
        push_natural(out, n / 10);
    }
    out.append(digit_str(n % 10));
    proof {
        if n >= 10 {
            assert(old(out)@ + natural_text(n as nat) == old(out)@ + natural_text((n / 10) as nat)
                + seq![digit_char((n % 10) as int)]);
        }
    }
}

/// Appends `n` as `{}` writes it to `out`.
pub fn push_decimal(out: &mut String, n: i64)
    ensures
        final(out)@ == old(out)@ + decimal_text(n as int),
{
    if n < 0 {
        proof {
            reveal_strlit("-");
        }
        out.append("-");
        let m: i128 = -(n as i128);
        push_natural(out, m as u64);
        proof {
            assert(old(out)@ + decimal_text(n as int) == old(out)@ + seq!['-'] + natural_text(
                (-n) as nat,
            ));
        }
    } else {
        push_natural(out, n as u64);
    }
}

/// Appends `n` spaces to `out`.
pub fn push_spaces(out: &mut String, n: usize)
    ensures
        final(out)@ == old(out)@ + spaces(n as nat),
{
    proof {
        reveal_strlit(" ");
        assert(" "@ == seq![' ']);
    }
    let mut i: usize = 0;
    while i < n
        invariant
            i <= n,
            out@ == old(out)@ + spaces(i as nat),
            " "@ == seq![' '],
        decreases n - i,
    {
        out.append(" ");
        i = i + 1;
        assert(old(out)@ + spaces(i as nat) == old(out)@ + spaces((i - 1) as nat) + seq![' ']);
    }
}

/// UTF-8 encoding distributes over concatenation.
pub proof fn lemma_byte_len_concat(a: Seq<char>, b: Seq<char>)
    ensures
        byte_len(a + b) == byte_len(a) + byte_len(b),
    decreases a.len(),
{
    if a.len() == 0 {
        assert(a + b == b);
    } else {
        assert((a + b).drop_first() == a.drop_first() + b);
        lemma_byte_len_concat(a.drop_first(), b);
    }
}

/// Each space takes one byte.
pub proof fn lemma_byte_len_spaces(n: nat)
    ensures
        byte_len(spaces(n)) == n,
{
    let s = spaces(n);
    assert(vstd::utf8::is_ascii_chars(s));
    vstd::utf8::is_ascii_chars_encode_utf8(s);
}

/// `t` is the decimal digits of the natural number `v`: at least one
/// digit, only digits, no leading zero, and they read back as `v`.
pub open spec fn digits_of(t: Seq<char>, v: int) -> bool {
    &&& t.len() >= 1
    &&& forall|i: int| 0 <= i < t.len() ==> is_decimal_digit(#[trigger] t[i])
    &&& digits_value(t) == v
    &&& t.len() > 1 ==> t[0] != '0'
}

/// `t` writes the integer `v` in decimal: its digits, after a `-` when `v` is negative.
pub open spec fn writes_decimal(t: Seq<char>, v: int) -> bool {
    if v < 0 {
        t.len() >= 2 && t[0] == '-' && digits_of(t.drop_first(), -v)
    } else {
        digits_of(t, v)
    }
}

/// Law: the digits written for `n` are decimal digits without a leading
/// zero, and they read back as `n`.
pub proof fn lemma_natural_text_reads_back(n: nat)
    ensures
        digits_of(natural_text(n), n as int),
    decreases n,
{
    let t = natural_text(n);
    if n < 10 {
        let c = digit_char(n as int);
        assert(c as int == '0' as int + n);
        assert(t.drop_last() == Seq::<char>::empty());
        assert(digits_value(t) == 10 * digits_value(t.drop_last()) + digit_value(t.last()));
    } else {
        let p = natural_text(n / 10);
        lemma_natural_text_reads_back(n / 10);
        let c = digit_char((n % 10) as int);
        assert(c as int == '0' as int + n % 10);
        assert(t == p + seq![c]);
        assert(t.drop_last() == p);
        assert(t.last() == c);
        assert(forall|i: int| 0 <= i < t.len() ==> is_decimal_digit(#[trigger] t[i])) by {
            assert forall|i: int| 0 <= i < t.len() implies is_decimal_digit(#[trigger] t[i]) by {
                if i < p.len() {
                    assert(t[i] == p[i]);
                }
            }
        }
        assert(t[0] == p[0]);
        if p.len() == 1 {
            assert(digits_value(p) == n / 10);
            assert(n / 10 > 0);
            assert(p.drop_last() == Seq::<char>::empty());
            assert(digits_value(Seq::<char>::empty()) == 0);
            assert(p.last() == p[0]);
            assert(digits_value(p) == 10 * digits_value(p.drop_last()) + digit_value(p.last()));
            assert(digits_value(p) == digit_value(p[0]));
        }
    }
}

/// Law: the text written for `n` is `n` in decimal, a `-` before the
/// digits of a negative number.
pub proof fn lemma_decimal_text_reads_back(n: int)
    ensures
        writes_decimal(decimal_text(n), n),
{
    if n < 0 {
        lemma_natural_text_reads_back((-n) as nat);
        let t = decimal_text(n);
        assert(t.drop_first() == natural_text((-n) as nat));
    } else {
        lemma_natural_text_reads_back(n as nat);
    }
}

proof fn lemma_digits_value_nonneg(u: Seq<char>)
    requires
        forall|i: int| 0 <= i < u.len() ==> is_decimal_digit(#[trigger] u[i]),
    ensures
        digits_value(u) >= 0,
    decreases u.len(),
{
    if u.len() > 0 {
        let p = u.drop_last();
        assert(is_decimal_digit(u[u.len() - 1]));
        assert forall|i: int| 0 <= i < p.len() implies is_decimal_digit(#[trigger] p[i]) by {
            assert(p[i] == u[i]);
        }
        lemma_digits_value_nonneg(p);
    }
}

proof fn lemma_prefix_value_bounded(u: Seq<char>, k: int)
    requires
        forall|i: int| 0 <= i < u.len() ==> is_decimal_digit(#[trigger] u[i]),
        0 <= k <= u.len(),
    ensures
        digits_value(u.take(k)) <= digits_value(u),
    decreases u.len(),
{
    if k < u.len() {
        let p = u.drop_last();
        assert forall|i: int| 0 <= i < p.len() implies is_decimal_digit(#[trigger] p[i]) by {
            assert(p[i] == u[i]);
        }
        lemma_prefix_value_bounded(p, k);
        assert(p.take(k) == u.take(k));
        lemma_digits_value_nonneg(p);
        assert(is_decimal_digit(u[u.len() - 1]));
    } else {
        assert(u.take(k) == u);
    }
}

proof fn lemma_scan_reads_all(u: Seq<char>, negative: bool, k: int)
    requires
        forall|i: int| 0 <= i < u.len() ==> is_decimal_digit(#[trigger] u[i]),
        !magnitude_overflows(digits_value(u), negative),
        0 <= k <= u.len(),
    ensures
        scan_digits(u, negative, k) == Ok::<int, IntError>(digits_value(u)),
    decreases u.len() - k,
{
    if k < u.len() {
        assert(is_decimal_digit(u[k]));
        lemma_prefix_value_bounded(u, k + 1);
        lemma_scan_reads_all(u, negative, k + 1);
    }
}

/// Law: reading back the text written for an `i64` gives that `i64`.
pub proof fn lemma_decimal_text_parses_back(n: i64)
    ensures
        parse_i64_text(decimal_text(n as int)) == Ok::<i64, IntError>(n),
{
    let s = decimal_text(n as int);
    lemma_decimal_text_reads_back(n as int);
    if n < 0 {
        let u = s.drop_first();
        assert(digits_of(u, -n));
        lemma_scan_reads_all(u, true, 0);
    } else {
        assert(digits_of(s, n as int));
        assert(is_decimal_digit(s[0]));
        lemma_scan_reads_all(s, false, 0);
    }
}

proof fn lemma_skip_white_over(s: Seq<char>, i: int, stop: int)
    requires
        0 <= i <= stop < s.len(),
        forall|k: int| i <= k < stop ==> is_white_space(#[trigger] s[k]),
        !is_white_space(s[stop]),
    ensures
        skip_white_from(s, i) == stop,
    decreases stop - i,
{
    if i < stop {
        lemma_skip_white_over(s, i + 1, stop);
    }
}

proof fn lemma_skip_white_back_over(s: Seq<char>, lo: int, j: int, stop: int)
    requires
        lo < stop <= j <= s.len(),
        forall|k: int| stop <= k < j ==> is_white_space(#[trigger] s[k]),
        !is_white_space(s[stop - 1]),
    ensures
        skip_white_back(s, lo, j) == stop,
    decreases j - stop,
{
    if j > stop {
        lemma_skip_white_back_over(s, lo, j - 1, stop);
    }
}

/// Law: trimming removes exactly the white space around a text that
/// neither starts nor ends with white space.
pub proof fn lemma_trimmed_core(lead: Seq<char>, core: Seq<char>, trail: Seq<char>)
    requires
        forall|k: int| 0 <= k < lead.len() ==> is_white_space(#[trigger] lead[k]),
        forall|k: int| 0 <= k < trail.len() ==> is_white_space(#[trigger] trail[k]),
        core.len() > 0,
        !is_white_space(core[0]),
        !is_white_space(core.last()),
    ensures
        trimmed(lead + core + trail) == core,
{
    let s = lead + core + trail;
    let a = lead.len() as int;
    let b = a + core.len();
    assert forall|k: int| 0 <= k < a implies is_white_space(#[trigger] s[k]) by {
        assert(s[k] == lead[k]);
    }
    assert(s[a] == core[0]);
    lemma_skip_white_over(s, 0, a);
    assert forall|k: int| b <= k < s.len() implies is_white_space(#[trigger] s[k]) by {
        assert(s[k] == trail[k - b]);
    }
    assert(s[b - 1] == core.last());
    lemma_skip_white_back_over(s, a, s.len() as int, b);
    assert(s.subrange(a, b) == core);
}

} // verus!
