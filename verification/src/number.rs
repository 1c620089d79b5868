//! Numbers as decimal text.
//!
//! A number attribute keeps its digits as written, so no precision is lost.
//! Numbers are compared and added as exact decimals: a sign, digits, and
//! optionally a point and more digits, of any length.
//!
//! Nothing else is a numeral. A text in exponent notation such as `1e3`, and
//! `inf`, `NaN` and the like, which a floating-point reader would take for
//! numbers, are plain text here: two texts of which one is no numeral are
//! compared byte by byte, and neither can be added to.

use crate::bytes::{compare_bytes, copy_range, lex_rank, Rank};
use crate::digits::{add_digits, canonical_digits, pad_front, sub_digits};
use crate::text::push_char;
use vstd::prelude::*;

verus! {

/// An ASCII digit.
pub open spec fn is_digit(b: u8) -> bool {
    48 <= b <= 57
}

/// Every byte is an ASCII digit.
pub open spec fn all_digits(s: Seq<u8>) -> bool {
    forall|i: int| 0 <= i < s.len() ==> is_digit(#[trigger] s[i])
}

/// The number of digits in `s`.
pub open spec fn digit_count(s: Seq<u8>) -> nat
    decreases s.len(),
{
    if s.len() == 0 {
        0
    } else if is_digit(s.last()) {
        digit_count(s.drop_last()) + 1
    } else {
        digit_count(s.drop_last())
    }
}

/// Counts the digits of a text; a sign, a point and any other byte do not
/// count.
pub fn count_digits(s: &[u8]) -> (n: usize)
    ensures
        n == digit_count(s@),
{
    let mut n: usize = 0;
    let mut i: usize = 0;
    while i < s.len()
        invariant
            i <= s.len(),
            n <= i,
            n == digit_count(s@.take(i as int)),
        decreases s.len() - i,
    {
        proof {
            assert(s@.take(i + 1).drop_last() =~= s@.take(i as int));
        }
        if 48 <= s[i] && s[i] <= 57 {
            n += 1;
        }
        i += 1;
    }
    proof {
        assert(s@.take(i as int) =~= s@);
    }
    n
}

/// The number of digits that `s` starts with.
pub open spec fn digit_run(s: Seq<u8>) -> int
    decreases s.len(),
{
    if s.len() == 0 || !is_digit(s[0]) {
        0
    } else {
        1 + digit_run(s.skip(1))
    }
}

/// The parts of a decimal numeral; the digits are ASCII bytes.
pub ghost struct DecimalView {
    /// The numeral starts with a minus sign.
    pub neg: bool,
    /// The digits before the point.
    pub int_part: Seq<u8>,
    /// The digits behind the point.
    pub frac_part: Seq<u8>,
}

/// `s` starts with a plus or minus sign.
pub open spec fn has_sign(s: Seq<u8>) -> bool {
    s.len() > 0 && (s[0] == 43 || s[0] == 45)
}

/// `s` without its sign.
pub open spec fn unsigned_part(s: Seq<u8>) -> Seq<u8> {
    if has_sign(s) {
        s.skip(1)
    } else {
        s
    }
}

/// `s` split at its sign and at the point behind its leading digits.
pub open spec fn decimal_of(s: Seq<u8>) -> DecimalView {
    let body = unsigned_part(s);
    let n = digit_run(body);
    let after = body.skip(n);
    DecimalView {
        neg: s.len() > 0 && s[0] == 45,
        int_part: body.take(n),
        frac_part: if after.len() > 0 && after[0] == 46 {
            after.skip(1)
        } else {
            after
        },
    }
}

/// `s` is a decimal numeral: an optional sign, digits, optionally a point and
/// more digits, with a digit on at least one side of the point.
pub open spec fn is_decimal(s: Seq<u8>) -> bool {
    let d = decimal_of(s);
    all_digits(d.frac_part) && d.int_part.len() + d.frac_part.len() > 0
}

/// Digits without the zeros in front.
pub open spec fn strip_leading_zeros(d: Seq<u8>) -> Seq<u8>
    decreases d.len(),
{
    if d.len() > 0 && d[0] == 48 {
        strip_leading_zeros(d.skip(1))
    } else {
        d
    }
}

/// Digits without the zeros at the end.
pub open spec fn strip_trailing_zeros(d: Seq<u8>) -> Seq<u8>
    decreases d.len(),
{
    if d.len() > 0 && d.last() == 48 {
        strip_trailing_zeros(d.drop_last())
    } else {
        d
    }
}

/// The significant digits of a numeral: those before the point without
/// leading zeros, then those behind it without trailing zeros.
pub open spec fn significant(d: DecimalView) -> Seq<u8> {
    strip_leading_zeros(d.int_part) + strip_trailing_zeros(d.frac_part)
}

/// The sign of a numeral's value: -1, 0 or 1.
pub open spec fn sign_of(d: DecimalView) -> int {
    if significant(d).len() == 0 {
        0
    } else if d.neg {
        -1
    } else {
        1
    }
}

/// Compares the absolute values of two numerals: the one with more digits
/// before the point is larger; with equally many, the significant digits
/// decide, read as one string.
pub open spec fn magnitude_rank(a: DecimalView, b: DecimalView) -> Rank {
    let ia = strip_leading_zeros(a.int_part).len();
    let ib = strip_leading_zeros(b.int_part).len();
    if ia < ib {
        Rank::Less
    } else if ia > ib {
        Rank::Greater
    } else {
        lex_rank(significant(a), significant(b))
    }
}

/// The outcome of the comparison the other way round.
pub open spec fn flip(r: Rank) -> Rank {
    match r {
        Rank::Less => Rank::Greater,
        Rank::Equal => Rank::Equal,
        Rank::Greater => Rank::Less,
    }
}

/// Compares the values of two numerals.
pub open spec fn decimal_rank(a: DecimalView, b: DecimalView) -> Rank {
    let sa = sign_of(a);
    let sb = sign_of(b);
    if sa < sb {
        Rank::Less
    } else if sa > sb {
        Rank::Greater
    } else if sa == 0 {
        Rank::Equal
    } else if sa > 0 {
        magnitude_rank(a, b)
    } else {
        flip(magnitude_rank(a, b))
    }
}

/// Compares two number texts: by value where both are decimal numerals, else
/// as plain byte strings.
pub open spec fn number_rank(a: Seq<u8>, b: Seq<u8>) -> Rank {
    if is_decimal(a) && is_decimal(b) {
        decimal_rank(decimal_of(a), decimal_of(b))
    } else {
        lex_rank(a, b)
    }
}

/// A decimal numeral split into its parts.
pub struct Decimal {
    /// The numeral starts with a minus sign.
    pub neg: bool,
    /// The digits before the point, as ASCII bytes.
    pub int_part: Vec<u8>,
    /// The digits behind the point, as ASCII bytes.
    pub frac_part: Vec<u8>,
}

impl View for Decimal {
    type V = DecimalView;

    open spec fn view(&self) -> DecimalView {
        DecimalView { neg: self.neg, int_part: self.int_part@, frac_part: self.frac_part@ }
    }
}

fn digit_byte(b: u8) -> (r: bool)
    ensures
        r == is_digit(b),
{
    48 <= b && b <= 57
}

/// Splits a decimal numeral into its parts; `None` where `s` is none.
pub fn parse_decimal(s: &[u8]) -> (r: Option<Decimal>)
    ensures
        match r {
            Some(d) => is_decimal(s@) && d@ == decimal_of(s@) && all_digits(d@.int_part)
                && all_digits(d@.frac_part) && d@.frac_part.len() < s@.len(),
            None => !is_decimal(s@),
        },
{
    let mut i: usize = 0;
    let mut neg = false;
    if s.len() > 0 && (s[0] == 43 || s[0] == 45) {
        neg = s[0] == 45;
        i = 1;
    }
    let start = i;
    let ghost body = unsigned_part(s@);
    proof {
        assert(body =~= s@.skip(start as int));
    }
    let mut int_part: Vec<u8> = Vec::new();
    while i < s.len() && digit_byte(s[i])
        invariant
            start <= i <= s.len(),
            body == s@.skip(start as int),
            digit_run(body) == (i - start) + digit_run(s@.skip(i as int)),
            int_part@ == s@.subrange(start as int, i as int),
            all_digits(int_part@),
        decreases s.len() - i,
    {
        proof {
            assert(s@.skip(i as int)[0] == s@[i as int]);
            assert(s@.skip(i as int).skip(1) =~= s@.skip(i + 1));
        }
        int_part.push(s[i]);
        i += 1;
        proof {
            assert(int_part@ =~= s@.subrange(start as int, i as int));
        }
    }
    proof {
        if i < s.len() {
            assert(s@.skip(i as int)[0] == s@[i as int]);
        }
        assert(digit_run(body) == i - start);
        assert(body.take(i - start) =~= s@.subrange(start as int, i as int));
        assert(body.skip(i - start) =~= s@.skip(i as int));
    }
    let ghost after = s@.skip(i as int);
    if i < s.len() && s[i] == 46 {
        i += 1;
        proof {
            assert(after.skip(1) =~= s@.skip(i as int));
        }
    }
    let fstart = i;
    let ghost frac_spec = decimal_of(s@).frac_part;
    proof {
        assert(frac_spec =~= s@.skip(fstart as int));
    }
    let mut frac_part: Vec<u8> = Vec::new();
    while i < s.len()
        invariant
            fstart <= i <= s.len(),
            frac_spec == s@.skip(fstart as int),
            frac_spec == decimal_of(s@).frac_part,
            fstart == 0 && s.len() > 0 ==> !is_digit(s@[0]),
            frac_part@ == s@.subrange(fstart as int, i as int),
            all_digits(frac_part@),
        decreases s.len() - i,
    {
        if !digit_byte(s[i]) {
            proof {
                assert(frac_spec[i - fstart] == s@[i as int]);
            }
            return None;
        }
        frac_part.push(s[i]);
        i += 1;
        proof {
            assert(frac_part@ =~= s@.subrange(fstart as int, i as int));
        }
    }
    proof {
        assert(frac_part@ =~= frac_spec);
    }
    if int_part.len() == 0 && frac_part.len() == 0 {
        return None;
    }
    proof {
        if fstart == 0 && s.len() > 0 {
            assert(frac_part@[0] == s@[0]);
        }
    }
    Some(Decimal { neg, int_part, frac_part })
}

/// The number of zeros that `d` starts with.
fn count_leading_zeros(d: &[u8]) -> (n: usize)
    ensures
        n <= d.len(),
        strip_leading_zeros(d@) == d@.skip(n as int),
{
    let mut n: usize = 0;
    proof {
        assert(d@.skip(0) =~= d@);
    }
    while n < d.len() && d[n] == 48
        invariant
            n <= d.len(),
            strip_leading_zeros(d@) == strip_leading_zeros(d@.skip(n as int)),
        decreases d.len() - n,
    {
        proof {
            assert(d@.skip(n as int)[0] == d@[n as int]);
            assert(d@.skip(n as int).skip(1) =~= d@.skip(n + 1));
        }
        n += 1;
    }
    proof {
        if n < d.len() {
            assert(d@.skip(n as int)[0] == d@[n as int]);
        }
    }
    n
}

/// The length of `d` without the zeros at its end.
fn length_without_trailing_zeros(d: &[u8]) -> (n: usize)
    ensures
        n <= d.len(),
        strip_trailing_zeros(d@) == d@.take(n as int),
{
    let mut n: usize = d.len();
    proof {
        assert(d@.take(n as int) =~= d@);
    }
    while n > 0 && d[n - 1] == 48
        invariant
            n <= d.len(),
            strip_trailing_zeros(d@) == strip_trailing_zeros(d@.take(n as int)),
        decreases n,
    {
        proof {
            assert(d@.take(n as int).last() == d@[n - 1]);
            assert(d@.take(n as int).drop_last() =~= d@.take(n - 1));
        }
        n -= 1;
    }
    proof {
        if n > 0 {
            assert(d@.take(n as int).last() == d@[n - 1]);
        }
    }
    n
}

/// The significant digits of `d` and how many of them stand before the point.
fn significant_digits(d: &Decimal) -> (r: (Vec<u8>, usize))
    ensures
        r.0@ == significant(d@),
        r.1 == strip_leading_zeros(d@.int_part).len(),
{
    let skip = count_leading_zeros(d.int_part.as_slice());
    let keep = length_without_trailing_zeros(d.frac_part.as_slice());
    let mut out: Vec<u8> = Vec::new();
    let mut i: usize = skip;
    while i < d.int_part.len()
        invariant
            skip <= i <= d.int_part.len(),
            out@ == d.int_part@.subrange(skip as int, i as int),
        decreases d.int_part.len() - i,
    {
        out.push(d.int_part[i]);
        i += 1;
        proof {
            assert(out@ =~= d.int_part@.subrange(skip as int, i as int));
        }
    }
    let int_len = out.len();
    let ghost head = out@;
    proof {
        assert(head =~= d.int_part@.skip(skip as int));
    }
    let mut j: usize = 0;
    while j < keep
        invariant
            j <= keep <= d.frac_part.len(),
            out@ == head + d.frac_part@.take(j as int),
        decreases keep - j,
    {
        out.push(d.frac_part[j]);
        j += 1;
        proof {
            assert(out@ =~= head + d.frac_part@.take(j as int));
        }
    }
    (out, int_len)
}

/// Compares two number texts: by value where both are decimal numerals, else
/// as plain byte strings.
pub fn compare_numbers(a: &[u8], b: &[u8]) -> (r: Rank)
    ensures
        r == number_rank(a@, b@),
{
    let da = match parse_decimal(a) {
        Some(d) => d,
        None => {
            return compare_bytes(a, b);
        },
    };
    let db = match parse_decimal(b) {
        Some(d) => d,
        None => {
            return compare_bytes(a, b);
        },
    };
    let (ma, ia) = significant_digits(&da);
    let (mb, ib) = significant_digits(&db);
    let sa: i8 = if ma.len() == 0 {
        0
    } else if da.neg {
        -1
    } else {
        1
    };
    let sb: i8 = if mb.len() == 0 {
        0
    } else if db.neg {
        -1
    } else {
        1
    };
    if sa < sb {
        return Rank::Less;
    }
    if sa > sb {
        return Rank::Greater;
    }
    if sa == 0 {
        return Rank::Equal;
    }
    let magnitude = if ia < ib {
        Rank::Less
    } else if ia > ib {
        Rank::Greater
    } else {
        compare_bytes(ma.as_slice(), mb.as_slice())
    };
    if sa > 0 {
        magnitude
    } else {
        match magnitude {
            Rank::Less => Rank::Greater,
            Rank::Equal => Rank::Equal,
            Rank::Greater => Rank::Less,
        }
    }
}

/// The number that a run of digits writes.
pub open spec fn digits_value(d: Seq<u8>) -> nat
    decreases d.len(),
{
    if d.len() == 0 {
        0
    } else {
        digits_value(d.drop_last()) * 10 + (d.last() - 48) as nat
    }
}

/// A run of `n` zero digits.
pub open spec fn zeros(n: nat) -> Seq<u8> {
    Seq::new(n, |i: int| 48u8)
}

/// All digits of a numeral, with zeros added until `scale` digits stand behind
/// the point.
pub open spec fn aligned(d: DecimalView, scale: nat) -> Seq<u8> {
    d.int_part + d.frac_part + zeros((scale - d.frac_part.len()) as nat)
}

/// The absolute value of a numeral, counted in units of 10 to the minus
/// `scale`.
pub open spec fn magnitude(d: DecimalView, scale: nat) -> nat {
    digits_value(aligned(d, scale))
}

/// The value of a numeral, counted in units of 10 to the minus `scale`.
pub open spec fn scaled_value(d: DecimalView, scale: nat) -> int {
    if d.neg {
        -(magnitude(d, scale) as int)
    } else {
        magnitude(d, scale) as int
    }
}

/// The larger of the two counts of digits behind the point.
pub open spec fn common_scale(a: DecimalView, b: DecimalView) -> nat {
    if a.frac_part.len() >= b.frac_part.len() {
        a.frac_part.len()
    } else {
        b.frac_part.len()
    }
}

/// The exact sum of two numerals, counted in units of 10 to the minus their
/// common scale.
pub open spec fn decimal_sum(a: DecimalView, b: DecimalView) -> int {
    scaled_value(a, common_scale(a, b)) + scaled_value(b, common_scale(a, b))
}

/// The digits of a number, the most significant first.
pub open spec fn digits_of(n: nat) -> Seq<u8>
    decreases n,
{
    if n < 10 {
        seq![(48 + n) as u8]
    } else {
        digits_of(n / 10).push((48 + n % 10) as u8)
    }
}

/// ASCII bytes as characters.
pub open spec fn ascii_text(d: Seq<u8>) -> Seq<char> {
    Seq::new(d.len(), |i: int| d[i] as char)
}

/// `d` with zeros in front until it is `width` digits long.
pub open spec fn pad_to(d: Seq<u8>, width: nat) -> Seq<u8> {
    if d.len() < width {
        zeros((width - d.len()) as nat) + d
    } else {
        d
    }
}

/// The text of the number `value` times 10 to the minus `scale`: a minus sign
/// where it is negative, at least one digit before the point, and behind the
/// point the digits up to the last that is not zero; no point where there are
/// none.
pub open spec fn decimal_text(value: int, scale: nat) -> Seq<char> {
    let mag = (if value < 0 {
        -value
    } else {
        value
    }) as nat;
    let digits = pad_to(digits_of(mag), scale + 1);
    let split = digits.len() - scale;
    let frac = strip_trailing_zeros(digits.skip(split));
    let sign = if value < 0 {
        seq!['-']
    } else {
        Seq::empty()
    };
    let tail = if frac.len() > 0 {
        seq!['.'] + ascii_text(frac)
    } else {
        Seq::empty()
    };
    sign + ascii_text(digits.take(split)) + tail
}

/// The decimal text of an integer.
pub open spec fn int_text(n: int) -> Seq<char> {
    decimal_text(n, 0)
}

/// Why two number texts could not be added.
#[derive(Debug, Clone, Copy, PartialEq, Eq, Structural)]
pub enum NumberError {
    /// One of the texts is no decimal numeral.
    NotANumber,
}

/// All digits of `d`, with zeros added until `scale` digits stand behind the
/// point.
fn aligned_digits(d: &Decimal, scale: usize) -> (r: Vec<u8>)
    requires
        d@.frac_part.len() <= scale,
        all_digits(d@.int_part),
        all_digits(d@.frac_part),
    ensures
        r@ == aligned(d@, scale as nat),
        all_digits(r@),
{
    let mut out: Vec<u8> = Vec::new();
    let mut i: usize = 0;
    while i < d.int_part.len()
        invariant
            i <= d.int_part.len(),
            out@ == d.int_part@.take(i as int),
        decreases d.int_part.len() - i,
    {
        out.push(d.int_part[i]);
        i += 1;
        proof {
            assert(out@ =~= d.int_part@.take(i as int));
        }
    }
    proof {
        assert(d.int_part@.take(i as int) =~= d.int_part@);
    }
    let mut j: usize = 0;
    while j < d.frac_part.len()
        invariant
            j <= d.frac_part.len(),
            out@ == d.int_part@ + d.frac_part@.take(j as int),
        decreases d.frac_part.len() - j,
    {
        out.push(d.frac_part[j]);
        j += 1;
        proof {
            assert(out@ =~= d.int_part@ + d.frac_part@.take(j as int));
        }
    }
    proof {
        assert(d.frac_part@.take(j as int) =~= d.frac_part@);
    }
    let extra: usize = scale - d.frac_part.len();
    let mut k: usize = 0;
    while k < extra
        invariant
            k <= extra,
            out@ == d.int_part@ + d.frac_part@ + zeros(k as nat),
        decreases extra - k,
    {
        out.push(48);
        k += 1;
        proof {
            assert(out@ =~= d.int_part@ + d.frac_part@ + zeros(k as nat));
        }
    }
    proof {
        assert(out@ =~= d.int_part@ + d.frac_part@ + zeros(extra as nat));
        assert forall|x: int| 0 <= x < out@.len() implies is_digit(#[trigger] out@[x]) by {
            if x < d.int_part@.len() {
                assert(out@[x] == d.int_part@[x]);
            } else if x < d.int_part@.len() + d.frac_part@.len() {
                assert(out@[x] == d.frac_part@[x - d.int_part@.len()]);
            }
        }
    }
    out
}

/// The digits of `m`, the most significant first.
fn number_digits(m: u128) -> (r: Vec<u8>)
    ensures
        r@ == digits_of(m as nat),
        r@.len() > 0,
{
    let mut rev: Vec<u8> = Vec::new();
    let mut cur: u128 = m;
    proof {
        assert(digits_of(cur as nat) + rev@.reverse() =~= digits_of(m as nat));
    }
    while cur >= 10
        invariant
            digits_of(m as nat) == digits_of(cur as nat) + rev@.reverse(),
        decreases cur,
    {
        let digit: u8 = 48 + (cur % 10) as u8;
        proof {
            assert(rev@.push(digit).reverse() =~= seq![digit] + rev@.reverse());
            assert(digits_of((cur / 10) as nat) + (seq![digit] + rev@.reverse()) =~= digits_of(
                (cur / 10) as nat,
            ).push(digit) + rev@.reverse());
        }
        rev.push(digit);
        cur = cur / 10;
    }
    let last: u8 = 48 + cur as u8;
    proof {
        assert(rev@.push(last).reverse() =~= seq![last] + rev@.reverse());
    }
    rev.push(last);
    let mut out: Vec<u8> = Vec::new();
    let mut i: usize = rev.len();
    while i > 0
        invariant
            i <= rev.len(),
            out@.len() == rev.len() - i,
            forall|j: int| 0 <= j < out@.len() ==> out@[j] == rev@[rev.len() - 1 - j],
        decreases i,
    {
        i -= 1;
        out.push(rev[i]);
    }
    proof {
        assert(out@ =~= rev@.reverse());
    }
    out
}

/// Appends the characters of ASCII bytes to a string.
fn push_ascii(out: &mut String, d: &[u8], from: usize, to: usize)
    requires
        from <= to <= d.len(),
    ensures
        final(out)@ == old(out)@ + ascii_text(d@.subrange(from as int, to as int)),
{
    let mut i: usize = from;
    proof {
        assert(out@ + ascii_text(d@.subrange(from as int, i as int)) =~= out@);
    }
    while i < to
        invariant
            from <= i <= to <= d.len(),
            out@ == old(out)@ + ascii_text(d@.subrange(from as int, i as int)),
        decreases to - i,
    {
        push_char(out, d[i] as char);
        i += 1;
        proof {
            assert(out@ =~= old(out)@ + ascii_text(d@.subrange(from as int, i as int)));
        }
    }
}

/// The text of a number given by its sign, the digits of its absolute value
/// and its scale.
fn format_canonical(minus: bool, digits: Vec<u8>, Ghost(m): Ghost<nat>, scale: usize) -> (r: String)
    requires
        digits@ == digits_of(m),
        digits@.len() > 0,
        minus ==> m > 0,
    ensures
        r@ == decimal_text(
            if minus {
                -(m as int)
            } else {
                m as int
            },
            scale as nat,
        ),
{
    let mut padded: Vec<u8> = Vec::new();
    if digits.len() <= scale {
        let fill: usize = scale - (digits.len() - 1);
        let mut k: usize = 0;
        while k < fill
            invariant
                k <= fill,
                padded@ == zeros(k as nat),
            decreases fill - k,
        {
            padded.push(48);
            k += 1;
            proof {
                assert(padded@ =~= zeros(k as nat));
            }
        }
    }
    let ghost head = padded@;
    let mut i: usize = 0;
    while i < digits.len()
        invariant
            i <= digits.len(),
            padded@ == head + digits@.take(i as int),
        decreases digits.len() - i,
    {
        padded.push(digits[i]);
        i += 1;
        proof {
            assert(padded@ =~= head + digits@.take(i as int));
        }
    }
    proof {
        assert(digits@.take(i as int) =~= digits@);
        assert(padded@ =~= pad_to(digits@, (scale + 1) as nat));
    }
    let split: usize = padded.len() - scale;
    let frac = copy_range(padded.as_slice(), split, padded.len());
    let keep = length_without_trailing_zeros(frac.as_slice());
    let mut out = String::new();
    if minus {
        push_char(&mut out, '-');
    }
    push_ascii(&mut out, padded.as_slice(), 0, split);
    if keep > 0 {
        push_char(&mut out, '.');
        push_ascii(&mut out, frac.as_slice(), 0, keep);
    }
    proof {
        assert(padded@.subrange(0, split as int) =~= padded@.take(split as int));
        assert(padded@.subrange(split as int, padded@.len() as int) =~= padded@.skip(split as int));
        assert(frac@.subrange(0, keep as int) =~= frac@.take(keep as int));
        let value: int = if minus {
            -(m as int)
        } else {
            m as int
        };
        assert(out@ =~= decimal_text(value, scale as nat));
    }
    out
}

/// The text of a number given by sign, absolute value and scale.
pub fn format_decimal(negative: bool, m: u128, scale: usize) -> (r: String)
    ensures
        r@ == decimal_text(
            if negative {
                -(m as int)
            } else {
                m as int
            },
            scale as nat,
        ),
{
    format_canonical(negative && m > 0, number_digits(m), Ghost(m as nat), scale)
}

/// The text of a number given by sign, the digits of its absolute value with
/// any zeros in front, and scale.
pub(crate) fn format_digits(negative: bool, d: &[u8], scale: usize) -> (r: String)
    requires
        all_digits(d@),
    ensures
        r@ == decimal_text(
            if negative {
                -(digits_value(d@) as int)
            } else {
                digits_value(d@) as int
            },
            scale as nat,
        ),
{
    let digits = canonical_digits(d);
    let zero = digits.len() == 1 && digits[0] == 48;
    format_canonical(negative && !zero, digits, Ghost(digits_value(d@)), scale)
}

/// The decimal text of a signed integer.
pub fn format_int(n: i128) -> (r: String)
    ensures
        r@ == int_text(n as int),
{
    if n < 0 {
        let m: u128 = (-(n + 1)) as u128 + 1;
        format_decimal(true, m, 0)
    } else {
        format_decimal(false, n as u128, 0)
    }
}

/// The decimal text of an unsigned integer.
pub fn format_uint(n: u128) -> (r: String)
    ensures
        r@ == int_text(n as int),
{
    format_decimal(false, n, 0)
}

/// The exact sum of two decimal numerals of any length, as text. Fails where
/// one of the texts is no decimal numeral, and only there.
pub fn add_numbers(a: &[u8], b: &[u8]) -> (r: Result<String, NumberError>)
    ensures
        match r {
            Ok(t) => is_decimal(a@) && is_decimal(b@) && t@ == decimal_text(
                decimal_sum(decimal_of(a@), decimal_of(b@)),
                common_scale(decimal_of(a@), decimal_of(b@)),
            ),
            Err(NumberError::NotANumber) => !(is_decimal(a@) && is_decimal(b@)),
        },
{
    let da = match parse_decimal(a) {
        Some(d) => d,
        None => {
            return Err(NumberError::NotANumber);
        },
    };
    let db = match parse_decimal(b) {
        Some(d) => d,
        None => {
            return Err(NumberError::NotANumber);
        },
    };
    let scale: usize = if da.frac_part.len() >= db.frac_part.len() {
        da.frac_part.len()
    } else {
        db.frac_part.len()
    };
    proof {
        assert(a@.len() == a.len() && b@.len() == b.len());
    }
    let ya = aligned_digits(&da, scale);
    let yb = aligned_digits(&db, scale);
    let xa = pad_front(ya.as_slice(), yb.len());
    let xb = pad_front(yb.as_slice(), ya.len());
    if da.neg == db.neg {
        let sum = add_digits(xa.as_slice(), xb.as_slice());
        Ok(format_digits(da.neg, sum.as_slice(), scale))
    } else {
        let (diff, less) = sub_digits(xa.as_slice(), xb.as_slice());
        if !less {
            Ok(format_digits(da.neg, diff.as_slice(), scale))
        } else {
            let (other, _) = sub_digits(xb.as_slice(), xa.as_slice());
            Ok(format_digits(db.neg, other.as_slice(), scale))
        }
    }
}

/// What can be written as the text of a number: the integers, and text that
/// already is one.
pub trait NumberText: Sized {
    /// The text that this is written as.
    spec fn number_text(&self) -> Seq<char>;

    fn into_number_text(self) -> (r: String)
        ensures
            r@ == self.number_text(),
    ;
}

impl NumberText for &str {
    open spec fn number_text(&self) -> Seq<char> {
        self@
    }

    fn into_number_text(self) -> (r: String) {
        crate::text::owned(self)
    }
}

impl NumberText for String {
    open spec fn number_text(&self) -> Seq<char> {
        self@
    }

    fn into_number_text(self) -> (r: String) {
        self
    }
}

impl NumberText for i8 {
    open spec fn number_text(&self) -> Seq<char> {
        int_text(*self as int)
    }

    fn into_number_text(self) -> (r: String) {
        format_int(self as i128)
    }
}

impl NumberText for i16 {
    open spec fn number_text(&self) -> Seq<char> {
        int_text(*self as int)
    }

    fn into_number_text(self) -> (r: String) {
        format_int(self as i128)
    }
}

impl NumberText for i32 {
    open spec fn number_text(&self) -> Seq<char> {
        int_text(*self as int)
    }

    fn into_number_text(self) -> (r: String) {
        format_int(self as i128)
    }
}

impl NumberText for i64 {
    open spec fn number_text(&self) -> Seq<char> {
        int_text(*self as int)
    }

    fn into_number_text(self) -> (r: String) {
        format_int(self as i128)
    }
}

impl NumberText for i128 {
    open spec fn number_text(&self) -> Seq<char> {
        int_text(*self as int)
    }

    fn into_number_text(self) -> (r: String) {
        format_int(self as i128)
    }
}

impl NumberText for isize {
    open spec fn number_text(&self) -> Seq<char> {
        int_text(*self as int)
    }

    fn into_number_text(self) -> (r: String) {
        format_int(self as i128)
    }
}

impl NumberText for u8 {
    open spec fn number_text(&self) -> Seq<char> {
        int_text(*self as int)
    }

    fn into_number_text(self) -> (r: String) {
        format_uint(self as u128)
    }
}

impl NumberText for u16 {
    open spec fn number_text(&self) -> Seq<char> {
        int_text(*self as int)
    }

    fn into_number_text(self) -> (r: String) {
        format_uint(self as u128)
    }
}

impl NumberText for u32 {
    open spec fn number_text(&self) -> Seq<char> {
        int_text(*self as int)
    }

    fn into_number_text(self) -> (r: String) {
        format_uint(self as u128)
    }
}

impl NumberText for u64 {
    open spec fn number_text(&self) -> Seq<char> {
        int_text(*self as int)
    }

    fn into_number_text(self) -> (r: String) {
        format_uint(self as u128)
    }
}

impl NumberText for u128 {
    open spec fn number_text(&self) -> Seq<char> {
        int_text(*self as int)
    }

    fn into_number_text(self) -> (r: String) {
        format_uint(self as u128)
    }
}

impl NumberText for usize {
    open spec fn number_text(&self) -> Seq<char> {
        int_text(*self as int)
    }

    fn into_number_text(self) -> (r: String) {
        format_uint(self as u128)
    }
}

} // verus!
