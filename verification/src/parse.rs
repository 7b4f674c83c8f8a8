//! Reading decimal notation back into an exact decimal.

use vstd::prelude::*;
use crate::decimal::{Decimal, DecimalValue};
use crate::scale::{lemma_pow10_add, lemma_pow10_limits, lemma_pow10_monotone,
    lemma_pow10_positive, pow10, pow10_u128, MAX_SCALE};
use crate::text::{char_to_digit, chars_of, digit_value, digits_value, is_digit,
    lemma_value_of_concat};

verus! {

/// How many characters at the start of `s` are digits.
pub open spec fn digits_end(s: Seq<char>) -> nat
    decreases s.len(),
{
    if s.len() > 0 && is_digit(s[0]) {
        1 + digits_end(s.drop_first())
    } else {
        0
    }
}

/// The decimal that a plain number denotes: digits, optionally followed
/// by a dot and more digits, with at least one digit in all: `12`, `12.`,
/// `12.50`, `.5`.
pub open spec fn plain_decimal_text(s: Seq<char>) -> Option<DecimalValue> {
    let k = digits_end(s) as int;
    let whole = s.subrange(0, k);
    if k == s.len() {
        if k > 0 {
            Some(DecimalValue { mantissa: digits_value(whole), scale: 0 })
        } else {
            None
        }
    } else if s[k] == '.' {
        let frac = s.subrange(k + 1, s.len() as int);
        if digits_end(frac) == frac.len() && k + frac.len() > 0 {
            Some(DecimalValue { mantissa: digits_value(whole + frac), scale: frac.len() })
        } else {
            None
        }
    } else {
        None
    }
}

/// Whether `c` is a sign.
pub open spec fn is_sign(c: char) -> bool {
    c == '+' || c == '-'
}

/// Whether `c` opens an exponent.
pub open spec fn is_exponent_mark(c: char) -> bool {
    c == 'e' || c == 'E'
}

/// How many characters at the start of `s` come before an exponent.
pub open spec fn number_end(s: Seq<char>) -> nat
    decreases s.len(),
{
    if s.len() > 0 && !is_exponent_mark(s[0]) {
        1 + number_end(s.drop_first())
    } else {
        0
    }
}

/// The exponent that `s` states: at least one digit, with a sign before
/// or without. The result says whether it is negative, and its size.
pub open spec fn exponent_text(s: Seq<char>) -> Option<(bool, nat)> {
    let signed = s.len() > 0 && is_sign(s[0]);
    let digits = if signed { s.drop_first() } else { s };
    if digits.len() > 0 && digits_end(digits) == digits.len() {
        Some((signed && s[0] == '-', digits_value(digits)))
    } else {
        None
    }
}

/// `value` times ten to the exponent, or divided by it for a negative
/// exponent, as the exact decimal that this gives as it stands.
pub open spec fn shifted(value: DecimalValue, negative: bool, by: nat) -> DecimalValue {
    if negative {
        DecimalValue { mantissa: value.mantissa, scale: value.scale + by }
    } else if by <= value.scale {
        DecimalValue { mantissa: value.mantissa, scale: (value.scale - by) as nat }
    } else {
        DecimalValue {
            mantissa: value.mantissa * pow10((by - value.scale) as nat),
            scale: 0,
        }
    }
}

/// The decimal that `s` denotes. Accepted is a plain number (see
/// [`plain_decimal_text`]) with a sign before it or without, and with an
/// exponent behind it or without: `12.50`, `+.5`, `1.5e3`, `25E-2`. A
/// minus sign is accepted before zero only, since no quantity here is
/// below zero. No blank is accepted, and no word for a number that is
/// none.
pub open spec fn parse_decimal_text(s: Seq<char>) -> Option<DecimalValue> {
    let signed = s.len() > 0 && is_sign(s[0]);
    let body = if signed { s.drop_first() } else { s };
    let k = number_end(body) as int;
    match plain_decimal_text(body.subrange(0, k)) {
        None => None,
        Some(value) => if signed && s[0] == '-' && value.mantissa != 0 {
            None
        } else if k == body.len() {
            Some(value)
        } else {
            match exponent_text(body.subrange(k + 1, body.len() as int)) {
                None => None,
                Some((negative, by)) => Some(shifted(value, negative, by)),
            }
        },
    }
}

/// The number of `s` ends at `k` when nothing before `k` opens an
/// exponent and the character at `k`, if there is one, does.
pub proof fn lemma_number_end(s: Seq<char>, k: int)
    requires
        0 <= k <= s.len(),
        forall|j: int| 0 <= j < k ==> !is_exponent_mark(#[trigger] s[j]),
        k < s.len() ==> is_exponent_mark(s[k]),
    ensures
        number_end(s) == k,
    decreases k,
{
    if k > 0 {
        let rest = s.drop_first();
        assert forall|j: int| 0 <= j < k - 1 implies !is_exponent_mark(#[trigger] rest[j]) by {
            assert(rest[j] == s[j + 1]);
        }
        lemma_number_end(rest, k - 1);
    }
}

/// A text of digits and dots alone, with no sign and no exponent, denotes
/// what it denotes as a plain number.
pub proof fn lemma_plain_text_parses(s: Seq<char>)
    requires
        forall|j: int| 0 <= j < s.len() ==> is_digit(#[trigger] s[j]) || s[j] == '.',
    ensures
        parse_decimal_text(s) == plain_decimal_text(s),
{
    lemma_number_end(s, s.len() as int);
    assert(s.subrange(0, s.len() as int) == s);
}

/// The digits of `s` end at `k` when everything before `k` is a digit and
/// the character at `k`, if there is one, is not.
pub proof fn lemma_digits_end(s: Seq<char>, k: int)
    requires
        0 <= k <= s.len(),
        forall|j: int| 0 <= j < k ==> is_digit(#[trigger] s[j]),
        k < s.len() ==> !is_digit(s[k]),
    ensures
        digits_end(s) == k,
    decreases k,
{
    if k > 0 {
        let rest = s.drop_first();
        assert forall|j: int| 0 <= j < k - 1 implies is_digit(#[trigger] rest[j]) by {
            assert(rest[j] == s[j + 1]);
        }
        lemma_digits_end(rest, k - 1);
    }
}

/// The number read so far, continued by the digits `s`.
pub open spec fn continued_value(acc: nat, s: Seq<char>) -> nat {
    acc * pow10(s.len()) + digits_value(s)
}

proof fn lemma_continued_step(acc: nat, s: Seq<char>, c: char)
    ensures
        continued_value(acc, s.push(c)) == 10 * continued_value(acc, s) + digit_value(c),
{
    let t = s.push(c);
    assert(t.drop_last() == s);
    let p = pow10(s.len()) as int;
    let a = acc as int;
    assert(a * (10 * p) == 10 * (a * p)) by (nonlinear_arith);
}

proof fn lemma_continued_grows(acc: nat, a: Seq<char>, b: Seq<char>)
    ensures
        continued_value(acc, a + b) >= continued_value(acc, a),
        continued_value(acc, a + b) == continued_value(continued_value(acc, a), b),
{
    lemma_value_of_concat(a, b);
    lemma_pow10_add(a.len(), b.len());
    lemma_pow10_positive(b.len());
    let x = acc as int;
    let pa = pow10(a.len()) as int;
    let pb = pow10(b.len()) as int;
    let va = digits_value(a) as int;
    let vb = digits_value(b) as int;
    assert(x * (pa * pb) + (va * pb + vb) == (x * pa + va) * pb + vb) by (nonlinear_arith);
    assert((x * pa + va) * pb >= x * pa + va) by (nonlinear_arith)
        requires
            pb >= 1,
            x * pa + va >= 0,
    ;
}

/// The index at which the digits that start at `from` end.
fn scan_digits(c: &Vec<char>, from: usize) -> (end: usize)
    requires
        from <= c.len(),
    ensures
        from <= end <= c.len(),
        forall|j: int| from <= j < end ==> is_digit(#[trigger] c@[j]),
        end < c.len() ==> !is_digit(c@[end as int]),
{
    let mut i: usize = from;
    while i < c.len()
        invariant
            from <= i <= c.len(),
            forall|j: int| from <= j < i ==> is_digit(#[trigger] c@[j]),
        decreases c.len() - i,
    {
        if char_to_digit(c[i]).is_none() {
            return i;
        }
        i = i + 1;
    }
    i
}

/// Continues the number `acc` by the digits of `c` between `from` and `to`,
/// if the result fits.
fn read_digits(acc: u128, c: &Vec<char>, from: usize, to: usize) -> (r: Option<u128>)
    requires
        from <= to <= c.len(),
        forall|j: int| from <= j < to ==> is_digit(#[trigger] c@[j]),
    ensures
        r is Some <==> continued_value(acc as nat, c@.subrange(from as int, to as int))
            <= u128::MAX,
        r matches Some(v) ==> v == continued_value(
            acc as nat,
            c@.subrange(from as int, to as int),
        ),
{
    let ghost all = c@.subrange(from as int, to as int);
    let mut cur: u128 = acc;
    let mut i: usize = from;
    proof {
        assert(c@.subrange(from as int, from as int).len() == 0);
        assert(acc * 1 == acc);
    }
    while i < to
        invariant
            from <= i <= to <= c.len(),
            all == c@.subrange(from as int, to as int),
            forall|j: int| from <= j < to ==> is_digit(#[trigger] c@[j]),
            cur == continued_value(acc as nat, c@.subrange(from as int, i as int)),
        decreases to - i,
    {
        let ghost seen = c@.subrange(from as int, i as int);
        let ghost next = c@.subrange(from as int, i + 1);
        let d: u8 = match char_to_digit(c[i]) {
            Some(d) => d,
            None => 0,
        };
        proof {
            assert(next == seen.push(c@[i as int]));
            lemma_continued_step(acc as nat, seen, c@[i as int]);
            assert(all == next + c@.subrange(i + 1, to as int));
            lemma_continued_grows(acc as nat, next, c@.subrange(i + 1, to as int));
        }
        let grown: u128 = match cur.checked_mul(10) {
            Some(t) => match t.checked_add(d as u128) {
                Some(g) => g,
                None => { return None; },
            },
            None => { return None; },
        };
        cur = grown;
        i = i + 1;
    }
    proof {
        assert(c@.subrange(from as int, i as int) == all);
    }
    Some(cur)
}

/// The index at which the number that starts at `from` ends: that of the
/// first character that opens an exponent.
fn scan_number(c: &Vec<char>, from: usize) -> (end: usize)
    requires
        from <= c.len(),
    ensures
        from <= end <= c.len(),
        forall|j: int| from <= j < end ==> !is_exponent_mark(#[trigger] c@[j]),
        end < c.len() ==> is_exponent_mark(c@[end as int]),
{
    let mut i: usize = from;
    while i < c.len()
        invariant
            from <= i <= c.len(),
            forall|j: int| from <= j < i ==> !is_exponent_mark(#[trigger] c@[j]),
        decreases c.len() - i,
    {
        if c[i] == 'e' || c[i] == 'E' {
            return i;
        }
        i = i + 1;
    }
    i
}

/// The characters of `c` from `from` up to `to`.
fn sub_chars(c: &Vec<char>, from: usize, to: usize) -> (r: Vec<char>)
    requires
        from <= to <= c.len(),
    ensures
        r@ == c@.subrange(from as int, to as int),
{
    let mut out: Vec<char> = Vec::new();
    let mut i: usize = from;
    while i < to
        invariant
            from <= i <= to <= c.len(),
            out@ == c@.subrange(from as int, i as int),
        decreases to - i,
    {
        out.push(c[i]);
        proof {
            assert(out@ == c@.subrange(from as int, i + 1));
        }
        i = i + 1;
    }
    out
}

/// The mantissa and the count of fraction digits of the plain number `c`,
/// if it is one and its mantissa fits.
fn read_plain(c: &Vec<char>) -> (r: Option<(u128, usize)>)
    ensures
        r is Some <==> (plain_decimal_text(c@) matches Some(v) && v.mantissa <= u128::MAX),
        r matches Some(found) ==> plain_decimal_text(c@) == Some(
            DecimalValue { mantissa: found.0 as nat, scale: found.1 as nat },
        ),
{
    let n: usize = c.len();
    let k: usize = scan_digits(c, 0);
    let ghost whole = c@.subrange(0, k as int);
    proof {
        lemma_digits_end(c@, k as int);
    }
    if k == n {
        if k == 0 {
            return None;
        }
        proof {
            assert(0 * pow10(whole.len()) == 0);
        }
        return match read_digits(0, c, 0, k) {
            Some(m) => Some((m, 0)),
            None => None,
        };
    }
    if c[k] != '.' {
        return None;
    }
    let end: usize = scan_digits(c, k + 1);
    let ghost frac = c@.subrange(k + 1, n as int);
    proof {
        if end == n {
            assert forall|j: int| 0 <= j < frac.len() implies is_digit(#[trigger] frac[j]) by {
                assert(frac[j] == c@[k + 1 + j]);
            }
            lemma_digits_end(frac, frac.len() as int);
        } else {
            assert forall|j: int| 0 <= j < end - (k + 1) implies is_digit(#[trigger] frac[j]) by {
                assert(frac[j] == c@[k + 1 + j]);
            }
            assert(frac[end - (k + 1)] == c@[end as int]);
            lemma_digits_end(frac, end - (k + 1));
        }
    }
    if end != n || n - 1 == 0 {
        return None;
    }
    proof {
        assert(0 * pow10(whole.len()) == 0);
        lemma_continued_grows(0, whole, frac);
    }
    let head: u128 = match read_digits(0, c, 0, k) {
        Some(m) => m,
        None => { return None; },
    };
    match read_digits(head, c, k + 1, n) {
        Some(m) => Some((m, n - k - 1)),
        None => None,
    }
}

/// The exponent that `c` states: whether it is negative, and its size, or
/// `None` for the size where it is beyond 128 bits.
fn read_exponent(c: &Vec<char>) -> (r: Option<(bool, Option<u128>)>)
    ensures
        r is Some <==> exponent_text(c@) is Some,
        r matches Some(found) ==> (exponent_text(c@) matches Some(stated) && stated.0 == found.0
            && (found.1 matches Some(size) ==> stated.1 == size) && (found.1 is None
            ==> stated.1 > u128::MAX)),
{
    let n: usize = c.len();
    let signed: bool = n > 0 && (c[0] == '+' || c[0] == '-');
    let from: usize = if signed { 1 } else { 0 };
    let ghost digits = c@.subrange(from as int, n as int);
    proof {
        assert(digits == (if signed { c@.drop_first() } else { c@ }));
    }
    if from == n {
        return None;
    }
    let end: usize = scan_digits(c, from);
    proof {
        assert forall|j: int| 0 <= j < end - from implies is_digit(#[trigger] digits[j]) by {
            assert(digits[j] == c@[from + j]);
        }
        if end < n {
            assert(digits[end - from] == c@[end as int]);
        }
        lemma_digits_end(digits, end - from);
        assert(0 * pow10(digits.len()) == 0);
    }
    if end != n {
        return None;
    }
    Some((signed && c[0] == '-', read_digits(0, c, from, n)))
}

/// The decimal that has `mantissa` and `fraction` fraction digits, moved
/// by the exponent, if a [`Decimal`] can hold it as it stands.
fn with_exponent(
    mantissa: u128,
    fraction: usize,
    negative: bool,
    size: Option<u128>,
    Ghost(by): Ghost<nat>,
) -> (r: Option<Decimal>)
    requires
        size matches Some(held) ==> held == by,
        size is None ==> by > u128::MAX,
    ensures
        ({
            let moved = shifted(
                DecimalValue { mantissa: mantissa as nat, scale: fraction as nat },
                negative,
                by,
            );
            &&& r is Some <==> moved.representable()
            &&& r matches Some(d) ==> d@ == moved
        }),
{
    let max: u128 = MAX_SCALE as u128;
    let fraction: u128 = fraction as u128;
    let by_held: u128 = match size {
        Some(held) => held,
        None => {
            // beyond every scale and every factor that fits
            if !negative && mantissa == 0 {
                proof {
                    assert(0 * pow10((by - fraction) as nat) == 0);
                }
                return Decimal::new(0, 0);
            }
            proof {
                if !negative {
                    lemma_too_many_zeros(mantissa as nat, (by - fraction) as nat);
                }
            }
            return None;
        },
    };
    if negative {
        if by_held > max || fraction > max - by_held {
            return None;
        }
        Decimal::new(mantissa, (fraction + by_held) as u8)
    } else if by_held <= fraction {
        if fraction - by_held > max {
            return None;
        }
        Decimal::new(mantissa, (fraction - by_held) as u8)
    } else if mantissa == 0 {
        proof {
            assert(0 * pow10((by - fraction) as nat) == 0);
        }
        Decimal::new(0, 0)
    } else if by_held - fraction > max {
        proof {
            lemma_too_many_zeros(mantissa as nat, (by - fraction) as nat);
        }
        None
    } else {
        let factor: u128 = pow10_u128((by_held - fraction) as u8);
        match mantissa.checked_mul(factor) {
            Some(grown) => Decimal::new(grown, 0),
            None => None,
        }
    }
}

/// A number that is not zero, with more zeros behind it than
/// [`MAX_SCALE`], does not fit in 128 bits.
proof fn lemma_too_many_zeros(mantissa: nat, count: nat)
    requires
        mantissa >= 1,
        count > MAX_SCALE,
    ensures
        mantissa * pow10(count) > u128::MAX,
{
    lemma_pow10_monotone((MAX_SCALE + 1) as nat, count);
    lemma_pow10_limits();
    assert(pow10((MAX_SCALE + 1) as nat) == 10 * pow10(MAX_SCALE as nat));
    let p = pow10(count) as int;
    let m = mantissa as int;
    assert(m * p >= p) by (nonlinear_arith)
        requires
            m >= 1,
            p >= 0,
    ;
}

/// The decimal that `s` denotes, if it denotes one that a [`Decimal`] can
/// hold as it stands.
pub fn parse_decimal(s: &str) -> (r: Option<Decimal>)
    ensures
        r is Some <==> (parse_decimal_text(s@) matches Some(v) && v.representable()),
        r matches Some(d) ==> parse_decimal_text(s@) == Some(d@),
{
    let c = chars_of(s);
    let n: usize = c.len();
    let signed: bool = n > 0 && (c[0] == '+' || c[0] == '-');
    let from: usize = if signed { 1 } else { 0 };
    let ghost body = c@.subrange(from as int, n as int);
    proof {
        assert(body == (if signed { c@.drop_first() } else { c@ }));
    }
    let stop: usize = scan_number(&c, from);
    proof {
        assert forall|j: int| 0 <= j < stop - from implies !is_exponent_mark(#[trigger] body[j]) by {
            assert(body[j] == c@[from + j]);
        }
        if stop < n {
            assert(body[stop - from] == c@[stop as int]);
        }
        lemma_number_end(body, stop - from);
        assert(body.subrange(0, stop - from) == c@.subrange(from as int, stop as int));
    }
    let number = sub_chars(&c, from, stop);
    let (mantissa, fraction) = match read_plain(&number) {
        Some(found) => found,
        None => {
            proof {
                lemma_mantissa_stays(plain_decimal_text(number@), s@);
            }
            return None;
        },
    };
    if signed && c[0] == '-' && mantissa != 0 {
        return None;
    }
    if stop == n {
        if fraction > MAX_SCALE as usize {
            return None;
        }
        return Decimal::new(mantissa, fraction as u8);
    }
    proof {
        assert(body.subrange(stop - from + 1, body.len() as int) == c@.subrange(
            stop + 1,
            n as int,
        ));
    }
    let exponent = sub_chars(&c, stop + 1, n);
    match read_exponent(&exponent) {
        Some((negative, size)) => {
            let ghost stated = exponent_text(exponent@)->0;
            let ghost by = stated.1;
            with_exponent(mantissa, fraction, negative, size, Ghost(by))
        },
        None => None,
    }
}

/// An exponent never makes a mantissa smaller: a plain number whose
/// mantissa does not fit denotes nothing that fits, whatever follows it.
proof fn lemma_mantissa_stays(plain: Option<DecimalValue>, s: Seq<char>)
    requires
        ({
            let signed = s.len() > 0 && is_sign(s[0]);
            let body = if signed { s.drop_first() } else { s };
            plain == plain_decimal_text(body.subrange(0, number_end(body) as int))
        }),
        plain matches Some(v) ==> v.mantissa > u128::MAX,
    ensures
        parse_decimal_text(s) matches Some(v) ==> !v.representable(),
{
    if plain is Some && parse_decimal_text(s) is Some {
        let value = plain->0;
        let signed = s.len() > 0 && is_sign(s[0]);
        let body = if signed { s.drop_first() } else { s };
        let k = number_end(body) as int;
        if k != body.len() {
            let stated = exponent_text(body.subrange(k + 1, body.len() as int))->0;
            if !stated.0 && stated.1 > value.scale {
                let p = pow10((stated.1 - value.scale) as nat) as int;
                lemma_pow10_positive((stated.1 - value.scale) as nat);
                let m = value.mantissa as int;
                assert(m * p >= m) by (nonlinear_arith)
                    requires
                        m >= 0,
                        p >= 1,
                ;
            }
        }
    }
}

} // verus!
