//! Text primitives: characters of a string, decimal digits, joining.

use vstd::prelude::*;
use vstd::string::StringExecFns;
use vstd::arithmetic::div_mod::lemma_mod_breakdown;
use crate::scale::{pow10, lemma_pow10_positive};

verus! {

/// `String::push` appends one character at the end of the string.
pub assume_specification[ String::push ](s: &mut String, ch: char)
    ensures
        final(s)@ == old(s)@.push(ch),
;

/// The characters of `s`, in order.
pub fn chars_of(s: &str) -> (v: Vec<char>)
    ensures
        v@ == s@,
{
    let mut v: Vec<char> = Vec::new();
    for c in it: s.chars()
        invariant
            it.seq() == s@,
            v@ == s@.take(it.index()),
    {
        v.push(c);
    }
    v
}

/// Whether `c` is one of `0` to `9`.
pub open spec fn is_digit(c: char) -> bool {
    '0' <= c <= '9'
}

/// The digit character of `d`, for `d` below ten.
pub open spec fn digit_char(d: nat) -> char {
    ((48 + d) as u8) as char
}

/// The number that the digit character `c` stands for.
pub open spec fn digit_value(c: char) -> nat {
    (c as u8 - 48) as nat
}

/// The digit character of `d`.
pub(crate) fn digit_to_char(d: u8) -> (c: char)
    requires
        d < 10,
    ensures
        c == digit_char(d as nat),
        is_digit(c),
        digit_value(c) == d,
{
    (48u8 + d) as char
}

/// The number that `c` stands for, if `c` is a digit.
pub fn char_to_digit(c: char) -> (r: Option<u8>)
    ensures
        r is Some <==> is_digit(c),
        r matches Some(d) ==> d == digit_value(c) && d < 10 && digit_char(d as nat) == c,
{
    if '0' <= c && c <= '9' {
        Some((c as u8) - 48u8)
    } else {
        None
    }
}


/// Whether every character of `s` is a digit.
pub open spec fn all_digits(s: Seq<char>) -> bool {
    forall|i: int| 0 <= i < s.len() ==> is_digit(#[trigger] s[i])
}

/// The decimal notation of `n`, without leading zeros.
pub open spec fn digits_of(n: nat) -> Seq<char>
    decreases n,
{
    if n < 10 {
        seq![digit_char(n)]
    } else {
        digits_of(n / 10).push(digit_char(n % 10))
    }
}

/// The lowest `width` decimal digits of `n`, with zeros in front.
pub open spec fn padded_digits(n: nat, width: nat) -> Seq<char>
    decreases width,
{
    if width == 0 {
        Seq::empty()
    } else {
        padded_digits(n / 10, (width - 1) as nat).push(digit_char(n % 10))
    }
}

/// The number that a sequence of digits denotes; the empty one denotes 0.
pub open spec fn digits_value(s: Seq<char>) -> nat
    decreases s.len(),
{
    if s.len() == 0 {
        0
    } else {
        10 * digits_value(s.drop_last()) + digit_value(s.last())
    }
}

/// The notation of a number is at least one character, all digits.
pub proof fn lemma_digits_of_shape(n: nat)
    ensures
        digits_of(n).len() >= 1,
        all_digits(digits_of(n)),
    decreases n,
{
    if n >= 10 {
        lemma_digits_of_shape(n / 10);
    }
}

/// Padded digits are `width` characters, all digits.
pub proof fn lemma_padded_digits_shape(n: nat, width: nat)
    ensures
        padded_digits(n, width).len() == width,
        all_digits(padded_digits(n, width)),
    decreases width,
{
    if width > 0 {
        lemma_padded_digits_shape(n / 10, (width - 1) as nat);
    }
}

/// Reading back the notation of `n` gives `n`.
pub proof fn lemma_value_of_digits(n: nat)
    ensures
        digits_value(digits_of(n)) == n,
    decreases n,
{
    if n < 10 {
        let s = digits_of(n);
        assert(s.drop_last().len() == 0);
        assert(digits_value(s.drop_last()) == 0);
    } else {
        lemma_value_of_digits(n / 10);
        let s = digits_of(n);
        assert(s.drop_last() == digits_of(n / 10));
    }
}

/// Reading back `width` padded digits of `n` gives `n` modulo `10^width`.
pub proof fn lemma_value_of_padded(n: nat, width: nat)
    ensures
        digits_value(padded_digits(n, width)) == n % pow10(width),
    decreases width,
{
    if width > 0 {
        let w = (width - 1) as nat;
        lemma_value_of_padded(n / 10, w);
        let s = padded_digits(n, width);
        assert(s.drop_last() == padded_digits(n / 10, w));
        lemma_pow10_positive(w);
        lemma_mod_breakdown(n as int, 10, pow10(w) as int);
    }
}

/// Digits written one after the other: the left part counts for as many
/// powers of ten as the right part has digits.
pub proof fn lemma_value_of_concat(a: Seq<char>, b: Seq<char>)
    ensures
        digits_value(a + b) == digits_value(a) * pow10(b.len()) + digits_value(b),
    decreases b.len(),
{
    if b.len() == 0 {
        assert(a + b == a);
        assert(digits_value(a) * 1 == digits_value(a));
    } else {
        lemma_value_of_concat(a, b.drop_last());
        assert((a + b).drop_last() == a + b.drop_last());
        let x = digits_value(a) as int;
        let p = pow10((b.len() - 1) as nat) as int;
        assert(10 * (x * p) == x * (10 * p)) by (nonlinear_arith);
    }
}

/// `count` zeros.
pub open spec fn zeros(count: nat) -> Seq<char> {
    Seq::new(count, |i: int| '0')
}

/// A number times a power of ten has the number's digits and then zeros.
pub proof fn lemma_padded_digits_shifted(n: nat, width: nat, count: nat)
    ensures
        padded_digits(n * pow10(count), width + count) == padded_digits(n, width) + zeros(count),
    decreases count,
{
    if count == 0 {
        assert(n * 1 == n);
        assert(padded_digits(n, width) + zeros(0) == padded_digits(n, width));
    } else {
        let less = (count - 1) as nat;
        lemma_padded_digits_shifted(n, width, less);
        let shifted = n * pow10(count);
        assert(shifted == 10 * (n * pow10(less))) by (nonlinear_arith)
            requires
                shifted == n * pow10(count),
                pow10(count) == 10 * pow10(less),
        ;
        assert(padded_digits(shifted, width + count) == padded_digits(
            n * pow10(less),
            width + less,
        ).push('0'));
        assert((padded_digits(n, width) + zeros(less)).push('0') == padded_digits(n, width)
            + zeros(count));
    }
}

/// Appends `count` zeros to `out`.
pub fn push_zeros(out: &mut String, count: u8)
    ensures
        final(out)@ == old(out)@ + zeros(count as nat),
{
    let mut i: u8 = 0;
    proof {
        assert(out@ + zeros(0) == out@);
    }
    while i < count
        invariant
            i <= count,
            out@ == old(out)@ + zeros(i as nat),
        decreases count - i,
    {
        proof {
            assert((old(out)@ + zeros(i as nat)).push('0') == old(out)@ + zeros((i + 1) as nat));
        }
        out.push('0');
        i = i + 1;
    }
}

/// Appends the decimal notation of `n` to `out`.
pub fn push_digits(out: &mut String, n: u128)
    ensures
        final(out)@ == old(out)@ + digits_of(n as nat),
    decreases n,
{
    if n >= 10 {
        push_digits(out, n / 10);
    }
    out.push(digit_to_char((n % 10) as u8));
}

/// Appends the lowest `width` digits of `n` to `out`, with zeros in front.
pub fn push_padded(out: &mut String, n: u128, width: u8)
    ensures
        final(out)@ == old(out)@ + padded_digits(n as nat, width as nat),
    decreases width,
{
    if width > 0 {
        push_padded(out, n / 10, width - 1);
        out.push(digit_to_char((n % 10) as u8));
    }
}


/// Whether the two strings hold the same characters.
pub fn same_text(a: &str, b: &str) -> (r: bool)
    ensures
        r == (a@ == b@),
{
    let x = chars_of(a);
    let y = chars_of(b);
    if x.len() != y.len() {
        return false;
    }
    let mut i: usize = 0;
    while i < x.len()
        invariant
            i <= x.len(),
            x.len() == y.len(),
            x@ == a@,
            y@ == b@,
            forall|j: int| 0 <= j < i ==> x@[j] == y@[j],
        decreases x.len() - i,
    {
        if x[i] != y[i] {
            assert(a@[i as int] != b@[i as int]);
            return false;
        }
        i = i + 1;
    }
    proof {
        assert(x@ =~= y@);
    }
    true
}


/// The character sequences of a sequence of strings.
pub open spec fn texts(lines: Seq<String>) -> Seq<Seq<char>> {
    lines.map_values(|line: String| line@)
}

/// A labelled field: the key, a colon and a blank, the value.
pub open spec fn labelled_text(key: Seq<char>, value: Seq<char>) -> Seq<char> {
    key + ": "@ + value
}

/// The parts one after the other, with `separator` between each two.
pub open spec fn joined(parts: Seq<Seq<char>>, separator: Seq<char>) -> Seq<char>
    decreases parts.len(),
{
    if parts.len() == 0 {
        Seq::empty()
    } else if parts.len() == 1 {
        parts[0]
    } else {
        joined(parts.drop_last(), separator) + separator + parts.last()
    }
}

/// The decimal notation of a signed number: a minus sign before the digits
/// of a negative one.
pub open spec fn signed_digits(n: int) -> Seq<char> {
    if n < 0 {
        seq!['-'] + digits_of((-n) as nat)
    } else {
        digits_of(n as nat)
    }
}

/// Appends `line` to `lines`.
pub fn push_line(lines: &mut Vec<String>, line: String)
    ensures
        texts(final(lines)@) == texts(old(lines)@).push(line@),
        final(lines)@ == old(lines)@.push(line),
{
    lines.push(line);
    proof {
        assert(texts(lines@) =~= texts(old(lines)@).push(line@));
    }
}

/// The labelled field of `key` and `value`.
pub fn labelled(key: &str, value: &str) -> (r: String)
    ensures
        r@ == labelled_text(key@, value@),
{
    let mut out = String::from_str(key);
    out.append(": ");
    out.append(value);
    out
}

/// `prefix` followed by `value`.
pub fn prefixed(prefix: &str, value: &str) -> (r: String)
    ensures
        r@ == prefix@ + value@,
{
    let mut out = String::from_str(prefix);
    out.append(value);
    out
}

/// The decimal notation of `n`.
pub fn number_text(n: u64) -> (r: String)
    ensures
        r@ == digits_of(n as nat),
{
    let mut out = String::new();
    push_digits(&mut out, n as u128);
    out
}

/// The decimal notation of the signed number `n`.
pub fn signed_text(n: i64) -> (r: String)
    ensures
        r@ == signed_digits(n as int),
{
    let mut out = String::new();
    if n < 0 {
        out.push('-');
        let magnitude: u128 = (-(n as i128)) as u128;
        push_digits(&mut out, magnitude);
    } else {
        push_digits(&mut out, n as u128);
    }
    out
}

/// The strings of `parts` one after the other, with `separator` between
/// each two.
pub fn join(parts: &Vec<String>, separator: &str) -> (r: String)
    ensures
        r@ == joined(texts(parts@), separator@),
{
    let mut out = String::new();
    let mut i: usize = 0;
    let ghost all = texts(parts@);
    proof {
        assert(all.take(0).len() == 0);
    }
    while i < parts.len()
        invariant
            i <= parts.len(),
            all == texts(parts@),
            out@ == joined(all.take(i as int), separator@),
        decreases parts.len() - i,
    {
        proof {
            let before = all.take(i as int);
            let after = all.take(i + 1);
            assert(after.drop_last() == before);
            assert(after.last() == parts@[i as int]@);
            if i == 0 {
                assert(before.len() == 0);
                assert(Seq::<char>::empty() + parts@[i as int]@ == parts@[i as int]@);
            }
        }
        if i > 0 {
            out.append(separator);
        }
        out.append(parts[i].as_str());
        i = i + 1;
    }
    proof {
        assert(all.take(i as int) == all);
    }
    out
}

} // verus!
