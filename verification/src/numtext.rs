//! Numbers as text, and text put together from pieces.

use vstd::arithmetic::power::{lemma_pow_positive, pow};
use vstd::prelude::*;

verus! {

/// A decimal digit as a character.
pub open spec fn digit(d: nat) -> char {
    if d == 0 {
        '0'
    } else if d == 1 {
        '1'
    } else if d == 2 {
        '2'
    } else if d == 3 {
        '3'
    } else if d == 4 {
        '4'
    } else if d == 5 {
        '5'
    } else if d == 6 {
        '6'
    } else if d == 7 {
        '7'
    } else if d == 8 {
        '8'
    } else {
        '9'
    }
}

fn digit_char(d: u8) -> (c: char)
    requires
        d < 10,
    ensures
        c == digit(d as nat),
{
    if d == 0 {
        '0'
    } else if d == 1 {
        '1'
    } else if d == 2 {
        '2'
    } else if d == 3 {
        '3'
    } else if d == 4 {
        '4'
    } else if d == 5 {
        '5'
    } else if d == 6 {
        '6'
    } else if d == 7 {
        '7'
    } else if d == 8 {
        '8'
    } else {
        '9'
    }
}

/// A number in decimal, without leading zeros.
pub open spec fn decimal(n: nat) -> Seq<char>
    decreases n,
{
    if n < 10 {
        seq![digit(n)]
    } else {
        decimal(n / 10).push(digit(n % 10))
    }
}

/// A number in decimal, in exactly `width` digits: the last ones, with zeros in
/// front where there are fewer.
pub open spec fn padded(n: nat, width: nat) -> Seq<char>
    decreases width,
{
    if width == 0 {
        Seq::empty()
    } else {
        padded(n / 10, (width - 1) as nat).push(digit(n % 10))
    }
}

/// A number in decimal.
pub fn decimal_text(n: u128) -> (out: String)
    ensures
        out@ == decimal(n as nat),
    decreases n,
{
    let mut out = if n < 10 {
        String::new()
    } else {
        decimal_text(n / 10)
    };
    out.push(digit_char((n % 10) as u8));
    assert(n < 10 ==> out@ =~= decimal(n as nat));
    out
}

/// A number in exactly so many digits.
pub fn padded_text(n: u128, width: usize) -> (out: String)
    ensures
        out@ == padded(n as nat, width as nat),
    decreases width,
{
    if width == 0 {
        return String::new();
    }
    let mut out = padded_text(n / 10, width - 1);
    out.push(digit_char((n % 10) as u8));
    out
}

/// The quotient rounded to the nearest whole number, to the even one where two
/// are equally near.
pub open spec fn rounded(num: nat, den: nat) -> nat {
    let q = num / den;
    let r = num % den;
    if 2 * r > den || (2 * r == den && q % 2 == 1) {
        q + 1
    } else {
        q
    }
}

fn round_div(num: u128, den: u128) -> (q: u128)
    requires
        den > 0,
        num < u128::MAX,
    ensures
        q == rounded(num as nat, den as nat),
{
    let q: u128 = num / den;
    let r: u128 = num % den;
    proof {
        vstd::arithmetic::div_mod::lemma_fundamental_div_mod(num as int, den as int);
        assert(q <= num) by (nonlinear_arith)
            requires
                num == den * q + r,
                den >= 1,
                r >= 0,
                q >= 0,
        ;
    }
    if r > den - r || (r == den - r && q % 2 == 1) {
        q + 1
    } else {
        q
    }
}

/// A fraction with one digit after the point.
pub open spec fn tenths(num: nat, den: nat) -> Seq<char> {
    let t = rounded(num * 10, den);
    decimal(t / 10).push('.').push(digit(t % 10))
}

/// A fraction with two digits after the point.
pub open spec fn hundredths(num: nat, den: nat) -> Seq<char> {
    let t = rounded(num * 100, den);
    decimal(t / 100).push('.') + padded(t % 100, 2)
}

/// A fraction rounded to a whole number, in decimal.
pub fn whole_text(num: u128, den: u128) -> (out: String)
    requires
        den > 0,
        num < u128::MAX,
    ensures
        out@ == decimal(rounded(num as nat, den as nat)),
{
    decimal_text(round_div(num, den))
}

/// A fraction with one digit after the point.
pub fn tenths_text(num: u128, den: u128) -> (out: String)
    requires
        den > 0,
        num <= u128::MAX / 100,
    ensures
        out@ == tenths(num as nat, den as nat),
{
    let t: u128 = round_div(num * 10, den);
    let mut out = decimal_text(t / 10);
    out.push('.');
    out.push(digit_char((t % 10) as u8));
    out
}

/// A fraction with two digits after the point.
pub fn hundredths_text(num: u128, den: u128) -> (out: String)
    requires
        den > 0,
        num <= u128::MAX / 1000,
    ensures
        out@ == hundredths(num as nat, den as nat),
{
    let t: u128 = round_div(num * 100, den);
    let mut out = decimal_text(t / 100);
    out.push('.');
    let rest = padded_text(t % 100, 2);
    out.append(rest.as_str());
    out
}

/// The pieces one after the other.
pub open spec fn flat(parts: Seq<Seq<char>>) -> Seq<char>
    decreases parts.len(),
{
    if parts.len() == 0 {
        Seq::empty()
    } else {
        flat(parts.drop_last()) + parts.last()
    }
}

/// The texts of some strings.
pub open spec fn views(parts: Seq<&str>) -> Seq<Seq<char>> {
    parts.map_values(|p: &str| p@)
}

/// Puts pieces of text together.
pub fn concat(parts: &Vec<&str>) -> (out: String)
    ensures
        out@ == flat(views(parts@)),
{
    let mut out = String::new();
    let mut i: usize = 0;
    assert(views(parts@).take(0) =~= Seq::<Seq<char>>::empty());
    while i < parts.len()
        invariant
            i <= parts@.len(),
            out@ == flat(views(parts@).take(i as int)),
        decreases parts@.len() - i,
    {
        assert(views(parts@).take(i + 1).drop_last() =~= views(parts@).take(i as int));
        out.append(parts[i]);
        i = i + 1;
    }
    assert(views(parts@).take(i as int) =~= views(parts@));
    out
}

/// The value of a decimal text.
pub open spec fn value_of(digits: Seq<char>) -> nat
    decreases digits.len(),
{
    if digits.len() == 0 {
        0
    } else {
        value_of(digits.drop_last()) * 10 + digit_value(digits.last())
    }
}

/// The value of a decimal digit.
pub open spec fn digit_value(c: char) -> nat {
    if '0' <= c && c <= '9' {
        (c as nat - '0' as nat) as nat
    } else {
        0
    }
}

/// The character is a decimal digit.
pub open spec fn is_digit(c: char) -> bool {
    '0' <= c && c <= '9'
}

/// Law: a number can be read back from its decimal text, which holds nothing
/// but digits.
pub proof fn law_decimal_reads_back(n: nat)
    ensures
        value_of(decimal(n)) == n,
        forall|i: int| 0 <= i < decimal(n).len() ==> is_digit(#[trigger] decimal(n)[i]),
        decimal(n).len() >= 1,
    decreases n,
{
    if n >= 10 {
        law_decimal_reads_back(n / 10);
        assert(decimal(n).drop_last() =~= decimal(n / 10));
    } else {
        assert(decimal(n).drop_last() =~= Seq::<char>::empty());
        assert(value_of(decimal(n).drop_last()) == 0);
    }
}

/// Law: a number is what its padded text reads, cut to the digits it shows.
pub proof fn law_padded_reads_back(n: nat, width: nat)
    ensures
        padded(n, width).len() == width,
        value_of(padded(n, width)) == n % pow(10, width) as nat,
        forall|i: int| 0 <= i < width ==> is_digit(#[trigger] padded(n, width)[i]),
    decreases width,
{
    lemma_pow_positive(10, width);
    if width > 0 {
        let w = (width - 1) as nat;
        law_padded_reads_back(n / 10, w);
        assert(padded(n, width).drop_last() =~= padded(n / 10, w));
        lemma_pow_positive(10, w);
        let p = pow(10, w);
        vstd::arithmetic::power::lemma_pow_adds(10, 1, w);
        vstd::arithmetic::power::lemma_pow1(10);
        assert(pow(10, width) == 10 * p);
        vstd::arithmetic::div_mod::lemma_breakdown(n as int, 10, p);
        assert(((n as int) % (10 * p)) == 10 * (((n as int) / 10) % p) + (n as int) % 10);
    } else {
        reveal(pow);
    }
}

/// Pieces with a separator between them.
pub open spec fn joined(parts: Seq<Seq<char>>, sep: Seq<char>) -> Seq<char>
    decreases parts.len(),
{
    if parts.len() == 0 {
        Seq::empty()
    } else if parts.len() == 1 {
        parts[0]
    } else {
        joined(parts.drop_last(), sep) + sep + parts.last()
    }
}

/// The texts of some owned strings.
pub open spec fn owned_views(parts: Seq<String>) -> Seq<Seq<char>> {
    parts.map_values(|p: String| p@)
}

/// Puts pieces of text together with a separator between them.
pub fn join(parts: &Vec<String>, sep: &str) -> (out: String)
    ensures
        out@ == joined(owned_views(parts@), sep@),
{
    let mut out = String::new();
    let ghost all = owned_views(parts@);
    let mut i: usize = 0;
    assert(all.take(0) =~= Seq::<Seq<char>>::empty());
    while i < parts.len()
        invariant
            i <= parts@.len(),
            all == owned_views(parts@),
            out@ == joined(all.take(i as int), sep@),
        decreases parts@.len() - i,
    {
        assert(all.take(i + 1).drop_last() =~= all.take(i as int));
        if i > 0 {
            out.append(sep);
        }
        out.append(parts[i].as_str());
        assert(i == 0 ==> out@ =~= all[0]);
        i = i + 1;
    }
    assert(all.take(i as int) =~= all);
    out
}

/// A whole number of thousandths rounded to a whole number, with its sign.
pub open spec fn signed_whole(milli: int) -> Seq<char> {
    if milli < 0 {
        "-"@ + decimal(rounded((-milli) as nat, 1000))
    } else {
        decimal(rounded(milli as nat, 1000))
    }
}

/// A whole number of thousandths rounded to a whole number, with its sign.
pub fn signed_whole_text(milli: i64) -> (out: String)
    ensures
        out@ == signed_whole(milli as int),
{
    if milli < 0 {
        let mut out = "-".to_owned();
        let rest = whole_text((-(milli as i128)) as u128, 1000);
        out.append(rest.as_str());
        out
    } else {
        whole_text(milli as u128, 1000)
    }
}

/// A text that is a decimal number: digits, perhaps with a plus sign in front.
pub open spec fn is_number(s: Seq<char>) -> bool {
    let d = number_digits(s);
    d.len() > 0 && forall|i: int| 0 <= i < d.len() ==> is_digit(#[trigger] d[i])
}

/// The digits of a number.
pub open spec fn number_digits(s: Seq<char>) -> Seq<char> {
    if s.len() > 1 && s[0] == '+' {
        s.drop_first()
    } else {
        s
    }
}

/// The number a text stands for, where it is no larger than `max`.
pub open spec fn parsed(s: Seq<char>, max: nat) -> Option<nat> {
    if is_number(s) && value_of(number_digits(s)) <= max {
        Some(value_of(number_digits(s)))
    } else {
        None
    }
}

proof fn lemma_value_grows(d: Seq<char>, i: int)
    requires
        0 <= i <= d.len(),
    ensures
        value_of(d.take(i)) <= value_of(d),
    decreases d.len() - i,
{
    if i < d.len() {
        assert(d.take(i + 1).drop_last() =~= d.take(i));
        lemma_value_grows(d, i + 1);
    } else {
        assert(d.take(i) =~= d);
    }
}

/// Reads a decimal number that is no larger than `max`.
pub fn parse_number(s: &str, max: u64) -> (n: Option<u64>)
    ensures
        match n {
            None => parsed(s@, max as nat) is None,
            Some(v) => parsed(s@, max as nat) == Some(v as nat),
        },
{
    let chars = crate::text::chars_of(s);
    let start: usize = if chars.len() > 1 && chars[0] == '+' {
        1
    } else {
        0
    };
    let ghost d = number_digits(s@);
    assert(d =~= s@.skip(start as int));
    if chars.len() == start {
        return None;
    }
    let mut v: u128 = 0;
    let mut i: usize = start;
    assert(d.take(0) =~= Seq::<char>::empty());
    while i < chars.len()
        invariant
            start <= i <= chars@.len(),
            chars@ == s@,
            d == s@.skip(start as int),
            d == number_digits(s@),
            v <= max,
            v == value_of(d.take(i - start)),
            forall|k: int| 0 <= k < i - start ==> is_digit(#[trigger] d[k]),
        decreases chars@.len() - i,
    {
        let c = chars[i];
        let ghost at = i - start;
        assert(d[at] == c);
        assert(d.take(at + 1).drop_last() =~= d.take(at));
        if !('0' <= c && c <= '9') {
            assert(!is_digit(d[at]));
            return None;
        }
        let digit: u128 = (c as u32 - '0' as u32) as u128;
        v = v * 10 + digit;
        if v > max as u128 {
            proof {
                lemma_value_grows(d, at + 1);
            }
            return None;
        }
        i = i + 1;
    }
    assert(d.take(i - start) =~= d);
    Some(v as u64)
}

} // verus!
