//! Conversions between text and cell values.

use vstd::prelude::*;

verus! {

/// `v` is a Unicode scalar value, the range of `char`.
pub open spec fn is_scalar(v: u32) -> bool {
    v <= 0x10FFFF && !(0xD800 <= v <= 0xDFFF)
}

/// Every `char` is a Unicode scalar value.
pub proof fn lemma_char_scalar(c: char)
    ensures
        is_scalar(c as u32),
{
}

/// Distinct characters have distinct code points.
pub proof fn lemma_char_injective(c: char, d: char)
    ensures
        (c as u32 == d as u32) == (c == d),
{
}

/// Relies on `char::from_u32`: it returns the character with code point `v`
/// exactly when `v` is a Unicode scalar value, and `None` otherwise.
#[verifier::external_body]
pub fn char_from(v: u32) -> (r: Option<char>)
    ensures
        r is Some == is_scalar(v),
        r is Some ==> r->0 as u32 == v,
{
    char::from_u32(v)
}

/// Relies on collecting characters into a `String`: the string holds them in order.
#[verifier::external_body]
pub fn string_from(v: &Vec<char>) -> (r: String)
    ensures
        r@ == v@,
{
    v.iter().collect()
}

/// The characters of `s`, in order.
pub fn chars_of(s: &str) -> (r: Vec<char>)
    ensures
        r@ == s@,
{
    let mut r: Vec<char> = Vec::new();
    for c in it: s.chars()
        invariant
            r@ == it.seq().take(it.index() as int),
    {
        r.push(c);
    }
    r
}

/// The decimal digit character for `d < 10`.
pub open spec fn digit_char(d: nat) -> char {
    if d == 0 {
        '0'
    } else if d == 1 {
        '1'
    } else if d == 2 {
        '2'
    } else if d == 3 {
        '3'
    } else if d == 4 {
        '4'
    } else if d == 5 {
        '5'
    } else if d == 6 {
        '6'
    } else if d == 7 {
        '7'
    } else if d == 8 {
        '8'
    } else {
        '9'
    }
}

/// The decimal digits of `n`, most significant first, without leading zeros.
pub open spec fn digits(n: nat) -> Seq<char>
    decreases n,
{
    if n < 10 {
        seq![digit_char(n)]
    } else {
        digits(n / 10).push(digit_char(n % 10))
    }
}

/// The decimal notation of `v`, with a leading `-` for negative values.
pub open spec fn decimal(v: int) -> Seq<char> {
    if v < 0 {
        seq!['-'].add(digits((-v) as nat))
    } else {
        digits(v as nat)
    }
}

/// The value of a decimal digit character, if it is one.
pub open spec fn digit_value(c: char) -> Option<i32> {
    if '0' <= c && c <= '9' {
        Some((c as u32 - '0' as u32) as i32)
    } else {
        None
    }
}

/// The character of a decimal digit.
fn digit(d: u64) -> (c: char)
    requires
        d < 10,
    ensures
        c == digit_char(d as nat),
{
    if d == 0 {
        '0'
    } else if d == 1 {
        '1'
    } else if d == 2 {
        '2'
    } else if d == 3 {
        '3'
    } else if d == 4 {
        '4'
    } else if d == 5 {
        '5'
    } else if d == 6 {
        '6'
    } else if d == 7 {
        '7'
    } else if d == 8 {
        '8'
    } else {
        '9'
    }
}

/// The decimal notation of `v`.
pub fn decimal_chars(v: i32) -> (r: Vec<char>)
    ensures
        r@ == decimal(v as int),
{
    let mut n: u64 = if v < 0 {
        (-(v as i64)) as u64
    } else {
        v as u64
    };
    let ghost total = n as nat;
    let mut rev: Vec<char> = Vec::new();
    rev.push(digit(n % 10));
    n = n / 10;
    while n > 0
        invariant
            n > 0 ==> digits(total) == digits(n as nat).add(rev@.reverse()),
            n == 0 ==> digits(total) == rev@.reverse(),
            rev@.len() >= 1,
        decreases n,
    {
        let ghost before = rev@;
        rev.push(digit(n % 10));
        proof {
            assert(rev@.reverse() =~= seq![digit_char((n % 10) as nat)].add(before.reverse()));
            if n >= 10 {
                assert(digits(n as nat) == digits((n / 10) as nat).push(digit_char((n % 10) as nat)));
                assert(digits((n / 10) as nat).push(digit_char((n % 10) as nat)).add(before.reverse())
                    =~= digits((n / 10) as nat).add(rev@.reverse()));
            } else {
                assert(digits(n as nat) == seq![digit_char(n as nat)]);
                assert(seq![digit_char(n as nat)].add(before.reverse()) =~= rev@.reverse());
            }
        }
        n = n / 10;
    }
    let mut r: Vec<char> = Vec::new();
    if v < 0 {
        r.push('-');
    }
    let ghost prefix = r@;
    let mut i: usize = rev.len();
    while i > 0
        invariant
            i <= rev@.len(),
            r@ == prefix.add(rev@.subrange(i as int, rev@.len() as int).reverse()),
        decreases i,
    {
        i = i - 1;
        r.push(rev[i]);
        assert(rev@.subrange(i as int, rev@.len() as int).reverse() =~= rev@.subrange(
            i + 1,
            rev@.len() as int,
        ).reverse().push(rev@[i as int]));
    }
    assert(rev@.subrange(0, rev@.len() as int) =~= rev@);
    proof {
        if v < 0 {
            assert(r@ =~= seq!['-'].add(digits(total)));
        } else {
            assert(r@ =~= digits(total));
        }
    }
    r
}

} // verus!
