//! Decimal numerals: writing a number down and reading one back.
use crate::text::{is_ascii_digit, to_chars};
use vstd::prelude::*;

verus! {

/// The character of a number below ten.
pub open spec fn digit(n: nat) -> char {
    ('0' as u32 + n) as char
}

/// The number that a decimal digit stands for.
pub open spec fn digit_value(c: char) -> nat {
    (c as u32 - '0' as u32) as nat
}

/// The decimal numeral of `n`, without leading zeros.
pub open spec fn decimal(n: nat) -> Seq<char>
    decreases n,
{
    if n < 10 {
        seq![digit(n)]
    } else {
        decimal(n / 10).push(digit(n % 10))
    }
}

/// `decimal(n)`, with a zero before it where `n` has one digit only.
pub open spec fn two_digits(n: nat) -> Seq<char> {
    if n < 10 {
        seq!['0', digit(n)]
    } else {
        decimal(n)
    }
}

pub open spec fn all_digits(s: Seq<char>) -> bool {
    forall|i: int| 0 <= i < s.len() ==> is_ascii_digit(#[trigger] s[i])
}

/// The number that a sequence of decimal digits stands for.
pub open spec fn numeral_value(s: Seq<char>) -> nat
    decreases s.len(),
{
    if s.len() == 0 {
        0
    } else {
        numeral_value(s.drop_last()) * 10 + digit_value(s.last())
    }
}

/// `s` without the one plus sign that it may begin with.
pub open spec fn unsigned_part(s: Seq<char>) -> Seq<char> {
    if s.len() > 0 && s[0] == '+' {
        s.drop_first()
    } else {
        s
    }
}

/// The 64-bit number that `s` writes down, as `u64`'s `FromStr` reads it: an
/// optional plus sign, then one digit or more, and nothing else.
pub open spec fn parsed_u64(s: Seq<char>) -> Option<u64> {
    let d = unsigned_part(s);
    if d.len() > 0 && all_digits(d) && numeral_value(d) <= u64::MAX {
        Some(numeral_value(d) as u64)
    } else {
        None
    }
}

fn digit_char(n: u32) -> (c: char)
    requires
        n < 10,
    ensures
        c == digit(n as nat),
{
    match n {
        0 => '0',
        1 => '1',
        2 => '2',
        3 => '3',
        4 => '4',
        5 => '5',
        6 => '6',
        7 => '7',
        8 => '8',
        _ => '9',
    }
}

/// The decimal numeral of `n`.
pub fn to_decimal(n: u128) -> (s: String)
    ensures
        s@ == decimal(n as nat),
{
    let mut reversed: Vec<char> = Vec::new();
    let mut rest: u128 = n;
    assert(decimal(n as nat) =~= decimal(rest as nat) + reversed@.reverse());
    while rest >= 10
        invariant
            decimal(n as nat) == decimal(rest as nat) + reversed@.reverse(),
        decreases rest,
    {
        let d: char = digit_char((rest % 10) as u32);
        assert(decimal(rest as nat) == decimal((rest / 10) as nat).push(d));
        assert(decimal((rest / 10) as nat).push(d) + reversed@.reverse() =~= decimal(
            (rest / 10) as nat,
        ) + reversed@.push(d).reverse());
        reversed.push(d);
        rest = rest / 10;
    }
    let d: char = digit_char(rest as u32);
    assert(decimal(rest as nat) + reversed@.reverse() =~= reversed@.push(d).reverse());
    reversed.push(d);
    let mut out = String::new();
    let mut i: usize = reversed.len();
    while i > 0
        invariant
            i <= reversed.len(),
            out@ == reversed@.reverse().take(reversed.len() - i),
        decreases i,
    {
        out.push(reversed[i - 1]);
        assert(reversed@.reverse().take(reversed.len() - i + 1) =~= reversed@.reverse().take(
            reversed.len() - i,
        ).push(reversed@[i - 1]));
        i = i - 1;
    }
    assert(reversed@.reverse().take(reversed.len() as int) =~= reversed@.reverse());
    out
}

/// The decimal numeral of `n`, at least two digits wide.
pub fn to_two_digits(n: u64) -> (s: String)
    ensures
        s@ == two_digits(n as nat),
{
    if n < 10 {
        let mut s = String::new();
        s.push('0');
        s.push(digit_char(n as u32));
        assert(s@ =~= two_digits(n as nat));
        s
    } else {
        to_decimal(n as u128)
    }
}

proof fn lemma_numeral_value_grows(s: Seq<char>, i: int)
    requires
        0 <= i <= s.len(),
    ensures
        numeral_value(s.take(i)) <= numeral_value(s),
    decreases s.len() - i,
{
    if i < s.len() {
        lemma_numeral_value_grows(s, i + 1);
        assert(s.take(i + 1).drop_last() =~= s.take(i));
    } else {
        assert(s.take(i) =~= s);
    }
}

/// The 64-bit number that `s` writes down, if it writes one down.
pub fn parse_u64(s: &str) -> (r: Option<u64>)
    ensures
        r == parsed_u64(s@),
{
    let v = to_chars(s);
    let start: usize = if v.len() > 0 && v[0] == '+' {
        1
    } else {
        0
    };
    let ghost d = unsigned_part(s@);
    assert(d =~= v@.skip(start as int));
    if start == v.len() {
        return None;
    }
    let mut n: u64 = 0;
    let mut i: usize = start;
    assert(d.take(0) =~= Seq::<char>::empty());
    while i < v.len()
        invariant
            start <= i <= v.len(),
            d == v@.skip(start as int),
            d.len() > 0,
            d == unsigned_part(s@),
            all_digits(d.take(i - start)),
            n == numeral_value(d.take(i - start)),
        decreases v.len() - i,
    {
        let c: char = v[i];
        assert(c == d[i - start]);
        if !('0' <= c && c <= '9') {
            return None;
        }
        let k: u64 = (c as u32 - '0' as u32) as u64;
        proof {
            assert(d.take(i - start + 1).drop_last() =~= d.take(i - start));
            assert(numeral_value(d.take(i - start + 1)) == n * 10 + k);
            lemma_numeral_value_grows(d, i - start + 1);
            assert forall|j: int| 0 <= j < i - start + 1 implies is_ascii_digit(
                #[trigger] d.take(i - start + 1)[j],
            ) by {
                if j < i - start {
                    assert(d.take(i - start)[j] == d[j]);
                }
            }
        }
        if n > u64::MAX / 10 || n * 10 > u64::MAX - k {
            return None;
        }
        n = n * 10 + k;
        i = i + 1;
    }
    assert(d.take(i - start) =~= d);
    Some(n)
}

/// A numeral consists of digits, is not empty and stands for its number.
pub proof fn lemma_decimal(n: nat)
    ensures
        decimal(n).len() > 0,
        all_digits(decimal(n)),
        numeral_value(decimal(n)) == n,
    decreases n,
{
    if n >= 10 {
        lemma_decimal(n / 10);
        let d = decimal(n);
        assert(d.drop_last() =~= decimal(n / 10));
        assert forall|i: int| 0 <= i < d.len() implies is_ascii_digit(#[trigger] d[i]) by {
            if i < d.len() - 1 {
                assert(d[i] == decimal(n / 10)[i]);
            }
        }
    } else {
        let d = decimal(n);
        assert(d.drop_last() =~= Seq::<char>::empty());
        assert(numeral_value(d.drop_last()) == 0);
    }
}

/// What is written down as a decimal numeral is read back as the same number.
pub proof fn law_decimal_round_trip(n: u64)
    ensures
        parsed_u64(decimal(n as nat)) == Some(n),
{
    lemma_decimal(n as nat);
    assert(is_ascii_digit(decimal(n as nat)[0]));
}

/// Different numbers have different numerals.
pub proof fn law_decimal_injective(m: nat, n: nat)
    requires
        decimal(m) == decimal(n),
    ensures
        m == n,
{
    lemma_decimal(m);
    lemma_decimal(n);
}

/// A numeral stands for its number in tens: a further digit counts once, and what stood
/// before it ten times as much.
pub proof fn law_numeral(s: Seq<char>, c: char)
    requires
        '0' <= c <= '9',
    ensures
        numeral_value(Seq::<char>::empty()) == 0,
        numeral_value(s.push(c)) == numeral_value(s) * 10 + (c as u32 - '0' as u32),
{
    assert(s.push(c).drop_last() =~= s);
}

/// The decimal numeral of a number has digits only, stands for the number and does not
/// begin with a zero, but for that of zero itself; one that is to be two digits wide has
/// at least two and stands for the same number.
pub proof fn law_decimal(n: nat)
    ensures
        decimal(n).len() > 0,
        forall|i: int| 0 <= i < decimal(n).len() ==> '0' <= #[trigger] decimal(n)[i] <= '9',
        numeral_value(decimal(n)) == n,
        n > 0 ==> decimal(n)[0] != '0',
        n >= 10 <==> decimal(n).len() >= 2,
        n >= 10 ==> two_digits(n) == decimal(n),
        n < 10 ==> two_digits(n) == seq!['0'] + decimal(n),
    decreases n,
{
    lemma_decimal(n);
    assert forall|i: int| 0 <= i < decimal(n).len() implies '0' <= #[trigger] decimal(n)[i]
        <= '9' by {
        assert(is_ascii_digit(decimal(n)[i]));
    }
    if n >= 10 {
        law_decimal(n / 10);
        assert(decimal(n)[0] == decimal(n / 10)[0]);
    } else {
        assert(two_digits(n) =~= seq!['0'] + decimal(n));
    }
}

/// A text is read as a 64-bit number if and only if it consists of digits, at least one,
/// with a plus sign before them or none, and the number fits.
pub proof fn law_parse(d: Seq<char>, s: Seq<char>)
    ensures
        d.len() > 0 && all_digits(d) && numeral_value(d) <= u64::MAX ==> {
            &&& parsed_u64(d) == Some(numeral_value(d) as u64)
            &&& parsed_u64(seq!['+'] + d) == Some(numeral_value(d) as u64)
        },
        d.len() > 0 && all_digits(d) && numeral_value(d) > u64::MAX ==> parsed_u64(d) is None
            && parsed_u64(seq!['+'] + d) is None,
        parsed_u64(s) is Some ==> {
            ||| s.len() > 0 && all_digits(s)
            ||| s.len() > 1 && s[0] == '+' && all_digits(s.skip(1))
        },
{
    assert((seq!['+'] + d).drop_first() =~= d);
    if d.len() > 0 && all_digits(d) {
        assert(is_ascii_digit(d[0]));
    }
    if s.len() > 0 {
        assert(s.drop_first() =~= s.skip(1));
    }
}

} // verus!
