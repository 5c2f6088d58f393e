//! Durations as the command line writes them, and the rhythm of the cache cleanup.
use crate::numbers::{
    decimal, law_decimal_round_trip, lemma_decimal, numeral_value, parse_u64, parsed_u64,
};
use crate::text::{
    from_chars, is_ascii_digit, lemma_trimmed_of_tight, same, to_chars, trim, trimmed,
};
use vstd::prelude::*;

verus! {

/// The seconds of a unit.
pub open spec fn unit_seconds(c: char) -> Option<nat> {
    if c == 's' {
        Some(1)
    } else if c == 'm' {
        Some(60)
    } else if c == 'h' {
        Some(3600)
    } else if c == 'd' {
        Some(86400)
    } else {
        None
    }
}

/// A numeral times a number of seconds.
pub open spec fn times(numeral: Seq<char>, seconds: nat) -> Option<nat> {
    match parsed_u64(trimmed(numeral)) {
        Some(n) => Some(n as nat * seconds),
        None => None,
    }
}

/// The seconds that a duration like `30m`, `2h`, `1d`, `90s`, or a bare number of
/// minutes, stands for.
pub open spec fn duration_of(s: Seq<char>) -> Option<nat> {
    let t = trimmed(s);
    if t == "0"@ {
        Some(0)
    } else if t.len() == 0 {
        None
    } else {
        match unit_seconds(t.last()) {
            Some(seconds) => times(t.drop_last(), seconds),
            None => if is_ascii_digit(t.last()) {
                times(t, 60)
            } else {
                None
            },
        }
    }
}

/// A duration whose seconds no 64-bit number holds.
#[derive(Clone, Copy, Debug, PartialEq, Eq, Structural)]
pub struct DurationOverflow;

/// The seconds of a duration: `Ok(None)` where the text is not a duration, and
/// `Err` where it is one that is too long for a 64-bit number.
pub fn duration_seconds(s: &str) -> (r: Result<Option<u64>, DurationOverflow>)
    ensures
        match r {
            Ok(Some(n)) => duration_of(s@) == Some(n as nat),
            Ok(None) => duration_of(s@) is None,
            Err(_) => duration_of(s@) matches Some(n) && n > u64::MAX,
        },
{
    let t = trim(s);
    if same(t.as_str(), "0") {
        return Ok(Some(0));
    }
    let v = to_chars(t.as_str());
    if v.len() == 0 {
        return Ok(None);
    }
    let n: usize = v.len();
    let last: char = v[n - 1];
    let (end, seconds): (usize, u64) = if last == 's' {
        (n - 1, 1)
    } else if last == 'm' {
        (n - 1, 60)
    } else if last == 'h' {
        (n - 1, 3600)
    } else if last == 'd' {
        (n - 1, 86400)
    } else if '0' <= last && last <= '9' {
        (n, 60)
    } else {
        return Ok(None);
    };
    let numeral = from_chars(&v, 0, end);
    proof {
        if end == n {
            assert(numeral@ =~= t@);
        } else {
            assert(numeral@ =~= t@.drop_last());
        }
    }
    let inner = trim(numeral.as_str());
    match parse_u64(inner.as_str()) {
        Some(k) => {
            assert(duration_of(s@) == Some((k * seconds) as nat));
            match k.checked_mul(seconds) {
                Some(p) => Ok(Some(p)),
                None => Err(DurationOverflow),
            }
        },
        None => Ok(None),
    }
}

/// Parse a duration like `30m`, `2h`, `1d`, `90s`, or a bare number (minutes).
/// Returns seconds; `0` means "disabled". The product of number and unit has to
/// fit in 64 bits.
pub fn parse_duration(s: &str) -> (r: Option<u64>)
    requires
        duration_of(s@) matches Some(n) ==> n <= u64::MAX,
    ensures
        match r {
            Some(n) => duration_of(s@) == Some(n as nat),
            None => duration_of(s@) is None,
        },
{
    match duration_seconds(s) {
        Ok(r) => r,
        Err(_) => None,
    }
}

/// Seconds between two sweeps of the cache: a tenth of the TTL, but no less than a
/// minute and no more than an hour.
pub fn cleanup_interval(ttl: u64) -> (seconds: u64)
    ensures
        ttl / 10 < 60 ==> seconds == 60,
        60 <= ttl / 10 <= 3600 ==> seconds == ttl / 10,
        ttl / 10 > 3600 ==> seconds == 3600,
{
    let tenth: u64 = ttl / 10;
    if tenth < 60 {
        60
    } else if tenth > 3600 {
        3600
    } else {
        tenth
    }
}

/// A number with one of the suffixes `s`, `m`, `h` and `d` counts that unit, and a
/// bare number counts minutes.
pub proof fn law_duration_units(n: u64)
    ensures
        duration_of(decimal(n as nat).push('s')) == Some(n as nat),
        duration_of(decimal(n as nat).push('m')) == Some(n as nat * 60),
        duration_of(decimal(n as nat).push('h')) == Some(n as nat * 3600),
        duration_of(decimal(n as nat).push('d')) == Some(n as nat * 86400),
        duration_of(decimal(n as nat)) == Some(n as nat * 60),
{
    let d = decimal(n as nat);
    lemma_decimal(n as nat);
    law_decimal_round_trip(n);
    assert(is_ascii_digit(d[0]));
    assert(is_ascii_digit(d[d.len() - 1]));
    lemma_trimmed_of_tight(d);
    reveal_strlit("0");
    lemma_unit(n, 's', 1);
    lemma_unit(n, 'm', 60);
    lemma_unit(n, 'h', 3600);
    lemma_unit(n, 'd', 86400);
    if d == "0"@ {
        assert(d[0] == '0');
        assert(d.drop_last() =~= Seq::<char>::empty());
        assert(numeral_value(d.drop_last()) == 0);
        assert(numeral_value(d) == 0);
    }
}

proof fn lemma_unit(n: u64, c: char, seconds: nat)
    requires
        unit_seconds(c) == Some(seconds),
    ensures
        duration_of(decimal(n as nat).push(c)) == Some(n as nat * seconds),
{
    let d = decimal(n as nat);
    let t = d.push(c);
    lemma_decimal(n as nat);
    law_decimal_round_trip(n);
    assert(is_ascii_digit(d[0]));
    assert(is_ascii_digit(d[d.len() - 1]));
    assert(t[0] == d[0]);
    lemma_trimmed_of_tight(d);
    lemma_trimmed_of_tight(t);
    reveal_strlit("0");
    assert(t.len() >= 2);
    assert(t.drop_last() =~= d);
}

} // verus!
