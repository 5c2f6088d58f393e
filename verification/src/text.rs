//! Strings as sequences of characters: searching, trimming, splitting, joining
//! and replacing, each with its mathematical meaning beside it.
use vstd::prelude::*;
use vstd::string::*;

verus! {

/// `String::push` of std appends the one character to the end of the string.
pub assume_specification[ String::push ](s: &mut String, c: char)
    ensures
        final(s)@ == old(s)@.push(c),
;

/// The characters with the Unicode property `White_Space`.
pub open spec fn is_white_space(c: char) -> bool {
    let n = c as u32;
    ||| 0x9 <= n <= 0xD
    ||| n == 0x20
    ||| n == 0x85
    ||| n == 0xA0
    ||| n == 0x1680
    ||| 0x2000 <= n <= 0x200A
    ||| n == 0x2028
    ||| n == 0x2029
    ||| n == 0x202F
    ||| n == 0x205F
    ||| n == 0x3000
}

pub open spec fn is_ascii_digit(c: char) -> bool {
    '0' <= c <= '9'
}

pub open spec fn is_ascii_alphanumeric(c: char) -> bool {
    is_ascii_digit(c) || 'a' <= c <= 'z' || 'A' <= c <= 'Z'
}

/// `p` stands in `s` from position `i` on.
pub open spec fn occurs_at(s: Seq<char>, p: Seq<char>, i: int) -> bool {
    0 <= i && i + p.len() <= s.len() && s.subrange(i, i + p.len()) == p
}

/// `p` stands somewhere in `s`.
pub open spec fn contains_str(s: Seq<char>, p: Seq<char>) -> bool {
    exists|i: int| occurs_at(s, p, i)
}

/// `i` is the first position at which `p` stands in `s`.
pub open spec fn first_occurrence(s: Seq<char>, p: Seq<char>, i: int) -> bool {
    occurs_at(s, p, i) && forall|j: int| j < i ==> !occurs_at(s, p, j)
}

/// The first position, if any, at which `p` stands in `s`.
pub open spec fn position(s: Seq<char>, p: Seq<char>) -> Option<int> {
    if contains_str(s, p) {
        Some(choose|i: int| first_occurrence(s, p, i))
    } else {
        None
    }
}

/// `s` without its leading white space.
pub open spec fn trimmed_start(s: Seq<char>) -> Seq<char>
    decreases s.len(),
{
    if s.len() > 0 && is_white_space(s[0]) {
        trimmed_start(s.drop_first())
    } else {
        s
    }
}

/// `s` without its trailing white space.
pub open spec fn trimmed_end(s: Seq<char>) -> Seq<char>
    decreases s.len(),
{
    if s.len() > 0 && is_white_space(s.last()) {
        trimmed_end(s.drop_last())
    } else {
        s
    }
}

/// `s` without the white space at its two ends.
pub open spec fn trimmed(s: Seq<char>) -> Seq<char> {
    trimmed_end(trimmed_start(s))
}

/// `s` without the characters `c` at its end.
pub open spec fn without_trailing(s: Seq<char>, c: char) -> Seq<char>
    decreases s.len(),
{
    if s.len() > 0 && s.last() == c {
        without_trailing(s.drop_last(), c)
    } else {
        s
    }
}

/// `s` without the characters `c` at its start.
pub open spec fn without_leading(s: Seq<char>, c: char) -> Seq<char>
    decreases s.len(),
{
    if s.len() > 0 && s[0] == c {
        without_leading(s.drop_first(), c)
    } else {
        s
    }
}

/// The first position of `c` in `s`, or the length of `s` where `c` is absent.
pub open spec fn first_index(s: Seq<char>, c: char) -> int
    decreases s.len(),
{
    if s.len() == 0 || s[0] == c {
        0
    } else {
        1 + first_index(s.drop_first(), c)
    }
}

/// The last position of `c` in `s`, or -1 where `c` is absent.
pub open spec fn last_index(s: Seq<char>, c: char) -> int
    decreases s.len(),
{
    if s.len() == 0 {
        -1
    } else if s.last() == c {
        s.len() - 1
    } else {
        last_index(s.drop_last(), c)
    }
}

/// What stands in `s` before the first `c`: all of `s` where `c` is absent.
pub open spec fn before(s: Seq<char>, c: char) -> Seq<char> {
    s.take(first_index(s, c))
}

/// What stands in `s` after the last `c`: all of `s` where `c` is absent.
pub open spec fn after_last(s: Seq<char>, c: char) -> Seq<char> {
    s.skip(last_index(s, c) + 1)
}

/// `s` with each occurrence of `from`, taken from the left and without overlap,
/// replaced by `to`.
pub open spec fn replaced(s: Seq<char>, from: Seq<char>, to: Seq<char>) -> Seq<char>
    decreases s.len(),
{
    if from.len() == 0 || s.len() < from.len() {
        s
    } else if occurs_at(s, from, 0) {
        to + replaced(s.skip(from.len() as int), from, to)
    } else {
        seq![s[0]] + replaced(s.drop_first(), from, to)
    }
}

/// How many characters `s` begins with that are not white space.
pub open spec fn word_len(s: Seq<char>) -> int
    decreases s.len(),
{
    if s.len() == 0 || is_white_space(s[0]) {
        0
    } else {
        1 + word_len(s.drop_first())
    }
}

/// The maximal runs of characters of `s` that are not white space, in order.
pub open spec fn words(s: Seq<char>) -> Seq<Seq<char>>
    decreases s.len(),
{
    if s.len() == 0 {
        seq![]
    } else if is_white_space(s[0]) {
        words(s.drop_first())
    } else {
        let n = word_len(s);
        if 0 < n <= s.len() {
            seq![s.take(n)] + words(s.skip(n))
        } else {
            seq![]
        }
    }
}

/// The parts, with `sep` between each two neighbours.
pub open spec fn joined(parts: Seq<Seq<char>>, sep: Seq<char>) -> Seq<char>
    decreases parts.len(),
{
    if parts.len() == 0 {
        seq![]
    } else if parts.len() == 1 {
        parts[0]
    } else {
        joined(parts.drop_last(), sep) + sep + parts.last()
    }
}

/// The contents of a list of strings.
pub open spec fn views(v: Seq<String>) -> Seq<Seq<char>> {
    v.map_values(|s: String| s@)
}

pub fn white_space(c: char) -> (b: bool)
    ensures
        b == is_white_space(c),
{
    let n: u32 = c as u32;
    (0x9 <= n && n <= 0xD) || n == 0x20 || n == 0x85 || n == 0xA0 || n == 0x1680 || (0x2000 <= n
        && n <= 0x200A) || n == 0x2028 || n == 0x2029 || n == 0x202F || n == 0x205F || n == 0x3000
}

/// The characters of `s`.
pub fn to_chars(s: &str) -> (v: Vec<char>)
    ensures
        v@ == s@,
{
    let mut v: Vec<char> = Vec::new();
    for c in it: s.chars()
        invariant
            it.seq() == s@,
            v@ == s@.take(it.index() as int),
    {
        v.push(c);
        assert(s@.take(it.index() as int + 1) =~= s@.take(it.index() as int).push(c));
    }
    assert(s@.take(s@.len() as int) =~= s@);
    v
}

/// The characters of `v` from position `from` up to `to`, as a string.
pub fn from_chars(v: &Vec<char>, from: usize, to: usize) -> (s: String)
    requires
        from <= to <= v.len(),
    ensures
        s@ == v@.subrange(from as int, to as int),
{
    let mut s = String::new();
    let mut i: usize = from;
    while i < to
        invariant
            from <= i <= to <= v.len(),
            s@ == v@.subrange(from as int, i as int),
        decreases to - i,
    {
        s.push(v[i]);
        assert(v@.subrange(from as int, i + 1) =~= v@.subrange(from as int, i as int).push(
            v@[i as int],
        ));
        i = i + 1;
    }
    s
}

/// Whether `a` and `b` hold the same characters.
pub fn same(a: &str, b: &str) -> (r: bool)
    ensures
        r == (a@ == b@),
{
    let x = to_chars(a);
    let y = to_chars(b);
    if x.len() != y.len() {
        return false;
    }
    assert(x@.subrange(0, x@.len() as int) =~= x@);
    stands_at(&x, &y, 0)
}

/// Whether `p` stands in `s` from position `i` on.
pub fn stands_at(s: &Vec<char>, p: &Vec<char>, i: usize) -> (r: bool)
    ensures
        r == occurs_at(s@, p@, i as int),
{
    if i > s.len() || s.len() - i < p.len() {
        return false;
    }
    let mut k: usize = 0;
    while k < p.len()
        invariant
            k <= p.len(),
            i + p.len() <= s.len(),
            forall|j: int| 0 <= j < k ==> s@[i + j] == p@[j],
        decreases p.len() - k,
    {
        if s[i + k] != p[k] {
            assert(s@.subrange(i as int, i + p@.len())[k as int] != p@[k as int]);
            return false;
        }
        k = k + 1;
    }
    assert(s@.subrange(i as int, i + p@.len()) =~= p@);
    true
}

/// The first position of an occurrence is the one that `position` names.
pub proof fn lemma_position_is(s: Seq<char>, p: Seq<char>, i: int)
    requires
        first_occurrence(s, p, i),
    ensures
        position(s, p) == Some(i),
{
    let j = choose|j: int| first_occurrence(s, p, j);
    assert(first_occurrence(s, p, j));
    assert(i == j);
}

/// The first position, if any, at which `p` stands in `s`.
pub fn find_str(s: &Vec<char>, p: &Vec<char>) -> (r: Option<usize>)
    ensures
        match r {
            Some(i) => position(s@, p@) == Some(i as int),
            None => position(s@, p@) is None,
        },
        match r {
            Some(i) => first_occurrence(s@, p@, i as int),
            None => !contains_str(s@, p@),
        },
{
    if s.len() < p.len() {
        return None;
    }
    let last: usize = s.len() - p.len();
    let mut i: usize = 0;
    while i <= last
        invariant
            i <= last + 1,
            last + p.len() == s.len(),
            forall|j: int| j < i ==> !occurs_at(s@, p@, j),
        decreases last + 1 - i,
    {
        if stands_at(s, p, i) {
            proof {
                lemma_position_is(s@, p@, i as int);
            }
            return Some(i);
        }
        if i == last {
            return None;
        }
        i = i + 1;
    }
    None
}

/// Whether `s` begins with `p`.
pub fn starts_with(s: &str, p: &str) -> (r: bool)
    ensures
        r == occurs_at(s@, p@, 0),
{
    stands_at(&to_chars(s), &to_chars(p), 0)
}

/// Whether `p` stands somewhere in `s`.
pub fn contains(s: &str, p: &str) -> (r: bool)
    ensures
        r == contains_str(s@, p@),
{
    find_str(&to_chars(s), &to_chars(p)).is_some()
}

pub proof fn lemma_trimmed_start_at(s: Seq<char>, i: int)
    requires
        0 <= i <= s.len(),
        forall|j: int| 0 <= j < i ==> is_white_space(#[trigger] s[j]),
        i == s.len() || !is_white_space(s[i]),
    ensures
        trimmed_start(s) == s.skip(i),
    decreases i,
{
    if i > 0 {
        assert forall|j: int| 0 <= j < i - 1 implies is_white_space(#[trigger] s.drop_first()[j]) by {
            assert(s.drop_first()[j] == s[j + 1]);
        }
        lemma_trimmed_start_at(s.drop_first(), i - 1);
        assert(s.drop_first().skip(i - 1) =~= s.skip(i));
    } else {
        assert(s.skip(0) =~= s);
    }
}

pub proof fn lemma_trimmed_end_at(s: Seq<char>, n: int)
    requires
        0 <= n <= s.len(),
        forall|j: int| n <= j < s.len() ==> is_white_space(#[trigger] s[j]),
        n == 0 || !is_white_space(s[n - 1]),
    ensures
        trimmed_end(s) == s.take(n),
    decreases s.len(),
{
    if n < s.len() {
        lemma_trimmed_end_at(s.drop_last(), n);
        assert(s.drop_last().take(n) =~= s.take(n));
    } else {
        assert(s.take(n) =~= s);
    }
}

/// Trimming brings no new character in.
pub proof fn lemma_trim_chars(s: Seq<char>)
    ensures
        forall|i: int| 0 <= i < trimmed(s).len() ==> s.contains(#[trigger] trimmed(s)[i]),
{
    let t = trimmed_start(s);
    lemma_trim_start_chars(s);
    lemma_trim_end_chars(t);
    assert forall|i: int| 0 <= i < trimmed(s).len() implies s.contains(#[trigger] trimmed(s)[i]) by {
        let j = choose|j: int| 0 <= j < t.len() && t[j] == trimmed(s)[i];
        assert(s.contains(t[j]));
    }
}

proof fn lemma_trim_start_chars(s: Seq<char>)
    ensures
        forall|i: int| 0 <= i < trimmed_start(s).len() ==> s.contains(#[trigger] trimmed_start(s)[i]),
    decreases s.len(),
{
    if s.len() > 0 && is_white_space(s[0]) {
        let r = s.drop_first();
        lemma_trim_start_chars(r);
        assert forall|i: int| 0 <= i < trimmed_start(s).len() implies s.contains(
            #[trigger] trimmed_start(s)[i],
        ) by {
            assert(r.contains(trimmed_start(r)[i]));
            let j = choose|j: int| 0 <= j < r.len() && r[j] == trimmed_start(s)[i];
            assert(s[j + 1] == r[j]);
        }
    }
}

proof fn lemma_trim_end_chars(s: Seq<char>)
    ensures
        forall|i: int| 0 <= i < trimmed_end(s).len() ==> s.contains(#[trigger] trimmed_end(s)[i]),
    decreases s.len(),
{
    if s.len() > 0 && is_white_space(s.last()) {
        let r = s.drop_last();
        lemma_trim_end_chars(r);
        assert forall|i: int| 0 <= i < trimmed_end(s).len() implies s.contains(
            #[trigger] trimmed_end(s)[i],
        ) by {
            assert(r.contains(trimmed_end(r)[i]));
            let j = choose|j: int| 0 <= j < r.len() && r[j] == trimmed_end(s)[i];
            assert(s[j] == r[j]);
        }
    }
}

/// Text without white space at its ends is not changed by trimming.
pub proof fn lemma_trimmed_of_tight(s: Seq<char>)
    requires
        s.len() > 0 ==> !is_white_space(s[0]) && !is_white_space(s.last()),
    ensures
        trimmed(s) == s,
{
}

/// `s` without the white space at its two ends.
pub fn trim(s: &str) -> (r: String)
    ensures
        r@ == trimmed(s@),
{
    let v = to_chars(s);
    let mut i: usize = 0;
    while i < v.len() && white_space(v[i])
        invariant
            i <= v.len(),
            forall|j: int| 0 <= j < i ==> is_white_space(#[trigger] v@[j]),
        decreases v.len() - i,
    {
        i = i + 1;
    }
    let mut n: usize = v.len();
    while n > i && white_space(v[n - 1])
        invariant
            i <= n <= v.len(),
            forall|j: int| n <= j < v.len() ==> is_white_space(#[trigger] v@[j]),
        decreases n,
    {
        n = n - 1;
    }
    proof {
        lemma_trimmed_start_at(v@, i as int);
        let t = v@.skip(i as int);
        assert forall|j: int| n - i <= j < t.len() implies is_white_space(#[trigger] t[j]) by {
            assert(t[j] == v@[j + i]);
        }
        lemma_trimmed_end_at(t, n - i);
        assert(t.take(n - i) =~= v@.subrange(i as int, n as int));
    }
    from_chars(&v, i, n)
}

pub proof fn lemma_without_trailing_at(s: Seq<char>, c: char, n: int)
    requires
        0 <= n <= s.len(),
        forall|j: int| n <= j < s.len() ==> #[trigger] s[j] == c,
        n == 0 || s[n - 1] != c,
    ensures
        without_trailing(s, c) == s.take(n),
    decreases s.len(),
{
    if n < s.len() {
        lemma_without_trailing_at(s.drop_last(), c, n);
        assert(s.drop_last().take(n) =~= s.take(n));
    } else {
        assert(s.take(n) =~= s);
    }
}

pub proof fn lemma_without_leading_at(s: Seq<char>, c: char, i: int)
    requires
        0 <= i <= s.len(),
        forall|j: int| 0 <= j < i ==> #[trigger] s[j] == c,
        i == s.len() || s[i] != c,
    ensures
        without_leading(s, c) == s.skip(i),
    decreases i,
{
    if i > 0 {
        lemma_without_leading_at(s.drop_first(), c, i - 1);
        assert(s.drop_first().skip(i - 1) =~= s.skip(i));
    } else {
        assert(s.skip(0) =~= s);
    }
}

/// `s` without the characters `c` at its end.
pub fn trim_end_matches(s: &str, c: char) -> (r: String)
    ensures
        r@ == without_trailing(s@, c),
{
    let v = to_chars(s);
    let mut n: usize = v.len();
    while n > 0 && v[n - 1] == c
        invariant
            n <= v.len(),
            forall|j: int| n <= j < v.len() ==> #[trigger] v@[j] == c,
        decreases n,
    {
        n = n - 1;
    }
    proof {
        lemma_without_trailing_at(v@, c, n as int);
        assert(v@.subrange(0, n as int) =~= v@.take(n as int));
    }
    from_chars(&v, 0, n)
}

/// `s` without the characters `c` at its two ends.
pub fn trim_matches(s: &str, c: char) -> (r: String)
    ensures
        r@ == without_trailing(without_leading(s@, c), c),
{
    let v = to_chars(s);
    let mut i: usize = 0;
    while i < v.len() && v[i] == c
        invariant
            i <= v.len(),
            forall|j: int| 0 <= j < i ==> #[trigger] v@[j] == c,
        decreases v.len() - i,
    {
        i = i + 1;
    }
    proof {
        lemma_without_leading_at(v@, c, i as int);
        assert(v@.subrange(i as int, v@.len() as int) =~= v@.skip(i as int));
    }
    let n: usize = v.len();
    let rest = from_chars(&v, i, n);
    trim_end_matches(rest.as_str(), c)
}

pub proof fn lemma_first_index_at(s: Seq<char>, c: char, i: int)
    requires
        0 <= i <= s.len(),
        forall|j: int| 0 <= j < i ==> #[trigger] s[j] != c,
        i == s.len() || s[i] == c,
    ensures
        first_index(s, c) == i,
    decreases i,
{
    if i > 0 {
        lemma_first_index_at(s.drop_first(), c, i - 1);
    }
}

pub proof fn lemma_last_index_at(s: Seq<char>, c: char, i: int)
    requires
        -1 <= i < s.len(),
        forall|j: int| i < j < s.len() ==> #[trigger] s[j] != c,
        i == -1 || s[i] == c,
    ensures
        last_index(s, c) == i,
    decreases s.len(),
{
    if i < s.len() - 1 {
        lemma_last_index_at(s.drop_last(), c, i);
    }
}

/// What stands in `s` before the first `c`: all of `s` where `c` is absent.
pub fn until(s: &str, c: char) -> (r: String)
    ensures
        r@ == before(s@, c),
{
    let v = to_chars(s);
    let mut i: usize = 0;
    while i < v.len() && v[i] != c
        invariant
            i <= v.len(),
            forall|j: int| 0 <= j < i ==> #[trigger] v@[j] != c,
        decreases v.len() - i,
    {
        i = i + 1;
    }
    proof {
        lemma_first_index_at(v@, c, i as int);
        assert(v@.subrange(0, i as int) =~= v@.take(i as int));
    }
    from_chars(&v, 0, i)
}

/// How many characters of `v` stand up to and with the last `c`.
pub fn end_of_last(v: &Vec<char>, c: char) -> (n: usize)
    ensures
        n == last_index(v@, c) + 1,
        n <= v.len(),
{
    let mut n: usize = v.len();
    while n > 0 && v[n - 1] != c
        invariant
            n <= v.len(),
            forall|j: int| n <= j < v.len() ==> #[trigger] v@[j] != c,
        decreases n,
    {
        n = n - 1;
    }
    proof {
        lemma_last_index_at(v@, c, n - 1);
    }
    n
}

/// What stands in `s` after the last `c`: all of `s` where `c` is absent.
pub fn since_last(s: &str, c: char) -> (r: String)
    ensures
        r@ == after_last(s@, c),
{
    let v = to_chars(s);
    let n: usize = end_of_last(&v, c);
    proof {
        assert(v@.subrange(n as int, v@.len() as int) =~= v@.skip(n as int));
    }
    let len: usize = v.len();
    from_chars(&v, n, len)
}

/// `s` with each occurrence of `from`, taken from the left and without overlap,
/// replaced by `to`.
pub fn replace_all(s: &str, from: &str, to: &str) -> (r: String)
    requires
        from@.len() > 0,
    ensures
        r@ == replaced(s@, from@, to@),
{
    let v = to_chars(s);
    let p = to_chars(from);
    let mut out = String::new();
    let mut i: usize = 0;
    proof {
        assert(v@.skip(0) =~= v@);
        assert(out@ + replaced(v@, from@, to@) =~= replaced(v@, from@, to@));
    }
    while i < v.len()
        invariant
            i <= v.len(),
            p@ == from@,
            from@.len() > 0,
            out@ + replaced(v@.skip(i as int), from@, to@) == replaced(v@, from@, to@),
        decreases v.len() - i,
    {
        let ghost rest = v@.skip(i as int);
        if stands_at(&v, &p, i) {
            let n: usize = p.len();
            proof {
                assert(rest.subrange(0, n as int) =~= v@.subrange(i as int, i + n));
                assert(rest.skip(n as int) =~= v@.skip(i + n));
                assert(out@ + (to@ + replaced(rest.skip(n as int), from@, to@)) =~= (out@ + to@)
                    + replaced(rest.skip(n as int), from@, to@));
            }
            out.append(to);
            i = i + n;
        } else {
            proof {
                if rest.len() >= from@.len() {
                    assert(rest.subrange(0, from@.len() as int) =~= v@.subrange(
                        i as int,
                        i + from@.len(),
                    ));
                } else {
                    assert(rest.drop_first().len() < from@.len());
                    assert(replaced(rest.drop_first(), from@, to@) == rest.drop_first());
                    assert(rest =~= seq![rest[0]] + rest.drop_first());
                }
                assert(rest.drop_first() =~= v@.skip(i + 1));
                assert(out@ + (seq![rest[0]] + replaced(rest.drop_first(), from@, to@))
                    =~= out@.push(rest[0]) + replaced(rest.drop_first(), from@, to@));
            }
            out.push(v[i]);
            i = i + 1;
        }
    }
    assert(v@.skip(i as int) =~= Seq::<char>::empty());
    assert(out@ + Seq::<char>::empty() =~= out@);
    out
}

/// The parts, with `sep` between each two neighbours.
pub fn join(parts: &Vec<String>, sep: &str) -> (r: String)
    ensures
        r@ == joined(views(parts@), sep@),
{
    let mut out = String::new();
    let mut i: usize = 0;
    let ghost all = views(parts@);
    assert(all.take(0) =~= Seq::<Seq<char>>::empty());
    while i < parts.len()
        invariant
            i <= parts.len(),
            all == views(parts@),
            out@ == joined(all.take(i as int), sep@),
        decreases parts.len() - i,
    {
        let ghost upto = all.take(i + 1);
        assert(upto.drop_last() =~= all.take(i as int));
        if i > 0 {
            out.append(sep);
        }
        out.append(parts[i].as_str());
        i = i + 1;
        assert(out@ =~= joined(upto, sep@));
    }
    assert(all.take(i as int) =~= all);
    out
}

pub proof fn lemma_word_len_at(s: Seq<char>, n: int)
    requires
        0 <= n <= s.len(),
        forall|j: int| 0 <= j < n ==> !is_white_space(#[trigger] s[j]),
        n == s.len() || is_white_space(s[n]),
    ensures
        word_len(s) == n,
    decreases n,
{
    if n > 0 {
        assert forall|j: int| 0 <= j < n - 1 implies !is_white_space(
            #[trigger] s.drop_first()[j],
        ) by {
            assert(s.drop_first()[j] == s[j + 1]);
        }
        lemma_word_len_at(s.drop_first(), n - 1);
    }
}

/// The maximal runs of characters of `s` that are not white space, in order.
pub fn split_words(s: &str) -> (r: Vec<String>)
    ensures
        views(r@) == words(s@),
{
    let v = to_chars(s);
    let mut out: Vec<String> = Vec::new();
    let mut i: usize = 0;
    proof {
        assert(v@.skip(0) =~= v@);
        assert(views(out@) + words(v@) =~= words(v@));
    }
    while i < v.len()
        invariant
            i <= v.len(),
            views(out@) + words(v@.skip(i as int)) == words(v@),
        decreases v.len() - i,
    {
        let ghost rest = v@.skip(i as int);
        if white_space(v[i]) {
            assert(rest.drop_first() =~= v@.skip(i + 1));
            i = i + 1;
        } else {
            let mut n: usize = i + 1;
            while n < v.len() && !white_space(v[n])
                invariant
                    i < n <= v.len(),
                    forall|j: int| i <= j < n ==> !is_white_space(#[trigger] v@[j]),
                decreases v.len() - n,
            {
                n = n + 1;
            }
            let w = from_chars(&v, i, n);
            proof {
                assert forall|j: int| 0 <= j < n - i implies !is_white_space(#[trigger] rest[j]) by {
                    assert(rest[j] == v@[i + j]);
                }
                lemma_word_len_at(rest, n - i);
                assert(rest.take(n - i) =~= v@.subrange(i as int, n as int));
                assert(rest.skip(n - i) =~= v@.skip(n as int));
                assert(views(out@.push(w)) =~= views(out@).push(w@));
                assert(views(out@) + (seq![w@] + words(v@.skip(n as int))) =~= views(out@.push(w))
                    + words(v@.skip(n as int)));
            }
            out.push(w);
            i = n;
        }
    }
    assert(v@.skip(i as int) =~= Seq::<char>::empty());
    assert(views(out@) + Seq::<Seq<char>>::empty() =~= views(out@));
    out
}

} // verus!
