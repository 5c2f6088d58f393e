//! What holds of the operations on text: each of them is told by what it does to texts
//! that are put together from parts.
use crate::text::{
    after_last, before, contains_str, first_occurrence, is_white_space, joined,
    lemma_first_index_at, lemma_last_index_at, lemma_position_is, lemma_trimmed_end_at,
    lemma_trimmed_start_at, lemma_without_leading_at, lemma_without_trailing_at, lemma_word_len_at,
    occurs_at, position, replaced, trimmed, views, without_leading, without_trailing, word_len,
    words,
};
use vstd::prelude::*;

verus! {

/// A text of nothing but white space.
pub open spec fn is_blank(s: Seq<char>) -> bool {
    forall|i: int| 0 <= i < s.len() ==> is_white_space(#[trigger] s[i])
}

/// A text without white space at its ends.
pub open spec fn is_tight(s: Seq<char>) -> bool {
    s.len() > 0 ==> !is_white_space(s[0]) && !is_white_space(s[s.len() - 1])
}

/// A text that is not empty and holds no white space.
pub open spec fn is_word(s: Seq<char>) -> bool {
    s.len() > 0 && forall|i: int| 0 <= i < s.len() ==> !is_white_space(#[trigger] s[i])
}

/// A text of nothing but the character `c`.
pub open spec fn is_run_of(s: Seq<char>, c: char) -> bool {
    forall|i: int| 0 <= i < s.len() ==> #[trigger] s[i] == c
}

/// Trimming takes the white space at the two ends away, all of it, and nothing else.
pub proof fn law_trim(a: Seq<char>, t: Seq<char>, b: Seq<char>)
    requires
        is_blank(a),
        is_tight(t),
        is_blank(b),
    ensures
        trimmed(a + t + b) == t,
{
    let s = a + t + b;
    if t.len() == 0 {
        let n = s.len() as int;
        assert forall|j: int| 0 <= j < n implies is_white_space(#[trigger] s[j]) by {
            if j < a.len() {
                assert(s[j] == a[j]);
            } else {
                assert(s[j] == b[j - a.len()]);
            }
        }
        lemma_trimmed_start_at(s, n);
        assert(s.skip(n) =~= t);
    } else {
        let i = a.len() as int;
        assert forall|j: int| 0 <= j < i implies is_white_space(#[trigger] s[j]) by {
            assert(s[j] == a[j]);
        }
        assert(s[i] == t[0]);
        lemma_trimmed_start_at(s, i);
        let r = s.skip(i);
        assert(r =~= t + b);
        let n = t.len() as int;
        assert forall|j: int| n <= j < r.len() implies is_white_space(#[trigger] r[j]) by {
            assert(r[j] == b[j - n]);
        }
        assert(r[n - 1] == t[n - 1]);
        lemma_trimmed_end_at(r, n);
        assert(r.take(n) =~= t);
    }
}

/// Every text is white space, a tight text and white space.
pub proof fn lemma_trim_parts(s: Seq<char>) -> (r: (Seq<char>, Seq<char>))
    ensures
        is_blank(r.0),
        is_blank(r.1),
        is_tight(trimmed(s)),
        s == r.0 + trimmed(s) + r.1,
{
    let i = lemma_first_tight(s);
    lemma_trimmed_start_at(s, i);
    let t = s.skip(i);
    let n = lemma_last_tight(t);
    lemma_trimmed_end_at(t, n);
    let a = s.take(i);
    let b = t.skip(n);
    assert forall|j: int| 0 <= j < b.len() implies is_white_space(#[trigger] b[j]) by {
        assert(b[j] == t[n + j]);
    }
    let m = t.take(n);
    if n > 0 {
        assert(i < s.len());
        assert(m[0] == s[i]);
        assert(m[n - 1] == t[n - 1]);
    }
    assert(s =~= a + m + b);
    (a, b)
}

proof fn lemma_first_tight(s: Seq<char>) -> (i: int)
    ensures
        0 <= i <= s.len(),
        forall|j: int| 0 <= j < i ==> is_white_space(#[trigger] s[j]),
        i == s.len() || !is_white_space(s[i]),
    decreases s.len(),
{
    if s.len() == 0 || !is_white_space(s[0]) {
        0
    } else {
        let i = lemma_first_tight(s.drop_first());
        assert forall|j: int| 0 <= j < i + 1 implies is_white_space(#[trigger] s[j]) by {
            if j > 0 {
                assert(s.drop_first()[j - 1] == s[j]);
            }
        }
        i + 1
    }
}

proof fn lemma_last_tight(s: Seq<char>) -> (n: int)
    ensures
        0 <= n <= s.len(),
        forall|j: int| n <= j < s.len() ==> is_white_space(#[trigger] s[j]),
        n == 0 || !is_white_space(s[n - 1]),
    decreases s.len(),
{
    if s.len() == 0 || !is_white_space(s.last()) {
        s.len() as int
    } else {
        let n = lemma_last_tight(s.drop_last());
        assert forall|j: int| n <= j < s.len() implies is_white_space(#[trigger] s[j]) by {
            if j < s.len() - 1 {
                assert(s.drop_last()[j] == s[j]);
            }
        }
        n
    }
}

/// What stands before the first `c`, whatever comes behind it.
pub proof fn law_before(a: Seq<char>, c: char, b: Seq<char>)
    requires
        !a.contains(c),
    ensures
        before(a, c) == a,
        before(a + seq![c] + b, c) == a,
{
    let n = a.len() as int;
    let s = a + seq![c] + b;
    assert forall|j: int| 0 <= j < n implies #[trigger] a[j] != c by {
        assert(a.contains(a[j]));
    }
    assert forall|j: int| 0 <= j < n implies #[trigger] s[j] != c by {
        assert(s[j] == a[j]);
    }
    lemma_first_index_at(a, c, n);
    lemma_first_index_at(s, c, n);
    assert(a.take(n) =~= a);
    assert(s.take(n) =~= a);
}

/// What stands after the last `c`, whatever comes before it.
pub proof fn law_after_last(a: Seq<char>, c: char, b: Seq<char>)
    requires
        !b.contains(c),
    ensures
        after_last(b, c) == b,
        after_last(a + seq![c] + b, c) == b,
{
    let n = a.len() as int;
    let s = a + seq![c] + b;
    assert forall|j: int| 0 <= j < b.len() implies #[trigger] b[j] != c by {
        assert(b.contains(b[j]));
    }
    assert forall|j: int| n < j < s.len() implies #[trigger] s[j] != c by {
        assert(s[j] == b[j - n - 1]);
    }
    lemma_last_index_at(b, c, -1);
    assert(s[n] == c);
    lemma_last_index_at(s, c, n);
    assert(b.skip(0) =~= b);
    assert(s.skip(n + 1) =~= b);
}

/// Stripping takes a run of `c` away, all of it, and nothing else.
pub proof fn law_strip(t: Seq<char>, c: char, run: Seq<char>)
    requires
        is_run_of(run, c),
    ensures
        t.len() == 0 || t[t.len() - 1] != c ==> without_trailing(t + run, c) == t,
        t.len() == 0 || t[0] != c ==> without_leading(run + t, c) == t,
{
    let n = t.len() as int;
    if n == 0 || t[n - 1] != c {
        let s = t + run;
        assert forall|j: int| n <= j < s.len() implies #[trigger] s[j] == c by {
            assert(s[j] == run[j - n]);
        }
        lemma_without_trailing_at(s, c, n);
        assert(s.take(n) =~= t);
    }
    if n == 0 || t[0] != c {
        let s = run + t;
        let m = run.len() as int;
        assert forall|j: int| 0 <= j < m implies #[trigger] s[j] == c by {
            assert(s[j] == run[j]);
        }
        lemma_without_leading_at(s, c, m);
        assert(s.skip(m) =~= t);
    }
}

/// A text occurs where its characters stand, one behind the other.
pub proof fn law_occurs_at(s: Seq<char>, p: Seq<char>, i: int)
    ensures
        occurs_at(s, p, i) <==> 0 <= i && i + p.len() <= s.len() && forall|k: int|
            0 <= k < p.len() ==> s[i + k] == #[trigger] p[k],
        contains_str(s, p) <==> exists|a: Seq<char>, b: Seq<char>| s == #[trigger] (a + p + b),
{
    if 0 <= i && i + p.len() <= s.len() {
        let t = s.subrange(i, i + p.len());
        if occurs_at(s, p, i) {
            assert forall|k: int| 0 <= k < p.len() implies s[i + k] == #[trigger] p[k] by {
                assert(t[k] == s[i + k]);
            }
        }
        if forall|k: int| 0 <= k < p.len() ==> s[i + k] == #[trigger] p[k] {
            assert(t =~= p);
        }
    }
    if contains_str(s, p) {
        let j = choose|j: int| occurs_at(s, p, j);
        let a = s.take(j);
        let b = s.skip(j + p.len());
        assert(s =~= a + p + b);
    }
    if exists|a: Seq<char>, b: Seq<char>| s == #[trigger] (a + p + b) {
        let (a, b) = choose|a: Seq<char>, b: Seq<char>| s == #[trigger] (a + p + b);
        assert(s.subrange(a.len() as int, a.len() as int + p.len()) =~= p);
        assert(occurs_at(s, p, a.len() as int));
    }
}

/// The position of a text is that of its first occurrence, and there is one where it
/// occurs at all.
pub proof fn law_position(s: Seq<char>, p: Seq<char>, i: int)
    ensures
        position(s, p) == Some(i) <==> occurs_at(s, p, i) && forall|j: int|
            j < i ==> !occurs_at(s, p, j),
        position(s, p) is None <==> forall|j: int| !occurs_at(s, p, j),
{
    if contains_str(s, p) {
        let j = choose|j: int| occurs_at(s, p, j);
        let f = lemma_least_occurrence(s, p, j);
        lemma_position_is(s, p, f);
    }
    if occurs_at(s, p, i) && forall|j: int| j < i ==> !occurs_at(s, p, j) {
        assert(first_occurrence(s, p, i));
        lemma_position_is(s, p, i);
    }
}

proof fn lemma_least_occurrence(s: Seq<char>, p: Seq<char>, j: int) -> (f: int)
    requires
        occurs_at(s, p, j),
    ensures
        first_occurrence(s, p, f),
    decreases j,
{
    if exists|k: int| k < j && occurs_at(s, p, k) {
        let k = choose|k: int| k < j && occurs_at(s, p, k);
        lemma_least_occurrence(s, p, k)
    } else {
        j
    }
}

/// Where `from` does not occur nothing is replaced; where it does, its first occurrence
/// is, what stands before that stays, and the rest is treated in the same way.
pub proof fn law_replace(a: Seq<char>, from: Seq<char>, b: Seq<char>, to: Seq<char>)
    requires
        from.len() > 0,
    ensures
        !contains_str(a, from) ==> replaced(a, from, to) == a,
        first_occurrence(a + from, from, a.len() as int) ==> replaced(a + from + b, from, to) == a
            + to + replaced(b, from, to),
    decreases a.len(),
{
    let s = a + from + b;
    let n = from.len() as int;
    if a.len() == 0 {
        assert(replaced(a, from, to) =~= a);
        assert(s.subrange(0, n) =~= from);
        assert(s.skip(n) =~= b);
        assert(a + to + replaced(b, from, to) =~= to + replaced(b, from, to));
    } else {
        let r = a.drop_first();
        law_replace(r, from, b, to);
        if !contains_str(a, from) {
            assert(!occurs_at(a, from, 0));
            if contains_str(r, from) {
                let i = choose|i: int| occurs_at(r, from, i);
                assert(a.subrange(i + 1, i + 1 + n) =~= r.subrange(i, i + n));
                assert(occurs_at(a, from, i + 1));
            }
            assert(seq![a[0]] + r =~= a);
        }
        if first_occurrence(a + from, from, a.len() as int) {
            let q = r + from;
            let w = a + from;
            assert forall|j: int| j < r.len() implies !occurs_at(q, from, j) by {
                if occurs_at(q, from, j) {
                    assert(w.subrange(j + 1, j + 1 + n) =~= q.subrange(j, j + n));
                    assert(occurs_at(w, from, j + 1));
                }
            }
            assert(q.subrange(r.len() as int, r.len() + n) =~= from);
            assert(first_occurrence(q, from, r.len() as int));
            assert(s.drop_first() =~= r + from + b);
            assert(!occurs_at(s, from, 0)) by {
                if occurs_at(s, from, 0) {
                    assert(w.subrange(0, n) =~= s.subrange(0, n));
                    assert(occurs_at(w, from, 0));
                }
            }
            assert(s[0] == a[0]);
            assert(seq![a[0]] + (r + to + replaced(b, from, to)) =~= a + to + replaced(
                b,
                from,
                to,
            ));
        }
    }
}

pub proof fn lemma_word_len_bounds(s: Seq<char>)
    ensures
        0 <= word_len(s) <= s.len(),
        forall|i: int| 0 <= i < word_len(s) ==> !is_white_space(#[trigger] s[i]),
        word_len(s) < s.len() ==> is_white_space(s[word_len(s)]),
    decreases s.len(),
{
    if s.len() > 0 && !is_white_space(s[0]) {
        lemma_word_len_bounds(s.drop_first());
        assert forall|i: int| 0 <= i < word_len(s) implies !is_white_space(#[trigger] s[i]) by {
            if i > 0 {
                assert(s.drop_first()[i - 1] == s[i]);
            }
        }
    }
}

/// White space ends a word: the words on both sides of it are those of the two parts. An
/// empty text has none.
pub proof fn law_words_around_white_space(a: Seq<char>, c: char, b: Seq<char>)
    requires
        is_white_space(c),
    ensures
        words(a + seq![c] + b) == words(a) + words(b),
        words(Seq::<char>::empty()) == Seq::<Seq<char>>::empty(),
    decreases a.len(),
{
    let s = a + seq![c] + b;
    assert(words(Seq::<char>::empty()) =~= Seq::<Seq<char>>::empty());
    if a.len() == 0 {
        assert(s.drop_first() =~= b);
        assert(words(a) + words(b) =~= words(b));
    } else if is_white_space(a[0]) {
        law_words_around_white_space(a.drop_first(), c, b);
        assert(s.drop_first() =~= a.drop_first() + seq![c] + b);
    } else {
        let n = word_len(a);
        lemma_word_len_bounds(a);
        assert forall|j: int| 0 <= j < n implies !is_white_space(#[trigger] s[j]) by {
            assert(s[j] == a[j]);
        }
        if n < a.len() {
            assert(s[n] == a[n]);
        } else {
            assert(s[n] == c);
        }
        lemma_word_len_at(s, n);
        assert(s.take(n) =~= a.take(n));
        assert(s.skip(n) =~= a.skip(n) + seq![c] + b);
        law_words_around_white_space(a.skip(n), c, b);
        assert(seq![a.take(n)] + (words(a.skip(n)) + words(b)) =~= (seq![a.take(n)] + words(
            a.skip(n),
        )) + words(b));
    }
}

/// A word is the one word of itself.
pub proof fn law_word_is_itself(w: Seq<char>)
    requires
        is_word(w),
    ensures
        words(w) == seq![w],
{
    lemma_word_len_at(w, w.len() as int);
    assert(w.take(w.len() as int) =~= w);
    assert(w.skip(w.len() as int) =~= Seq::<char>::empty());
    assert(words(Seq::<char>::empty()) =~= seq![]);
    assert(seq![w] + words(w.skip(w.len() as int)) =~= seq![w]);
}

/// Joining: of no parts the empty text, of one part that part, and of two lists of parts
/// what each of them gives, with the separator between.
pub proof fn law_join(xs: Seq<Seq<char>>, ys: Seq<Seq<char>>, p: Seq<char>, sep: Seq<char>)
    ensures
        joined(Seq::<Seq<char>>::empty(), sep) == Seq::<char>::empty(),
        joined(seq![p], sep) == p,
        xs.len() > 0 && ys.len() > 0 ==> joined(xs + ys, sep) == joined(xs, sep) + sep + joined(
            ys,
            sep,
        ),
    decreases ys.len(),
{
    assert(joined(Seq::<Seq<char>>::empty(), sep) =~= Seq::<char>::empty());
    if xs.len() > 0 && ys.len() > 0 {
        let all = xs + ys;
        let init = ys.drop_last();
        assert(all.drop_last() =~= xs + init);
        assert(all.last() == ys.last());
        if ys.len() == 1 {
            assert(xs + init =~= xs);
        } else {
            law_join(xs, init, p, sep);
            assert(joined(xs, sep) + sep + joined(init, sep) + sep + ys.last() =~= joined(xs, sep)
                + sep + (joined(init, sep) + sep + ys.last()));
        }
    }
}

/// The contents of a list of strings are those of its strings, in order.
pub proof fn law_views(v: Seq<String>)
    ensures
        views(v).len() == v.len(),
        forall|i: int| 0 <= i < v.len() ==> #[trigger] views(v)[i] == v[i]@,
{
}

} // verus!
