//! What holds of the names: they are safe, stable and tell things apart.
use crate::names::{
    answered, cached_file, candidate, digits_len, episode_id, extension_part, file_stem_of,
    is_name_char, key_of, leading_digits, library_file, name_char, plain_char, stem_part,
    title_words, unicode_alphanumeric, LAST_CANDIDATE,
};
use crate::numbers::{all_digits, decimal, law_decimal_injective, lemma_decimal};
use crate::paths::{extension_of, file_name_of, lemma_without_trailing_shrinks};
use crate::text::{
    after_last, before, contains_str, first_occurrence, is_ascii_alphanumeric, is_ascii_digit,
    is_white_space, joined, last_index, lemma_first_index_at, lemma_last_index_at,
    lemma_position_is, lemma_trimmed_of_tight, occurs_at, position, trimmed, without_leading,
    without_trailing, word_len, words,
};
use crate::text_laws::{
    is_blank, is_run_of, is_tight, is_word, law_after_last, law_before, law_join, law_position,
    law_strip, law_trim, law_word_is_itself, law_words_around_white_space, lemma_trim_parts,
    lemma_word_len_bounds,
};
use vstd::prelude::*;

verus! {

/// Every character of `s` has the property.
pub open spec fn all_chars(s: Seq<char>, p: spec_fn(char) -> bool) -> bool {
    forall|i: int| 0 <= i < s.len() ==> p(#[trigger] s[i])
}

proof fn lemma_words_are_words(s: Seq<char>, p: spec_fn(char) -> bool)
    requires
        all_chars(s, p),
    ensures
        forall|k: int|
            0 <= k < words(s).len() ==> is_word(#[trigger] words(s)[k]) && all_chars(words(s)[k], p),
    decreases s.len(),
{
    if s.len() > 0 {
        if is_white_space(s[0]) {
            assert(all_chars(s.drop_first(), p));
            lemma_words_are_words(s.drop_first(), p);
            assert(words(s) == words(s.drop_first()));
        } else {
            let n = word_len(s);
            lemma_word_len_bounds(s);
            assert(n > 0);
            assert(all_chars(s.skip(n), p));
            lemma_words_are_words(s.skip(n), p);
            let w = s.take(n);
            assert(is_word(w) && all_chars(w, p));
            assert(words(s) == seq![w] + words(s.skip(n)));
            assert forall|k: int| 0 <= k < words(s).len() implies is_word(#[trigger] words(s)[k])
                && all_chars(words(s)[k], p) by {
                if k > 0 {
                    assert(words(s)[k] == words(s.skip(n))[k - 1]);
                }
            }
        }
    }
}

proof fn lemma_joined_chars(parts: Seq<Seq<char>>, sep: Seq<char>, p: spec_fn(char) -> bool)
    requires
        forall|k: int| 0 <= k < parts.len() ==> all_chars(#[trigger] parts[k], p),
        all_chars(sep, p),
    ensures
        all_chars(joined(parts, sep), p),
    decreases parts.len(),
{
    if parts.len() > 1 {
        let init = parts.drop_last();
        assert forall|k: int| 0 <= k < init.len() implies all_chars(#[trigger] init[k], p) by {
            assert(init[k] == parts[k]);
        }
        lemma_joined_chars(init, sep, p);
        let a = joined(init, sep);
        let s = a + sep + parts.last();
        assert(all_chars(parts[parts.len() - 1], p));
        assert forall|i: int| 0 <= i < s.len() implies p(#[trigger] s[i]) by {
            if i < a.len() {
                assert(s[i] == a[i]);
            } else if i < a.len() + sep.len() {
                assert(s[i] == sep[i - a.len()]);
            } else {
                assert(s[i] == parts.last()[i - a.len() - sep.len()]);
            }
        }
    }
}

/// White space ends a word: the words on both sides of a space.
proof fn lemma_words_around_space(a: Seq<char>, b: Seq<char>)
    ensures
        words(a + seq![' '] + b) == words(a) + words(b),
{
    law_words_around_white_space(a, ' ', b);
}

proof fn lemma_words_of_word(w: Seq<char>)
    requires
        is_word(w),
    ensures
        words(w) == seq![w],
{
    law_word_is_itself(w);
}

/// Words that are joined with spaces are found again.
proof fn lemma_words_of_joined(parts: Seq<Seq<char>>)
    requires
        forall|k: int| 0 <= k < parts.len() ==> is_word(#[trigger] parts[k]),
    ensures
        words(joined(parts, seq![' '])) == parts,
        parts.len() > 0 ==> {
            let s = joined(parts, seq![' ']);
            s.len() > 0 && !is_white_space(s[0]) && !is_white_space(s.last())
        },
    decreases parts.len(),
{
    if parts.len() == 0 {
        assert(words(joined(parts, seq![' '])) =~= parts);
    } else if parts.len() == 1 {
        assert(is_word(parts[0]));
        lemma_words_of_word(parts[0]);
        assert(parts =~= seq![parts[0]]);
    } else {
        let init = parts.drop_last();
        assert forall|k: int| 0 <= k < init.len() implies is_word(#[trigger] init[k]) by {
            assert(init[k] == parts[k]);
        }
        lemma_words_of_joined(init);
        let last = parts[parts.len() - 1];
        assert(is_word(last));
        let a = joined(init, seq![' ']);
        lemma_words_around_space(a, last);
        lemma_words_of_word(last);
        assert(init + seq![last] =~= parts);
        let s = joined(parts, seq![' ']);
        assert(s[0] == a[0]);
        assert(s.last() == last.last());
    }
}

/// The parts of a stem, and that it is made of them.
proof fn lemma_stem_parts(title: Seq<char>) -> (parts: Seq<Seq<char>>)
    ensures
        parts.len() > 0,
        file_stem_of(title) == joined(parts, seq![' ']),
        forall|k: int|
            0 <= k < parts.len() ==> is_word(#[trigger] parts[k]) && all_chars(
                parts[k],
                |c: char| is_name_char(c),
            ),
{
    let p = |c: char| is_name_char(c);
    let cleaned = trimmed(before(title, '|')).map_values(|c: char| name_char(c));
    assert(all_chars(cleaned, p)) by {
        assert forall|i: int| 0 <= i < cleaned.len() implies p(#[trigger] cleaned[i]) by {
            assert(cleaned[i] == name_char(trimmed(before(title, '|'))[i]));
        }
    }
    lemma_words_are_words(cleaned, p);
    let ws = words(cleaned);
    if title_words(title).len() > 0 {
        assert(ws.len() > 0);
        ws
    } else {
        let d = "schatkamer-video"@;
        reveal_strlit("schatkamer-video");
        assert(is_word(d) && all_chars(d, p));
        assert(joined(seq![d], seq![' ']) == d);
        seq![d]
    }
}

/// The stem that a title gives is never empty, holds only letters, digits, spaces,
/// dashes and underscores (so no slash and no dot), begins and ends with another
/// character than a space, and has its words one space apart.
pub proof fn law_sanitized_is_safe(title: Seq<char>)
    ensures
        file_stem_of(title).len() > 0,
        forall|i: int|
            0 <= i < file_stem_of(title).len() ==> is_name_char(#[trigger] file_stem_of(title)[i]),
        !file_stem_of(title).contains('/'),
        !file_stem_of(title).contains('.'),
        !is_white_space(file_stem_of(title)[0]),
        !is_white_space(file_stem_of(title).last()),
        joined(words(file_stem_of(title)), seq![' ']) == file_stem_of(title),
{
    let p = |c: char| is_name_char(c);
    let parts = lemma_stem_parts(title);
    lemma_words_of_joined(parts);
    lemma_joined_chars(parts, seq![' '], p);
    let s = file_stem_of(title);
    assert(all_chars(s, p));
    assert forall|i: int| 0 <= i < s.len() implies is_name_char(#[trigger] s[i]) by {
        assert(p(s[i]));
    }
    if s.contains('/') {
        let i = choose|i: int| 0 <= i < s.len() && s[i] == '/';
        assert(is_name_char(s[i]));
    }
    if s.contains('.') {
        let i = choose|i: int| 0 <= i < s.len() && s[i] == '.';
        assert(is_name_char(s[i]));
    }
}

/// A stem that has been made from a title stays as it is when it is taken as a title.
pub proof fn law_sanitize_idempotent(title: Seq<char>)
    ensures
        file_stem_of(file_stem_of(title)) == file_stem_of(title),
{
    law_sanitized_is_safe(title);
    let s = file_stem_of(title);
    assert forall|j: int| 0 <= j < s.len() implies #[trigger] s[j] != '|' by {
        assert(is_name_char(s[j]));
    }
    lemma_first_index_at(s, '|', s.len() as int);
    assert(s.take(s.len() as int) =~= s);
    lemma_trimmed_of_tight(s);
    let mapped = s.map_values(|c: char| name_char(c));
    assert forall|j: int| 0 <= j < s.len() implies #[trigger] mapped[j] == s[j] by {
        assert(is_name_char(s[j]));
    }
    assert(mapped =~= s);
}

proof fn lemma_digits_len(s: Seq<char>)
    ensures
        0 <= digits_len(s) <= s.len(),
        all_digits(leading_digits(s)),
    decreases s.len(),
{
    if s.len() > 0 && is_ascii_digit(s[0]) {
        lemma_digits_len(s.drop_first());
        let d = leading_digits(s);
        assert forall|i: int| 0 <= i < d.len() implies is_ascii_digit(#[trigger] d[i]) by {
            if i > 0 {
                assert(d[i] == leading_digits(s.drop_first())[i - 1]);
            }
        }
    }
}

proof fn lemma_digits_len_at(s: Seq<char>, n: int)
    requires
        0 <= n <= s.len(),
        forall|j: int| 0 <= j < n ==> is_ascii_digit(#[trigger] s[j]),
        n == s.len() || !is_ascii_digit(s[n]),
    ensures
        digits_len(s) == n,
    decreases n,
{
    if n > 0 {
        assert forall|j: int| 0 <= j < n - 1 implies is_ascii_digit(#[trigger] s.drop_first()[j]) by {
            assert(s.drop_first()[j] == s[j + 1]);
        }
        lemma_digits_len_at(s.drop_first(), n - 1);
    }
}

proof fn lemma_without_leading_chars(s: Seq<char>, c: char, p: spec_fn(char) -> bool)
    requires
        all_chars(s, p),
    ensures
        all_chars(without_leading(s, c), p),
    decreases s.len(),
{
    if s.len() > 0 && s[0] == c {
        assert(all_chars(s.drop_first(), p));
        lemma_without_leading_chars(s.drop_first(), c, p);
    }
}

proof fn lemma_without_trailing_chars(s: Seq<char>, c: char, p: spec_fn(char) -> bool)
    requires
        all_chars(s, p),
    ensures
        all_chars(without_trailing(s, c), p),
        without_trailing(s, c).len() > 0 ==> without_trailing(s, c).last() != c,
        without_trailing(s, c).len() > 0 ==> without_trailing(s, c)[0] == s[0],
    decreases s.len(),
{
    if s.len() > 0 && s.last() == c {
        assert(all_chars(s.drop_last(), p));
        lemma_without_trailing_chars(s.drop_last(), c, p);
    }
}

/// A key holds only letters and digits of ASCII and underscores: it can stand in a
/// file name as it is, on any system.
pub proof fn law_key_is_safe(url: Seq<char>)
    ensures
        forall|i: int|
            0 <= i < key_of(url).len() ==> is_ascii_alphanumeric(#[trigger] key_of(url)[i])
                || key_of(url)[i] == '_',
        !key_of(url).contains('/'),
{
    let p = |c: char| is_ascii_alphanumeric(c) || c == '_';
    let k = key_of(url);
    match episode_id(url) {
        Some(id) => {
            let i = position(url, "/aflevering/"@)->0;
            let rest = url.skip(i + "/aflevering/"@.len());
            lemma_digits_len(rest);
            assert forall|j: int| 0 <= j < k.len() implies p(#[trigger] k[j]) by {
                assert(is_ascii_digit(leading_digits(rest)[j]));
            }
        },
        None => {
            let m = url.map_values(|c: char| plain_char(c));
            assert forall|j: int| 0 <= j < m.len() implies p(#[trigger] m[j]) by {
                assert(m[j] == plain_char(url[j]));
            }
            lemma_without_leading_chars(m, '_', p);
            lemma_without_trailing_chars(without_leading(m, '_'), '_', p);
        },
    }
    assert(all_chars(k, p));
    assert forall|i: int| 0 <= i < k.len() implies is_ascii_alphanumeric(#[trigger] k[i]) || k[i]
        == '_' by {
        assert(p(k[i]));
    }
    if k.contains('/') {
        let i = choose|i: int| 0 <= i < k.len() && k[i] == '/';
        assert(p(k[i]));
    }
}

/// The episode id is also its key: whatever stands before `/aflevering/` (short of
/// another one) and behind the number, the address of an episode has the number as
/// its key.
pub proof fn law_key_is_episode_id(base: Seq<char>, id: Seq<char>, rest: Seq<char>)
    requires
        id.len() > 0,
        all_digits(id),
        rest.len() > 0 ==> !is_ascii_digit(rest[0]),
        !contains_str(base.push('/'), "/aflevering/"@),
    ensures
        key_of(base + "/aflevering/"@ + id + rest) == id,
{
    let p = "/aflevering/"@;
    let url = base + p + id + rest;
    reveal_strlit("/aflevering/");
    assert(p.len() == 12);
    let n = base.len() as int;
    assert(url.subrange(n, n + 12) =~= p);
    assert forall|j: int| j < n implies !occurs_at(url, p, j) by {
        if occurs_at(url, p, j) {
            if j + 12 <= n + 1 {
                assert(base.push('/').subrange(j, j + 12) =~= url.subrange(j, j + 12));
                assert(occurs_at(base.push('/'), p, j));
            } else {
                let d = n - j;
                assert(url[n] == '/');
                assert(url.subrange(j, j + 12)[d] == url[n]);
                assert(1 <= d <= 10);
                assert(p[d] != '/');
            }
        }
    }
    assert(first_occurrence(url, p, n));
    lemma_position_is(url, p, n);
    let tail = url.skip(n + 12);
    assert(tail =~= id + rest);
    assert forall|j: int| 0 <= j < id.len() implies is_ascii_digit(#[trigger] tail[j]) by {
        assert(tail[j] == id[j]);
    }
    if rest.len() > 0 {
        assert(tail[id.len() as int] == rest[0]);
    }
    lemma_digits_len_at(tail, id.len() as int);
    assert(tail.take(id.len() as int) =~= id);
}

/// Two episodes have different cached files.
pub proof fn law_cached_files_distinct(k1: Seq<char>, k2: Seq<char>)
    requires
        cached_file(k1) == cached_file(k2),
    ensures
        k1 == k2,
{
    reveal_strlit("downloads");
    reveal_strlit("/");
    reveal_strlit(".mp4");
    let a = cached_file(k1);
    let b = cached_file(k2);
    assert(a.len() == k1.len() + 14 && b.len() == k2.len() + 14);
    assert(a.subrange(10, 10 + k1.len() as int) =~= k1);
    assert(b.subrange(10, 10 + k2.len() as int) =~= k2);
}

/// The file name of a file in a directory is found again in its path.
pub proof fn law_file_name_of_library_file(dir: Seq<char>, name: Seq<char>)
    requires
        name.len() > 0,
        !name.contains('/'),
        name != "."@,
        name != ".."@,
    ensures
        file_name_of(library_file(dir, name)) == Some(name),
{
    reveal_strlit("/");
    let path = library_file(dir, name);
    let n = dir.len() as int;
    assert(path.last() == name.last());
    assert(name.contains(name.last()));
    assert(without_trailing(path, '/') == path);
    assert forall|j: int| n < j < path.len() implies #[trigger] path[j] != '/' by {
        assert(path[j] == name[j - n - 1]);
        assert(name.contains(name[j - n - 1]));
    }
    assert(path[n] == '/');
    lemma_last_index_at(path, '/', n);
    assert(after_last(path, '/') =~= name);
}

/// The part of a candidate behind the directory.
pub open spec fn candidate_name(filename: Seq<char>, n: int) -> Seq<char> {
    if n <= 1 {
        filename
    } else {
        stem_part(filename) + " ("@ + decimal(n as nat) + ")"@ + extension_part(filename)
    }
}

proof fn lemma_split_at_dot(filename: Seq<char>)
    ensures
        -1 <= last_index(filename, '.') < filename.len(),
        stem_part(filename) + extension_part(filename) == filename,
    decreases filename.len(),
{
    lemma_last_index_bounds(filename, '.');
    assert(stem_part(filename) + extension_part(filename) =~= filename);
}

proof fn lemma_last_index_bounds(s: Seq<char>, c: char)
    ensures
        -1 <= last_index(s, c) < s.len(),
    decreases s.len(),
{
    if s.len() > 0 && s.last() != c {
        lemma_last_index_bounds(s.drop_last(), c);
    }
}

/// No two of the names that are tried for a file in the media library are the same.
pub proof fn law_candidates_distinct(dir: Seq<char>, filename: Seq<char>, m: int, n: int)
    requires
        1 <= m,
        1 <= n,
        candidate(dir, filename, m) == candidate(dir, filename, n),
    ensures
        m == n,
{
    reveal_strlit("/");
    reveal_strlit(" (");
    reveal_strlit(")");
    lemma_split_at_dot(filename);
    lemma_decimal(m as nat);
    lemma_decimal(n as nat);
    let a = candidate(dir, filename, m);
    let b = candidate(dir, filename, n);
    let stem = stem_part(filename);
    let ext = extension_part(filename);
    assert(filename.len() == stem.len() + ext.len());
    let start: int = dir.len() as int + 1 + stem.len() + 2;
    if m > 1 {
        assert(a.len() == start + decimal(m as nat).len() + 1 + ext.len());
        assert(a.subrange(start, start + decimal(m as nat).len()) =~= decimal(m as nat));
    } else {
        assert(a.len() == dir.len() + 1 + filename.len());
    }
    if n > 1 {
        assert(b.len() == start + decimal(n as nat).len() + 1 + ext.len());
        assert(b.subrange(start, start + decimal(n as nat).len()) =~= decimal(n as nat));
    } else {
        assert(b.len() == dir.len() + 1 + filename.len());
    }
    if m > 1 && n > 1 {
        law_decimal_injective(m as nat, n as nat);
    }
}

/// A file that is moved into the media library under one of the names that are
/// tried for it lies directly in the library's directory, and its path gives that
/// name back.
pub proof fn law_candidate_is_in_library(dir: Seq<char>, filename: Seq<char>, n: int)
    requires
        1 <= n,
        n > 1 || (filename.len() > 0 && filename != "."@ && filename != ".."@),
        !filename.contains('/'),
    ensures
        file_name_of(candidate(dir, filename, n)) == Some(candidate_name(filename, n)),
        candidate(dir, filename, n) == library_file(dir, candidate_name(filename, n)),
        !candidate_name(filename, n).contains('/'),
{
    reveal_strlit(" (");
    reveal_strlit(")");
    reveal_strlit(".");
    reveal_strlit("..");
    lemma_split_at_dot(filename);
    let name = candidate_name(filename, n);
    let stem = stem_part(filename);
    let ext = extension_part(filename);
    if n > 1 {
        let d = decimal(n as nat);
        lemma_decimal(n as nat);
        assert(name.len() == filename.len() + 3 + d.len());
        assert forall|i: int| 0 <= i < name.len() implies #[trigger] name[i] != '/' by {
            let s = stem.len() as int;
            if i < s {
                assert(name[i] == filename[i]);
                assert(filename.contains(filename[i]));
            } else if s + 2 <= i < s + 2 + d.len() {
                assert(name[i] == d[i - s - 2]);
                assert(is_ascii_digit(d[i - s - 2]));
            } else if i >= s + 3 + d.len() {
                let k = i - s - 3 - d.len();
                assert(name[i] == ext[k]);
                assert(ext[k] == filename[s + k]);
                assert(filename.contains(filename[s + k]));
            }
        }
    }
    law_file_name_of_library_file(dir, name);
}

/// Two jobs have different ids, as long as the clock shows the same number of digits.
pub proof fn law_job_ids_distinct(t1: u128, c1: u64, t2: u128, c2: u64)
    requires
        decimal(t1 as nat).len() == decimal(t2 as nat).len(),
        decimal(t1 as nat) + decimal(c1 as nat) == decimal(t2 as nat) + decimal(c2 as nat),
    ensures
        t1 == t2,
        c1 == c2,
{
    let a = decimal(t1 as nat) + decimal(c1 as nat);
    let b = decimal(t2 as nat) + decimal(c2 as nat);
    let n = decimal(t1 as nat).len() as int;
    assert(a.take(n) =~= decimal(t1 as nat));
    assert(b.take(n) =~= decimal(t2 as nat));
    assert(a.skip(n) =~= decimal(c1 as nat));
    assert(b.skip(n) =~= decimal(c2 as nat));
    law_decimal_injective(t1 as nat, t2 as nat);
    law_decimal_injective(c1 as nat, c2 as nat);
}

/// A file name keeps the letters and digits of any script, spaces, dashes and underscores.
pub proof fn law_kept_characters(c: char)
    ensures
        is_name_char(c) <==> {
            ||| '0' <= c <= '9' || 'a' <= c <= 'z' || 'A' <= c <= 'Z'
            ||| c == ' ' || c == '-' || c == '_'
            ||| c as u32 >= 128 && unicode_alphanumeric(c)
        },
{
}

/// Words one space apart are what their own words give back.
proof fn lemma_rejoined(m: Seq<char>)
    requires
        m.len() > 0,
        is_tight(m),
        forall|i: int| 0 <= i < m.len() && is_white_space(#[trigger] m[i]) ==> m[i] == ' ',
        forall|i: int| 0 <= i < m.len() - 1 && #[trigger] m[i] == ' ' ==> m[i + 1] != ' ',
    ensures
        words(m).len() > 0,
        joined(words(m), seq![' ']) == m,
    decreases m.len(),
{
    let sep = seq![' '];
    let n = word_len(m);
    lemma_word_len_bounds(m);
    if n == m.len() {
        law_word_is_itself(m);
        law_join(words(m), words(m), m, sep);
    } else {
        assert(m[n] == ' ');
        assert(n < m.len() - 1);
        let w = m.take(n);
        let r = m.skip(n + 1);
        assert(r[0] == m[n + 1]);
        assert(r[r.len() - 1] == m[m.len() - 1]);
        assert forall|i: int| 0 <= i < r.len() && is_white_space(#[trigger] r[i]) implies r[i]
            == ' ' by {
            assert(r[i] == m[n + 1 + i]);
        }
        assert forall|i: int| 0 <= i < r.len() - 1 && #[trigger] r[i] == ' ' implies r[i + 1]
            != ' ' by {
            assert(r[i] == m[n + 1 + i]);
            assert(r[i + 1] == m[n + 1 + i + 1]);
        }
        lemma_rejoined(r);
        assert(n > 0);
        assert(is_word(w));
        law_word_is_itself(w);
        assert(m =~= w + seq![' '] + r);
        law_words_around_white_space(w, ' ', r);
        law_join(seq![w], words(r), w, sep);
    }
}

/// The stem keeps the whole title: where the title has no `|`, no white space at its ends
/// and no two spaces in a row, each of its characters stands in the stem at its place, or
/// an underscore for it where a file name does not keep it. (No white space but the space
/// is a letter or a digit.)
pub proof fn law_stem_keeps_title(t: Seq<char>)
    requires
        t.len() > 0,
        !t.contains('|'),
        is_tight(t),
        forall|i: int| 0 <= i < t.len() - 1 && #[trigger] t[i] == ' ' ==> t[i + 1] != ' ',
        forall|i: int|
            0 <= i < t.len() && is_white_space(#[trigger] t[i]) && t[i] != ' ' ==> !is_name_char(
                t[i],
            ),
    ensures
        file_stem_of(t).len() == t.len(),
        forall|i: int|
            0 <= i < t.len() ==> #[trigger] file_stem_of(t)[i] == (if is_name_char(t[i]) {
                t[i]
            } else {
                '_'
            }),
{
    let e = Seq::<char>::empty();
    law_before(t, '|', e);
    law_trim(e, t, e);
    assert(e + t + e =~= t);
    let m = t.map_values(|c: char| name_char(c));
    assert(forall|i: int| 0 <= i < m.len() ==> #[trigger] m[i] == name_char(t[i]));
    assert forall|i: int| 0 <= i < m.len() - 1 && #[trigger] m[i] == ' ' implies m[i + 1]
        != ' ' by {
        assert(t[i] == ' ');
        assert(m[i + 1] == name_char(t[i + 1]));
    }
    assert forall|i: int| 0 <= i < m.len() && is_white_space(#[trigger] m[i]) implies m[i]
        == ' ' by {
        assert(m[i] == name_char(t[i]));
    }
    lemma_rejoined(m);
}

/// What a title holds behind its first `|` does not matter.
pub proof fn law_stem_ends_at_bar(t: Seq<char>, rest: Seq<char>)
    requires
        !t.contains('|'),
    ensures
        file_stem_of(t + seq!['|'] + rest) == file_stem_of(t),
{
    law_before(t, '|', rest);
}

/// White space around a title does not matter, and a title of nothing else, or none at
/// all, gives the stem `schatkamer-video`.
pub proof fn law_stem_without_outer_space(a: Seq<char>, t: Seq<char>, b: Seq<char>)
    requires
        is_blank(a),
        is_blank(b),
        !t.contains('|'),
    ensures
        file_stem_of(a + t + b) == file_stem_of(t),
        is_blank(t) ==> file_stem_of(t) == "schatkamer-video"@,
{
    let e = Seq::<char>::empty();
    let s = a + t + b;
    let (x, y) = lemma_trim_parts(t);
    let m = trimmed(t);
    let ax = a + x;
    let yb = y + b;
    assert forall|i: int| 0 <= i < ax.len() implies is_white_space(#[trigger] ax[i]) by {
        if i < a.len() {
            assert(ax[i] == a[i]);
        } else {
            assert(ax[i] == x[i - a.len()]);
        }
    }
    assert forall|i: int| 0 <= i < yb.len() implies is_white_space(#[trigger] yb[i]) by {
        if i < y.len() {
            assert(yb[i] == y[i]);
        } else {
            assert(yb[i] == b[i - y.len()]);
        }
    }
    law_trim(ax, m, yb);
    assert(s =~= ax + m + yb);
    if s.contains('|') {
        let i = choose|i: int| 0 <= i < s.len() && s[i] == '|';
        if i < a.len() {
            assert(is_white_space(a[i]));
        } else if i < a.len() + t.len() {
            assert(t[i - a.len()] == '|');
        } else {
            assert(is_white_space(b[i - a.len() - t.len()]));
        }
    }
    law_before(s, '|', e);
    law_before(t, '|', e);
    if is_blank(t) {
        law_trim(t, e, e);
        assert(t + e + e =~= t);
        assert(e.map_values(|c: char| name_char(c)) =~= e);
        law_words_around_white_space(e, ' ', e);
        law_join(words(e), words(e), e, seq![' ']);
    }
}

/// Several spaces in a row count as one.
pub proof fn law_stem_closes_gaps(a: Seq<char>, b: Seq<char>)
    requires
        a.len() > 0,
        !is_white_space(a[0]),
        b.len() > 0,
        !is_white_space(b[b.len() - 1]),
        !a.contains('|'),
        !b.contains('|'),
    ensures
        file_stem_of(a + seq![' ', ' '] + b) == file_stem_of(a + seq![' '] + b),
{
    let e = Seq::<char>::empty();
    let s = a + seq![' ', ' '] + b;
    let t = a + seq![' '] + b;
    let f = |c: char| name_char(c);
    if s.contains('|') {
        let i = choose|i: int| 0 <= i < s.len() && s[i] == '|';
        if i < a.len() {
            assert(a[i] == '|');
        } else if i >= a.len() + 2 {
            assert(b[i - a.len() - 2] == '|');
        }
    }
    if t.contains('|') {
        let i = choose|i: int| 0 <= i < t.len() && t[i] == '|';
        if i < a.len() {
            assert(a[i] == '|');
        } else if i >= a.len() + 1 {
            assert(b[i - a.len() - 1] == '|');
        }
    }
    law_before(s, '|', e);
    law_before(t, '|', e);
    assert(s[0] == a[0] && t[0] == a[0]);
    assert(s[s.len() - 1] == b[b.len() - 1] && t[t.len() - 1] == b[b.len() - 1]);
    law_trim(e, s, e);
    law_trim(e, t, e);
    assert(e + s + e =~= s);
    assert(e + t + e =~= t);
    let x = a.map_values(f);
    let y = b.map_values(f);
    assert(t.map_values(f) =~= x + seq![' '] + y);
    assert(s.map_values(f) =~= (x + seq![' '] + e) + seq![' '] + y);
    law_words_around_white_space(x, ' ', y);
    law_words_around_white_space(x + seq![' '] + e, ' ', y);
    law_words_around_white_space(x, ' ', e);
    assert(words(x) + words(e) =~= words(x));
}

/// Where no number stands behind the first `/aflevering/` of a URL, its key is the whole
/// URL, but for what is neither letter nor digit of ASCII: that goes at the two ends, and
/// becomes an underscore between.
pub proof fn law_key_is_whole_url(a: Seq<char>, u: Seq<char>, b: Seq<char>)
    requires
        forall|i: int| 0 <= i < a.len() ==> !is_ascii_alphanumeric(#[trigger] a[i]),
        forall|i: int| 0 <= i < b.len() ==> !is_ascii_alphanumeric(#[trigger] b[i]),
        u.len() > 0 ==> is_ascii_alphanumeric(u[0]) && is_ascii_alphanumeric(u[u.len() - 1]),
        forall|i: int| #[trigger]
            first_occurrence(a + u + b, "/aflevering/"@, i) ==> i + 12 == (a + u + b).len()
                || !is_ascii_digit((a + u + b)[i + 12]),
    ensures
        key_of(a + u + b).len() == u.len(),
        forall|i: int|
            0 <= i < u.len() ==> #[trigger] key_of(a + u + b)[i] == (if is_ascii_alphanumeric(
                u[i],
            ) {
                u[i]
            } else {
                '_'
            }),
{
    let url = a + u + b;
    let p = "/aflevering/"@;
    reveal_strlit("/aflevering/");
    assert(p.len() == 12);
    match position(url, p) {
        Some(i) => {
            law_position(url, p, i);
            assert(first_occurrence(url, p, i));
            let tail = url.skip(i + 12);
            if i + 12 < url.len() {
                assert(tail[0] == url[i + 12]);
            }
            lemma_digits_len_at(tail, 0);
            assert(episode_id(url) is None);
        },
        None => {},
    }
    let f = |c: char| plain_char(c);
    let x = a.map_values(f);
    let m = u.map_values(f);
    let y = b.map_values(f);
    assert(url.map_values(f) =~= x + (m + y));
    assert(is_run_of(x, '_'));
    assert(is_run_of(y, '_'));
    if u.len() > 0 {
        assert(m[0] == u[0] && m[m.len() - 1] == u[u.len() - 1]);
        assert((m + y)[0] == m[0]);
        law_strip(m + y, '_', x);
        law_strip(m, '_', y);
    } else {
        assert(m =~= Seq::<char>::empty());
        let xy = x + (m + y);
        assert forall|i: int| 0 <= i < xy.len() implies #[trigger] xy[i] == '_' by {
            if i < x.len() {
                assert(xy[i] == x[i]);
            } else {
                assert(xy[i] == y[i - x.len()]);
            }
        }
        law_strip(m, '_', xy);
        assert(xy + m =~= xy);
        law_strip(m, '_', m);
        assert(m + m =~= m);
    }
}

/// A cached file lies in `downloads` under its key, and a kept file in the library's
/// directory under its name.
pub proof fn law_where_files_lie(key: Seq<char>, dir: Seq<char>, name: Seq<char>)
    ensures
        cached_file(key) == "downloads/"@ + key + ".mp4"@,
        library_file(dir, name) == dir + seq!['/'] + name,
        name.len() > 0 && !name.contains('/') && name != "."@ && name != ".."@ ==> file_name_of(
            library_file(dir, name),
        ) == Some(name),
{
    reveal_strlit("downloads");
    reveal_strlit("downloads/");
    reveal_strlit("/");
    assert(cached_file(key) =~= "downloads/"@ + key + ".mp4"@);
    assert(library_file(dir, name) =~= dir + seq!['/'] + name);
    if name.len() > 0 && !name.contains('/') && name != "."@ && name != ".."@ {
        law_file_name_of_library_file(dir, name);
    }
}

/// A name that is taken gets a number before its extension, or at its end where it has
/// none; the first one that is tried is the plain name.
pub proof fn law_numbered_names(
    dir: Seq<char>,
    stem: Seq<char>,
    ext: Seq<char>,
    n: int,
)
    requires
        !ext.contains('.'),
        n >= 2,
    ensures
        candidate(dir, stem + seq!['.'] + ext, 1) == dir + seq!['/'] + stem + seq!['.'] + ext,
        candidate(dir, stem + seq!['.'] + ext, n) == dir + seq!['/'] + stem + seq![' ', '(']
            + decimal(n as nat) + seq![')', '.'] + ext,
        candidate(dir, ext, n) == dir + seq!['/'] + ext + seq![' ', '('] + decimal(n as nat)
            + seq![')'],
{
    reveal_strlit("/");
    reveal_strlit(" (");
    reveal_strlit(")");
    let name = stem + seq!['.'] + ext;
    let k = stem.len() as int;
    assert forall|j: int| k < j < name.len() implies #[trigger] name[j] != '.' by {
        assert(name[j] == ext[j - k - 1]);
        assert(ext.contains(ext[j - k - 1]));
    }
    assert(name[k] == '.');
    lemma_last_index_at(name, '.', k);
    assert(stem_part(name) =~= stem);
    assert(extension_part(name) =~= seq!['.'] + ext);
    assert forall|j: int| 0 <= j < ext.len() implies #[trigger] ext[j] != '.' by {
        assert(ext.contains(ext[j]));
    }
    lemma_last_index_at(ext, '.', -1);
    assert(candidate(dir, name, 1) =~= dir + seq!['/'] + stem + seq!['.'] + ext);
    assert(candidate(dir, name, n) =~= dir + seq!['/'] + stem + seq![' ', '('] + decimal(n as nat)
        + seq![')', '.'] + ext);
    assert(candidate(dir, ext, n) =~= dir + seq!['/'] + ext + seq![' ', '('] + decimal(n as nat)
        + seq![')']);
}

/// The extension of a file name is what stands behind its last dot, but a dot at its start
/// does not count.
pub proof fn law_extension(stem: Seq<char>, ext: Seq<char>)
    requires
        !ext.contains('.'),
    ensures
        stem.len() > 0 && stem + seq!['.'] + ext != ".."@ ==> extension_of(
            stem + seq!['.'] + ext,
        ) == Some(ext),
        extension_of(ext) is None,
        extension_of(seq!['.'] + ext) is None,
        extension_of(".."@) is None,
{
    let name = stem + seq!['.'] + ext;
    let dotted = seq!['.'] + ext;
    let k = stem.len() as int;
    assert forall|j: int| 0 <= j < ext.len() implies #[trigger] ext[j] != '.' by {
        assert(ext.contains(ext[j]));
    }
    assert forall|j: int| k < j < name.len() implies #[trigger] name[j] != '.' by {
        assert(name[j] == ext[j - k - 1]);
    }
    assert(name[k] == '.');
    lemma_last_index_at(name, '.', k);
    assert(name.skip(k + 1) =~= ext);
    lemma_last_index_at(ext, '.', -1);
    assert forall|j: int| 0 < j < dotted.len() implies #[trigger] dotted[j] != '.' by {
        assert(dotted[j] == ext[j - 1]);
    }
    lemma_last_index_at(dotted, '.', 0);
}

/// The search for a free name goes on as long as the number behind it fits in 31 bits, and
/// what it was answered was answered for that very path.
pub proof fn law_search_for_a_name<F: Fn(&String) -> bool>(
    exists_at: F,
    path: Seq<char>,
    answer: bool,
    n: int,
)
    requires
        1 <= n < i32::MAX,
    ensures
        n <= LAST_CANDIDATE,
        answered(exists_at, path, answer) <==> exists|p: String|
            p@ == path && #[trigger] call_ensures(exists_at, (&p,), answer),
{
}

/// A path without a slash is its own file name, and slashes at the end of a path do not
/// change its file name.
pub proof fn law_file_name(name: Seq<char>, path: Seq<char>, slashes: Seq<char>)
    requires
        is_run_of(slashes, '/'),
    ensures
        name.len() > 0 && !name.contains('/') && name != "."@ && name != ".."@ ==> file_name_of(
            name,
        ) == Some(name),
        path.len() > 0 && path[path.len() - 1] != '/' ==> file_name_of(path + slashes)
            == file_name_of(path),
        file_name_of(slashes) is None,
        path.len() > 0 ==> file_name_of(path + seq!['/', '.']) == file_name_of(path),
        file_name_of(path + seq!['/', '.', '.']) is None,
{
    let e = Seq::<char>::empty();
    lemma_dots_at_end(path);
    if name.len() > 0 && !name.contains('/') {
        assert(name.contains(name[name.len() - 1]));
        law_strip(name, '/', e);
        assert(name + e =~= name);
        law_after_last(e, '/', name);
    }
    if path.len() > 0 && path[path.len() - 1] != '/' {
        law_strip(path, '/', slashes);
        law_strip(path, '/', e);
        assert(path + e =~= path);
    }
    law_strip(e, '/', slashes);
    assert(e + slashes =~= slashes);
}

proof fn lemma_dots_at_end(path: Seq<char>)
    ensures
        path.len() > 0 ==> file_name_of(path + seq!['/', '.']) == file_name_of(path),
        file_name_of(path + seq!['/', '.', '.']) is None,
{
    let e = Seq::<char>::empty();
    let one = path + seq!['/', '.'];
    let two = path + seq!['/', '.', '.'];
    reveal_strlit(".");
    reveal_strlit("..");
    law_strip(one, '/', e);
    assert(one + e =~= one);
    law_after_last(path, '/', seq!['.']);
    assert(one =~= path + seq!['/'] + seq!['.']);
    assert(seq!['.'] =~= "."@);
    law_strip(two, '/', e);
    assert(two + e =~= two);
    law_after_last(path, '/', seq!['.', '.']);
    assert(two =~= path + seq!['/'] + seq!['.', '.']);
    assert(seq!['.', '.'] =~= ".."@);
    assert(one.drop_last() =~= path + seq!['/']);
    let parent = path + seq!['/'];
    assert(without_trailing(parent, '/') == without_trailing(path, '/')) by {
        assert(parent.drop_last() =~= path);
    }
    lemma_without_trailing_shrinks(path, '/');
    assert("."@.len() != ".."@.len());
    assert(file_name_of(one) == file_name_of(one.drop_last()));
    let p = without_trailing(path, '/');
    assert(p.len() <= path.len() && p.len() <= parent.len());
    if p.len() > 0 && after_last(p, '/') == "."@ {
        assert(file_name_of(parent) == file_name_of(p.drop_last()));
        assert(file_name_of(path) == file_name_of(p.drop_last()));
    }
    assert(file_name_of(parent) == file_name_of(path));
}

} // verus!
