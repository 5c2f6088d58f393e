//! What holds of what is read from the pages of the site.
use crate::names::{cached_file, key_of};
use crate::naming_laws::law_key_is_episode_id;
use crate::numbers::all_digits;
use crate::page::{
    cookie_pair, first_stream, is_query_char, query_end, signed_address, signed_cookies, title_of,
    unescaped,
};
use crate::pipeline::{started, ActionView, StepView};
use crate::pipeline_laws::{downloads, looked_up};
use crate::series::{
    base_of, episode_url, first_by_id, first_series_title, html_text, is_series_url,
    lemma_first_by_id_keeps_ids, listed_before, series_title_of, EpisodeGroups,
};
use crate::state::AppView;
use crate::text::{
    before, contains_str, first_index, is_ascii_digit, lemma_trim_chars, lemma_trimmed_of_tight,
    occurs_at, replaced, trimmed, without_trailing,
};
use vstd::prelude::*;

verus! {

/// Nothing is replaced in a part that does not hold the first character of what is
/// looked for.
pub proof fn lemma_replaced_behind(a: Seq<char>, b: Seq<char>, from: Seq<char>, to: Seq<char>)
    requires
        from.len() > 0,
        forall|i: int| 0 <= i < a.len() ==> #[trigger] a[i] != from[0],
    ensures
        replaced(a + b, from, to) == a + replaced(b, from, to),
    decreases a.len(),
{
    let s = a + b;
    if a.len() == 0 {
        assert(s =~= b);
        assert(a + replaced(b, from, to) =~= replaced(b, from, to));
    } else {
        let rest = a.drop_first();
        assert(s.drop_first() =~= rest + b);
        assert(s[0] == a[0]);
        assert forall|i: int| 0 <= i < rest.len() implies #[trigger] rest[i] != from[0] by {
            assert(rest[i] == a[i + 1]);
        }
        lemma_replaced_behind(rest, b, from, to);
        if s.len() >= from.len() {
            if occurs_at(s, from, 0) {
                assert(s.subrange(0, from.len() as int)[0] == s[0]);
            }
            assert(seq![a[0]] + (rest + replaced(b, from, to)) =~= a + replaced(b, from, to));
        } else {
            assert(a + b =~= s);
        }
    }
}

/// Where the first character of what is looked for is absent, nothing changes.
proof fn lemma_replaced_of_plain(s: Seq<char>, from: Seq<char>, to: Seq<char>)
    requires
        from.len() > 0,
        !s.contains(from[0]),
    ensures
        replaced(s, from, to) == s,
{
    assert forall|i: int| 0 <= i < s.len() implies #[trigger] s[i] != from[0] by {
        assert(s.contains(s[i]));
    }
    let e = Seq::<char>::empty();
    lemma_replaced_behind(s, e, from, to);
    assert(s + e =~= s);
    assert(replaced(e, from, to) =~= e);
}

proof fn lemma_replaced_not_empty(s: Seq<char>, from: Seq<char>, to: Seq<char>)
    requires
        s.len() > 0,
        to.len() > 0,
    ensures
        replaced(s, from, to).len() > 0,
{
}

/// A title without an ampersand is not changed by decoding.
pub proof fn law_html_plain_text(s: Seq<char>)
    requires
        !s.contains('&'),
    ensures
        html_text(s) == s,
{
    reveal_strlit("&amp;");
    reveal_strlit("&#x27;");
    reveal_strlit("&#39;");
    reveal_strlit("&quot;");
    reveal_strlit("&lt;");
    reveal_strlit("&gt;");
    lemma_replaced_of_plain(s, "&amp;"@, "&"@);
    lemma_replaced_of_plain(s, "&#x27;"@, "'"@);
    lemma_replaced_of_plain(s, "&#39;"@, "'"@);
    lemma_replaced_of_plain(s, "&quot;"@, "\""@);
    lemma_replaced_of_plain(s, "&lt;"@, "<"@);
    lemma_replaced_of_plain(s, "&gt;"@, ">"@);
}

/// A title that is not empty does not become empty by decoding.
pub proof fn law_html_text_not_empty(s: Seq<char>)
    requires
        s.len() > 0,
    ensures
        html_text(s).len() > 0,
{
    reveal_strlit("&");
    reveal_strlit("'");
    reveal_strlit("\"");
    reveal_strlit("<");
    reveal_strlit(">");
    let a = replaced(s, "&amp;"@, "&"@);
    lemma_replaced_not_empty(s, "&amp;"@, "&"@);
    let b = replaced(a, "&#x27;"@, "'"@);
    lemma_replaced_not_empty(a, "&#x27;"@, "'"@);
    let c = replaced(b, "&#39;"@, "'"@);
    lemma_replaced_not_empty(b, "&#39;"@, "'"@);
    let d = replaced(c, "&quot;"@, "\""@);
    lemma_replaced_not_empty(c, "&quot;"@, "\""@);
    let e = replaced(d, "&lt;"@, "<"@);
    lemma_replaced_not_empty(d, "&lt;"@, "<"@);
    lemma_replaced_not_empty(e, "&gt;"@, ">"@);
}

/// The query of a matched address, turned back, holds no backslash.
proof fn lemma_query_unescaped(t: Seq<char>, k: int)
    requires
        0 <= k <= t.len(),
    ensures
        k <= query_end(t, k) <= t.len(),
        !unescaped(t.subrange(k, query_end(t, k))).contains('\\'),
    decreases t.len() - k,
{
    let esc = "\\u0026"@;
    reveal_strlit("\\u0026");
    reveal_strlit("&");
    let e = query_end(t, k);
    if k < t.len() && is_query_char(t[k]) {
        lemma_query_unescaped(t, k + 1);
        let rest = t.subrange(k + 1, e);
        let head = seq![t[k]];
        assert(t.subrange(k, e) =~= head + rest);
        lemma_replaced_behind(head, rest, esc, "&"@);
        let u = unescaped(rest);
        lemma_not_contained(head, u);
    } else if occurs_at(t, esc, k) {
        lemma_query_unescaped(t, k + 6);
        let s = t.subrange(k, e);
        let rest = t.subrange(k + 6, e);
        assert(s.subrange(0, 6) =~= t.subrange(k, k + 6));
        assert(s.skip(6) =~= rest);
        assert(unescaped(s) == "&"@ + unescaped(rest));
        lemma_not_contained("&"@, unescaped(rest));
    } else {
        let s = t.subrange(k, e);
        assert(s =~= Seq::<char>::empty());
        assert(unescaped(s) =~= Seq::<char>::empty());
    }
}

proof fn lemma_not_contained(a: Seq<char>, b: Seq<char>)
    requires
        !a.contains('\\'),
        !b.contains('\\'),
    ensures
        !(a + b).contains('\\'),
{
    let s = a + b;
    if s.contains('\\') {
        let i = choose|i: int| 0 <= i < s.len() && s[i] == '\\';
        if i < a.len() {
            assert(a[i] == s[i]);
        } else {
            assert(b[i - a.len()] == s[i]);
        }
    }
}

proof fn lemma_first_index_bounds(s: Seq<char>, c: char)
    ensures
        0 <= first_index(s, c) <= s.len(),
        forall|j: int| 0 <= j < first_index(s, c) ==> #[trigger] s[j] != c,
        first_index(s, c) < s.len() ==> s[first_index(s, c)] == c,
    decreases s.len(),
{
    if s.len() > 0 && s[0] != c {
        lemma_first_index_bounds(s.drop_first(), c);
        assert forall|j: int| 0 <= j < first_index(s, c) implies #[trigger] s[j] != c by {
            if j > 0 {
                assert(s.drop_first()[j - 1] == s[j]);
            }
        }
    }
}

/// The address that is taken from a page is one of the video CDN and holds no escape
/// any more; without its query it still is one, and holds no question mark.
pub proof fn law_stream_address(html: Seq<char>)
    requires
        signed_address(html) is Some,
    ensures
        ({
            let signed = signed_address(html)->0;
            let master = before(signed, '?');
            &&& occurs_at(signed, "https://sk-video"@, 0)
            &&& !signed.contains('\\')
            &&& occurs_at(master, "https://sk-video"@, 0)
            &&& !master.contains('\\')
            &&& !master.contains('?')
            &&& master.len() < signed.len() && signed[master.len() as int] == '?'
        }),
{
    let p = "https://sk-video"@;
    let m = ".m3u8?"@;
    let esc = "\\u0026"@;
    reveal_strlit("https://sk-video");
    reveal_strlit(".m3u8?");
    reveal_strlit("\\u0026");
    let (i, j) = choose|i: int, j: int| first_stream(html, i, j);
    assert(first_stream(html, i, j));
    let k = j + m.len();
    lemma_query_unescaped(html, k);
    let e = query_end(html, k);
    let a = html.subrange(i, k);
    let q = html.subrange(k, e);
    assert(html.subrange(i, e) =~= a + q);
    assert(a.subrange(0, 16) =~= html.subrange(i, i + 16));
    assert forall|n: int| 0 <= n < a.len() implies #[trigger] a[n] != '\\' by {
        if n < 16 {
            assert(a[n] == p[n]) by {
                assert(a.subrange(0, 16)[n] == p[n]);
            }
        } else if n < j - i {
            assert(a[n] == html[i + n]);
        } else {
            assert(html.subrange(j, j + 6)[n - (j - i)] == m[n - (j - i)]);
            assert(a[n] == html[i + n]);
        }
    }
    lemma_replaced_behind(a, q, esc, "&"@);
    let u = unescaped(q);
    let s = a + u;
    assert(signed_address(html) == Some(s));
    lemma_not_contained(a, u);
    assert(s.subrange(0, 16) =~= a.subrange(0, 16));
    lemma_first_index_bounds(s, '?');
    let n = first_index(s, '?');
    assert(s[k - i - 1] == '?') by {
        assert(html.subrange(j, j + 6)[5] == '?');
        assert(a[k - i - 1] == html[k - 1]);
    }
    assert(n >= 16) by {
        if n < 16 {
            assert(s[n] == s.subrange(0, 16)[n]);
            assert(p[n] != '?');
        }
    }
    let master = before(s, '?');
    assert(master.subrange(0, 16) =~= s.subrange(0, 16));
    if master.contains('?') {
        let x = choose|x: int| 0 <= x < master.len() && master[x] == '?';
        assert(s[x] == '?');
    }
    if master.contains('\\') {
        let x = choose|x: int| 0 <= x < master.len() && master[x] == '\\';
        assert(s[x] == '\\');
        assert(s.contains('\\'));
    }
}

/// The title of a page is never empty.
pub proof fn law_title_not_empty(html: Seq<char>)
    ensures
        title_of(html).len() > 0,
{
    reveal_strlit("schatkamer-video");
}

/// Of the cookies of an answer exactly the signed ones are handed on, each of them
/// without its attributes.
pub proof fn law_cookies_are_signed(headers: Seq<Option<String>>)
    ensures
        forall|k: int|
            0 <= k < signed_cookies(headers).len() ==> occurs_at(
                #[trigger] signed_cookies(headers)[k],
                "CloudFront-"@,
                0,
            ) && !signed_cookies(headers)[k].contains(';'),
        forall|n: int|
            0 <= n < headers.len() && (headers[n] matches Some(h) && occurs_at(
                cookie_pair(h@),
                "CloudFront-"@,
                0,
            )) ==> signed_cookies(headers).contains(cookie_pair((#[trigger] headers[n])->0@)),
    decreases headers.len(),
{
    if headers.len() > 0 {
        let init = headers.drop_last();
        law_cookies_are_signed(init);
        let rest = signed_cookies(init);
        let all = signed_cookies(headers);
        if let Some(h) = headers.last() {
            let b = before(h@, ';');
            lemma_first_index_bounds(h@, ';');
            lemma_trim_chars(b);
            let pair = cookie_pair(h@);
            if pair.contains(';') {
                let x = choose|x: int| 0 <= x < pair.len() && pair[x] == ';';
                assert(b.contains(pair[x]));
                let y = choose|y: int| 0 <= y < b.len() && b[y] == ';';
                assert(h@[y] == ';');
            }
        }
        assert forall|k: int| 0 <= k < all.len() implies occurs_at(
            #[trigger] all[k],
            "CloudFront-"@,
            0,
        ) && !all[k].contains(';') by {
            if k < rest.len() {
                assert(all[k] == rest[k]);
            }
        }
        assert forall|n: int|
            0 <= n < headers.len() && (headers[n] matches Some(h) && occurs_at(
                cookie_pair(h@),
                "CloudFront-"@,
                0,
            )) implies all.contains(cookie_pair((#[trigger] headers[n])->0@)) by {
            if n < init.len() {
                assert(init[n] == headers[n]);
                let c = cookie_pair(headers[n]->0@);
                assert(rest.contains(c));
                let k = choose|k: int| 0 <= k < rest.len() && rest[k] == c;
                assert(all[k] == c);
            } else {
                assert(all[all.len() - 1] == cookie_pair(headers[n]->0@));
            }
        }
    }
}

/// A listing has every id of the page once, in the order of the first appearances.
pub proof fn law_listing_has_each_id_once(groups: Seq<EpisodeGroups>)
    ensures
        forall|i: int, j: int|
            0 <= i < j < first_by_id(groups).len() ==> (#[trigger] first_by_id(groups)[i]).0 != (
            #[trigger] first_by_id(groups)[j]).0,
        forall|id: Seq<char>|
            listed_before(groups, id, groups.len() as int) <==> #[trigger] listed_before(
                first_by_id(groups),
                id,
                first_by_id(groups).len() as int,
            ),
        groups.len() > 0 ==> first_by_id(groups).len() > 0 && first_by_id(groups)[0] == groups[0],
    decreases groups.len(),
{
    assert forall|id: Seq<char>|
        listed_before(groups, id, groups.len() as int) <==> #[trigger] listed_before(
            first_by_id(groups),
            id,
            first_by_id(groups).len() as int,
        ) by {
        lemma_first_by_id_keeps_ids(groups, id);
    }
    if groups.len() > 0 {
        let init = groups.drop_last();
        let n = groups.len() - 1;
        law_listing_has_each_id_once(init);
        let old_kept = first_by_id(init);
        let kept = first_by_id(groups);
        let id = groups.last().0;
        if !listed_before(groups, id, n) {
            lemma_first_by_id_keeps_ids(init, id);
            if listed_before(init, id, n) {
                let i = choose|i: int| 0 <= i < n && (#[trigger] init[i]).0 == id;
                assert(groups[i].0 == id);
            }
            assert forall|i: int, j: int| 0 <= i < j < kept.len() implies (#[trigger] kept[i]).0
                != (#[trigger] kept[j]).0 by {
                if j < old_kept.len() {
                    assert(kept[i] == old_kept[i] && kept[j] == old_kept[j]);
                } else {
                    assert(kept[i] == old_kept[i]);
                    if old_kept[i].0 == id {
                        assert(listed_before(old_kept, id, old_kept.len() as int));
                    }
                }
            }
        }
        if n == 0 {
            assert(!listed_before(groups, id, 0));
            assert(old_kept =~= seq![]);
        } else {
            assert(init[0] == groups[0]);
            assert(kept[0] == old_kept[0]);
        }
    }
}

proof fn lemma_first_series_title(groups: Seq<EpisodeGroups>)
    requires
        groups.len() > 0,
        html_text(groups[0].2).len() > 0,
    ensures
        first_series_title(groups) == html_text(groups[0].2),
    decreases groups.len(),
{
    let init = groups.drop_last();
    if init.len() > 0 {
        assert(init[0] == groups[0]);
        lemma_first_series_title(init);
    } else {
        assert(first_series_title(init).len() == 0);
    }
}

/// A series is called as its first episode says, entities decoded.
pub proof fn law_series_title_is_first(groups: Seq<EpisodeGroups>)
    requires
        groups.len() > 0,
        groups[0].2.len() > 0,
    ensures
        series_title_of(first_by_id(groups)) == html_text(groups[0].2),
{
    law_html_text_not_empty(groups[0].2);
    law_listing_has_each_id_once(groups);
    lemma_first_series_title(first_by_id(groups));
}

/// The episode of a listing is known by its id: the key of its address is the id.
pub proof fn law_listed_episode_has_its_id_as_key(base: Seq<char>, id: Seq<char>)
    requires
        id.len() > 0,
        all_digits(id),
        !contains_str(base.push('/'), "/aflevering/"@),
    ensures
        key_of(episode_url(base, id)) == id,
{
    let e = Seq::<char>::empty();
    law_key_is_episode_id(base, id, e);
    assert(base + "/aflevering/"@ + id + e =~= episode_url(base, id));
}

proof fn lemma_without_trailing_prefix(s: Seq<char>, c: char)
    ensures
        without_trailing(s, c).len() <= s.len(),
        without_trailing(s, c) == s.take(without_trailing(s, c).len() as int),
        without_trailing(s, c).len() > 0 ==> without_trailing(s, c).last() != c,
        forall|j: int| without_trailing(s, c).len() <= j < s.len() ==> #[trigger] s[j] == c,
    decreases s.len(),
{
    if s.len() > 0 && s.last() == c {
        lemma_without_trailing_prefix(s.drop_last(), c);
        let n = without_trailing(s, c).len() as int;
        assert(s.drop_last().take(n) =~= s.take(n));
        assert forall|j: int| n <= j < s.len() implies #[trigger] s[j] == c by {
            if j < s.len() - 1 {
                assert(s.drop_last()[j] == s[j]);
            }
        }
    } else {
        assert(s.take(s.len() as int) =~= s);
    }
}

/// The address of a series has no query of its own, so that the filter for playable
/// episodes is the only one that is asked for; nor has it a slash at its end.
pub proof fn law_series_base_has_no_query(url: Seq<char>)
    ensures
        !base_of(url).contains('?'),
        base_of(url).len() > 0 ==> base_of(url).last() != '/',
{
    let b = before(url, '?');
    lemma_first_index_bounds(url, '?');
    lemma_without_trailing_prefix(b, '/');
    let base = base_of(url);
    if base.contains('?') {
        let i = choose|i: int| 0 <= i < base.len() && base[i] == '?';
        assert(base[i] == b[i]);
        assert(b[i] == url[i]);
    }
}

/// The mark that the listing of a series puts on an episode and the job that is started
/// for it go by the same key: the job looks for the episode in the two places where the
/// mark comes from.
pub proof fn law_mark_goes_by_job_key(
    app: AppView,
    url: Seq<char>,
    id: Seq<char>,
    job: Seq<char>,
    keep: bool,
)
    requires
        is_series_url(url),
        id.len() > 0,
        all_digits(id),
        !contains_str(base_of(url).push('/'), "/aflevering/"@),
    ensures
        ({
            let run = started(app, job, episode_url(base_of(url), id), keep);
            &&& run.key == id
            &&& run.cache == cached_file(id)
            &&& run.step == (match app.media_file(id) {
                Some(path) => StepView::Media { path },
                None => StepView::Cache,
            })
        }),
{
    let b = before(url, '?');
    let base = base_of(url);
    let address = episode_url(base, id);
    reveal_strlit("http");
    lemma_first_index_bounds(url, '?');
    lemma_without_trailing_prefix(b, '/');
    assert forall|n: int| 0 <= n < 4 implies #[trigger] url[n] == "http"@[n] by {
        assert(url.subrange(0, 4)[n] == url[n]);
    }
    assert(b.len() >= 4 && b[3] == 'p' && b[0] == 'h');
    assert(base[0] == b[0]);
    assert(address[0] == 'h');
    assert(address.last() == id[id.len() - 1]);
    assert(is_ascii_digit(id[id.len() - 1]));
    lemma_trimmed_of_tight(address);
    law_listed_episode_has_its_id_as_key(base, id);
}

/// The mark "already downloaded" and the job go by the same check: with the same files
/// in the two places, an episode is marked if and only if a job that is not to keep it
/// is done with it at once. In both modes a marked episode is not downloaded and not
/// claimed, and one that is not marked is, unless another job has claimed it.
pub proof fn law_mark_agrees_with_job(
    app: AppView,
    id: Seq<char>,
    url: Seq<char>,
    keep: bool,
    cached: bool,
    kept: bool,
)
    ensures
        ({
            let key = key_of(trimmed(url));
            let marked = app.has_episode(key, cached, kept);
            let (app2, run2) = looked_up(app, id, url, keep, cached, kept);
            &&& !keep ==> (marked <==> run2.step is Finished && app2.jobs[id].status == "Klaar"@)
            &&& marked ==> app2.active == app.active && !downloads(run2)
            &&& !marked && !app.active.contains(key) && occurs_at(trimmed(url), "http"@, 0) ==> {
                &&& run2.action() == (ActionView::FetchPage { url: trimmed(url) })
                &&& app2.active == app.active.insert(key)
            }
        }),
{
    reveal_strlit("Fout");
    reveal_strlit("Klaar");
    reveal_strlit("Overgeslagen");
    assert("Fout"@.len() != "Klaar"@.len());
    assert("Overgeslagen"@.len() != "Klaar"@.len());
}

} // verus!
