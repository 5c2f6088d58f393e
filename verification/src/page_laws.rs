//! What is read from a page that is put together from parts: its title, its stream, and
//! the cookies of an answer.
use crate::page::{
    cookie_pair, first_stream, first_title, is_query_char, lemma_stream_match_is,
    lemma_title_text_is, query_end, signed_address, signed_cookies, stream_head, title_at,
    title_of, unescaped,
};
use crate::pipeline::{advanced, ActionView, Event, RunView};
use crate::site_laws::{law_cookies_are_signed, lemma_replaced_behind};
use crate::state::AppView;
use crate::text::{
    before, contains_str, first_occurrence, is_white_space, joined, occurs_at, replaced, trimmed,
};
use crate::text_laws::{is_blank, is_tight, law_before, law_join, law_replace, law_trim};
use vstd::prelude::*;

verus! {

/// The title of a page is what stands in its first title tag, without the white space at
/// its ends; where nothing else stands there, it is `schatkamer-video`. The first tag is
/// the first one that is closed before another tag begins.
pub proof fn law_title_is_read(pre: Seq<char>, t: Seq<char>, post: Seq<char>)
    requires
        !contains_str(pre, "<title>"@) || forall|i: int, n: int|
            i < pre.len() ==> !title_at(pre + "<title>"@ + t + "</title>"@ + post, i, n),
        !t.contains('<'),
    ensures
        ({
            let title = title_of(pre + "<title>"@ + t + "</title>"@ + post);
            title == (if trimmed(t).len() > 0 {
                trimmed(t)
            } else {
                "schatkamer-video"@
            })
        }),
{
    let open = "<title>"@;
    let close = "</title>"@;
    reveal_strlit("<title>");
    reveal_strlit("</title>");
    let html = pre + open + t + close + post;
    let n = pre.len() as int;
    assert(html.subrange(n, n + 7) =~= open);
    assert(html.subrange(n + 7 + t.len(), n + 7 + t.len() + 8) =~= close);
    assert forall|k: int| n + 7 <= k < n + 7 + t.len() implies #[trigger] html[k] != '<' by {
        assert(html[k] == t[k - n - 7]);
        assert(t.contains(t[k - n - 7]));
    }
    assert(title_at(html, n, t.len() as int));
    assert forall|i2: int, n2: int| i2 < n implies !title_at(html, i2, n2) by {
        if title_at(html, i2, n2) && !contains_str(pre, open) {
            if i2 + 7 <= n {
                assert(pre.subrange(i2, i2 + 7) =~= html.subrange(i2, i2 + 7));
                assert(occurs_at(pre, open, i2));
            } else {
                assert(html.subrange(i2, i2 + 7)[n - i2] == html[n]);
                assert(html[n] == '<');
                assert(open[n - i2] != '<');
            }
        }
    }
    assert(first_title(html, n, t.len() as int));
    lemma_title_text_is(html, n, t.len() as int);
    assert(html.subrange(n + 7, n + 7 + t.len()) =~= t);
}

/// A page without a title tag, or with none that is closed, has the title
/// `schatkamer-video`.
pub proof fn law_page_without_title(html: Seq<char>)
    requires
        !contains_str(html, "<title>"@) || !contains_str(html, "</title>"@) || forall|
            i: int,
            n: int,
        | !title_at(html, i, n),
    ensures
        title_of(html) == "schatkamer-video"@,
{
    assert forall|i: int, n: int| !first_title(html, i, n) by {
        if first_title(html, i, n) {
            assert(occurs_at(html, "<title>"@, i));
            assert(occurs_at(html, "</title>"@, i + "<title>"@.len() + n));
        }
    }
}

/// Every character of the text may stand in the query of a signed address.
pub open spec fn is_parameter(p: Seq<char>) -> bool {
    forall|i: int| 0 <= i < p.len() ==> is_query_char(#[trigger] p[i])
}

/// No query goes on with this text.
pub open spec fn stops_query(post: Seq<char>) -> bool {
    post.len() > 0 ==> !is_query_char(post[0]) && !occurs_at(post, "\\u0026"@, 0)
}

/// No query goes on with this text, and no address either.
pub open spec fn ends_query(post: Seq<char>) -> bool {
    post.len() > 0 ==> post[0] == '"' || (post[0] == '\\' && !occurs_at(post, "\\u0026"@, 0))
}

/// The characters that a query may hold: letters and digits of ASCII and six others.
pub proof fn law_query_characters(c: char)
    ensures
        is_query_char(c) <==> {
            ||| '0' <= c <= '9' || 'a' <= c <= 'z' || 'A' <= c <= 'Z'
            ||| c == '_' || c == '=' || c == '~' || c == '.' || c == '%' || c == '-'
        },
{
}

proof fn lemma_query_passes(t: Seq<char>, k: int, n: int)
    requires
        0 <= k <= n <= t.len(),
        forall|i: int| k <= i < n ==> is_query_char(#[trigger] t[i]),
    ensures
        query_end(t, k) == query_end(t, n),
    decreases n - k,
{
    if k < n {
        assert(is_query_char(t[k]));
        lemma_query_passes(t, k + 1, n);
    }
}

proof fn lemma_query_end(t: Seq<char>, k: int, params: Seq<Seq<char>>, post: Seq<char>)
    requires
        0 <= k <= t.len(),
        params.len() > 0,
        forall|i: int| 0 <= i < params.len() ==> is_parameter(#[trigger] params[i]),
        stops_query(post),
        t.skip(k) == joined(params, "\\u0026"@) + post,
    ensures
        query_end(t, k) == k + joined(params, "\\u0026"@).len(),
        unescaped(joined(params, "\\u0026"@)) == joined(params, "&"@),
    decreases params.len(),
{
    let esc = "\\u0026"@;
    reveal_strlit("\\u0026");
    reveal_strlit("&");
    let q = joined(params, esc);
    let p = params[0];
    let rest = params.skip(1);
    let n = p.len() as int;
    let u = t.skip(k);
    assert(is_parameter(p));
    assert(params =~= seq![p] + rest);
    law_join(seq![p], rest, p, esc);
    law_join(seq![p], rest, p, "&"@);
    if rest.len() == 0 {
        assert(params =~= seq![p]);
    }
    assert(q.len() >= n && q.take(n) =~= p);
    assert(u.len() == t.len() - k);
    assert(u.len() == q.len() + post.len());
    assert(forall|x: int| 0 <= x < u.len() ==> #[trigger] t[k + x] == t.skip(k)[x]);
    assert forall|i: int| 0 <= i < n implies #[trigger] p[i] != '\\' by {
        assert(is_query_char(p[i]));
    }
    assert forall|i: int| k <= i < k + n implies is_query_char(#[trigger] t[i]) by {
        let x = i - k;
        assert(t[k + x] == u[x]);
        assert(u[x] == (q + post)[x]);
        assert(q[x] == q.take(n)[x]);
        assert(is_query_char(p[x]));
    }
    lemma_query_passes(t, k, k + n);
    if rest.len() == 0 {
        let e = Seq::<char>::empty();
        if post.len() > 0 {
            assert(t[k + n] == u[n]);
            assert(u[n] == post[0]);
            if occurs_at(t, esc, k + n) {
                assert(t.subrange(k + n, k + n + 6) == esc);
                assert(t.subrange(k + n, k + n + 6)[0] == post[0]);
                assert(u.subrange(n, n + 6) =~= t.subrange(k + n, k + n + 6));
                assert(post.subrange(0, 6) =~= u.subrange(n, n + 6));
                assert(occurs_at(post, esc, 0));
            }
        } else {
            assert(t.len() == k + n);
        }
        assert(query_end(t, k + n) == k + n);
        lemma_replaced_behind(p, e, esc, "&"@);
        assert(p + e =~= p);
        assert(replaced(e, esc, "&"@) =~= e);
    } else {
        let q2 = joined(rest, esc);
        assert(q == p + esc + q2);
        assert(u.subrange(n, n + 6) =~= esc);
        assert(t.subrange(k + n, k + n + 6) =~= t.skip(k).subrange(n, n + 6));
        assert(t[k + n] == t.subrange(k + n, k + n + 6)[0]);
        assert(occurs_at(t, esc, k + n));
        assert(!is_query_char('\\'));
        assert(query_end(t, k + n) == query_end(t, k + n + 6));
        assert(t.skip(k + n + 6) =~= u.skip(n + 6));
        assert(u.skip(n + 6) =~= q2 + post);
        assert forall|i: int| 0 <= i < rest.len() implies is_parameter(#[trigger] rest[i]) by {
            assert(rest[i] == params[i + 1]);
        }
        lemma_query_end(t, k + n + 6, rest, post);
        let w = p + esc;
        assert forall|j: int| j < n implies !occurs_at(w, esc, j) by {
            if occurs_at(w, esc, j) {
                assert(w.subrange(j, j + 6)[0] == w[j]);
                assert(w[j] == p[j]);
            }
        }
        assert(w.subrange(n, n + 6) =~= esc);
        assert(first_occurrence(w, esc, n));
        law_replace(p, esc, q2, "&"@);
    }
}

/// A page that holds an address of the video CDN with a query of the given parameters.
pub open spec fn page_with(
    pre: Seq<char>,
    mid: Seq<char>,
    params: Seq<Seq<char>>,
    post: Seq<char>,
) -> Seq<char> {
    pre + "https://sk-video"@ + mid + ".m3u8?"@ + joined(params, "\\u0026"@) + post
}

/// No address of a playlist begins before `i`.
pub open spec fn no_stream_before(html: Seq<char>, i: int) -> bool {
    forall|i2: int, j2: int| i2 < i ==> !stream_head(html, i2, j2)
}

/// The address that begins at `i` does not go on to a playlist behind `j`.
pub open spec fn no_playlist_behind(html: Seq<char>, i: int, j: int) -> bool {
    forall|j2: int| j < j2 ==> !stream_head(html, i, j2)
}

/// The signed address of a page is found whole: the first address of the video CDN, up to
/// the end of its query, with a plain ampersand for each one that the page escapes, every
/// parameter in its place. Without its query it is the address of the playlist.
pub proof fn law_stream_is_read(
    pre: Seq<char>,
    mid: Seq<char>,
    params: Seq<Seq<char>>,
    post: Seq<char>,
)
    requires
        !mid.contains('"'),
        !mid.contains('\\'),
        params.len() > 0,
        forall|i: int| 0 <= i < params.len() ==> is_parameter(#[trigger] params[i]),
        !contains_str(pre, "https://sk-video"@) || no_stream_before(
            page_with(pre, mid, params, post),
            pre.len() as int,
        ),
        ends_query(post) || (stops_query(post) && no_playlist_behind(
            page_with(pre, mid, params, post),
            pre.len() as int,
            pre.len() as int + "https://sk-video"@.len() + mid.len(),
        )),
    ensures
        ({
            let html = page_with(pre, mid, params, post);
            let signed = "https://sk-video"@ + mid + ".m3u8?"@ + joined(params, "&"@);
            &&& signed_address(html) == Some(signed)
            &&& !mid.contains('?') ==> before(signed, '?') == "https://sk-video"@ + mid + ".m3u8"@
        }),
{
    let p = "https://sk-video"@;
    let m = ".m3u8?"@;
    let esc = "\\u0026"@;
    let q = joined(params, esc);
    let tail = q + post;
    let html = pre + p + mid + m + q + post;
    let i = pre.len() as int;
    let j = i + p.len() + mid.len();
    let k = j + m.len();
    assert(html =~= pre + p + mid + m + tail);
    lemma_address_in_page(pre, mid, tail);
    assert(stops_query(post)) by {
        reveal_strlit("\\u0026");
        if post.len() > 0 && occurs_at(post, esc, 0) {
            assert(post.subrange(0, 6)[0] == post[0]);
        }
    }
    lemma_query_end(html, k, params, post);
    if ends_query(post) {
        lemma_query_stops(params, post);
        assert(m.len() == 6) by {
            reveal_strlit(".m3u8?");
        }
        lemma_last_playlist(html, i, j, tail, params[0].len() as int);
    }
    if !contains_str(pre, p) {
        lemma_first_address(html, i);
    }
    assert(first_stream(html, i, j));
    lemma_stream_match_is(html, i, j);
    let head = p + mid + m;
    assert(html.subrange(i, k + q.len()) =~= head + q);
    lemma_head_is_plain(mid, q);
    if !mid.contains('?') {
        lemma_plain_address(mid, joined(params, "&"@));
    }
}

proof fn lemma_address_in_page(pre: Seq<char>, mid: Seq<char>, tail: Seq<char>)
    requires
        !mid.contains('"'),
        !mid.contains('\\'),
    ensures
        ({
            let html = pre + "https://sk-video"@ + mid + ".m3u8?"@ + tail;
            let i = pre.len() as int;
            let j = i + "https://sk-video"@.len() + mid.len();
            &&& stream_head(html, i, j)
            &&& html.take(i) == pre
            &&& html.skip(j + ".m3u8?"@.len()) == tail
        }),
{
    let p = "https://sk-video"@;
    let m = ".m3u8?"@;
    let html = pre + p + mid + m + tail;
    let i = pre.len() as int;
    let b = i + p.len();
    let j = b + mid.len();
    assert(html.subrange(i, b) =~= p);
    assert(html.subrange(j, j + m.len()) =~= m);
    assert forall|x: int| b <= x < j implies #[trigger] html[x] != '"' && html[x] != '\\' by {
        assert(html[x] == mid[x - b]);
        assert(mid.contains(mid[x - b]));
    }
    assert(html.take(i) =~= pre);
    assert(html.skip(j + m.len()) =~= tail);
}

proof fn lemma_head_is_plain(mid: Seq<char>, q: Seq<char>)
    requires
        !mid.contains('\\'),
    ensures
        unescaped("https://sk-video"@ + mid + ".m3u8?"@ + q) == "https://sk-video"@ + mid
            + ".m3u8?"@ + unescaped(q),
{
    let p = "https://sk-video"@;
    let m = ".m3u8?"@;
    let esc = "\\u0026"@;
    reveal_strlit("https://sk-video");
    reveal_strlit(".m3u8?");
    reveal_strlit("\\u0026");
    let head = p + mid + m;
    assert forall|x: int| 0 <= x < head.len() implies #[trigger] head[x] != esc[0] by {
        if x < 16 {
            assert(head[x] == p[x]);
        } else if x < 16 + mid.len() {
            assert(head[x] == mid[x - 16]);
            assert(mid.contains(mid[x - 16]));
        } else {
            assert(head[x] == m[x - 16 - mid.len()]);
        }
    }
    lemma_replaced_behind(head, q, esc, "&"@);
}

/// Where a query stops: at the first character that it may not hold, which is a quote or a
/// backslash.
proof fn lemma_query_stops(params: Seq<Seq<char>>, post: Seq<char>)
    requires
        params.len() > 0,
        forall|i: int| 0 <= i < params.len() ==> is_parameter(#[trigger] params[i]),
        ends_query(post),
    ensures
        ({
            let s = joined(params, "\\u0026"@) + post;
            let n = params[0].len() as int;
            &&& n <= s.len()
            &&& forall|x: int| 0 <= x < n ==> is_query_char(#[trigger] s[x])
            &&& n < s.len() ==> s[n] == '"' || s[n] == '\\'
        }),
{
    let esc = "\\u0026"@;
    reveal_strlit("\\u0026");
    let p = params[0];
    let n = p.len() as int;
    let rest = params.skip(1);
    let q = joined(params, esc);
    let s = q + post;
    assert(params =~= seq![p] + rest);
    law_join(seq![p], rest, p, esc);
    if rest.len() == 0 {
        assert(params =~= seq![p]);
        assert(n < s.len() ==> s[n] == post[0]);
    } else {
        assert(s[n] == q[n]);
        assert(q[n] == esc[0]);
    }
    assert(is_parameter(p));
    assert forall|x: int| 0 <= x < n implies is_query_char(#[trigger] s[x]) by {
        assert(s[x] == q[x]);
        assert(q[x] == p[x]);
    }
}

/// No `.m3u8?` can stand further behind.
proof fn lemma_last_playlist(html: Seq<char>, i: int, j: int, tail: Seq<char>, n: int)
    requires
        stream_head(html, i, j),
        html.skip(j + 6) == tail,
        j + 6 <= html.len(),
        0 <= n <= tail.len(),
        forall|x: int| 0 <= x < n ==> is_query_char(#[trigger] tail[x]),
        n < tail.len() ==> tail[n] == '"' || tail[n] == '\\',
    ensures
        forall|j2: int| j < j2 ==> !stream_head(html, i, j2),
{
    let m = ".m3u8?"@;
    reveal_strlit(".m3u8?");
    reveal_strlit("https://sk-video");
    let k = j + 6;
    assert(forall|x: int| 0 <= x < tail.len() ==> #[trigger] html.skip(k)[x] == html[k + x]);
    assert forall|j2: int| j < j2 implies !stream_head(html, i, j2) by {
        if stream_head(html, i, j2) {
            let s = html.subrange(j2, j2 + 6);
            assert(s == m);
            if j2 < k {
                assert(s[0] == html[j2]);
                assert(html.subrange(j, j + 6)[j2 - j] == html[j2]);
                assert(m[j2 - j] != '.');
            } else if j2 + 5 < k + n {
                let x = j2 + 5 - k;
                assert(is_query_char(tail[x]));
                assert(s[5] == html[j2 + 5]);
                assert(html.skip(k)[x] == html[k + x]);
            } else {
                assert(html.skip(k)[n] == html[k + n]);
                if k + n < j2 {
                    assert(html[k + n] != '"' && html[k + n] != '\\');
                } else {
                    let x = k + n - j2;
                    assert(s[x] == html[k + n]);
                    assert(m[x] != '"' && m[x] != '\\');
                }
            }
        }
    }
}

/// No address of the video CDN can begin before the first one.
proof fn lemma_first_address(html: Seq<char>, i: int)
    requires
        0 <= i,
        occurs_at(html, "https://sk-video"@, i),
        !contains_str(html.take(i), "https://sk-video"@),
    ensures
        forall|i2: int, j2: int| i2 < i ==> !stream_head(html, i2, j2),
{
    let p = "https://sk-video"@;
    reveal_strlit("https://sk-video");
    let pre = html.take(i);
    assert(html.subrange(i, i + 16)[0] == html[i]);
    assert forall|i2: int, j2: int| i2 < i implies !stream_head(html, i2, j2) by {
        if stream_head(html, i2, j2) {
            if i2 + 16 <= i {
                assert(pre.subrange(i2, i2 + 16) =~= html.subrange(i2, i2 + 16));
                assert(occurs_at(pre, p, i2));
            } else {
                assert(html.subrange(i2, i2 + 16)[i - i2] == html[i]);
                assert(p[i - i2] != 'h');
            }
        }
    }
}

proof fn lemma_plain_address(mid: Seq<char>, query: Seq<char>)
    requires
        !mid.contains('?'),
    ensures
        before("https://sk-video"@ + mid + ".m3u8?"@ + query, '?') == "https://sk-video"@ + mid
            + ".m3u8"@,
{
    let p = "https://sk-video"@;
    reveal_strlit("https://sk-video");
    reveal_strlit(".m3u8?");
    reveal_strlit(".m3u8");
    let a = p + mid + ".m3u8"@;
    assert(!a.contains('?')) by {
        if a.contains('?') {
            let x = choose|x: int| 0 <= x < a.len() && a[x] == '?';
            if x < 16 {
                assert(a[x] == p[x]);
            } else if x < 16 + mid.len() {
                assert(mid[x - 16] == '?');
            } else {
                assert(a[x] == ".m3u8"@[x - 16 - mid.len()]);
            }
        }
    }
    law_before(a, '?', query);
    assert(p + mid + ".m3u8?"@ + query =~= a + seq!['?'] + query);
}

/// A page that holds no address of the video CDN, or no playlist, has no stream.
pub proof fn law_page_without_stream(html: Seq<char>)
    requires
        !contains_str(html, "https://sk-video"@) || !contains_str(html, ".m3u8?"@),
    ensures
        signed_address(html) is None,
{
    assert forall|i: int, j: int| !first_stream(html, i, j) by {
        if first_stream(html, i, j) {
            assert(occurs_at(html, "https://sk-video"@, i));
            assert(occurs_at(html, ".m3u8?"@, j));
        }
    }
}

/// The pair of a `Set-Cookie` header is what stands before its first semicolon, without
/// the white space at its ends, whatever attributes follow.
pub proof fn law_cookie_pair(lead: Seq<char>, pair: Seq<char>, gap: Seq<char>, attrs: Seq<char>)
    requires
        is_blank(lead),
        is_tight(pair),
        is_blank(gap),
        !pair.contains(';'),
    ensures
        cookie_pair(lead + pair + gap) == pair,
        cookie_pair(lead + pair + gap + seq![';'] + attrs) == pair,
{
    let s = lead + pair + gap;
    assert(!s.contains(';')) by {
        if s.contains(';') {
            let i = choose|i: int| 0 <= i < s.len() && s[i] == ';';
            if i < lead.len() {
                assert(is_white_space(lead[i]));
            } else if i < lead.len() + pair.len() {
                assert(pair[i - lead.len()] == ';');
            } else {
                assert(is_white_space(gap[i - lead.len() - pair.len()]));
            }
        }
    }
    law_before(s, ';', attrs);
    law_trim(lead, pair, gap);
}

/// A header that sets a signed cookie.
pub open spec fn sets_signed_cookie(header: Option<String>) -> bool {
    header matches Some(h) && occurs_at(cookie_pair(h@), "CloudFront-"@, 0)
}

/// The pairs of those headers that set a signed cookie, all of them, in order.
pub open spec fn pairs_of(headers: Seq<Option<String>>) -> Seq<Seq<char>> {
    headers.filter(|h: Option<String>| sets_signed_cookie(h)).map_values(
        |h: Option<String>| cookie_pair(h->0@),
    )
}

/// Of the cookies of an answer none of the signed ones is lost and no other one is added.
pub proof fn law_every_signed_cookie_counts(headers: Seq<Option<String>>)
    ensures
        signed_cookies(headers) == pairs_of(headers),
        signed_cookies(headers).len() == headers.filter(
            |h: Option<String>| sets_signed_cookie(h),
        ).len(),
    decreases headers.len(),
{
    reveal(Seq::filter);
    if headers.len() > 0 {
        law_every_signed_cookie_counts(headers.drop_last());
        assert(signed_cookies(headers) =~= pairs_of(headers));
    } else {
        assert(signed_cookies(headers) =~= pairs_of(headers));
    }
}

proof fn lemma_part_stands_in_joined(parts: Seq<Seq<char>>, sep: Seq<char>, k: int)
    requires
        0 <= k < parts.len(),
    ensures
        contains_str(joined(parts, sep), parts[k]),
{
    let a = parts.take(k);
    let p = parts[k];
    let b = parts.skip(k + 1);
    let all = joined(parts, sep);
    let tail = seq![p] + b;
    assert(parts =~= a + tail);
    law_join(seq![p], b, p, sep);
    law_join(a, tail, p, sep);
    let t = joined(tail, sep);
    assert(t.subrange(0, p.len() as int) =~= p) by {
        if b.len() == 0 {
            assert(tail =~= seq![p]);
        }
    }
    if k == 0 {
        assert(parts =~= tail);
        assert(occurs_at(all, p, 0));
    } else {
        let n = joined(a, sep).len() as int + sep.len();
        assert(all.subrange(n, n + p.len()) =~= t.subrange(0, p.len() as int));
        assert(occurs_at(all, p, n));
    }
}

/// After the handshake ffmpeg is given the plain address of the playlist and every signed
/// cookie of the answer: their pairs, all of them and nothing else, in the order of the
/// answer, with a semicolon and a space between. Without any the download does not begin.
pub proof fn law_every_signed_cookie_is_handed_on(
    app: AppView,
    run: RunView,
    headers: Vec<Option<String>>,
)
    requires
        run.step is Handshake,
    ensures
        ({
            let run2 = advanced(app, run, Event::Cookies(headers)@).1;
            let pairs = pairs_of(headers@);
            let cookie = joined(pairs, "; "@);
            &&& pairs.len() > 0 ==> run2.action() == (ActionView::Download {
                master: before(run.step->signed, '?'),
                cookie,
                out: run.cache,
            })
            &&& pairs.len() == 0 ==> run2.action() is Finish
            &&& forall|n: int|
                0 <= n < headers@.len() && sets_signed_cookie(#[trigger] headers@[n])
                    ==> contains_str(cookie, cookie_pair(headers@[n]->0@))
        }),
{
    let hs = headers@;
    law_every_signed_cookie_counts(hs);
    let pairs = pairs_of(hs);
    assert forall|n: int|
        0 <= n < hs.len() && sets_signed_cookie(#[trigger] hs[n]) implies contains_str(
        joined(pairs, "; "@),
        cookie_pair(hs[n]->0@),
    ) by {
        law_cookies_are_signed(hs);
        let c = cookie_pair(hs[n]->0@);
        assert(signed_cookies(hs).contains(c));
        let k = choose|k: int| 0 <= k < pairs.len() && pairs[k] == c;
        lemma_part_stands_in_joined(pairs, "; "@, k);
    }
}

} // verus!
