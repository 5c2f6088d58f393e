//! What the pages of the site hold: the signed address of the stream, the title,
//! and the cookies that the CDN answers with.
use crate::text::{
    before, is_ascii_alphanumeric, join, joined, occurs_at, replace_all, replaced, starts_with,
    trim, trimmed, until, views,
};
use regex::Regex;
use vstd::prelude::*;
use vstd::string::*;

verus! {

/// Finds the signed address of a master playlist in the JSON of an episode page.
pub const STREAM_PATTERN: &'static str =
    r#"https://sk-video[^"\\]*\.m3u8\?[A-Za-z0-9_=~.%-]*(?:\\u0026[A-Za-z0-9_=~.%-]*)*"#;

/// Finds the title of a page.
pub const TITLE_PATTERN: &'static str = r"<title>([^<]*)</title>";

/// A character that the query of a signed address may hold.
pub open spec fn is_query_char(c: char) -> bool {
    is_ascii_alphanumeric(c) || c == '_' || c == '=' || c == '~' || c == '.' || c == '%' || c == '-'
}

/// In `t` an address of a playlist begins at `i`, and its `.m3u8?` at `j`.
pub open spec fn stream_head(t: Seq<char>, i: int, j: int) -> bool {
    &&& occurs_at(t, "https://sk-video"@, i)
    &&& i + "https://sk-video"@.len() <= j
    &&& forall|k: int|
        i + "https://sk-video"@.len() <= k < j ==> #[trigger] t[k] != '"' && t[k] != '\\'
    &&& occurs_at(t, ".m3u8?"@, j)
}

/// The end of the query that begins at `k`: parameters, with `\u0026` between them.
pub open spec fn query_end(t: Seq<char>, k: int) -> int
    decreases t.len() - k,
{
    if 0 <= k < t.len() && is_query_char(t[k]) {
        query_end(t, k + 1)
    } else if occurs_at(t, "\\u0026"@, k) && "\\u0026"@.len() > 0 {
        query_end(t, k + "\\u0026"@.len())
    } else {
        k
    }
}

/// The address that begins at `i` is the first one of `t`, and `j` is the last
/// place where its `.m3u8?` may stand.
pub open spec fn first_stream(t: Seq<char>, i: int, j: int) -> bool {
    &&& stream_head(t, i, j)
    &&& forall|j2: int| j < j2 ==> !stream_head(t, i, j2)
    &&& forall|i2: int, j2: int| i2 < i ==> !stream_head(t, i2, j2)
}

/// In `t` the tag `<title>` begins at `i`, and `n` characters stand in it.
pub open spec fn title_at(t: Seq<char>, i: int, n: int) -> bool {
    let start = i + "<title>"@.len();
    &&& occurs_at(t, "<title>"@, i)
    &&& 0 <= n
    &&& forall|k: int| start <= k < start + n ==> #[trigger] t[k] != '<'
    &&& occurs_at(t, "</title>"@, start + n)
}

/// The title that begins at `i` is the first one of `t`.
pub open spec fn first_title(t: Seq<char>, i: int, n: int) -> bool {
    title_at(t, i, n) && forall|i2: int, n2: int| i2 < i ==> !title_at(t, i2, n2)
}

/// `Regex::find` of the crate regex, with the pattern of a signed address: the
/// leftmost match in the text, the longest one that the greedy repetitions allow.
#[verifier::external_body]
fn find_match(pattern: &str, text: &str) -> (r: Option<String>)
    requires
        pattern@ == STREAM_PATTERN@,
    ensures
        match r {
            Some(m) => exists|i: int, j: int|
                first_stream(text@, i, j) && m@ == text@.subrange(
                    i,
                    query_end(text@, j + ".m3u8?"@.len()),
                ),
            None => forall|i: int, j: int| !stream_head(text@, i, j),
        },
{
    Regex::new(pattern).unwrap().find(text).map(|m| m.as_str().to_string())
}

/// `Regex::captures` of the crate regex, with the pattern of a title: the first
/// group of the leftmost match in the text.
#[verifier::external_body]
fn first_group(pattern: &str, text: &str) -> (r: Option<String>)
    requires
        pattern@ == TITLE_PATTERN@,
    ensures
        match r {
            Some(g) => exists|i: int, n: int|
                first_title(text@, i, n) && g@ == text@.subrange(
                    i + "<title>"@.len(),
                    i + "<title>"@.len() + n,
                ),
            None => forall|i: int, n: int| !title_at(text@, i, n),
        },
{
    Regex::new(pattern).unwrap().captures(text).map(|c| c[1].to_string())
}

/// The first signed address of a page, as it stands there.
pub open spec fn stream_match(t: Seq<char>) -> Option<Seq<char>> {
    if exists|i: int, j: int| first_stream(t, i, j) {
        let (i, j) = choose|i: int, j: int| first_stream(t, i, j);
        Some(t.subrange(i, query_end(t, j + ".m3u8?"@.len())))
    } else {
        None
    }
}

/// What stands in the first title tag of a page.
pub open spec fn title_text(t: Seq<char>) -> Option<Seq<char>> {
    if exists|i: int, n: int| first_title(t, i, n) {
        let (i, n) = choose|i: int, n: int| first_title(t, i, n);
        Some(t.subrange(i + "<title>"@.len(), i + "<title>"@.len() + n))
    } else {
        None
    }
}

/// A matched address with each escaped ampersand turned back into the plain one.
pub open spec fn unescaped(matched: Seq<char>) -> Seq<char> {
    replaced(matched, "\\u0026"@, "&"@)
}

/// The signed address that a page holds.
pub open spec fn signed_address(html: Seq<char>) -> Option<Seq<char>> {
    match stream_match(html) {
        Some(m) => Some(unescaped(m)),
        None => None,
    }
}

/// The title of a page, or `schatkamer-video` where it has none.
pub open spec fn title_of(html: Seq<char>) -> Seq<char> {
    match title_text(html) {
        Some(g) => if trimmed(g).len() > 0 {
            trimmed(g)
        } else {
            "schatkamer-video"@
        },
        None => "schatkamer-video"@,
    }
}

pub proof fn lemma_stream_match_is(t: Seq<char>, i: int, j: int)
    requires
        first_stream(t, i, j),
    ensures
        stream_match(t) == Some(t.subrange(i, query_end(t, j + ".m3u8?"@.len()))),
{
    let (a, b) = choose|a: int, b: int| first_stream(t, a, b);
    assert(first_stream(t, a, b));
    assert(a == i);
    assert(b == j);
}

pub proof fn lemma_title_text_is(t: Seq<char>, i: int, n: int)
    requires
        first_title(t, i, n),
    ensures
        title_text(t) == Some(t.subrange(i + "<title>"@.len(), i + "<title>"@.len() + n)),
{
    let (a, m) = choose|a: int, m: int| first_title(t, a, m);
    assert(first_title(t, a, m));
    assert(a == i);
    reveal_strlit("</title>");
    let start = i + "<title>"@.len();
    assert(t[start + n] == t.subrange(start + n, start + n + "</title>"@.len())[0]);
    assert(t[start + m] == t.subrange(start + m, start + m + "</title>"@.len())[0]);
}

/// A matched address with each escaped ampersand turned back into the plain one.
pub fn unescape_address(matched: &str) -> (signed: String)
    ensures
        signed@ == unescaped(matched@),
{
    proof {
        reveal_strlit("\\u0026");
    }
    replace_all(matched, "\\u0026", "&")
}

/// The signed address of the master playlist that a page holds.
pub fn find_signed_address(html: &str) -> (r: Option<String>)
    ensures
        match r {
            Some(signed) => signed_address(html@) == Some(signed@),
            None => signed_address(html@) is None,
        },
        r is None <==> forall|i: int, j: int| !stream_head(html@, i, j),
{
    match find_match(STREAM_PATTERN, html) {
        Some(m) => {
            proof {
                let (i, j) = choose|i: int, j: int|
                    first_stream(html@, i, j) && m@ == html@.subrange(
                        i,
                        query_end(html@, j + ".m3u8?"@.len()),
                    );
                lemma_stream_match_is(html@, i, j);
                assert(stream_head(html@, i, j));
            }
            Some(unescape_address(m.as_str()))
        },
        None => None,
    }
}

/// The address of the playlist without its query.
pub fn plain_address(signed: &str) -> (master: String)
    ensures
        master@ == before(signed@, '?'),
{
    until(signed, '?')
}

/// The title of a page, or `schatkamer-video` where it has none.
pub fn page_title(html: &str) -> (title: String)
    ensures
        title@ == title_of(html@),
{
    match first_group(TITLE_PATTERN, html) {
        Some(g) => {
            proof {
                let (i, n) = choose|i: int, n: int|
                    first_title(html@, i, n) && g@ == html@.subrange(
                        i + "<title>"@.len(),
                        i + "<title>"@.len() + n,
                    );
                lemma_title_text_is(html@, i, n);
            }
            title_or_default(Some(g))
        },
        None => title_or_default(None),
    }
}

/// The text of a title tag without the white space at its ends; where that is
/// empty, or there is no tag, `schatkamer-video`.
pub fn title_or_default(group: Option<String>) -> (title: String)
    ensures
        title@ == (match group {
            Some(g) => if trimmed(g@).len() > 0 {
                trimmed(g@)
            } else {
                "schatkamer-video"@
            },
            None => "schatkamer-video"@,
        }),
{
    match group {
        Some(g) => {
            let t = trim(g.as_str());
            if t.as_str().is_empty() {
                "schatkamer-video".to_string()
            } else {
                t
            }
        },
        None => "schatkamer-video".to_string(),
    }
}

/// The name and value of a `Set-Cookie` header, without its attributes.
pub open spec fn cookie_pair(header: Seq<char>) -> Seq<char> {
    trimmed(before(header, ';'))
}

/// The name-value pairs of the signed cookies among the headers, in order.
pub open spec fn signed_cookies(headers: Seq<Option<String>>) -> Seq<Seq<char>>
    decreases headers.len(),
{
    if headers.len() == 0 {
        seq![]
    } else {
        let rest = signed_cookies(headers.drop_last());
        match headers.last() {
            Some(h) => if occurs_at(cookie_pair(h@), "CloudFront-"@, 0) {
                rest.push(cookie_pair(h@))
            } else {
                rest
            },
            None => rest,
        }
    }
}

/// The `Cookie` header that hands the signed cookies of an answer back: `None`
/// where the answer set none. A header that is not text is passed over.
pub fn cookie_header(set_cookie: &Vec<Option<String>>) -> (r: Option<String>)
    ensures
        match r {
            Some(c) => signed_cookies(set_cookie@).len() > 0 && c@ == joined(
                signed_cookies(set_cookie@),
                "; "@,
            ),
            None => signed_cookies(set_cookie@).len() == 0,
        },
{
    let mut parts: Vec<String> = Vec::new();
    let mut i: usize = 0;
    assert(set_cookie@.take(0) =~= Seq::<Option<String>>::empty());
    assert(views(parts@) =~= Seq::<Seq<char>>::empty());
    while i < set_cookie.len()
        invariant
            i <= set_cookie@.len(),
            views(parts@) == signed_cookies(set_cookie@.take(i as int)),
        decreases set_cookie@.len() - i,
    {
        assert(set_cookie@.take(i + 1).drop_last() =~= set_cookie@.take(i as int));
        match &set_cookie[i] {
            Some(h) => {
                let head = until(h.as_str(), ';');
                let pair = trim(head.as_str());
                if starts_with(pair.as_str(), "CloudFront-") {
                    assert(views(parts@.push(pair)) =~= views(parts@).push(pair@));
                    parts.push(pair);
                }
            },
            None => {},
        }
        i = i + 1;
    }
    assert(set_cookie@.take(i as int) =~= set_cookie@);
    assert(views(parts@).len() == parts@.len());
    if parts.len() == 0 {
        None
    } else {
        Some(join(&parts, "; "))
    }
}

} // verus!
