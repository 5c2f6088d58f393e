//! The playable episodes of a series.
use crate::numbers::all_digits;
use crate::site_laws::law_series_title_is_first;
use crate::state::AppState;
use crate::text::{
    before, contains, contains_str, is_ascii_digit, occurs_at, replace_all, replaced, same,
    starts_with, trim_end_matches, until, without_trailing,
};
use regex::Regex;
use vstd::prelude::*;
use vstd::string::*;

verus! {

/// Finds the episodes in the backslash-escaped JSON of a series page: the groups
/// are the id, the title and the title of the series.
pub const EPISODE_PATTERN: &'static str =
    r#"\\"id\\":\\"(\d+)\\",\\"title\\":\\"([^\\"]+)\\",\\"seriesTitle\\":\\"([^\\"]+)\\""#;

/// Id, title and series title of an episode, as the page holds them.
pub type EpisodeGroups = (Seq<char>, Seq<char>, Seq<char>);

/// The groups of the successive matches of a pattern with three groups.
pub uninterp spec fn all_groups(pattern: Seq<char>, text: Seq<char>) -> Seq<
    (Seq<char>, Seq<char>, Seq<char>),
>;

/// How a page writes an episode down.
pub open spec fn episode_text(g: EpisodeGroups) -> Seq<char> {
    "\\\"id\\\":\\\""@ + g.0 + "\\\",\\\"title\\\":\\\""@ + g.1 + "\\\",\\\"seriesTitle\\\":\\\""@
        + g.2 + "\\\""@
}

/// A title as the pattern takes it: not empty, without quotes and backslashes.
pub open spec fn is_quoted_text(s: Seq<char>) -> bool {
    s.len() > 0 && forall|i: int| 0 <= i < s.len() ==> #[trigger] s[i] != '\\' && s[i] != '"'
}

/// The id is not empty, and its ASCII characters are digits.
pub open spec fn is_id_text(s: Seq<char>) -> bool {
    s.len() > 0 && forall|i: int|
        0 <= i < s.len() && s[i] as u32 <= 127 ==> is_ascii_digit(#[trigger] s[i])
}

/// The contents of a list of matches.
pub open spec fn group_views(v: Seq<(String, String, String)>) -> Seq<EpisodeGroups> {
    v.map_values(|g: (String, String, String)| (g.0@, g.1@, g.2@))
}

/// At `i` the page writes down an episode whose id is of ASCII digits.
pub open spec fn episode_at(t: Seq<char>, i: int, g: EpisodeGroups) -> bool {
    &&& occurs_at(t, episode_text(g), i)
    &&& g.0.len() > 0
    &&& all_digits(g.0)
    &&& is_quoted_text(g.1)
    &&& is_quoted_text(g.2)
}

/// The episodes that the page writes down from `start` on, one behind the other.
pub open spec fn are_episodes(t: Seq<char>, start: int, gs: Seq<EpisodeGroups>) -> bool
    decreases gs.len(),
{
    if gs.len() == 0 {
        forall|i: int, g: EpisodeGroups| start <= i ==> !episode_at(t, i, g)
    } else {
        exists|i: int|
            {
                &&& start <= i && #[trigger] episode_at(t, i, gs[0])
                &&& forall|i2: int, g: EpisodeGroups| start <= i2 < i ==> !episode_at(t, i2, g)
                &&& are_episodes(t, i + episode_text(gs[0]).len(), gs.drop_first())
            }
    }
}

/// No character beyond ASCII stands where the page writes an id down: between an
/// opening `\"id\":\"` and the next backslash.
pub open spec fn has_ascii_ids(t: Seq<char>) -> bool {
    forall|i: int, k: int|
        #![trigger occurs_at(t, "\\\"id\\\":\\\""@, i), t[k]]
        occurs_at(t, "\\\"id\\\":\\\""@, i) && i + "\\\"id\\\":\\\""@.len() <= k < t.len() && !t.subrange(
            i + "\\\"id\\\":\\\""@.len(),
            k,
        ).contains('\\') ==> t[k] as u32 <= 127
}

/// `Regex::captures_iter` of the crate regex, with the pattern of an episode: the
/// groups of the successive matches, which stand in the text. Where no character
/// beyond ASCII stands in an id, these are the episodes that the page writes down;
/// elsewhere Unicode's tables decide which characters are digits.
#[verifier::external_body]
fn find_groups(pattern: &str, text: &str) -> (r: Vec<(String, String, String)>)
    requires
        pattern@ == EPISODE_PATTERN@,
    ensures
        group_views(r@) == all_groups(pattern@, text@),
        forall|k: int|
            0 <= k < r@.len() ==> contains_str(
                text@,
                episode_text(#[trigger] group_views(r@)[k]),
            ) && is_id_text(group_views(r@)[k].0) && is_quoted_text(group_views(r@)[k].1)
                && is_quoted_text(group_views(r@)[k].2),
        has_ascii_ids(text@) ==> are_episodes(text@, 0, group_views(r@)),
{
    Regex::new(pattern)
        .unwrap()
        .captures_iter(text)
        .map(|c| (c[1].to_string(), c[2].to_string(), c[3].to_string()))
        .collect()
}

/// A text with the handful of HTML entities decoded that show up in titles, one
/// kind after the other.
pub open spec fn html_text(s: Seq<char>) -> Seq<char> {
    let s = replaced(s, "&amp;"@, "&"@);
    let s = replaced(s, "&#x27;"@, "'"@);
    let s = replaced(s, "&#39;"@, "'"@);
    let s = replaced(s, "&quot;"@, "\""@);
    let s = replaced(s, "&lt;"@, "<"@);
    replaced(s, "&gt;"@, ">"@)
}

/// Decode the handful of HTML entities that show up in episode titles.
pub fn html_unescape(s: &str) -> (r: String)
    ensures
        r@ == html_text(s@),
{
    proof {
        reveal_strlit("&amp;");
        reveal_strlit("&#x27;");
        reveal_strlit("&#39;");
        reveal_strlit("&quot;");
        reveal_strlit("&lt;");
        reveal_strlit("&gt;");
    }
    let a = replace_all(s, "&amp;", "&");
    let b = replace_all(a.as_str(), "&#x27;", "'");
    let c = replace_all(b.as_str(), "&#39;", "'");
    let d = replace_all(c.as_str(), "&quot;", "\"");
    let e = replace_all(d.as_str(), "&lt;", "<");
    replace_all(e.as_str(), "&gt;", ">")
}

/// Why no episodes can be listed.
#[derive(Debug)]
pub enum SeriesError {
    /// The URL is not one of a series.
    InvalidUrl,
    /// The page could not be fetched.
    Unreachable(String),
    /// The page was fetched but could not be read.
    Unreadable(String),
    /// The page lists no playable episode.
    NoEpisodes,
}

impl SeriesError {
    /// What the user is told.
    pub fn message(&self) -> (m: String)
        ensures
            m@ == (match *self {
                SeriesError::InvalidUrl => "Geef een geldige serie-URL op."@,
                SeriesError::Unreachable(e) => "Serie-pagina ophalen mislukt: "@ + e@,
                SeriesError::Unreadable(e) => "Serie-pagina lezen mislukt: "@ + e@,
                SeriesError::NoEpisodes =>
                    "Geen afspeelbare afleveringen gevonden op deze serie-pagina."@,
            }),
    {
        match self {
            SeriesError::InvalidUrl => "Geef een geldige serie-URL op.".to_string(),
            SeriesError::Unreachable(e) => {
                let mut m = "Serie-pagina ophalen mislukt: ".to_string();
                m.append(e.as_str());
                m
            },
            SeriesError::Unreadable(e) => {
                let mut m = "Serie-pagina lezen mislukt: ".to_string();
                m.append(e.as_str());
                m
            },
            SeriesError::NoEpisodes =>
                "Geen afspeelbare afleveringen gevonden op deze serie-pagina.".to_string(),
        }
    }
}

/// Whether a URL is one of a series.
pub open spec fn is_series_url(url: Seq<char>) -> bool {
    occurs_at(url, "http"@, 0) && contains_str(url, "/serie/"@)
}

/// The address of a series, without query and slashes at its end.
pub open spec fn base_of(url: Seq<char>) -> Seq<char> {
    without_trailing(before(url, '?'), '/')
}

/// The address of a series, without query and slashes at its end.
pub fn series_base(page_url: &str) -> (r: Result<String, SeriesError>)
    ensures
        match r {
            Ok(base) => is_series_url(page_url@) && base@ == base_of(page_url@),
            Err(e) => !is_series_url(page_url@) && e == SeriesError::InvalidUrl,
        },
{
    if !starts_with(page_url, "http") || !contains(page_url, "/serie/") {
        return Err(SeriesError::InvalidUrl);
    }
    let head = until(page_url, '?');
    Ok(trim_end_matches(head.as_str(), '/'))
}

/// The address from which a series is fetched: only playable episodes are asked for.
pub fn series_fetch_url(base: &str) -> (url: String)
    ensures
        url@ == base@ + "?alleenafspeelbaar=ja"@,
{
    let mut url = base.to_string();
    url.append("?alleenafspeelbaar=ja");
    url
}

/// Some match before position `k` has the given id.
pub open spec fn listed_before(groups: Seq<EpisodeGroups>, id: Seq<char>, k: int) -> bool {
    exists|i: int| 0 <= i < k && (#[trigger] groups[i]).0 == id
}

/// The matches without those whose id an earlier match has.
pub open spec fn first_by_id(groups: Seq<EpisodeGroups>) -> Seq<EpisodeGroups>
    decreases groups.len(),
{
    if groups.len() == 0 {
        seq![]
    } else if listed_before(groups, groups.last().0, groups.len() - 1) {
        first_by_id(groups.drop_last())
    } else {
        first_by_id(groups.drop_last()).push(groups.last())
    }
}

/// The first series title that is not empty, or the empty text.
pub open spec fn first_series_title(groups: Seq<EpisodeGroups>) -> Seq<char>
    decreases groups.len(),
{
    if groups.len() == 0 {
        seq![]
    } else if first_series_title(groups.drop_last()).len() > 0 {
        first_series_title(groups.drop_last())
    } else {
        html_text(groups.last().2)
    }
}

/// What a series is called.
pub open spec fn series_title_of(groups: Seq<EpisodeGroups>) -> Seq<char> {
    if first_series_title(groups).len() > 0 {
        first_series_title(groups)
    } else {
        "Serie"@
    }
}

/// An episode of a series: its id, which is also its key, and its title.
pub struct EpisodeEntry {
    pub id: String,
    pub title: String,
}

/// The episodes of a series, in the order of the page.
pub struct SeriesListing {
    pub series_title: String,
    pub entries: Vec<EpisodeEntry>,
}

/// The ids and titles of a list of episodes.
pub open spec fn entry_views(v: Seq<EpisodeEntry>) -> Seq<(Seq<char>, Seq<char>)> {
    v.map_values(|e: EpisodeEntry| (e.id@, e.title@))
}

/// The ids and decoded titles of matches.
pub open spec fn decoded(groups: Seq<EpisodeGroups>) -> Seq<(Seq<char>, Seq<char>)> {
    groups.map_values(|g: EpisodeGroups| (g.0, html_text(g.1)))
}

/// What the matches of a series page amount to.
pub open spec fn is_listing(groups: Seq<EpisodeGroups>, r: Result<SeriesListing, SeriesError>) -> bool {
    match r {
        Ok(l) => groups.len() > 0 && entry_views(l.entries@) == decoded(first_by_id(groups))
            && l.series_title@ == series_title_of(first_by_id(groups)),
        Err(e) => groups.len() == 0 && e == SeriesError::NoEpisodes,
    }
}

/// A match with the given id is among the first ones where it is anywhere.
pub proof fn lemma_first_by_id_keeps_ids(groups: Seq<EpisodeGroups>, id: Seq<char>)
    ensures
        listed_before(groups, id, groups.len() as int) <==> listed_before(
            first_by_id(groups),
            id,
            first_by_id(groups).len() as int,
        ),
    decreases groups.len(),
{
    if groups.len() > 0 {
        let init = groups.drop_last();
        let n = groups.len() - 1;
        let kept = first_by_id(groups);
        lemma_first_by_id_keeps_ids(init, id);
        lemma_first_by_id_keeps_ids(init, groups.last().0);
        assert(forall|i: int| 0 <= i < n ==> init[i] == groups[i]);
        assert(listed_before(groups, id, n) <==> listed_before(init, id, n)) by {
            if listed_before(groups, id, n) {
                let i = choose|i: int| 0 <= i < n && (#[trigger] groups[i]).0 == id;
                assert(init[i].0 == id);
            }
            if listed_before(init, id, n) {
                let i = choose|i: int| 0 <= i < n && (#[trigger] init[i]).0 == id;
                assert(groups[i].0 == id);
            }
        }
        let old_kept = first_by_id(init);
        if listed_before(groups, id, groups.len() as int) {
            if !listed_before(groups, id, n) {
                let i = choose|i: int| 0 <= i < groups.len() && (#[trigger] groups[i]).0 == id;
                assert(i == n);
                assert(kept[kept.len() - 1].0 == id);
            } else {
                let i = choose|i: int| 0 <= i < old_kept.len() && (#[trigger] old_kept[i]).0 == id;
                assert(kept[i] == old_kept[i]);
            }
        }
        if listed_before(kept, id, kept.len() as int) {
            let i = choose|i: int| 0 <= i < kept.len() && (#[trigger] kept[i]).0 == id;
            if i < old_kept.len() {
                assert(old_kept[i] == kept[i]);
                assert(listed_before(old_kept, id, old_kept.len() as int));
                let j = choose|j: int| 0 <= j < n && (#[trigger] groups[j]).0 == id;
                assert(groups[j].0 == id);
            } else {
                assert(groups[n].0 == id);
            }
        }
    }
}

fn lists(entries: &Vec<EpisodeEntry>, id: &str) -> (r: bool)
    ensures
        r == exists|i: int| 0 <= i < entries@.len() && (#[trigger] entries@[i]).id@ == id@,
{
    let mut i: usize = 0;
    while i < entries.len()
        invariant
            i <= entries@.len(),
            forall|j: int| 0 <= j < i ==> (#[trigger] entries@[j]).id@ != id@,
        decreases entries@.len() - i,
    {
        if same(entries[i].id.as_str(), id) {
            return true;
        }
        i = i + 1;
    }
    false
}

/// The episodes that the matches of a series page stand for, each id once.
pub fn list_episodes(groups: &Vec<(String, String, String)>) -> (r: Result<
    SeriesListing,
    SeriesError,
>)
    ensures
        is_listing(group_views(groups@), r),
{
    let ghost all = group_views(groups@);
    let mut entries: Vec<EpisodeEntry> = Vec::new();
    let mut series_title = String::new();
    let mut i: usize = 0;
    assert(all.take(0) =~= Seq::<EpisodeGroups>::empty());
    assert(entry_views(entries@) =~= decoded(first_by_id(all.take(0))));
    while i < groups.len()
        invariant
            i <= groups@.len(),
            all == group_views(groups@),
            entry_views(entries@) == decoded(first_by_id(all.take(i as int))),
            series_title@ == first_series_title(first_by_id(all.take(i as int))),
            i > 0 ==> entries@.len() > 0,
        decreases groups@.len() - i,
    {
        let ghost upto = all.take(i + 1);
        let ghost seen = first_by_id(all.take(i as int));
        proof {
            assert(upto.drop_last() =~= all.take(i as int));
            assert(upto.last() == all[i as int]);
            let id = all[i as int].0;
            lemma_first_by_id_keeps_ids(all.take(i as int), id);
            assert(entry_views(entries@).len() == entries@.len());
            assert(forall|k: int|
                0 <= k < entries@.len() ==> (#[trigger] entries@[k]).id@ == entry_views(
                    entries@,
                )[k].0 && entries@[k].id@ == seen[k].0);
            assert(listed_before(upto, id, i as int) <==> listed_before(
                all.take(i as int),
                id,
                i as int,
            )) by {
                let a = all.take(i as int);
                if listed_before(upto, id, i as int) {
                    let k = choose|k: int| 0 <= k < i && (#[trigger] upto[k]).0 == id;
                    assert(a[k].0 == id);
                }
                if listed_before(a, id, i as int) {
                    let k = choose|k: int| 0 <= k < i && (#[trigger] a[k]).0 == id;
                    assert(upto[k].0 == id);
                }
            }
        }
        let seen_before = lists(&entries, groups[i].0.as_str());
        proof {
            let id = all[i as int].0;
            if seen_before {
                let k = choose|k: int| 0 <= k < entries@.len() && (#[trigger] entries@[k]).id@ == id;
                assert(seen[k].0 == id);
            }
            if listed_before(seen, id, seen.len() as int) {
                let k = choose|k: int| 0 <= k < seen.len() && (#[trigger] seen[k]).0 == id;
                assert(entries@[k].id@ == id);
            }
        }
        if !seen_before {
            if series_title.as_str().is_empty() {
                series_title = html_unescape(groups[i].2.as_str());
            }
            let entry = EpisodeEntry {
                id: groups[i].0.clone(),
                title: html_unescape(groups[i].1.as_str()),
            };
            proof {
                assert(first_by_id(upto).drop_last() =~= seen);
                assert(entry_views(entries@.push(entry)) =~= decoded(first_by_id(upto)));
            }
            entries.push(entry);
        }
        i = i + 1;
    }
    assert(all.take(i as int) =~= all);
    if entries.len() == 0 {
        return Err(SeriesError::NoEpisodes);
    }
    if series_title.as_str().is_empty() {
        series_title = "Serie".to_string();
    }
    Ok(SeriesListing { series_title, entries })
}

/// The page writes down an episode with this id and, once decoded, this title.
pub open spec fn stands_on_page(html: Seq<char>, id: Seq<char>, title: Seq<char>) -> bool {
    exists|g: EpisodeGroups|
        contains_str(html, #[trigger] episode_text(g)) && is_id_text(g.0) && is_quoted_text(g.1)
            && g.0 == id && html_text(g.1) == title
}

/// What is kept of the matches is among them.
pub proof fn lemma_first_by_id_is_part(groups: Seq<EpisodeGroups>, k: int)
    requires
        0 <= k < first_by_id(groups).len(),
    ensures
        groups.contains(first_by_id(groups)[k]),
    decreases groups.len(),
{
    let init = groups.drop_last();
    let g = first_by_id(groups)[k];
    if k < first_by_id(init).len() {
        lemma_first_by_id_is_part(init, k);
        let i = choose|i: int| 0 <= i < init.len() && init[i] == g;
        assert(groups[i] == g);
    } else {
        assert(groups[groups.len() - 1] == g);
    }
}

/// The episodes that a series page lists, in the order of the page. Each of them
/// stands on the page, and the series is called as the first of them says; and where no character beyond ASCII stands in an id, none that
/// the page writes down is left out.
pub fn resolve_series(html: &str) -> (r: Result<SeriesListing, SeriesError>)
    ensures
        is_listing(all_groups(EPISODE_PATTERN@, html@), r),
        r matches Ok(l) ==> forall|k: int|
            0 <= k < l.entries@.len() ==> stands_on_page(
                html@,
                (#[trigger] l.entries@[k]).id@,
                l.entries@[k].title@,
            ),
        forall|k: int|
            0 <= k < all_groups(EPISODE_PATTERN@, html@).len() ==> is_id_text(
                (#[trigger] all_groups(EPISODE_PATTERN@, html@)[k]).0,
            ) && is_quoted_text(all_groups(EPISODE_PATTERN@, html@)[k].1) && is_quoted_text(
                all_groups(EPISODE_PATTERN@, html@)[k].2,
            ),
        r matches Ok(l) ==> l.series_title@ == html_text(
            all_groups(EPISODE_PATTERN@, html@)[0].2,
        ),
        has_ascii_ids(html@) ==> are_episodes(html@, 0, all_groups(EPISODE_PATTERN@, html@)),
{
    let groups = find_groups(EPISODE_PATTERN, html);
    let r = list_episodes(&groups);
    proof {
        let all = group_views(groups@);
        if r is Ok {
            let l = r->Ok_0;
            law_series_title_is_first(all);
            assert(entry_views(l.entries@).len() == l.entries@.len());
            assert(decoded(first_by_id(all)).len() == first_by_id(all).len());
            assert forall|k: int| 0 <= k < l.entries@.len() implies stands_on_page(
                html@,
                (#[trigger] l.entries@[k]).id@,
                l.entries@[k].title@,
            ) by {
                let g = first_by_id(all)[k];
                assert(entry_views(l.entries@)[k] == (l.entries@[k].id@, l.entries@[k].title@));
                assert(decoded(first_by_id(all))[k] == (g.0, html_text(g.1)));
                lemma_first_by_id_is_part(all, k);
                let i = choose|i: int| 0 <= i < all.len() && all[i] == g;
                assert(contains_str(html@, episode_text(all[i])));
            }
        }
    }
    r
}

/// An episode as the user interface gets it.
#[derive(Debug)]
pub struct Episode {
    pub url: String,
    pub title: String,
    /// True when this episode is already present in cache or media library.
    pub downloaded: bool,
}

/// A series as the user interface gets it.
#[derive(Debug)]
pub struct SeriesResp {
    pub series_title: String,
    pub episodes: Vec<Episode>,
}

/// The address of an episode of a series.
pub open spec fn episode_url(base: Seq<char>, id: Seq<char>) -> Seq<char> {
    base + "/aflevering/"@ + id
}

/// The answer to a request for a series: `downloaded` says of each episode
/// whether it is present already.
pub fn series_response(base: &str, listing: SeriesListing, downloaded: &Vec<bool>) -> (r: SeriesResp)
    requires
        downloaded@.len() == listing.entries@.len(),
    ensures
        r.series_title@ == listing.series_title@,
        r.episodes@.len() == listing.entries@.len(),
        forall|i: int|
            0 <= i < listing.entries@.len() ==> {
                &&& (#[trigger] r.episodes@[i]).url@ == episode_url(
                    base@,
                    listing.entries@[i].id@,
                )
                &&& r.episodes@[i].title@ == listing.entries@[i].title@
                &&& r.episodes@[i].downloaded == downloaded@[i]
            },
{
    let mut episodes: Vec<Episode> = Vec::new();
    let mut i: usize = 0;
    while i < listing.entries.len()
        invariant
            i <= listing.entries@.len(),
            downloaded@.len() == listing.entries@.len(),
            episodes@.len() == i,
            forall|k: int|
                0 <= k < i ==> {
                    &&& (#[trigger] episodes@[k]).url@ == episode_url(
                        base@,
                        listing.entries@[k].id@,
                    )
                    &&& episodes@[k].title@ == listing.entries@[k].title@
                    &&& episodes@[k].downloaded == downloaded@[k]
                },
        decreases listing.entries@.len() - i,
    {
        let mut url = base.to_string();
        url.append("/aflevering/");
        url.append(listing.entries[i].id.as_str());
        episodes.push(
            Episode { url, title: listing.entries[i].title.clone(), downloaded: downloaded[i] },
        );
        i = i + 1;
    }
    SeriesResp { series_title: listing.series_title, episodes }
}

impl AppState {
    /// The answer to a request for a series, each episode with the mark that
    /// `is_downloaded` gives for its id. `cached_len` has for each episode the length of
    /// its cached file, where a regular file lies there, and `media_nonempty` whether a
    /// regular file that is not empty lies at its `media_file`.
    pub fn marked_response(
        &self,
        base: &str,
        listing: SeriesListing,
        cached_len: &Vec<Option<u64>>,
        media_nonempty: &Vec<bool>,
    ) -> (r: SeriesResp)
        requires
            cached_len@.len() == listing.entries@.len(),
            media_nonempty@.len() == listing.entries@.len(),
        ensures
            r.series_title@ == listing.series_title@,
            r.episodes@.len() == listing.entries@.len(),
            forall|i: int|
                0 <= i < listing.entries@.len() ==> {
                    &&& (#[trigger] r.episodes@[i]).url@ == episode_url(
                        base@,
                        listing.entries@[i].id@,
                    )
                    &&& r.episodes@[i].title@ == listing.entries@[i].title@
                    &&& r.episodes@[i].downloaded == self@.has_episode(
                        listing.entries@[i].id@,
                        cached_len@[i] matches Some(n) && n > 0,
                        media_nonempty@[i],
                    )
                },
    {
        let mut marks: Vec<bool> = Vec::new();
        let mut i: usize = 0;
        while i < listing.entries.len()
            invariant
                i <= listing.entries@.len(),
                cached_len@.len() == listing.entries@.len(),
                media_nonempty@.len() == listing.entries@.len(),
                marks@.len() == i,
                forall|k: int|
                    0 <= k < i ==> #[trigger] marks@[k] == self@.has_episode(
                        listing.entries@[k].id@,
                        cached_len@[k] matches Some(n) && n > 0,
                        media_nonempty@[k],
                    ),
            decreases listing.entries@.len() - i,
        {
            let id = listing.entries[i].id.as_str();
            marks.push(self.is_downloaded(id, cached_len[i], media_nonempty[i]));
            i = i + 1;
        }
        series_response(base, listing, &marks)
    }
}

} // verus!
