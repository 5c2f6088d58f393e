//! What the listing of a series holds, told of its entries themselves, and how titles and
//! addresses of series are read.
use crate::series::{
    base_of, decoded, entry_views, episode_url, first_by_id, first_series_title, group_views,
    html_text, is_listing, is_series_url, listed_before, EpisodeEntry, EpisodeGroups, SeriesError,
    SeriesListing,
};
use crate::site_laws::{
    law_listing_has_each_id_once, law_series_title_is_first, lemma_replaced_behind,
};
use crate::text::{contains_str, occurs_at, replaced};
use crate::text_laws::{is_run_of, law_before, law_strip};
use vstd::prelude::*;

verus! {

/// Where the kept matches stand among all matches.
proof fn lemma_kept_places(groups: Seq<EpisodeGroups>) -> (at: Seq<int>)
    ensures
        at.len() == first_by_id(groups).len(),
        forall|k: int|
            0 <= k < at.len() ==> 0 <= #[trigger] at[k] < groups.len() && first_by_id(groups)[k]
                == groups[at[k]],
        forall|k: int, j: int|
            0 <= k < at.len() && 0 <= j < at[k] ==> #[trigger] groups[j].0 != groups[#[trigger] at[k]]
                .0,
        forall|a: int, b: int| 0 <= a < b < at.len() ==> #[trigger] at[a] < #[trigger] at[b],
    decreases groups.len(),
{
    if groups.len() == 0 {
        Seq::empty()
    } else {
        let init = groups.drop_last();
        let n = groups.len() - 1;
        let old_at = lemma_kept_places(init);
        let id = groups.last().0;
        assert(forall|j: int| 0 <= j < n ==> #[trigger] init[j] == groups[j]);
        if listed_before(groups, id, n) {
            assert forall|k: int, j: int|
                0 <= k < old_at.len() && 0 <= j < old_at[k] implies #[trigger] groups[j].0
                != groups[#[trigger] old_at[k]].0 by {
                assert(init[j] == groups[j]);
                assert(init[old_at[k]] == groups[old_at[k]]);
            }
            old_at
        } else {
            let at = old_at.push(n);
            let kept = first_by_id(groups);
            assert forall|k: int| 0 <= k < at.len() implies 0 <= #[trigger] at[k] < groups.len()
                && kept[k] == groups[at[k]] by {
                if k < old_at.len() {
                    assert(at[k] == old_at[k]);
                    assert(init[at[k]] == groups[at[k]]);
                }
            }
            assert forall|k: int, j: int|
                0 <= k < at.len() && 0 <= j < at[k] implies #[trigger] groups[j].0
                != groups[#[trigger] at[k]].0 by {
                if k < old_at.len() {
                    assert(at[k] == old_at[k]);
                    assert(init[j] == groups[j]);
                    assert(init[old_at[k]] == groups[old_at[k]]);
                } else {
                    assert(at[k] == n);
                }
            }
            assert forall|a: int, b: int| 0 <= a < b < at.len() implies #[trigger] at[a]
                < #[trigger] at[b] by {
                assert(at[a] == old_at[a]);
                if b < old_at.len() {
                    assert(at[b] == old_at[b]);
                }
            }
            at
        }
    }
}

/// The entry stands for the match at `i`: it has its id and, decoded, its title, and no
/// earlier match has that id.
pub open spec fn stands_for(entry: EpisodeEntry, groups: Seq<EpisodeGroups>, i: int) -> bool {
    &&& 0 <= i < groups.len()
    &&& entry.id@ == groups[i].0
    &&& entry.title@ == html_text(groups[i].1)
    &&& forall|j: int| 0 <= j < i ==> (#[trigger] groups[j]).0 != groups[i].0
}

/// The entry stands for one of the matches.
pub open spec fn stands_for_some(entry: EpisodeEntry, groups: Seq<EpisodeGroups>) -> bool {
    exists|i: int| stands_for(entry, groups, i)
}

/// No episode is left out of a listing and none is made up: for every match there is an
/// entry with its id; every entry stands for the first match of its id; no id occurs
/// twice; and the entries stand in the order of those first matches. There is no listing
/// only where there is no match.
pub proof fn law_listing_is_complete(
    groups: Seq<EpisodeGroups>,
    r: Result<SeriesListing, SeriesError>,
)
    requires
        is_listing(groups, r),
    ensures
        groups.len() == 0 <==> r is Err,
        r is Err ==> r->Err_0 == SeriesError::NoEpisodes,
        r matches Ok(l) ==> {
            let es = l.entries@;
            &&& forall|i: int|
                0 <= i < groups.len() ==> exists|k: int|
                    0 <= k < es.len() && (#[trigger] es[k]).id@ == (#[trigger] groups[i]).0
            &&& forall|k: int|
                0 <= k < es.len() ==> stands_for_some(#[trigger] es[k], groups)
            &&& forall|a: int, b: int|
                0 <= a < b < es.len() ==> (#[trigger] es[a]).id@ != (#[trigger] es[b]).id@
            &&& forall|a: int, b: int, i: int, j: int|
                0 <= a < b < es.len() && #[trigger] stands_for(es[a], groups, i)
                    && #[trigger] stands_for(es[b], groups, j) ==> i < j
            &&& groups[0].2.len() > 0 ==> l.series_title@ == html_text(groups[0].2)
        },
{
    if r is Ok {
        let l = r->Ok_0;
        let es = l.entries@;
        let kept = first_by_id(groups);
        let at = lemma_kept_places(groups);
        law_listing_has_each_id_once(groups);
        assert(entry_views(es).len() == es.len());
        assert(decoded(kept).len() == kept.len());
        assert forall|k: int| 0 <= k < es.len() implies (#[trigger] es[k]).id@ == kept[k].0
            && es[k].title@ == html_text(kept[k].1) by {
            assert(entry_views(es)[k] == (es[k].id@, es[k].title@));
            assert(decoded(kept)[k] == (kept[k].0, html_text(kept[k].1)));
        }
        assert forall|i: int| 0 <= i < groups.len() implies exists|k: int|
            0 <= k < es.len() && (#[trigger] es[k]).id@ == (#[trigger] groups[i]).0 by {
            let id = groups[i].0;
            assert(listed_before(groups, id, groups.len() as int));
            assert(listed_before(kept, id, kept.len() as int));
            let k = choose|k: int| 0 <= k < kept.len() && (#[trigger] kept[k]).0 == id;
            assert(es[k].id@ == id);
        }
        assert forall|k: int| 0 <= k < es.len() implies stands_for_some(
            #[trigger] es[k],
            groups,
        ) by {
            assert(kept[k] == groups[at[k]]);
            assert(stands_for(es[k], groups, at[k]));
        }
        assert forall|a: int, b: int| 0 <= a < b < es.len() implies (#[trigger] es[a]).id@ != (
        #[trigger] es[b]).id@ by {
            assert(kept[a].0 != kept[b].0);
        }
        assert forall|a: int, b: int, i: int, j: int|
            0 <= a < b < es.len() && #[trigger] stands_for(es[a], groups, i)
                && #[trigger] stands_for(es[b], groups, j) implies i < j by {
            lemma_place(es[a], groups, i, at[a]);
            lemma_place(es[b], groups, j, at[b]);
        }
        if groups[0].2.len() > 0 {
            law_series_title_is_first(groups);
        }
    }
}

proof fn lemma_place(entry: EpisodeEntry, groups: Seq<EpisodeGroups>, i: int, n: int)
    requires
        stands_for(entry, groups, i),
        0 <= n < groups.len(),
        groups[n].0 == entry.id@,
        forall|j: int| 0 <= j < n ==> (#[trigger] groups[j]).0 != groups[n].0,
    ensures
        i == n,
{
    if i < n {
        assert(groups[i].0 != groups[n].0);
    }
    if n < i {
        assert(groups[n].0 != groups[i].0);
    }
}

/// The contents of a list of matches are those of all its matches, in order.
pub proof fn law_every_match_counts(v: Seq<(String, String, String)>)
    ensures
        group_views(v).len() == v.len(),
        forall|i: int|
            0 <= i < v.len() ==> #[trigger] group_views(v)[i] == (v[i].0@, v[i].1@, v[i].2@),
{
}

/// A series that gives itself no title on any of its episodes is called `Serie`.
pub proof fn law_series_without_title(
    groups: Seq<EpisodeGroups>,
    r: Result<SeriesListing, SeriesError>,
)
    requires
        is_listing(groups, r),
        r is Ok,
        forall|i: int| 0 <= i < groups.len() ==> (#[trigger] groups[i]).2.len() == 0,
    ensures
        r->Ok_0.series_title@ == "Serie"@,
{
    let kept = first_by_id(groups);
    let at = lemma_kept_places(groups);
    assert forall|k: int| 0 <= k < kept.len() implies (#[trigger] kept[k]).2.len() == 0 by {
        assert(kept[k] == groups[at[k]]);
    }
    lemma_no_series_title(kept);
}

proof fn lemma_no_series_title(kept: Seq<EpisodeGroups>)
    requires
        forall|k: int| 0 <= k < kept.len() ==> (#[trigger] kept[k]).2.len() == 0,
    ensures
        first_series_title(kept).len() == 0,
    decreases kept.len(),
{
    if kept.len() > 0 {
        let init = kept.drop_last();
        assert forall|k: int| 0 <= k < init.len() implies (#[trigger] init[k]).2.len() == 0 by {
            assert(init[k] == kept[k]);
        }
        lemma_no_series_title(init);
        let e = kept[kept.len() - 1].2;
        reveal_strlit("&amp;");
        reveal_strlit("&#x27;");
        reveal_strlit("&#39;");
        reveal_strlit("&quot;");
        reveal_strlit("&lt;");
        reveal_strlit("&gt;");
        assert(html_text(e) == e);
    }
}

/// A text at whose start no entity but perhaps the one before it can go on.
spec fn cannot_go_on(s: Seq<char>) -> bool {
    s.len() > 0 ==> s[0] != '#' && s[0] != 'q' && s[0] != 'l' && s[0] != 'g'
}

/// An entity that differs from what is looked for in a later character is passed over.
proof fn lemma_entity_stays(x: Seq<char>, b: Seq<char>, from: Seq<char>, to: Seq<char>, d: int)
    requires
        x.len() > 0,
        from.len() > 0,
        0 <= d < from.len(),
        d < x.len(),
        x[d] != from[d],
        forall|i: int| 1 <= i < x.len() ==> #[trigger] x[i] != from[0],
    ensures
        replaced(x + b, from, to) == x + replaced(b, from, to),
{
    let s = x + b;
    let y = x.drop_first();
    assert forall|i: int| 0 <= i < y.len() implies #[trigger] y[i] != from[0] by {
        assert(y[i] == x[i + 1]);
    }
    lemma_replaced_behind(y, b, from, to);
    assert(s.drop_first() =~= y + b);
    if occurs_at(s, from, 0) {
        assert(s.subrange(0, from.len() as int)[d] == s[d]);
        assert(s[d] == x[d]);
    }
    if s.len() < from.len() {
        assert(b.len() < from.len());
        assert(replaced(b, from, to) == b);
    } else {
        assert(seq![s[0]] + (y + replaced(b, from, to)) =~= x + replaced(b, from, to));
    }
}

/// An entity that is looked for is replaced.
proof fn lemma_entity_goes(b: Seq<char>, from: Seq<char>, to: Seq<char>)
    requires
        from.len() > 0,
    ensures
        replaced(from + b, from, to) == to + replaced(b, from, to),
{
    let s = from + b;
    assert(s.subrange(0, from.len() as int) =~= from);
    assert(s.skip(from.len() as int) =~= b);
}

/// An ampersand behind which nothing can go on is passed over, and nothing can go on
/// behind it later either.
proof fn lemma_ampersand_stays(b: Seq<char>, from: Seq<char>, to: Seq<char>)
    requires
        from.len() > 1,
        from[0] == '&',
        from[1] == '#' || from[1] == 'q' || from[1] == 'l' || from[1] == 'g',
        cannot_go_on(b),
        to.len() > 0,
        cannot_go_on(to),
    ensures
        replaced(seq!['&'] + b, from, to) == seq!['&'] + replaced(b, from, to),
        cannot_go_on(replaced(b, from, to)),
{
    let s = seq!['&'] + b;
    assert(s.drop_first() =~= b);
    if occurs_at(s, from, 0) {
        assert(s.subrange(0, from.len() as int)[1] == s[1]);
        assert(s[1] == b[0]);
    }
    if s.len() < from.len() {
        assert(replaced(b, from, to) == b);
    }
    if b.len() > 0 && b.len() >= from.len() && !occurs_at(b, from, 0) {
        assert(replaced(b, from, to)[0] == b[0]);
    }
}

proof fn lemma_entities()
    ensures
        "&amp;"@ =~= seq!['&', 'a', 'm', 'p', ';'],
        "&#x27;"@ =~= seq!['&', '#', 'x', '2', '7', ';'],
        "&#39;"@ =~= seq!['&', '#', '3', '9', ';'],
        "&quot;"@ =~= seq!['&', 'q', 'u', 'o', 't', ';'],
        "&lt;"@ =~= seq!['&', 'l', 't', ';'],
        "&gt;"@ =~= seq!['&', 'g', 't', ';'],
        "&"@ =~= seq!['&'],
        "'"@ =~= seq!['\''],
        "\""@ =~= seq!['"'],
        "<"@ =~= seq!['<'],
        ">"@ =~= seq!['>'],
{
    reveal_strlit("&amp;");
    reveal_strlit("&#x27;");
    reveal_strlit("&#39;");
    reveal_strlit("&quot;");
    reveal_strlit("&lt;");
    reveal_strlit("&gt;");
    reveal_strlit("&");
    reveal_strlit("'");
    reveal_strlit("\"");
    reveal_strlit("<");
    reveal_strlit(">");
}

/// Text without an ampersand stays as it is, whatever follows it.
pub proof fn law_plain_text_stays(plain: Seq<char>, b: Seq<char>)
    requires
        !plain.contains('&'),
    ensures
        html_text(plain + b) == plain + html_text(b),
{
    lemma_entities();
    assert forall|i: int| 0 <= i < plain.len() implies #[trigger] plain[i] != '&' by {
        assert(plain.contains(plain[i]));
    }
    let b1 = replaced(b, "&amp;"@, "&"@);
    let b2 = replaced(b1, "&#x27;"@, "'"@);
    let b3 = replaced(b2, "&#39;"@, "'"@);
    let b4 = replaced(b3, "&quot;"@, "\""@);
    let b5 = replaced(b4, "&lt;"@, "<"@);
    lemma_replaced_behind(plain, b, "&amp;"@, "&"@);
    lemma_replaced_behind(plain, b1, "&#x27;"@, "'"@);
    lemma_replaced_behind(plain, b2, "&#39;"@, "'"@);
    lemma_replaced_behind(plain, b3, "&quot;"@, "\""@);
    lemma_replaced_behind(plain, b4, "&lt;"@, "<"@);
    lemma_replaced_behind(plain, b5, "&gt;"@, ">"@);
}

/// Each of the entities is decoded, wherever it stands: both apostrophes, the quote and
/// the two brackets.
pub proof fn law_entities_are_decoded(b: Seq<char>)
    ensures
        html_text("&#x27;"@ + b) == seq!['\''] + html_text(b),
        html_text("&#39;"@ + b) == seq!['\''] + html_text(b),
        html_text("&quot;"@ + b) == seq!['"'] + html_text(b),
        html_text("&lt;"@ + b) == seq!['<'] + html_text(b),
        html_text("&gt;"@ + b) == seq!['>'] + html_text(b),
{
    lemma_entities();
    let amp = "&amp;"@;
    let hex = "&#x27;"@;
    let dec = "&#39;"@;
    let quot = "&quot;"@;
    let lt = "&lt;"@;
    let gt = "&gt;"@;
    let b1 = replaced(b, amp, "&"@);
    let b2 = replaced(b1, hex, "'"@);
    let b3 = replaced(b2, dec, "'"@);
    let b4 = replaced(b3, quot, "\""@);
    let b5 = replaced(b4, lt, "<"@);
    // Every one of them is passed over by the ampersand's pass.
    lemma_entity_stays(hex, b, amp, "&"@, 1);
    lemma_entity_stays(dec, b, amp, "&"@, 1);
    lemma_entity_stays(quot, b, amp, "&"@, 1);
    lemma_entity_stays(lt, b, amp, "&"@, 1);
    lemma_entity_stays(gt, b, amp, "&"@, 1);
    // The hexadecimal apostrophe.
    lemma_entity_goes(b1, hex, "'"@);
    lemma_replaced_behind("'"@, b2, dec, "'"@);
    lemma_replaced_behind("'"@, b3, quot, "\""@);
    lemma_replaced_behind("'"@, b4, lt, "<"@);
    lemma_replaced_behind("'"@, b5, gt, ">"@);
    // The decimal one.
    lemma_entity_stays(dec, b1, hex, "'"@, 2);
    lemma_entity_goes(b2, dec, "'"@);
    // The quote.
    lemma_entity_stays(quot, b1, hex, "'"@, 1);
    lemma_entity_stays(quot, b2, dec, "'"@, 1);
    lemma_entity_goes(b3, quot, "\""@);
    lemma_replaced_behind("\""@, b4, lt, "<"@);
    lemma_replaced_behind("\""@, b5, gt, ">"@);
    // The brackets.
    lemma_entity_stays(lt, b1, hex, "'"@, 1);
    lemma_entity_stays(lt, b2, dec, "'"@, 1);
    lemma_entity_stays(lt, b3, quot, "\""@, 1);
    lemma_entity_goes(b4, lt, "<"@);
    lemma_replaced_behind("<"@, b5, gt, ">"@);
    lemma_entity_stays(gt, b1, hex, "'"@, 1);
    lemma_entity_stays(gt, b2, dec, "'"@, 1);
    lemma_entity_stays(gt, b3, quot, "\""@, 1);
    lemma_entity_stays(gt, b4, lt, "<"@, 1);
    lemma_entity_goes(b5, gt, ">"@);
}

/// An escaped ampersand is decoded, and a plain one stays, where what follows it cannot go
/// on to an entity.
pub proof fn law_ampersands_are_decoded(b: Seq<char>)
    requires
        b.len() > 0 ==> b[0] != '#' && b[0] != 'q' && b[0] != 'l' && b[0] != 'g',
    ensures
        html_text("&amp;"@ + b) == seq!['&'] + html_text(b),
        b.len() == 0 || b[0] != 'a' ==> html_text("&"@ + b) == seq!['&'] + html_text(b),
{
    lemma_entities();
    let amp = "&amp;"@;
    let b1 = replaced(b, amp, "&"@);
    let b2 = replaced(b1, "&#x27;"@, "'"@);
    let b3 = replaced(b2, "&#39;"@, "'"@);
    let b4 = replaced(b3, "&quot;"@, "\""@);
    let b5 = replaced(b4, "&lt;"@, "<"@);
    lemma_entity_goes(b, amp, "&"@);
    assert(cannot_go_on(b1)) by {
        if b.len() > 0 && b.len() >= amp.len() && !occurs_at(b, amp, 0) {
            assert(b1[0] == b[0]);
        }
    }
    lemma_ampersand_stays(b1, "&#x27;"@, "'"@);
    lemma_ampersand_stays(b2, "&#39;"@, "'"@);
    lemma_ampersand_stays(b3, "&quot;"@, "\""@);
    lemma_ampersand_stays(b4, "&lt;"@, "<"@);
    lemma_ampersand_stays(b5, "&gt;"@, ">"@);
    if b.len() == 0 || b[0] != 'a' {
        let s = "&"@ + b;
        assert(s.drop_first() =~= b);
        if occurs_at(s, amp, 0) {
            assert(s.subrange(0, 5)[1] == s[1]);
        }
        if s.len() < 5 {
            assert(b1 == b);
        }
        assert(replaced(s, amp, "&"@) == seq!['&'] + b1);
    }
}

/// The address of a series is what stands before the slashes at its end and its query; the
/// address of an episode has `/aflevering/` and the id behind it; and a URL is one of a
/// series where it begins with `http` and holds `/serie/`.
pub proof fn law_series_addresses(
    base: Seq<char>,
    slashes: Seq<char>,
    query: Seq<char>,
    id: Seq<char>,
    url: Seq<char>,
)
    requires
        !base.contains('?'),
        base.len() == 0 || base[base.len() - 1] != '/',
        is_run_of(slashes, '/'),
    ensures
        base_of(base + slashes) == base,
        base_of(base + slashes + seq!['?'] + query) == base,
        episode_url(base, id) == base + "/aflevering/"@ + id,
        is_series_url(url) <==> occurs_at(url, "http"@, 0) && contains_str(url, "/serie/"@),
{
    let s = base + slashes;
    assert(!s.contains('?')) by {
        if s.contains('?') {
            let i = choose|i: int| 0 <= i < s.len() && s[i] == '?';
            if i < base.len() {
                assert(base[i] == '?');
            } else {
                assert(slashes[i - base.len()] == '?');
            }
        }
    }
    law_before(s, '?', query);
    law_strip(base, '/', slashes);
}

} // verus!
