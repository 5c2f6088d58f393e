//! The index of the media library: which episode is kept under which file name, and
//! how that is saved and loaded again.
use crate::state::AppState;
use crate::table::Table;
use crate::text::views;
use std::collections::BTreeMap;
use vstd::prelude::*;

verus! {

/// The map that a list of entries stands for; a later entry replaces an earlier one
/// with the same key.
pub open spec fn entry_map(entries: Seq<(String, String)>) -> Map<Seq<char>, Seq<char>>
    decreases entries.len(),
{
    if entries.len() == 0 {
        Map::empty()
    } else {
        entry_map(entries.drop_last()).insert(entries.last().0@, entries.last().1@)
    }
}

/// No key occurs twice.
pub open spec fn once_each(entries: Seq<(String, String)>) -> bool {
    forall|i: int, j: int|
        0 <= i < j < entries.len() ==> (#[trigger] entries[i]).0@ != (#[trigger] entries[j]).0@
}

/// The map from strings to strings that a JSON text holds, if it holds one.
pub uninterp spec fn json_map(text: Seq<char>) -> Option<Map<Seq<char>, Seq<char>>>;

/// The pretty-printed JSON text of a map from strings to strings, its keys in order.
pub uninterp spec fn json_text(m: Map<Seq<char>, Seq<char>>) -> Seq<char>;

/// `serde_json::from_str`, for a map from strings to strings: the entries of the map
/// that the text holds, or `None` where it holds none.
#[verifier::external_body]
fn read_json(text: &str) -> (r: Option<Vec<(String, String)>>)
    ensures
        match r {
            Some(entries) => once_each(entries@) && json_map(text@) == Some(entry_map(entries@)),
            None => json_map(text@) is None,
        },
{
    serde_json::from_str::<BTreeMap<String, String>>(text).ok().map(|m| m.into_iter().collect())
}

/// `serde_json::to_string_pretty`, for a map from strings to strings, which does not
/// fail: a text from which `serde_json::from_str` reads the same map.
#[verifier::external_body]
fn write_json(entries: &Vec<(String, String)>) -> (r: Option<String>)
    requires
        once_each(entries@),
    ensures
        r is Some,
        r->0@ == json_text(entry_map(entries@)),
        json_map(r->0@) == Some(entry_map(entries@)),
{
    let m: BTreeMap<&String, &String> = entries.iter().map(|e| (&e.0, &e.1)).collect();
    serde_json::to_string_pretty(&m).ok()
}

/// The entries that were saved, where the text is readable, else none.
pub fn saved_entries(text: &str) -> (entries: Vec<(String, String)>)
    ensures
        once_each(entries@),
        entry_map(entries@) == (match json_map(text@) {
            Some(m) => m,
            None => Map::<Seq<char>, Seq<char>>::empty(),
        }),
{
    match read_json(text) {
        Some(entries) => entries,
        None => Vec::new(),
    }
}

/// The index that a list of entries gives of which only the present files count;
/// a later entry replaces an earlier one with the same key.
pub open spec fn index_of_present(entries: Seq<(String, String)>, present: Seq<bool>) -> Map<
    Seq<char>,
    Seq<char>,
>
    decreases entries.len(),
{
    if entries.len() == 0 {
        Map::empty()
    } else {
        let rest = index_of_present(entries.drop_last(), present);
        if present[entries.len() - 1] {
            rest.insert(entries.last().0@, entries.last().1@)
        } else {
            rest.remove(entries.last().0@)
        }
    }
}

/// Load the media index: the entries that were saved, without those whose file has
/// since been deleted. `present` says of each entry whether its file exists.
pub fn load_media_index(entries: Vec<(String, String)>, present: &Vec<bool>) -> (index: Table<
    String,
>)
    requires
        present@.len() == entries@.len(),
    ensures
        index@.map_values(|f: String| f@) == index_of_present(entries@, present@),
{
    let mut index: Table<String> = Table::new();
    let mut i: usize = 0;
    let ghost v = |f: String| f@;
    assert(entries@.take(0) =~= Seq::<(String, String)>::empty());
    assert(index@.map_values(v) =~= Map::<Seq<char>, Seq<char>>::empty());
    while i < entries.len()
        invariant
            i <= entries@.len(),
            present@.len() == entries@.len(),
            v == (|f: String| f@),
            index@.map_values(v) == index_of_present(entries@.take(i as int), present@),
        decreases entries@.len() - i,
    {
        assert(entries@.take(i + 1).drop_last() =~= entries@.take(i as int));
        let ghost was = index@;
        if present[i] {
            index.insert(entries[i].0.clone(), entries[i].1.clone());
            assert(index@.map_values(v) =~= was.map_values(v).insert(
                entries@[i as int].0@,
                entries@[i as int].1@,
            ));
        } else {
            let _ = index.remove(entries[i].0.as_str());
            assert(index@.map_values(v) =~= was.map_values(v).remove(entries@[i as int].0@));
        }
        i = i + 1;
    }
    assert(entries@.take(i as int) =~= entries@);
    index
}

impl AppState {
    /// The entries of the media index, each key once, as they are saved.
    pub fn media_entries(&self) -> (r: Vec<(String, String)>)
        ensures
            once_each(r@),
            entry_map(r@) == self@.media,
    {
        let keys = self.media_index.keys();
        let mut out: Vec<(String, String)> = Vec::new();
        let mut i: usize = 0;
        let ghost ks = views(keys@);
        assert(forall|k: int| 0 <= k < keys@.len() ==> ks[k] == (#[trigger] keys@[k])@);
        while i < keys.len()
            invariant
                i <= keys@.len(),
                ks == views(keys@),
                forall|k: int| 0 <= k < keys@.len() ==> ks[k] == (#[trigger] keys@[k])@,
                forall|k: Seq<char>| #[trigger]
                    ks.contains(k) <==> self.media_index@.contains_key(k),
                out@.len() == i,
                forall|k: int|
                    0 <= k < i ==> (#[trigger] out@[k]).0@ == ks[k] && self@.media.contains_key(
                        out@[k].0@,
                    ) && self@.media[out@[k].0@] == out@[k].1@,
            decreases keys@.len() - i,
        {
            assert(ks[i as int] == keys@[i as int]@);
            assert(ks.contains(ks[i as int]));
            match self.media_index.get(keys[i].as_str()) {
                Some(f) => {
                    out.push((keys[i].clone(), f.clone()));
                },
                None => {
                    assert(false);
                },
            }
            i = i + 1;
        }
        proof {
            assert forall|k: Seq<char>| #[trigger] self@.media.contains_key(k) implies exists|i: int|
                0 <= i < out@.len() && (#[trigger] out@[i]).0@ == k by {
                assert(ks.contains(k));
                let n = choose|n: int| 0 <= n < ks.len() && ks[n] == k;
                assert(out@[n].0@ == k);
            }
            assert(once_each(out@));
            lemma_entry_map(out@);
            assert(entry_map(out@) =~= self@.media);
        }
        out
    }

    /// The text under which the media index is saved: it holds the index.
    pub fn media_index_text(&self) -> (r: Option<String>)
        ensures
            r is Some,
            r->0@ == json_text(self@.media),
            json_map(r->0@) == Some(self@.media),
    {
        let entries = self.media_entries();
        write_json(&entries)
    }
}

/// Where no key occurs twice, the map holds the entries and nothing else.
proof fn lemma_entry_map(entries: Seq<(String, String)>)
    requires
        once_each(entries),
    ensures
        forall|i: int|
            0 <= i < entries.len() ==> entry_map(entries).contains_key((#[trigger] entries[i]).0@)
                && entry_map(entries)[entries[i].0@] == entries[i].1@,
        forall|k: Seq<char>| #[trigger]
            entry_map(entries).contains_key(k) ==> exists|i: int|
                0 <= i < entries.len() && (#[trigger] entries[i]).0@ == k,
    decreases entries.len(),
{
    if entries.len() > 0 {
        let init = entries.drop_last();
        let n = entries.len() - 1;
        assert forall|i: int, j: int| 0 <= i < j < init.len() implies (#[trigger] init[i]).0@ != (
        #[trigger] init[j]).0@ by {
            assert(init[i] == entries[i] && init[j] == entries[j]);
        }
        lemma_entry_map(init);
        let m = entry_map(entries);
        assert forall|i: int| 0 <= i < entries.len() implies m.contains_key(
            (#[trigger] entries[i]).0@,
        ) && m[entries[i].0@] == entries[i].1@ by {
            if i < n {
                assert(init[i] == entries[i]);
                assert(entries[i].0@ != entries[n].0@);
            }
        }
        assert forall|k: Seq<char>| #[trigger] m.contains_key(k) implies exists|i: int|
            0 <= i < entries.len() && (#[trigger] entries[i]).0@ == k by {
            if k == entries[n].0@ {
            } else {
                assert(entry_map(init).contains_key(k));
                let i = choose|i: int| 0 <= i < init.len() && (#[trigger] init[i]).0@ == k;
                assert(entries[i].0@ == k);
            }
        }
    }
}

proof fn lemma_index_of_present(entries: Seq<(String, String)>, present: Seq<bool>)
    requires
        once_each(entries),
    ensures
        forall|i: int|
            0 <= i < entries.len() ==> (index_of_present(entries, present).contains_key(
                (#[trigger] entries[i]).0@,
            ) <==> present[i]) && (present[i] ==> index_of_present(entries, present)[entries[i].0@]
                == entries[i].1@),
        forall|k: Seq<char>| #[trigger]
            index_of_present(entries, present).contains_key(k) ==> exists|i: int|
                0 <= i < entries.len() && (#[trigger] entries[i]).0@ == k,
    decreases entries.len(),
{
    if entries.len() > 0 {
        let init = entries.drop_last();
        let n = entries.len() - 1;
        assert forall|i: int, j: int| 0 <= i < j < init.len() implies (#[trigger] init[i]).0@ != (
        #[trigger] init[j]).0@ by {
            assert(init[i] == entries[i] && init[j] == entries[j]);
        }
        lemma_index_of_present(init, present);
        let m = index_of_present(entries, present);
        assert forall|i: int| 0 <= i < entries.len() implies (m.contains_key(
            (#[trigger] entries[i]).0@,
        ) <==> present[i]) && (present[i] ==> m[entries[i].0@] == entries[i].1@) by {
            if i < n {
                assert(init[i] == entries[i]);
                assert(entries[i].0@ != entries[n].0@);
            }
        }
        assert forall|k: Seq<char>| #[trigger] m.contains_key(k) implies exists|i: int|
            0 <= i < entries.len() && (#[trigger] entries[i]).0@ == k by {
            if k == entries[n].0@ {
            } else {
                assert(index_of_present(init, present).contains_key(k));
                let i = choose|i: int| 0 <= i < init.len() && (#[trigger] init[i]).0@ == k;
                assert(entries[i].0@ == k);
            }
        }
    }
}

/// Kept files are recognised across restarts: the text under which an index is saved
/// gives the same index back, without the entries whose file is gone by then.
pub proof fn law_index_survives_restart(
    media: Map<Seq<char>, Seq<char>>,
    text: Seq<char>,
    entries: Seq<(String, String)>,
    present: Seq<bool>,
)
    requires
        json_map(text) == Some(media),
        once_each(entries),
        Some(entry_map(entries)) == json_map(text),
        present.len() == entries.len(),
    ensures
        (forall|i: int| 0 <= i < present.len() ==> present[i]) ==> index_of_present(
            entries,
            present,
        ) == media,
        forall|k: Seq<char>| #[trigger]
            index_of_present(entries, present).contains_key(k) ==> media.contains_key(k)
                && index_of_present(entries, present)[k] == media[k],
        forall|i: int|
            0 <= i < entries.len() ==> (index_of_present(entries, present).contains_key(
                (#[trigger] entries[i]).0@,
            ) <==> present[i]),
{
    lemma_index_of_present(entries, present);
    lemma_entry_map(entries);
    let m = index_of_present(entries, present);
    assert forall|k: Seq<char>| #[trigger] m.contains_key(k) implies media.contains_key(k) && m[k]
        == media[k] by {
        let i = choose|i: int| 0 <= i < entries.len() && (#[trigger] entries[i]).0@ == k;
        assert(present[i]);
    }
    if forall|i: int| 0 <= i < present.len() ==> present[i] {
        assert forall|k: Seq<char>| m.contains_key(k) <==> media.contains_key(k) by {
            if media.contains_key(k) {
                let i = choose|i: int| 0 <= i < entries.len() && (#[trigger] entries[i]).0@ == k;
                assert(present[i]);
            }
        }
        assert(m =~= media);
    }
}

proof fn lemma_index_goes_by_prefix(entries: Seq<(String, String)>, p: Seq<bool>, q: Seq<bool>)
    requires
        forall|i: int| 0 <= i < entries.len() ==> #[trigger] p[i] == q[i],
    ensures
        index_of_present(entries, p) == index_of_present(entries, q),
    decreases entries.len(),
{
    if entries.len() > 0 {
        lemma_index_goes_by_prefix(entries.drop_last(), p, q);
        assert(p[entries.len() - 1] == q[entries.len() - 1]);
    }
}

/// Of several entries with one key the last one counts: it is in the index where its file
/// is present, and none of them is where it is not. The other keys are not touched.
pub proof fn law_last_entry_counts(
    entries: Seq<(String, String)>,
    present: Seq<bool>,
    entry: (String, String),
    there: bool,
)
    requires
        present.len() == entries.len(),
    ensures
        ({
            let was = index_of_present(entries, present);
            let now = index_of_present(entries.push(entry), present.push(there));
            &&& there ==> now == was.insert(entry.0@, entry.1@)
            &&& !there ==> now == was.remove(entry.0@)
        }),
        index_of_present(Seq::empty(), Seq::empty()) == Map::<Seq<char>, Seq<char>>::empty(),
{
    assert(entries.push(entry).drop_last() =~= entries);
    lemma_index_goes_by_prefix(entries, present, present.push(there));
}

} // verus!
