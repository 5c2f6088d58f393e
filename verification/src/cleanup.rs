//! The sweep of the cache: which files have expired, and which jobs go with them.
use crate::jobs::JobView;
use crate::names::{cached_file, library_file, DOWNLOAD_DIR};
use crate::paths::{extension, extension_of, has_extension};
use crate::state::{AppState, AppView};
use crate::text::{after_last, last_index, lemma_last_index_at, same, views};
use vstd::prelude::*;
use vstd::string::*;

verus! {

/// Where a file of the cache lies that has the given name.
pub open spec fn swept_path(name: Seq<char>) -> Seq<char> {
    DOWNLOAD_DIR@ + "/"@ + name
}

/// A video that is as old as the TTL has expired; with a TTL of 0 none ever does.
pub open spec fn expires(name: Seq<char>, age: u64, ttl: u64) -> bool {
    ttl > 0 && extension_of(name) == Some("mp4"@) && age >= ttl
}

/// The job goes when the file of the given name is purged: the file is the job's.
pub open spec fn goes_with(job: JobView, name: Seq<char>) -> bool {
    job.path == swept_path(name)
}

/// The jobs that stay when the file of the given name is purged.
pub open spec fn jobs_after_purge(jobs: Map<Seq<char>, JobView>, name: Seq<char>) -> Map<
    Seq<char>,
    JobView,
> {
    Map::new(
        |k: Seq<char>| jobs.contains_key(k) && !goes_with(jobs[k], name),
        |k: Seq<char>| jobs[k],
    )
}

/// Whether a file of the cache is to be purged. Where its age is not known it
/// counts as new; a TTL of 0 disables purging.
pub fn is_expired(name: &str, age: Option<u64>, ttl: u64) -> (b: bool)
    ensures
        b == expires(
            name@,
            match age {
                Some(a) => a,
                None => 0,
            },
            ttl,
        ),
{
    let secs: u64 = match age {
        Some(a) => a,
        None => 0,
    };
    match extension(name) {
        Some(ext) => ttl > 0 && same(ext.as_str(), "mp4") && secs >= ttl,
        None => false,
    }
}

impl AppState {
    /// Forget the jobs of a file that has been purged, so that the table does not
    /// grow without bound.
    pub fn forget(&mut self, name: &str)
        ensures
            final(self)@ == (AppView {
                jobs: jobs_after_purge(old(self)@.jobs, name@),
                ..old(self)@
            }),
    {
        let mut path = DOWNLOAD_DIR.to_string();
        path.append("/");
        path.append(name);
        let keys = self.jobs.keys();
        let ghost ks = views(keys@);
        let ghost before = self@;
        let mut i: usize = 0;
        proof {
            assert(forall|k: int| 0 <= k < keys@.len() ==> ks[k] == (#[trigger] keys@[k])@);
        }
        while i < keys.len()
            invariant
                i <= keys@.len(),
                ks == views(keys@),
                ks.no_duplicates(),
                forall|k: int| 0 <= k < keys@.len() ==> ks[k] == (#[trigger] keys@[k])@,
                forall|k: Seq<char>| #[trigger] ks.contains(k) <==> before.jobs.contains_key(k),
                path@ == swept_path(name@),
                self@.cfg == before.cfg,
                self@.media == before.media,
                self@.active == before.active,
                forall|k: Seq<char>| #[trigger]
                    self@.jobs.contains_key(k) <==> before.jobs.contains_key(k) && !(ks.take(
                        i as int,
                    ).contains(k) && goes_with(before.jobs[k], name@)),
                forall|k: Seq<char>| #[trigger]
                    self@.jobs.contains_key(k) ==> self@.jobs[k] == before.jobs[k],
            decreases keys@.len() - i,
        {
            let ghost now = self@;
            let key = keys[i].as_str();
            proof {
                assert(key@ == ks[i as int]);
                assert(ks.contains(ks[i as int]));
                assert forall|k: Seq<char>| #[trigger] ks.take(i + 1).contains(k) <==> ks.take(
                    i as int,
                ).contains(k) || k == key@ by {
                    if ks.take(i + 1).contains(k) {
                        let longer = ks.take(i + 1);
                        let n = choose|n: int| 0 <= n < longer.len() && longer[n] == k;
                        if n < i {
                            assert(ks.take(i as int)[n] == k);
                        }
                    }
                    if ks.take(i as int).contains(k) {
                        let shorter = ks.take(i as int);
                        let n = choose|n: int| 0 <= n < shorter.len() && shorter[n] == k;
                        assert(ks.take(i + 1)[n] == k);
                    }
                    assert(ks.take(i + 1)[i as int] == key@);
                }
                assert(!ks.take(i as int).contains(key@)) by {
                    if ks.take(i as int).contains(key@) {
                        let shorter = ks.take(i as int);
                        let n = choose|n: int| 0 <= n < shorter.len() && shorter[n] == key@;
                        assert(ks[n] == ks[i as int]);
                    }
                }
            }
            let goes: bool = match self.jobs.get(key) {
                Some(job) => same(job.path.as_str(), path.as_str()),
                None => false,
            };
            assert(now.jobs.contains_key(key@));
            if goes {
                let _ = self.jobs.remove(key);
                assert(self@.jobs =~= now.jobs.remove(key@));
            }
            i = i + 1;
        }
        proof {
            assert(ks.take(i as int) =~= ks);
            assert(self@.jobs =~= jobs_after_purge(before.jobs, name@));
        }
    }
}

/// A purged file disappears from the job list: no job points at it any more, and
/// every other job stays as it is, so also one that has no file yet.
pub proof fn law_purged_file_leaves_job_list(app: AppView, name: Seq<char>, id: Seq<char>)
    requires
        app.jobs.contains_key(id),
    ensures
        app.jobs[id].path == swept_path(name) ==> !jobs_after_purge(app.jobs, name).contains_key(id),
        app.jobs[id].path != swept_path(name) ==> jobs_after_purge(app.jobs, name).contains_key(id)
            && jobs_after_purge(app.jobs, name)[id] == app.jobs[id],
        app.jobs[id].path.len() == 0 ==> jobs_after_purge(app.jobs, name).contains_key(id),
{
    reveal_strlit("/");
    assert(swept_path(name).len() > 0);
}

proof fn lemma_mp4_name(key: Seq<char>)
    ensures
        last_index(key + ".mp4"@, '.') == key.len(),
        after_last(key + ".mp4"@, '.') == "mp4"@,
{
    reveal_strlit(".mp4");
    reveal_strlit("mp4");
    let name = key + ".mp4"@;
    assert forall|j: int| key.len() < j < name.len() implies #[trigger] name[j] != '.' by {
        assert(name[j] == ".mp4"@[j - key.len()]);
    }
    lemma_last_index_at(name, '.', key.len() as int);
    assert(name.skip(key.len() as int + 1) =~= "mp4"@);
}

/// A TTL of 0 keeps cached files indefinitely.
pub proof fn law_zero_ttl_purges_nothing(name: Seq<char>, age: u64)
    ensures
        !expires(name, age, 0),
{
}

/// The cached file of an episode is among those that the sweep looks at, and it is
/// purged once it is as old as the TTL and not before.
pub proof fn law_cached_file_expires(key: Seq<char>, age: u64, ttl: u64)
    requires
        key.len() > 0,
        ttl > 0,
    ensures
        swept_path(key + ".mp4"@) == cached_file(key),
        expires(key + ".mp4"@, age, ttl) <==> age >= ttl,
{
    lemma_mp4_name(key);
    reveal_strlit(".mp4");
    reveal_strlit("..");
    let name = key + ".mp4"@;
    assert(swept_path(name) =~= cached_file(key));
    assert(name.len() > 2);
    assert(has_extension(name));
}

/// The sweep never touches the media library: no path that it removes is that of a
/// kept file, unless the library's directory is that of the cache.
pub proof fn law_sweep_spares_library(dir: Seq<char>, kept: Seq<char>, name: Seq<char>)
    requires
        dir != DOWNLOAD_DIR@,
        !kept.contains('/'),
        !name.contains('/'),
    ensures
        swept_path(name) != library_file(dir, kept),
{
    reveal_strlit("/");
    let a = swept_path(name);
    let b = library_file(dir, kept);
    if a == b {
        let n = DOWNLOAD_DIR@.len() as int;
        let m = dir.len() as int;
        assert(a.len() == n + 1 + name.len());
        assert(b.len() == m + 1 + kept.len());
        assert(a[n] == '/');
        assert(b[m] == '/');
        if n < m {
            assert(a[m] == name[m - n - 1]);
            assert(name.contains(a[m]));
        } else if m < n {
            assert(b[n] == kept[n - m - 1]);
            assert(kept.contains(b[n]));
        } else {
            assert(a.take(n) =~= DOWNLOAD_DIR@);
            assert(b.take(n) =~= dir);
        }
    }
}

} // verus!
