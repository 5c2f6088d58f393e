//! What holds of the runs of jobs: an episode that is present is not downloaded
//! again, no episode is downloaded twice at a time, and every run comes to its end.
use crate::cleanup::jobs_after_purge;
use crate::jobs::{is_at_most_99, queued, JobView, FULL_PROGRESS, NO_PROGRESS};
use crate::names::{cached_file, candidate, file_stem_of, key_of};
use crate::naming_laws::{
    law_cached_files_distinct, law_candidate_is_in_library, law_sanitized_is_safe,
};
use crate::pipeline::{
    advanced, started, video_name, ActionView, EventView, RunView, StepView,
};
use crate::state::AppView;
use crate::text::{occurs_at, trimmed};
use vstd::prelude::*;

verus! {

/// The job is neither done nor failed, and has no file yet.
pub open spec fn is_open(j: JobView) -> bool {
    !j.done && !j.error && j.path.len() == 0
}

/// The run has claimed its episode and is at work on its download.
pub open spec fn downloads(run: RunView) -> bool {
    match run.step {
        StepView::Page => true,
        StepView::Handshake { .. } => true,
        StepView::Download { .. } => true,
        StepView::Store { .. } => true,
        StepView::Discard => true,
        _ => false,
    }
}

/// Every run that downloads has claimed its episode, no two of them have claimed the
/// same one, and nothing else is claimed.
pub open spec fn guarded(app: AppView, runs: Map<nat, RunView>) -> bool {
    &&& forall|i: nat| #[trigger]
        runs.contains_key(i) ==> runs[i].cache == cached_file(runs[i].key)
    &&& forall|i: nat| #[trigger]
        runs.contains_key(i) && downloads(runs[i]) ==> app.active.contains(runs[i].key)
    &&& forall|i: nat, j: nat|
        #![trigger runs.contains_key(i), runs.contains_key(j)]
        runs.contains_key(i) && runs.contains_key(j) && i != j && downloads(runs[i]) && downloads(
            runs[j],
        ) ==> runs[i].key != runs[j].key
    &&& forall|k: Seq<char>| #[trigger]
        app.active.contains(k) ==> exists|i: nat| #[trigger]
            runs.contains_key(i) && downloads(runs[i]) && runs[i].key == k
}

/// What an event does to the claims: only that of the run's own episode changes, and
/// it is held after the step if and only if the run downloads then.
proof fn lemma_claims(app: AppView, run: RunView, event: EventView)
    requires
        downloads(run) ==> app.active.contains(run.key),
    ensures
        ({
            let (app2, run2) = advanced(app, run, event);
            &&& run2.key == run.key && run2.cache == run.cache
            &&& forall|k: Seq<char>|
                k != run.key ==> (#[trigger] app2.active.contains(k) <==> app.active.contains(k))
            &&& downloads(run2) ==> app2.active.contains(run.key)
            &&& !downloads(run2) && downloads(run) ==> !app2.active.contains(run.key)
            &&& !downloads(run) && downloads(run2) ==> !app.active.contains(run.key)
            &&& !downloads(run) && !downloads(run2) ==> (app2.active.contains(run.key)
                <==> app.active.contains(run.key))
        }),
{
}

/// No step of any run breaks the guard.
pub proof fn law_guard_is_kept(app: AppView, runs: Map<nat, RunView>, i: nat, event: EventView)
    requires
        guarded(app, runs),
        runs.contains_key(i),
    ensures
        guarded(
            advanced(app, runs[i], event).0,
            runs.insert(i, advanced(app, runs[i], event).1),
        ),
{
    let run = runs[i];
    let (app2, run2) = advanced(app, run, event);
    let runs2 = runs.insert(i, run2);
    lemma_claims(app, run, event);
    assert forall|j: nat| #[trigger] runs2.contains_key(j) && downloads(
        runs2[j],
    ) implies app2.active.contains(runs2[j].key) by {
        if j != i {
            assert(runs.contains_key(j) && runs[j] == runs2[j]);
            if runs[j].key == run.key {
                assert(app.active.contains(run.key));
                assert(!downloads(run));
                assert(!downloads(run2));
            }
        }
    }
    assert forall|a: nat, b: nat|
        #![trigger runs2.contains_key(a), runs2.contains_key(b)]
        runs2.contains_key(a) && runs2.contains_key(b) && a != b && downloads(runs2[a])
            && downloads(runs2[b]) implies runs2[a].key != runs2[b].key by {
        assert(runs.contains_key(a) && runs.contains_key(b));
    }
    assert forall|k: Seq<char>| #[trigger] app2.active.contains(k) implies exists|j: nat| #[trigger]
        runs2.contains_key(j) && downloads(runs2[j]) && runs2[j].key == k by {
        if downloads(run2) && k == run.key {
            assert(runs2.contains_key(i));
        } else {
            assert(app.active.contains(k));
            let j = choose|j: nat| #[trigger]
                runs.contains_key(j) && downloads(runs[j]) && runs[j].key == k;
            assert(j != i);
            assert(runs2.contains_key(j));
        }
    }
    assert forall|j: nat| #[trigger] runs2.contains_key(j) implies runs2[j].cache == cached_file(
        runs2[j].key,
    ) by {
        assert(runs.contains_key(j));
    }
}

/// The guard holds of a server that has not run a job yet, and a new job does not
/// break it.
pub proof fn law_guard_is_set_up(
    app: AppView,
    runs: Map<nat, RunView>,
    i: nat,
    id: Seq<char>,
    url: Seq<char>,
    keep: bool,
)
    ensures
        app.active == Set::<Seq<char>>::empty() ==> guarded(app, Map::<nat, RunView>::empty()),
        guarded(app, runs) && !runs.contains_key(i) ==> guarded(
            app,
            runs.insert(i, started(app, id, url, keep)),
        ),
{
    if guarded(app, runs) && !runs.contains_key(i) {
        let run = started(app, id, url, keep);
        let runs2 = runs.insert(i, run);
        assert(!downloads(run));
        assert forall|a: nat, b: nat|
            #![trigger runs2.contains_key(a), runs2.contains_key(b)]
            runs2.contains_key(a) && runs2.contains_key(b) && a != b && downloads(runs2[a])
                && downloads(runs2[b]) implies runs2[a].key != runs2[b].key by {
            assert(runs.contains_key(a) && runs.contains_key(b));
        }
        assert forall|j: nat| #[trigger] runs2.contains_key(j) && downloads(
            runs2[j],
        ) implies app.active.contains(runs2[j].key) by {
            assert(runs.contains_key(j));
        }
        assert forall|j: nat| #[trigger] runs2.contains_key(j) implies runs2[j].cache
            == cached_file(runs2[j].key) by {
            if j != i {
                assert(runs.contains_key(j));
            }
        }
        assert forall|k: Seq<char>| #[trigger] app.active.contains(k) implies exists|j: nat|
            #[trigger]
            runs2.contains_key(j) && downloads(runs2[j]) && runs2[j].key == k by {
            let j = choose|j: nat| #[trigger]
                runs.contains_key(j) && downloads(runs[j]) && runs[j].key == k;
            assert(runs2.contains_key(j));
        }
    }
}

/// No two runs download the same episode, or write the same file, at the same time.
pub proof fn law_no_double_download(app: AppView, runs: Map<nat, RunView>, i: nat, j: nat)
    requires
        guarded(app, runs),
        runs.contains_key(i),
        runs.contains_key(j),
        i != j,
        runs[i].action() is Download,
        runs[j].action() is Download,
    ensures
        runs[i].key != runs[j].key,
        runs[i].action()->Download_out != runs[j].action()->Download_out,
{
    assert(downloads(runs[i]) && downloads(runs[j]));
    if runs[i].cache == runs[j].cache {
        law_cached_files_distinct(runs[i].key, runs[j].key);
    }
}

/// An episode that is present is not downloaded again: where the media library has
/// it, the job is done at once and points at that file, in both modes; where the
/// cache has it and it is not to be kept, likewise; and where it is to be kept, the run
/// goes on to move it and never to download it.
pub proof fn law_present_is_not_downloaded(app: AppView, run: RunView, event: EventView)
    ensures
        run.step is Media && event == EventView::FileNonempty(true) ==> {
            let (app2, run2) = advanced(app, run, event);
            &&& run2.step is Finished
            &&& app2.active == app.active
            &&& app.jobs.contains_key(run.id) ==> {
                let j = app2.jobs[run.id];
                j.done && !j.error && j.kept && j.path == run.step->path
            }
        },
        run.step is Cache && event == EventView::FileNonempty(true) && !run.keep ==> {
            let (app2, run2) = advanced(app, run, event);
            &&& run2.step is Finished
            &&& app2.active == app.active
            &&& app.jobs.contains_key(run.id) ==> {
                let j = app2.jobs[run.id];
                j.done && !j.error && !j.kept && j.path == run.cache
            }
        },
        run.step is Cache && event == EventView::FileNonempty(true) && run.keep ==> {
            let (app2, run2) = advanced(app, run, event);
            app2 == app && run2.step is Title
        },
        run.step is Title ==> {
            let run2 = advanced(app, run, event).1;
            run2.step is Title || run2.step is Promote
        },
        run.step is Promote ==> {
            let run2 = advanced(app, run, event).1;
            run2.step is Promote || run2.step is Finished
        },
        run.step is Promote ==> run.action() == (ActionView::MoveToLibrary {
            from: run.cache,
            filename: run.step->Promote_filename,
        }),
{
}

/// A new run once it has been told what lies in the two places that it looks at: `kept`
/// says whether the library's file is there, where the index has one, and `cached`
/// whether the cached one is.
pub open spec fn looked_up(
    app: AppView,
    id: Seq<char>,
    url: Seq<char>,
    keep: bool,
    cached: bool,
    kept: bool,
) -> (AppView, RunView) {
    let entered = AppView { jobs: app.jobs.insert(id, queued(keep)), ..app };
    let run = started(app, id, url, keep);
    if run.step is Media {
        let (app2, run2) = advanced(entered, run, EventView::FileNonempty(kept));
        if run2.step is Cache {
            advanced(app2, run2, EventView::FileNonempty(cached))
        } else {
            (app2, run2)
        }
    } else {
        advanced(entered, run, EventView::FileNonempty(cached))
    }
}

/// A job whose episode another job downloads is skipped, without an error, and does
/// not take the other job's claim.
pub proof fn law_concurrent_job_is_skipped(app: AppView, run: RunView)
    requires
        run.step is Cache,
        app.active.contains(run.key),
    ensures
        ({
            let (app2, run2) = advanced(app, run, EventView::FileNonempty(false));
            &&& run2.step is Finished
            &&& app2.active == app.active
            &&& app2.media == app.media
            &&& app.jobs.contains_key(run.id) ==> app2.jobs[run.id].done && app2.jobs[run.id].error
                == app.jobs[run.id].error
        }),
{
}

/// A step touches nothing but its own job, the index entry of its own episode, and
/// the claim of its own episode.
pub proof fn law_step_minds_its_own(
    app: AppView,
    run: RunView,
    event: EventView,
    id: Seq<char>,
    key: Seq<char>,
)
    requires
        id != run.id,
        key != run.key,
    ensures
        ({
            let (app2, run2) = advanced(app, run, event);
            &&& app2.cfg == app.cfg
            &&& app2.jobs.dom() == app.jobs.dom()
            &&& app.jobs.contains_key(id) ==> app2.jobs[id] == app.jobs[id]
            &&& app2.media.contains_key(key) == app.media.contains_key(key)
            &&& app.media.contains_key(key) ==> app2.media[key] == app.media[key]
            &&& app2.active.contains(key) == app.active.contains(key)
            &&& run2 == run.at(run2.step)
        }),
{
    let (app2, run2) = advanced(app, run, event);
    assert(app2.jobs.dom() =~= app.jobs.dom());
}

/// A job is open as long as its run lasts: it begins as neither done nor failed and
/// without a file, and stays so until the run ends.
pub proof fn law_running_job_is_open(app: AppView, run: RunView, event: EventView, keep: bool)
    ensures
        is_open(queued(keep)),
        app.jobs.contains_key(run.id) && is_open(app.jobs[run.id]) && !(advanced(
            app,
            run,
            event,
        ).1.step is Finished) ==> is_open(advanced(app, run, event).0.jobs[run.id]),
{
}

/// A job that has failed is done.
pub open spec fn failures_are_done(app: AppView) -> bool {
    forall|id: Seq<char>| #[trigger]
        app.jobs.contains_key(id) && app.jobs[id].error ==> app.jobs[id].done
}

/// No job ever carries an error without being done: not on a new server, not when a job
/// is entered, not after any step of any run, and not after a purge.
pub proof fn law_failed_job_is_done(
    app: AppView,
    id: Seq<char>,
    keep: bool,
    run: RunView,
    event: EventView,
    name: Seq<char>,
)
    ensures
        app.jobs == Map::<Seq<char>, JobView>::empty() ==> failures_are_done(app),
        failures_are_done(app) ==> failures_are_done(
            (AppView { jobs: app.jobs.insert(id, queued(keep)), ..app }),
        ),
        failures_are_done(app) ==> failures_are_done(advanced(app, run, event).0),
        failures_are_done(app) ==> failures_are_done(
            (AppView { jobs: jobs_after_purge(app.jobs, name), ..app }),
        ),
{
    if failures_are_done(app) {
        let app2 = advanced(app, run, event).0;
        assert forall|k: Seq<char>| #[trigger]
            app2.jobs.contains_key(k) && app2.jobs[k].error implies app2.jobs[k].done by {
            assert(app.jobs.contains_key(k));
        }
        let entered = AppView { jobs: app.jobs.insert(id, queued(keep)), ..app };
        assert forall|k: Seq<char>| #[trigger]
            entered.jobs.contains_key(k) && entered.jobs[k].error implies entered.jobs[k].done by {
            assert(k != id && app.jobs.contains_key(k));
        }
        let purged = AppView { jobs: jobs_after_purge(app.jobs, name), ..app };
        assert forall|k: Seq<char>| #[trigger]
            purged.jobs.contains_key(k) && purged.jobs[k].error implies purged.jobs[k].done by {
            assert(app.jobs.contains_key(k));
        }
    }
}

/// The progress of a job begins at 0 and stays at 99 percent at most, also where the job
/// fails or is skipped, until its run ends with a file: then it is 100. Only a measured
/// sample moves it before that, so that it stays where it is as long as the length of
/// the video is not known.
pub proof fn law_progress_is_full_only_at_the_end(
    app: AppView,
    run: RunView,
    event: EventView,
    keep: bool,
)
    ensures
        queued(keep).progress_bits == NO_PROGRESS && is_at_most_99(NO_PROGRESS),
        !is_at_most_99(FULL_PROGRESS),
        app.jobs.contains_key(run.id) && is_open(app.jobs[run.id]) && is_at_most_99(
            app.jobs[run.id].progress_bits,
        ) ==> {
            let was = app.jobs[run.id];
            let (app2, run2) = advanced(app, run, event);
            let j = app2.jobs[run.id];
            &&& is_at_most_99(j.progress_bits) || j.progress_bits == FULL_PROGRESS
            &&& j.progress_bits == FULL_PROGRESS <==> run2.step is Finished && j.done && !j.error
                && j.status == "Klaar"@
            &&& !(event matches EventView::Progress(sample) && sample is Measured)
                && j.progress_bits != FULL_PROGRESS ==> j.progress_bits == was.progress_bits
        },
{
    reveal_strlit("Fout");
    reveal_strlit("Klaar");
    reveal_strlit("Overgeslagen");
    assert("Fout"@.len() != "Klaar"@.len());
    assert("Overgeslagen"@.len() != "Klaar"@.len());
}

/// When a run ends its job is done; and it has either an error, or a file, or was
/// skipped.
pub proof fn law_finished_job_is_done(app: AppView, run: RunView, event: EventView)
    requires
        !(run.step is Finished),
        advanced(app, run, event).1.step is Finished,
        app.jobs.contains_key(run.id),
        !app.jobs[run.id].error,
    ensures
        ({
            let j = advanced(app, run, event).0.jobs[run.id];
            &&& j.done
            &&& j.error ==> j.status == "Fout"@
            &&& !j.error ==> j.status == "Klaar"@ || j.status == "Overgeslagen"@
            &&& j.status == "Klaar"@ && !j.kept ==> j.path == run.cache
        }),
{
    reveal_strlit("Fout");
    reveal_strlit("Klaar");
    reveal_strlit("Overgeslagen");
    assert("Fout"@.len() != "Klaar"@.len());
    assert("Overgeslagen"@.len() != "Klaar"@.len());
}

/// How far a run has come.
pub open spec fn rank(step: StepView) -> nat {
    match step {
        StepView::Media { .. } => 0,
        StepView::Cache => 1,
        StepView::Title => 2,
        StepView::Promote { .. } => 3,
        StepView::Page => 4,
        StepView::Handshake { .. } => 5,
        StepView::Download { .. } => 6,
        StepView::Store { .. } => 7,
        StepView::Discard => 8,
        StepView::Finished => 9,
    }
}

/// The event is one of those that the run's action can give, and not a mere report
/// of progress.
pub open spec fn answers(run: RunView, event: EventView) -> bool {
    match (run.action(), event) {
        (ActionView::CheckFile { .. }, EventView::FileNonempty(_)) => true,
        (ActionView::FetchTitle { .. }, EventView::TitlePage(_)) => true,
        (ActionView::MoveToLibrary { .. }, EventView::Moved(_)) => true,
        (ActionView::FetchPage { .. }, EventView::PageUnreachable(_)) => true,
        (ActionView::FetchPage { .. }, EventView::PageUnreadable(_)) => true,
        (ActionView::FetchPage { .. }, EventView::Page(_)) => true,
        (ActionView::FetchCookies { .. }, EventView::HandshakeFailed(_)) => true,
        (ActionView::FetchCookies { .. }, EventView::Cookies(_)) => true,
        (ActionView::Download { .. }, EventView::SpawnFailed(_)) => true,
        (ActionView::Download { .. }, EventView::Exited(_)) => true,
        (ActionView::Discard { .. }, EventView::Discarded(_)) => true,
        _ => false,
    }
}

/// Every answer to its action takes a run further, never back, so that it ends after
/// a few of them; any other event leaves it where it is, and the server too, but for
/// a report of progress on a download.
pub proof fn law_run_comes_to_its_end(app: AppView, run: RunView, event: EventView)
    ensures
        answers(run, event) ==> rank(run.step) < rank(advanced(app, run, event).1.step) <= 9,
        !answers(run, event) ==> advanced(app, run, event).1 == run,
        !answers(run, event) && !(event is Progress && run.step is Download) ==> advanced(
            app,
            run,
            event,
        ) == (app, run),
        run.step is Finished ==> advanced(app, run, event) == (app, run),
{
}

/// An episode that is in neither place, or no more, is downloaded: where the library
/// has lost its file the cache is looked at, and where the cache has none, and no other
/// job is at it, the page is fetched and the episode claimed.
pub proof fn law_absent_is_downloaded(app: AppView, run: RunView)
    ensures
        run.step is Media ==> advanced(app, run, EventView::FileNonempty(false)) == (
            app,
            run.at(StepView::Cache),
        ),
        run.step is Cache && !app.active.contains(run.key) && occurs_at(run.page_url, "http"@, 0)
            ==> {
            let (app2, run2) = advanced(app, run, EventView::FileNonempty(false));
            &&& run2.action() == (ActionView::FetchPage { url: run.page_url })
            &&& app2.active == app.active.insert(run.key)
        },
{
}

/// What a failed download left is removed before its job is reported as failed and
/// before its episode can be claimed again, so that it is not mistaken for a cached
/// file; and a download counts as complete only where ffmpeg ended with success.
pub proof fn law_partial_output_is_discarded(app: AppView, run: RunView, event: EventView)
    requires
        run.step is Download,
    ensures
        ({
            let (app2, run2) = advanced(app, run, EventView::Exited(false));
            &&& app2 == app
            &&& run2.action() == (ActionView::Discard { path: run.action()->Download_out })
        }),
        app.jobs.contains_key(run.id) && !app.jobs[run.id].done && !app.jobs[run.id].error ==> {
            let j = advanced(app, run, event).0.jobs[run.id];
            j.done && !j.error ==> event == EventView::Exited(true)
        },
        advanced(app, run, event).1.step is Store ==> event == EventView::Exited(true),
{
}

/// A failed download always gives its claim up, so that the episode can be asked for
/// again, and leaves the media library as it was.
pub proof fn law_failure_releases_episode(app: AppView, run: RunView, event: EventView)
    requires
        downloads(run),
        advanced(app, run, event).1.step is Finished,
    ensures
        !advanced(app, run, event).0.active.contains(run.key),
        app.jobs.contains_key(run.id) && !app.jobs[run.id].error && advanced(
            app,
            run,
            event,
        ).0.jobs[run.id].error ==> advanced(app, run, event).0.media == app.media,
{
}

/// A kept file is recognised: once a video has been moved into the library, under
/// any of the names that are tried for it, every later job for the same episode begins
/// with a look at exactly that file.
pub proof fn law_kept_file_is_recognised(
    app: AppView,
    run: RunView,
    title: Seq<char>,
    n: int,
    id: Seq<char>,
    url: Seq<char>,
    keep: bool,
)
    requires
        run.step is Promote || run.step is Store,
        1 <= n,
        key_of(trimmed(url)) == run.key,
    ensures
        ({
            let dest = candidate(app.cfg.media_dir, video_name(title), n);
            let app2 = advanced(app, run, EventView::Moved(Some(dest))).0;
            &&& app2.media_file(run.key) == Some(dest)
            &&& started(app2, id, url, keep).step == (StepView::Media { path: dest })
            &&& started(app2, id, url, keep).action() == (ActionView::CheckFile { path: dest })
            &&& app.jobs.contains_key(run.id) ==> app2.jobs[run.id].path == dest
                && app2.jobs[run.id].kept && app2.jobs[run.id].done
        }),
{
    let name = video_name(title);
    law_sanitized_is_safe(title);
    reveal_strlit(".mp4");
    let stem = file_stem_of(title);
    assert(name.len() > 4);
    reveal_strlit(".");
    reveal_strlit("..");
    assert forall|i: int| 0 <= i < name.len() implies #[trigger] name[i] != '/' by {
        if i < stem.len() {
            assert(name[i] == stem[i]);
            assert(stem.contains(stem[i]));
        }
    }
    law_candidate_is_in_library(app.cfg.media_dir, name, n);
}

/// A cached file is recognised: the file that a job leaves in the cache is the one
/// that every later job for the same episode looks at.
pub proof fn law_cached_file_is_recognised(
    app: AppView,
    run: RunView,
    later: AppView,
    id: Seq<char>,
    url: Seq<char>,
    keep: bool,
)
    requires
        run.step is Download,
        !run.keep,
        run.cache == cached_file(run.key),
        app.jobs.contains_key(run.id),
        key_of(trimmed(url)) == run.key,
        !later.media.contains_key(run.key),
    ensures
        advanced(app, run, EventView::Exited(true)).0.jobs[run.id].path == run.cache,
        started(later, id, url, keep).action() == (ActionView::CheckFile { path: run.cache }),
{
}

} // verus!
