//! What the runs of jobs lead to, told of their ends: which file, which name, which
//! message, and what the views show of all that.
use crate::args::{ArgsExit, ArgsExitView, Config};
use crate::cleanup::{expires, jobs_after_purge, swept_path};
use crate::clock::time_of_day;
use crate::encoder::{cookie_line, last_error, reported_time};
use crate::jobs::{progressed, queued, shown_percent, Job, JobView, Sample};
use crate::names::{cached_file, file_stem_of, key_of, library_file};
use crate::numbers::{decimal, two_digits};
use crate::page::{signed_address, title_of};
use crate::page_laws::{law_every_signed_cookie_counts, law_title_is_read, pairs_of};
use crate::paths::file_name_of;
use crate::pipeline::{
    advanced, started, video_name, Action, ActionView, Event, EventView, JobRun, RunView, Step,
    StepView,
};
use crate::state::{AppState, AppView};
use crate::text::{after_last, before, contains_str, joined, last_index, occurs_at, trimmed};
use crate::text_laws::{is_blank, is_tight, law_trim};
use vstd::prelude::*;

verus! {

/// A promoted file is named after its episode: where the page's first title tag holds a
/// text that is not blank, the cached file is to be moved under the stem of that text.
pub proof fn law_promoted_under_its_title(
    app: AppView,
    run: RunView,
    pre: Seq<char>,
    t: Seq<char>,
    post: Seq<char>,
)
    requires
        run.step is Title,
        !contains_str(pre, "<title>"@),
        !t.contains('<'),
        trimmed(t).len() > 0,
    ensures
        ({
            let html = pre + "<title>"@ + t + "</title>"@ + post;
            let (app2, run2) = advanced(app, run, EventView::TitlePage(html));
            &&& app2 == app
            &&& run2.action() == (ActionView::MoveToLibrary {
                from: run.cache,
                filename: file_stem_of(trimmed(t)) + ".mp4"@,
            })
        }),
{
    law_title_is_read(pre, t, post);
}

/// The promotion of a cached episode and its fresh download from the same page use the
/// same file name: the stem of the page's title, with `.mp4` behind it. Jobs show that
/// name and title while they download.
pub proof fn law_same_name_either_way(
    app: AppView,
    promoted: RunView,
    fresh: RunView,
    html: Seq<char>,
    headers: Vec<Option<String>>,
)
    requires
        promoted.step is Title,
        fresh.step is Page,
        fresh.keep,
        signed_address(html) is Some,
        pairs_of(headers@).len() > 0,
    ensures
        ({
            let name = file_stem_of(title_of(html)) + ".mp4"@;
            let (a1, r1) = advanced(app, fresh, EventView::Page(html));
            let (a2, r2) = advanced(a1, r1, Event::Cookies(headers)@);
            let (a3, r3) = advanced(a2, r2, EventView::Exited(true));
            &&& advanced(app, promoted, EventView::TitlePage(html)).1.action() == (
            ActionView::MoveToLibrary { from: promoted.cache, filename: name })
            &&& r1.action() == (ActionView::FetchCookies { url: signed_address(html)->0 })
            &&& r3.action() == (ActionView::MoveToLibrary { from: fresh.cache, filename: name })
            &&& app.jobs.contains_key(fresh.id) ==> a3.jobs[fresh.id] == (JobView {
                title: title_of(html),
                filename: name,
                status: "Downloaden\u{2026}"@,
                ..app.jobs[fresh.id]
            })
        }),
{
    law_every_signed_cookie_counts(headers@);
}

/// The way of a download, step by step, in both modes: the page gives the signed address
/// and the title, the answer of the CDN what ffmpeg is given and what the job shows, and
/// the end of ffmpeg whether the file is stored, handed out or discarded.
pub proof fn law_way_of_a_download(
    app: AppView,
    run: RunView,
    html: Seq<char>,
    headers: Vec<Option<String>>,
)
    ensures
        run.step is Media ==> advanced(app, run, EventView::FileNonempty(false)) == (
            app,
            (RunView { step: StepView::Cache, ..run }),
        ),
        run.step is Cache && run.keep ==> advanced(app, run, EventView::FileNonempty(true)) == (
            app,
            (RunView { step: StepView::Title, ..run }),
        ),
        run.step is Title ==> advanced(app, run, EventView::TitlePage(html)) == (
            app,
            (RunView {
                step: StepView::Promote { filename: file_stem_of(title_of(html)) + ".mp4"@ },
                ..run
            }),
        ),
        run.step is Page && signed_address(html) is Some ==> advanced(
            app,
            run,
            EventView::Page(html),
        ) == (
            app,
            (RunView {
                step: StepView::Handshake {
                    signed: signed_address(html)->0,
                    title: title_of(html),
                },
                ..run
            }),
        ),
        run.step is Handshake && pairs_of(headers@).len() > 0 ==> {
            let title = run.step->title;
            let name = file_stem_of(title) + ".mp4"@;
            advanced(app, run, Event::Cookies(headers)@) == (
                with_job(
                    app,
                    run,
                    (JobView {
                        title,
                        filename: name,
                        status: "Downloaden\u{2026}"@,
                        ..app.jobs[run.id]
                    }),
                ),
                (RunView {
                    step: StepView::Download {
                        master: before(run.step->signed, '?'),
                        cookie: joined(pairs_of(headers@), "; "@),
                        filename: name,
                    },
                    ..run
                }),
            )
        },
        run.step is Download && run.keep ==> advanced(app, run, EventView::Exited(true)) == (
            app,
            (RunView {
                step: StepView::Store { filename: run.step->Download_filename },
                ..run
            }),
        ),
        run.step is Download ==> advanced(app, run, EventView::Exited(false)) == (
            app,
            (RunView { step: StepView::Discard, ..run }),
        ),
{
    law_every_signed_cookie_counts(headers@);
}

/// A new job waits, has done nothing, and is to be kept if it was asked for so.
pub proof fn law_new_job(keep: bool)
    ensures
        queued(keep).status == "In wachtrij"@,
        queued(keep).progress_bits == 0,
        queued(keep).message.len() == 0 && queued(keep).title.len() == 0 && queued(
            keep,
        ).filename.len() == 0 && queued(keep).path.len() == 0,
        !queued(keep).done && !queued(keep).error,
        queued(keep).kept == keep,
{
}

/// Titles with different stems give different file names, and the name of a video is its
/// stem with `.mp4` behind it.
pub proof fn law_video_names(t: Seq<char>, u: Seq<char>)
    ensures
        video_name(t) == file_stem_of(t) + ".mp4"@,
        video_name(t) == video_name(u) ==> file_stem_of(t) == file_stem_of(u),
{
    let a = video_name(t);
    let b = video_name(u);
    if a == b {
        assert(a.len() == file_stem_of(t).len() + ".mp4"@.len());
        assert(b.len() == file_stem_of(u).len() + ".mp4"@.len());
        assert(a.take(file_stem_of(t).len() as int) =~= file_stem_of(t));
        assert(b.take(file_stem_of(u).len() as int) =~= file_stem_of(u));
    }
}

/// The server in which the job of the run is `job`, where it has one, and which is
/// otherwise the same.
pub open spec fn with_job(app: AppView, run: RunView, job: JobView) -> AppView {
    AppView {
        jobs: if app.jobs.contains_key(run.id) {
            app.jobs.insert(run.id, job)
        } else {
            app.jobs
        },
        ..app
    }
}

/// The run has ended with an error of the given text, has given its claim up, and has
/// changed nothing else.
pub open spec fn fails_with(
    app: AppView,
    run: RunView,
    result: (AppView, RunView),
    message: Seq<char>,
) -> bool {
    let job = JobView {
        status: "Fout"@,
        message,
        error: true,
        done: true,
        ..app.jobs[run.id]
    };
    &&& result.1 == (RunView { step: StepView::Finished, ..run })
    &&& result.0 == (AppView { active: app.active.remove(run.key), ..with_job(app, run, job) })
}

/// The run has ended with a file that was there already.
pub open spec fn finds(
    app: AppView,
    run: RunView,
    result: (AppView, RunView),
    path: Seq<char>,
    kept: bool,
    message: Seq<char>,
) -> bool {
    let was = app.jobs[run.id];
    let job = JobView {
        status: "Klaar"@,
        progress_bits: 0x42C8_0000,
        message,
        done: true,
        error: false,
        kept,
        path,
        filename: if was.filename.len() > 0 {
            was.filename
        } else {
            match file_name_of(path) {
                Some(name) => name,
                None => "video.mp4"@,
            }
        },
        ..was
    };
    &&& result.1 == (RunView { step: StepView::Finished, ..run })
    &&& result.0 == with_job(app, run, job)
}

/// The run has ended with the file that it downloaded, and has given its claim up.
pub open spec fn completes(
    app: AppView,
    run: RunView,
    result: (AppView, RunView),
    path: Seq<char>,
    kept: bool,
    message: Seq<char>,
) -> bool {
    let job = JobView {
        status: "Klaar"@,
        progress_bits: 0x42C8_0000,
        message,
        done: true,
        kept,
        path,
        ..app.jobs[run.id]
    };
    &&& result.1 == (RunView { step: StepView::Finished, ..run })
    &&& result.0 == (AppView { active: app.active.remove(run.key), ..with_job(app, run, job) })
}

/// The server in which the index has the file at `dest` for the episode of the run.
pub open spec fn with_kept(app: AppView, run: RunView, dest: Seq<char>) -> AppView {
    AppView {
        media: app.media.insert(
            run.key,
            match file_name_of(dest) {
                Some(name) => name,
                None => seq![],
            },
        ),
        ..app
    }
}

/// Whatever goes wrong, the job fails with a text that says what, whole, and nothing but
/// the job and the claim changes.
pub proof fn law_every_failure_is_told(
    app: AppView,
    run: RunView,
    text: Seq<char>,
    headers: Vec<Option<String>>,
)
    ensures
        run.step is Cache && !app.active.contains(run.key) && !occurs_at(
            run.page_url,
            "http"@,
            0,
        ) ==> fails_with(
            app,
            run,
            advanced(app, run, EventView::FileNonempty(false)),
            "Geef een geldige http(s)-URL op."@,
        ),
        run.step is Page ==> fails_with(
            app,
            run,
            advanced(app, run, EventView::PageUnreachable(text)),
            "Pagina ophalen mislukt: "@ + text,
        ),
        run.step is Page ==> fails_with(
            app,
            run,
            advanced(app, run, EventView::PageUnreadable(text)),
            "Pagina lezen mislukt: "@ + text,
        ),
        run.step is Page && signed_address(text) is None ==> fails_with(
            app,
            run,
            advanced(app, run, EventView::Page(text)),
            "Geen video-stream gevonden op deze pagina (DRM of geen aflevering?)."@,
        ),
        run.step is Handshake ==> fails_with(
            app,
            run,
            advanced(app, run, EventView::HandshakeFailed(text)),
            "CDN-handshake mislukt: "@ + text,
        ),
        run.step is Handshake && pairs_of(headers@).len() == 0 ==> fails_with(
            app,
            run,
            advanced(app, run, Event::Cookies(headers)@),
            "Geen CloudFront-cookies ontvangen; URL mogelijk verlopen."@,
        ),
        run.step is Download ==> fails_with(
            app,
            run,
            advanced(app, run, EventView::SpawnFailed(text)),
            "ffmpeg kon niet starten: "@ + text,
        ),
        run.step is Discard ==> fails_with(
            app,
            run,
            advanced(app, run, EventView::Discarded(text)),
            "ffmpeg fout: "@ + last_error(text),
        ),
{
    law_every_signed_cookie_counts(headers@);
    if run.step is Cache && !app.active.contains(run.key) {
        assert(app.active.insert(run.key).remove(run.key) =~= app.active.remove(run.key));
        let r = advanced(app, run, EventView::FileNonempty(false));
        if app.jobs.contains_key(run.id) {
            let j = app.jobs[run.id];
            let j2 = JobView { status: "Video-URL opzoeken\u{2026}"@, ..j };
            let j3 = JobView {
                status: "Fout"@,
                message: "Geef een geldige http(s)-URL op."@,
                error: true,
                done: true,
                ..j
            };
            assert(app.jobs.insert(run.id, j2).insert(run.id, j3) =~= app.jobs.insert(run.id, j3));
        }
    }
}

/// Whatever the end with a file, the job is done, points at that file, says where it is
/// kept, and tells how it came there; and the index has it where it was moved to the
/// library.
pub proof fn law_every_success_is_told(app: AppView, run: RunView, dest: Seq<char>)
    ensures
        run.step is Media ==> finds(
            app,
            run,
            advanced(app, run, EventView::FileNonempty(true)),
            run.step->path,
            true,
            "Al aanwezig in mediabibliotheek \u{2014} niet opnieuw gedownload"@,
        ),
        run.step is Cache && !run.keep ==> finds(
            app,
            run,
            advanced(app, run, EventView::FileNonempty(true)),
            run.cache,
            false,
            "Al aanwezig in cache \u{2014} niet opnieuw gedownload"@,
        ),
        run.step is Promote ==> finds(
            with_kept(app, run, dest),
            run,
            advanced(app, run, EventView::Moved(Some(dest))),
            dest,
            true,
            "Was al in cache \u{2014} verplaatst naar mediabibliotheek"@,
        ),
        run.step is Promote ==> finds(
            app,
            run,
            advanced(app, run, EventView::Moved(None)),
            run.cache,
            false,
            "Al aanwezig in cache \u{2014} niet opnieuw gedownload"@,
        ),
        run.step is Download && !run.keep ==> completes(
            app,
            run,
            advanced(app, run, EventView::Exited(true)),
            run.cache,
            false,
            "Download voltooid"@,
        ),
        run.step is Store ==> completes(
            with_kept(app, run, dest),
            run,
            advanced(app, run, EventView::Moved(Some(dest))),
            dest,
            true,
            "Opgeslagen op de mediaserver: "@ + dest,
        ),
        run.step is Store ==> completes(
            app,
            run,
            advanced(app, run, EventView::Moved(None)),
            run.cache,
            false,
            "Opgeslagen in cache (verplaatsen mislukte): "@ + run.cache,
        ),
{
}

/// What the job shows on the way: that the stream is looked up, how far the download has
/// come, or that another job is at it. None of these touches anything else.
pub proof fn law_what_is_shown_on_the_way(app: AppView, run: RunView, sample: Sample)
    ensures
        run.step is Cache && app.active.contains(run.key) ==> advanced(
            app,
            run,
            EventView::FileNonempty(false),
        ) == (
            with_job(
                app,
                run,
                (JobView {
                    status: "Overgeslagen"@,
                    message: "Deze aflevering wordt al door een andere taak gedownload."@,
                    done: true,
                    ..app.jobs[run.id]
                }),
            ),
            (RunView { step: StepView::Finished, ..run }),
        ),
        run.step is Cache && !app.active.contains(run.key) && occurs_at(run.page_url, "http"@, 0)
            ==> advanced(app, run, EventView::FileNonempty(false)) == (
            (AppView {
                active: app.active.insert(run.key),
                ..with_job(
                    app,
                    run,
                    (JobView { status: "Video-URL opzoeken\u{2026}"@, ..app.jobs[run.id] }),
                )
            }),
            (RunView { step: StepView::Page, ..run }),
        ),
        run.step is Download ==> advanced(app, run, EventView::Progress(sample)) == (
            with_job(app, run, progressed(app.jobs[run.id], sample)),
            run,
        ),
{
}

/// A measured sample shows the percentage, but no more than 99, and the seconds done and
/// in all; one without a length shows the seconds done and leaves the percentage alone.
pub proof fn law_samples_are_shown(j: JobView, bits: u32, secs: u64, total: u64)
    ensures
        progressed(j, Sample::Measured { percent_bits: bits, secs, total }) == (JobView {
            progress_bits: shown_percent(bits),
            message: decimal(secs as nat) + " / "@ + decimal(total as nat) + " sec"@,
            ..j
        }),
        progressed(j, Sample::Elapsed { secs }) == (JobView {
            message: decimal(secs as nat) + " sec verwerkt"@,
            ..j
        }),
        bits <= 0x42C6_0000 || 0x8000_0000 <= bits <= 0xFF80_0000 ==> shown_percent(bits) == bits,
        0x42C6_0000 < bits < 0x8000_0000 || bits > 0xFF80_0000 ==> shown_percent(bits)
            == 0x42C6_0000,
{
}

/// A run begins with the URL it was given, short of the white space around it, and with
/// the key and the cached file of that URL; it looks at the library first where the index
/// has the episode, and at the cache otherwise.
pub proof fn law_how_a_run_begins(app: AppView, id: Seq<char>, url: Seq<char>, keep: bool)
    ensures
        ({
            let run = started(app, id, url, keep);
            let key = key_of(trimmed(url));
            &&& run.id == id && run.keep == keep
            &&& run.page_url == trimmed(url)
            &&& run.key == key
            &&& run.cache == "downloads/"@ + key + ".mp4"@
            &&& run.action() == (ActionView::CheckFile {
                path: if app.media.contains_key(key) {
                    app.cfg.media_dir + seq!['/'] + app.media[key]
                } else {
                    run.cache
                },
            })
            &&& run.step is Media <==> app.media.contains_key(key)
            &&& !app.media.contains_key(key) ==> run.step is Cache
        }),
{
    reveal_strlit("downloads");
    reveal_strlit("downloads/");
    reveal_strlit("/");
    let key = key_of(trimmed(url));
    assert(cached_file(key) =~= "downloads/"@ + key + ".mp4"@);
    if app.media.contains_key(key) {
        assert(library_file(app.cfg.media_dir, app.media[key])
            =~= app.cfg.media_dir + seq!['/'] + app.media[key]);
    }
}

/// What is to be done in each step is done with what the step holds, and nothing is left
/// to do only at the end.
pub proof fn law_what_is_to_be_done(run: RunView)
    ensures
        match run.step {
            StepView::Media { path } => run.action() == (ActionView::CheckFile { path }),
            StepView::Cache => run.action() == (ActionView::CheckFile { path: run.cache }),
            StepView::Title => run.action() == (ActionView::FetchTitle { url: run.page_url }),
            StepView::Promote { filename } => run.action() == (ActionView::MoveToLibrary {
                from: run.cache,
                filename,
            }),
            StepView::Page => run.action() == (ActionView::FetchPage { url: run.page_url }),
            StepView::Handshake { signed, .. } => run.action() == (ActionView::FetchCookies {
                url: signed,
            }),
            StepView::Download { master, cookie, .. } => run.action() == (ActionView::Download {
                master,
                cookie,
                out: run.cache,
            }),
            StepView::Store { filename } => run.action() == (ActionView::MoveToLibrary {
                from: run.cache,
                filename,
            }),
            StepView::Discard => run.action() == (ActionView::Discard { path: run.cache }),
            StepView::Finished => run.action() is Finish,
        },
        run.action() is Finish <==> run.step is Finished,
{
}

/// An episode counts as present where its cached file is there, or the one that the index
/// has for it; and the index gives the path in the library's directory.
pub proof fn law_what_the_server_knows(app: AppView, key: Seq<char>, cached: bool, kept: bool)
    ensures
        app.has_episode(key, cached, kept) <==> cached || (app.media.contains_key(key) && kept),
        app.media_file(key) is Some <==> app.media.contains_key(key),
        app.media.contains_key(key) ==> app.media_file(key)->0 == app.cfg.media_dir + seq!['/']
            + app.media[key],
{
    reveal_strlit("/");
    if app.media.contains_key(key) {
        assert(app.media_file(key)->0 =~= app.cfg.media_dir + seq!['/'] + app.media[key]);
    }
}

/// The views of jobs, runs, the configuration and the server show all that these hold.
pub proof fn law_views_show_everything(j: Job, run: JobRun, cfg: Config, st: AppState)
    ensures
        j@.status == j.status@ && j@.message == j.message@ && j@.title == j.title@ && j@.filename
            == j.filename@ && j@.path == j.path@,
        j@.progress_bits == j.progress_bits && j@.done == j.done && j@.error == j.error && j@.kept
            == j.kept,
        run@.id == run.id@ && run@.page_url == run.page_url@ && run@.key == run.key@ && run@.cache
            == run.cache@ && run@.keep == run.keep && run@.step == run.step@,
        cfg@.addr == cfg.addr@ && cfg@.media_dir == cfg.media_dir@ && cfg@.cache_ttl_secs
            == cfg.cache_ttl_secs,
        st@.cfg == st.cfg@,
        forall|id: Seq<char>| #[trigger]
            st@.jobs.contains_key(id) <==> st.jobs@.contains_key(id),
        forall|id: Seq<char>| #[trigger]
            st@.jobs.contains_key(id) ==> st@.jobs[id] == st.jobs@[id]@,
        forall|key: Seq<char>| #[trigger]
            st@.media.contains_key(key) <==> st.media_index@.contains_key(key),
        forall|key: Seq<char>| #[trigger]
            st@.media.contains_key(key) ==> st@.media[key] == st.media_index@[key]@,
        forall|key: Seq<char>| #[trigger]
            st@.active.contains(key) <==> st.active@.contains_key(key),
{
}

/// The view of a step shows all the texts that it holds.
pub proof fn law_view_of_step(step: Step)
    ensures
        match step {
            Step::Media { path } => step@ == (StepView::Media { path: path@ }),
            Step::Cache => step@ is Cache,
            Step::Title => step@ is Title,
            Step::Promote { filename } => step@ == (StepView::Promote { filename: filename@ }),
            Step::Page => step@ is Page,
            Step::Handshake { signed, title } => step@ == (StepView::Handshake {
                signed: signed@,
                title: title@,
            }),
            Step::Download { master, cookie, filename } => step@ == (StepView::Download {
                master: master@,
                cookie: cookie@,
                filename: filename@,
            }),
            Step::Store { filename } => step@ == (StepView::Store { filename: filename@ }),
            Step::Discard => step@ is Discard,
            Step::Finished => step@ is Finished,
        },
{
}

/// The view of an action shows all the texts that it holds.
pub proof fn law_view_of_action(action: Action)
    ensures
        match action {
            Action::CheckFile { path } => action@ == (ActionView::CheckFile { path: path@ }),
            Action::FetchTitle { url } => action@ == (ActionView::FetchTitle { url: url@ }),
            Action::MoveToLibrary { from, filename } => action@ == (ActionView::MoveToLibrary {
                from: from@,
                filename: filename@,
            }),
            Action::FetchPage { url } => action@ == (ActionView::FetchPage { url: url@ }),
            Action::FetchCookies { url } => action@ == (ActionView::FetchCookies { url: url@ }),
            Action::Download { master, cookie, out } => action@ == (ActionView::Download {
                master: master@,
                cookie: cookie@,
                out: out@,
            }),
            Action::Discard { path } => action@ == (ActionView::Discard { path: path@ }),
            Action::Finish => action@ is Finish,
        },
{
}

/// The views of events, and of the ends of the command line, show all that these hold; of
/// the headers of an answer, the pairs of all signed cookies.
pub proof fn law_views_of_events(
    a: String,
    b: bool,
    sample: Sample,
    headers: Vec<Option<String>>,
)
    ensures
        Event::FileNonempty(b)@ == EventView::FileNonempty(b),
        Event::TitlePage(a)@ == EventView::TitlePage(a@),
        Event::Moved(Some(a))@ == EventView::Moved(Some(a@)),
        Event::Moved(None)@ == EventView::Moved(None),
        Event::PageUnreachable(a)@ == EventView::PageUnreachable(a@),
        Event::PageUnreadable(a)@ == EventView::PageUnreadable(a@),
        Event::Page(a)@ == EventView::Page(a@),
        Event::HandshakeFailed(a)@ == EventView::HandshakeFailed(a@),
        Event::Cookies(headers)@ == EventView::Cookies(pairs_of(headers@)),
        Event::SpawnFailed(a)@ == EventView::SpawnFailed(a@),
        Event::Progress(sample)@ == EventView::Progress(sample),
        Event::Exited(b)@ == EventView::Exited(b),
        Event::Discarded(a)@ == EventView::Discarded(a@),
        ArgsExit::Help@ is Help,
        ArgsExit::MissingValue(a)@ == ArgsExitView::MissingValue(a@),
        ArgsExit::InvalidDuration(a)@ == ArgsExitView::InvalidDuration(a@),
        ArgsExit::DurationOverflow(a)@ == ArgsExitView::DurationOverflow(a@),
        ArgsExit::Unknown(a)@ == ArgsExitView::Unknown(a@),
{
    law_every_signed_cookie_counts(headers@);
}

/// The header line for ffmpeg holds the whole cookie text.
pub proof fn law_cookie_line(cookie: Seq<char>)
    ensures
        cookie_line(cookie).len() == cookie.len() + 10,
        cookie_line(cookie).take(8) == "Cookie: "@,
        cookie_line(cookie).subrange(8, 8 + cookie.len() as int) == cookie,
        cookie_line(cookie).skip(8 + cookie.len() as int) == seq!['\r', '\n'],
{
    reveal_strlit("Cookie: ");
    reveal_strlit("\r\n");
    let s = cookie_line(cookie);
    assert(s.take(8) =~= "Cookie: "@);
    assert(s.subrange(8, 8 + cookie.len() as int) =~= cookie);
    assert(s.skip(8 + cookie.len() as int) =~= seq!['\r', '\n']);
}

/// A line of ffmpeg's report states a time if and only if it begins with one of the two
/// keys; the time is what stands behind the key, without the white space around it.
pub proof fn law_reported_time(v: Seq<char>, line: Seq<char>)
    ensures
        reported_time("out_time_us="@ + v) == Some(trimmed(v)),
        reported_time("out_time_ms="@ + v) == Some(trimmed(v)),
        reported_time(line) is Some <==> occurs_at(line, "out_time_us="@, 0) || occurs_at(
            line,
            "out_time_ms="@,
            0,
        ),
{
    reveal_strlit("out_time_us=");
    reveal_strlit("out_time_ms=");
    let a = "out_time_us="@ + v;
    let b = "out_time_ms="@ + v;
    assert(a.subrange(0, 12) =~= "out_time_us="@);
    assert(b.subrange(0, 12) =~= "out_time_ms="@);
    assert(b.subrange(0, 12)[9] == 'm' && "out_time_us="@[9] == 'u');
    assert(a.skip(12) =~= v);
    assert(b.skip(12) =~= v);
}

/// The error that is told is the last line of what ffmpeg wrote, without the white space
/// around the whole; where it wrote nothing else, it is unknown.
pub proof fn law_last_error(lead: Seq<char>, t: Seq<char>, trail: Seq<char>)
    requires
        is_blank(lead),
        is_tight(t),
        is_blank(trail),
    ensures
        t.len() == 0 ==> last_error(lead + t + trail) == "onbekende fout"@,
        t.len() > 0 ==> last_error(lead + t + trail) == after_last(t, '\n'),
{
    law_trim(lead, t, trail);
}

/// The time of day counts hours, minutes and seconds since midnight, whatever the day.
pub proof fn law_time_of_day(days: nat, h: nat, m: nat, s: nat)
    requires
        h < 24,
        m < 60,
        s < 60,
    ensures
        time_of_day(days * 86400 + h * 3600 + m * 60 + s) == two_digits(h) + seq![':']
            + two_digits(m) + seq![':'] + two_digits(s),
{
    reveal_strlit(":");
    let n = days * 86400 + h * 3600 + m * 60 + s;
    let t = n % 86400;
    assert(t == h * 3600 + m * 60 + s);
    assert(t / 3600 == h);
    assert(t % 3600 == m * 60 + s);
    assert(t % 3600 / 60 == m);
    assert(t % 60 == s);
    assert(time_of_day(n) =~= two_digits(h) + seq![':'] + two_digits(m) + seq![':']
        + two_digits(s));
}

/// The sweep purges nothing but videos of its own directory, and a purge enters no job.
pub proof fn law_sweep_takes_videos_only(
    name: Seq<char>,
    age: u64,
    ttl: u64,
    jobs: Map<Seq<char>, JobView>,
    id: Seq<char>,
)
    ensures
        swept_path(name) == "downloads/"@ + name,
        expires(name, age, ttl) ==> ttl > 0 && age >= ttl && name.len() > 4 && name.skip(
            name.len() - 4,
        ) == ".mp4"@,
        jobs_after_purge(jobs, name).contains_key(id) ==> jobs.contains_key(id),
{
    reveal_strlit("downloads");
    reveal_strlit("downloads/");
    reveal_strlit("/");
    reveal_strlit("mp4");
    reveal_strlit(".mp4");
    assert(swept_path(name) =~= "downloads/"@ + name);
    if expires(name, age, ttl) {
        let n = last_index(name, '.');
        lemma_last_index(name, '.');
        assert(name.skip(n + 1) == "mp4"@);
        assert(name.len() == n + 4);
        assert forall|i: int| 0 <= i < 4 implies #[trigger] name.skip(n)[i] == ".mp4"@[i] by {
            if i > 0 {
                assert(name.skip(n + 1)[i - 1] == name[n + i]);
            }
        }
        assert(name.skip(n) =~= ".mp4"@);
    }
}

proof fn lemma_last_index(s: Seq<char>, c: char)
    ensures
        -1 <= last_index(s, c) < s.len(),
        last_index(s, c) >= 0 ==> s[last_index(s, c)] == c,
    decreases s.len(),
{
    if s.len() > 0 && s.last() != c {
        lemma_last_index(s.drop_last(), c);
    }
}

} // verus!
