//! The run of one job: look for the episode in the media library and in the cache,
//! else resolve its stream, download it, and store it where it is wanted.
//!
//! A run waits in a [`Step`], which says what is to be done next ([`JobRun::action`]);
//! what came of it is an [`Event`], which takes the run to its next step
//! ([`AppState::advance`]).
use crate::encoder::{error_line, last_error};
use crate::jobs::{
    completed, downloading, failed, found, progressed, queued, searching, skipped, JobView, Sample,
};
use crate::names::{cache_path, cached_file, episode_key, file_stem_of, key_of, sanitize};
use crate::page::{
    cookie_header, find_signed_address, page_title, plain_address, signed_address, signed_cookies,
    title_of,
};
use crate::state::{AppState, AppView};
use crate::text::{before, joined, occurs_at, starts_with, trim, trimmed};
use vstd::prelude::*;
use vstd::string::*;

verus! {

/// What a run waits for.
#[derive(Debug)]
pub enum Step {
    /// Is the file of the media library there?
    Media { path: String },
    /// Is the cached file there?
    Cache,
    /// The episode is cached, but wanted in the library: what is its title?
    Title,
    /// The cached file is to be moved into the library.
    Promote { filename: String },
    /// The page of the episode.
    Page,
    /// The CDN's answer to the signed address.
    Handshake { signed: String, title: String },
    /// The download.
    Download { master: String, cookie: String, filename: String },
    /// The downloaded file is to be moved into the library.
    Store { filename: String },
    /// The download failed, and what it left is to be removed.
    Discard,
    /// Nothing any more.
    Finished,
}

pub enum StepView {
    Media { path: Seq<char> },
    Cache,
    Title,
    Promote { filename: Seq<char> },
    Page,
    Handshake { signed: Seq<char>, title: Seq<char> },
    Download { master: Seq<char>, cookie: Seq<char>, filename: Seq<char> },
    Store { filename: Seq<char> },
    Discard,
    Finished,
}

impl View for Step {
    type V = StepView;

    open spec fn view(&self) -> StepView {
        match *self {
            Step::Media { path } => StepView::Media { path: path@ },
            Step::Cache => StepView::Cache,
            Step::Title => StepView::Title,
            Step::Promote { filename } => StepView::Promote { filename: filename@ },
            Step::Page => StepView::Page,
            Step::Handshake { signed, title } => StepView::Handshake {
                signed: signed@,
                title: title@,
            },
            Step::Download { master, cookie, filename } => StepView::Download {
                master: master@,
                cookie: cookie@,
                filename: filename@,
            },
            Step::Store { filename } => StepView::Store { filename: filename@ },
            Step::Discard => StepView::Discard,
            Step::Finished => StepView::Finished,
        }
    }
}

/// What is to be done for a run.
#[derive(Debug)]
pub enum Action {
    /// See whether there is a file at the path that is not empty.
    CheckFile { path: String },
    /// Fetch the page for the sake of its title; a failure counts as an empty page.
    FetchTitle { url: String },
    /// Move the file to a path of the media library that is free.
    MoveToLibrary { from: String, filename: String },
    /// Fetch the page of the episode.
    FetchPage { url: String },
    /// Fetch the signed address, for the cookies that come with the answer.
    FetchCookies { url: String },
    /// Download the stream to the path.
    Download { master: String, cookie: String, out: String },
    /// Remove the file, and hand over what ffmpeg wrote to standard error.
    Discard { path: String },
    /// Nothing: the run is over.
    Finish,
}

pub enum ActionView {
    CheckFile { path: Seq<char> },
    FetchTitle { url: Seq<char> },
    MoveToLibrary { from: Seq<char>, filename: Seq<char> },
    FetchPage { url: Seq<char> },
    FetchCookies { url: Seq<char> },
    Download { master: Seq<char>, cookie: Seq<char>, out: Seq<char> },
    Discard { path: Seq<char> },
    Finish,
}

impl View for Action {
    type V = ActionView;

    open spec fn view(&self) -> ActionView {
        match *self {
            Action::CheckFile { path } => ActionView::CheckFile { path: path@ },
            Action::FetchTitle { url } => ActionView::FetchTitle { url: url@ },
            Action::MoveToLibrary { from, filename } => ActionView::MoveToLibrary {
                from: from@,
                filename: filename@,
            },
            Action::FetchPage { url } => ActionView::FetchPage { url: url@ },
            Action::FetchCookies { url } => ActionView::FetchCookies { url: url@ },
            Action::Download { master, cookie, out } => ActionView::Download {
                master: master@,
                cookie: cookie@,
                out: out@,
            },
            Action::Discard { path } => ActionView::Discard { path: path@ },
            Action::Finish => ActionView::Finish,
        }
    }
}

/// What came of an action.
#[derive(Debug)]
pub enum Event {
    /// Whether there is a file that is not empty.
    FileNonempty(bool),
    /// The page that was fetched for its title.
    TitlePage(String),
    /// The path in the library to which the file was moved, or `None` where the
    /// move failed.
    Moved(Option<String>),
    /// The page could not be fetched.
    PageUnreachable(String),
    /// The page was fetched but could not be read.
    PageUnreadable(String),
    Page(String),
    /// The CDN could not be reached.
    HandshakeFailed(String),
    /// The `Set-Cookie` headers of the CDN's answer, `None` for one that is not text.
    Cookies(Vec<Option<String>>),
    /// ffmpeg could not be started.
    SpawnFailed(String),
    Progress(Sample),
    /// ffmpeg has ended, with or without success.
    Exited(bool),
    /// What the download left is gone; this is what ffmpeg wrote to standard error.
    Discarded(String),
}

pub enum EventView {
    FileNonempty(bool),
    TitlePage(Seq<char>),
    Moved(Option<Seq<char>>),
    PageUnreachable(Seq<char>),
    PageUnreadable(Seq<char>),
    Page(Seq<char>),
    HandshakeFailed(Seq<char>),
    Cookies(Seq<Seq<char>>),
    SpawnFailed(Seq<char>),
    Progress(Sample),
    Exited(bool),
    Discarded(Seq<char>),
}

impl View for Event {
    type V = EventView;

    /// Of the `Set-Cookie` headers only the signed cookies count.
    open spec fn view(&self) -> EventView {
        match *self {
            Event::FileNonempty(b) => EventView::FileNonempty(b),
            Event::TitlePage(html) => EventView::TitlePage(html@),
            Event::Moved(dest) => EventView::Moved(
                match dest {
                    Some(d) => Some(d@),
                    None => None,
                },
            ),
            Event::PageUnreachable(e) => EventView::PageUnreachable(e@),
            Event::PageUnreadable(e) => EventView::PageUnreadable(e@),
            Event::Page(html) => EventView::Page(html@),
            Event::HandshakeFailed(e) => EventView::HandshakeFailed(e@),
            Event::Cookies(headers) => EventView::Cookies(signed_cookies(headers@)),
            Event::SpawnFailed(e) => EventView::SpawnFailed(e@),
            Event::Progress(sample) => EventView::Progress(sample),
            Event::Exited(success) => EventView::Exited(success),
            Event::Discarded(stderr) => EventView::Discarded(stderr@),
        }
    }
}

/// The run of one job.
#[derive(Debug)]
pub struct JobRun {
    pub id: String,
    pub page_url: String,
    pub key: String,
    /// Where the episode is cached.
    pub cache: String,
    /// Whether the file is wanted in the media library.
    pub keep: bool,
    pub step: Step,
}

pub struct RunView {
    pub id: Seq<char>,
    pub page_url: Seq<char>,
    pub key: Seq<char>,
    pub cache: Seq<char>,
    pub keep: bool,
    pub step: StepView,
}

impl View for JobRun {
    type V = RunView;

    open spec fn view(&self) -> RunView {
        RunView {
            id: self.id@,
            page_url: self.page_url@,
            key: self.key@,
            cache: self.cache@,
            keep: self.keep,
            step: self.step@,
        }
    }
}

impl RunView {
    pub open spec fn at(self, step: StepView) -> RunView {
        RunView { step, ..self }
    }

    /// What is to be done for the run.
    pub open spec fn action(self) -> ActionView {
        match self.step {
            StepView::Media { path } => ActionView::CheckFile { path },
            StepView::Cache => ActionView::CheckFile { path: self.cache },
            StepView::Title => ActionView::FetchTitle { url: self.page_url },
            StepView::Promote { filename } => ActionView::MoveToLibrary {
                from: self.cache,
                filename,
            },
            StepView::Page => ActionView::FetchPage { url: self.page_url },
            StepView::Handshake { signed, title } => ActionView::FetchCookies { url: signed },
            StepView::Download { master, cookie, filename } => ActionView::Download {
                master,
                cookie,
                out: self.cache,
            },
            StepView::Store { filename } => ActionView::MoveToLibrary {
                from: self.cache,
                filename,
            },
            StepView::Discard => ActionView::Discard { path: self.cache },
            StepView::Finished => ActionView::Finish,
        }
    }
}

/// The name of the file that an episode with the given title is stored under.
pub open spec fn video_name(title: Seq<char>) -> Seq<char> {
    file_stem_of(title) + ".mp4"@
}

/// The run of a new job: first the media library is looked at, where the index
/// has the episode, else the cache.
pub open spec fn started(app: AppView, id: Seq<char>, url: Seq<char>, keep: bool) -> RunView {
    let page_url = trimmed(url);
    let key = key_of(page_url);
    RunView {
        id,
        page_url,
        key,
        cache: cached_file(key),
        keep,
        step: match app.media_file(key) {
            Some(path) => StepView::Media { path },
            None => StepView::Cache,
        },
    }
}

/// The run ends with an existing file.
pub open spec fn ends_found(
    app: AppView,
    run: RunView,
    path: Seq<char>,
    kept: bool,
    msg: Seq<char>,
) -> (AppView, RunView) {
    (
        app.update_job(run.id, |j: JobView| found(j, path, kept, msg)),
        run.at(StepView::Finished),
    )
}

/// The download ends with an error: the episode may be downloaded again.
pub open spec fn ends_failed(app: AppView, run: RunView, msg: Seq<char>) -> (AppView, RunView) {
    (
        app.update_job(run.id, |j: JobView| failed(j, msg)).release(run.key),
        run.at(StepView::Finished),
    )
}

/// The download ends with a file.
pub open spec fn ends_completed(
    app: AppView,
    run: RunView,
    path: Seq<char>,
    kept: bool,
    msg: Seq<char>,
) -> (AppView, RunView) {
    (
        app.update_job(run.id, |j: JobView| completed(j, path, kept, msg)).release(run.key),
        run.at(StepView::Finished),
    )
}

/// The episode is neither in the library nor in the cache: it is downloaded, unless
/// another job does so.
pub open spec fn begins_download(app: AppView, run: RunView) -> (AppView, RunView) {
    if app.active.contains(run.key) {
        (app.update_job(run.id, |j: JobView| skipped(j)), run.at(StepView::Finished))
    } else {
        let claimed = app.claim(run.key).update_job(run.id, |j: JobView| searching(j));
        if occurs_at(run.page_url, "http"@, 0) {
            (claimed, run.at(StepView::Page))
        } else {
            ends_failed(claimed, run, "Geef een geldige http(s)-URL op."@)
        }
    }
}

/// The page of the episode is there.
pub open spec fn page_arrives(app: AppView, run: RunView, html: Seq<char>) -> (AppView, RunView) {
    match signed_address(html) {
        Some(signed) => (app, run.at(StepView::Handshake { signed, title: title_of(html) })),
        None => ends_failed(
            app,
            run,
            "Geen video-stream gevonden op deze pagina (DRM of geen aflevering?)."@,
        ),
    }
}

/// The CDN has answered with these cookies.
pub open spec fn cookies_arrive(
    app: AppView,
    run: RunView,
    signed: Seq<char>,
    title: Seq<char>,
    cookies: Seq<Seq<char>>,
) -> (AppView, RunView) {
    if cookies.len() == 0 {
        ends_failed(app, run, "Geen CloudFront-cookies ontvangen; URL mogelijk verlopen."@)
    } else {
        (
            app.update_job(run.id, |j: JobView| downloading(j, title, video_name(title))),
            run.at(
                StepView::Download {
                    master: before(signed, '?'),
                    cookie: joined(cookies, "; "@),
                    filename: video_name(title),
                },
            ),
        )
    }
}

pub const IN_CACHE: &'static str =
    "Al aanwezig in cache \u{2014} niet opnieuw gedownload";

/// What an event makes of the server and of a run. An event that the run does not
/// wait for changes nothing.
pub open spec fn advanced(app: AppView, run: RunView, event: EventView) -> (AppView, RunView) {
    match (run.step, event) {
        (StepView::Media { path }, EventView::FileNonempty(b)) => if b {
            ends_found(
                app,
                run,
                path,
                true,
                "Al aanwezig in mediabibliotheek \u{2014} niet opnieuw gedownload"@,
            )
        } else {
            (app, run.at(StepView::Cache))
        },
        (StepView::Cache, EventView::FileNonempty(b)) => if !b {
            begins_download(app, run)
        } else if run.keep {
            (app, run.at(StepView::Title))
        } else {
            ends_found(app, run, run.cache, false, IN_CACHE@)
        },
        (StepView::Title, EventView::TitlePage(html)) => (
            app,
            run.at(StepView::Promote { filename: video_name(title_of(html)) }),
        ),
        (StepView::Promote { .. }, EventView::Moved(Some(dest))) => ends_found(
            app.remember(run.key, dest),
            run,
            dest,
            true,
            "Was al in cache \u{2014} verplaatst naar mediabibliotheek"@,
        ),
        (StepView::Promote { .. }, EventView::Moved(None)) => ends_found(
            app,
            run,
            run.cache,
            false,
            IN_CACHE@,
        ),
        (StepView::Page, EventView::PageUnreachable(e)) => ends_failed(
            app,
            run,
            "Pagina ophalen mislukt: "@ + e,
        ),
        (StepView::Page, EventView::PageUnreadable(e)) => ends_failed(
            app,
            run,
            "Pagina lezen mislukt: "@ + e,
        ),
        (StepView::Page, EventView::Page(html)) => page_arrives(app, run, html),
        (StepView::Handshake { .. }, EventView::HandshakeFailed(e)) => ends_failed(
            app,
            run,
            "CDN-handshake mislukt: "@ + e,
        ),
        (StepView::Handshake { signed, title }, EventView::Cookies(cookies)) => cookies_arrive(
            app,
            run,
            signed,
            title,
            cookies,
        ),
        (StepView::Download { .. }, EventView::SpawnFailed(e)) => ends_failed(
            app,
            run,
            "ffmpeg kon niet starten: "@ + e,
        ),
        (StepView::Download { .. }, EventView::Progress(sample)) => (
            app.update_job(run.id, |j: JobView| progressed(j, sample)),
            run,
        ),
        (StepView::Download { filename, .. }, EventView::Exited(success)) => if !success {
            (app, run.at(StepView::Discard))
        } else if run.keep {
            (app, run.at(StepView::Store { filename }))
        } else {
            ends_completed(app, run, run.cache, false, "Download voltooid"@)
        },
        (StepView::Store { .. }, EventView::Moved(Some(dest))) => ends_completed(
            app.remember(run.key, dest),
            run,
            dest,
            true,
            "Opgeslagen op de mediaserver: "@ + dest,
        ),
        (StepView::Store { .. }, EventView::Moved(None)) => ends_completed(
            app,
            run,
            run.cache,
            false,
            "Opgeslagen in cache (verplaatsen mislukte): "@ + run.cache,
        ),
        (StepView::Discard, EventView::Discarded(stderr)) => ends_failed(
            app,
            run,
            "ffmpeg fout: "@ + last_error(stderr),
        ),
        _ => (app, run),
    }
}

fn prefixed(prefix: &str, s: &str) -> (r: String)
    ensures
        r@ == prefix@ + s@,
{
    let mut r = prefix.to_string();
    r.append(s);
    r
}

/// The name of the file that an episode with the given title is stored under.
pub fn video_filename(title: &str) -> (name: String)
    ensures
        name@ == video_name(title@),
{
    let mut name = sanitize(title);
    name.append(".mp4");
    name
}

impl JobRun {
    /// What is to be done for the run.
    pub fn action(&self) -> (a: Action)
        ensures
            a@ == self@.action(),
    {
        match &self.step {
            Step::Media { path } => Action::CheckFile { path: path.clone() },
            Step::Cache => Action::CheckFile { path: self.cache.clone() },
            Step::Title => Action::FetchTitle { url: self.page_url.clone() },
            Step::Promote { filename } => Action::MoveToLibrary {
                from: self.cache.clone(),
                filename: filename.clone(),
            },
            Step::Page => Action::FetchPage { url: self.page_url.clone() },
            Step::Handshake { signed, title: _ } => Action::FetchCookies { url: signed.clone() },
            Step::Download { master, cookie, filename: _ } => Action::Download {
                master: master.clone(),
                cookie: cookie.clone(),
                out: self.cache.clone(),
            },
            Step::Store { filename } => Action::MoveToLibrary {
                from: self.cache.clone(),
                filename: filename.clone(),
            },
            Step::Discard => Action::Discard { path: self.cache.clone() },
            Step::Finished => Action::Finish,
        }
    }
}

impl AppState {
    /// Enter a new job and begin its run.
    pub fn start(&mut self, id: &str, url: &str, keep: bool) -> (run: JobRun)
        ensures
            final(self)@ == (AppView {
                jobs: old(self)@.jobs.insert(id@, queued(keep)),
                ..old(self)@
            }),
            run@ == started(old(self)@, id@, url@, keep),
    {
        let page_url = trim(url);
        let key = episode_key(page_url.as_str());
        let cache = cache_path(key.as_str());
        let step = match self.media_file(key.as_str()) {
            Some(path) => Step::Media { path },
            None => Step::Cache,
        };
        self.add_job(id, keep);
        JobRun { id: id.to_string(), page_url, key, cache, keep, step }
    }

    fn claim(&mut self, key: &str)
        ensures
            final(self)@ == old(self)@.claim(key@),
    {
        self.active.insert(key.to_string(), ());
        assert(self@ =~= old(self)@.claim(key@));
    }

    fn release(&mut self, key: &str)
        ensures
            final(self)@ == old(self)@.release(key@),
    {
        let _ = self.active.remove(key);
        assert(self@ =~= old(self)@.release(key@));
    }

    fn end_failed(&mut self, run: &mut JobRun, msg: &str)
        ensures
            (final(self)@, final(run)@) == ends_failed(old(self)@, old(run)@, msg@),
    {
        self.fail(run.id.as_str(), msg);
        self.release(run.key.as_str());
        run.step = Step::Finished;
    }

    fn end_completed(&mut self, run: &mut JobRun, path: &str, kept: bool, msg: &str)
        ensures
            (final(self)@, final(run)@) == ends_completed(old(self)@, old(run)@, path@, kept, msg@),
    {
        self.set_completed(run.id.as_str(), path, kept, msg);
        self.release(run.key.as_str());
        run.step = Step::Finished;
    }

    fn end_found(&mut self, run: &mut JobRun, path: &str, kept: bool, msg: &str)
        ensures
            (final(self)@, final(run)@) == ends_found(old(self)@, old(run)@, path@, kept, msg@),
    {
        self.finish_ok(run.id.as_str(), path, kept, msg);
        run.step = Step::Finished;
    }

    fn begin_download(&mut self, run: &mut JobRun)
        ensures
            (final(self)@, final(run)@) == begins_download(old(self)@, old(run)@),
    {
        if self.active.contains_key(run.key.as_str()) {
            self.set_skipped(run.id.as_str());
            run.step = Step::Finished;
        } else {
            self.claim(run.key.as_str());
            self.set_searching(run.id.as_str());
            if starts_with(run.page_url.as_str(), "http") {
                run.step = Step::Page;
            } else {
                self.end_failed(run, "Geef een geldige http(s)-URL op.");
            }
        }
    }

    fn take_page(&mut self, run: &mut JobRun, html: &str)
        ensures
            (final(self)@, final(run)@) == page_arrives(old(self)@, old(run)@, html@),
    {
        match find_signed_address(html) {
            Some(signed) => {
                run.step = Step::Handshake { signed, title: page_title(html) };
            },
            None => {
                self.end_failed(
                    run,
                    "Geen video-stream gevonden op deze pagina (DRM of geen aflevering?).",
                );
            },
        }
    }

    fn take_cookies(
        &mut self,
        run: &mut JobRun,
        signed: &str,
        title: &str,
        headers: &Vec<Option<String>>,
    )
        ensures
            (final(self)@, final(run)@) == cookies_arrive(
                old(self)@,
                old(run)@,
                signed@,
                title@,
                signed_cookies(headers@),
            ),
    {
        match cookie_header(headers) {
            Some(cookie) => {
                let filename = video_filename(title);
                self.set_downloading(run.id.as_str(), title, filename.as_str());
                run.step = Step::Download { master: plain_address(signed), cookie, filename };
            },
            None => {
                self.end_failed(
                    run,
                    "Geen CloudFront-cookies ontvangen; URL mogelijk verlopen.",
                );
            },
        }
    }

    fn file_checked(&mut self, run: &mut JobRun, nonempty: bool)
        ensures
            (final(self)@, final(run)@) == advanced(
                old(self)@,
                old(run)@,
                EventView::FileNonempty(nonempty),
            ),
    {
        match &run.step {
            Step::Media { path } => {
                if nonempty {
                    let path = path.clone();
                    self.end_found(
                        run,
                        path.as_str(),
                        true,
                        "Al aanwezig in mediabibliotheek \u{2014} niet opnieuw gedownload",
                    );
                } else {
                    run.step = Step::Cache;
                }
            },
            Step::Cache => {
                if !nonempty {
                    self.begin_download(run);
                } else if run.keep {
                    run.step = Step::Title;
                } else {
                    let cache = run.cache.clone();
                    self.end_found(run, cache.as_str(), false, IN_CACHE);
                }
            },
            _ => {},
        }
    }

    fn file_moved(&mut self, run: &mut JobRun, dest: Option<String>)
        ensures
            (final(self)@, final(run)@) == advanced(
                old(self)@,
                old(run)@,
                EventView::Moved(
                    match dest {
                        Some(d) => Some(d@),
                        None => None,
                    },
                ),
            ),
    {
        match &run.step {
            Step::Promote { filename: _ } => match dest {
                Some(d) => {
                    self.remember_media(run.key.as_str(), d.as_str());
                    self.end_found(
                        run,
                        d.as_str(),
                        true,
                        "Was al in cache \u{2014} verplaatst naar mediabibliotheek",
                    );
                },
                None => {
                    let cache = run.cache.clone();
                    self.end_found(run, cache.as_str(), false, IN_CACHE);
                },
            },
            Step::Store { filename: _ } => match dest {
                Some(d) => {
                    self.remember_media(run.key.as_str(), d.as_str());
                    let msg = prefixed("Opgeslagen op de mediaserver: ", d.as_str());
                    self.end_completed(run, d.as_str(), true, msg.as_str());
                },
                None => {
                    let cache = run.cache.clone();
                    let msg = prefixed(
                        "Opgeslagen in cache (verplaatsen mislukte): ",
                        cache.as_str(),
                    );
                    self.end_completed(run, cache.as_str(), false, msg.as_str());
                },
            },
            _ => {},
        }
    }

    fn download_exited(&mut self, run: &mut JobRun, success: bool)
        ensures
            (final(self)@, final(run)@) == advanced(
                old(self)@,
                old(run)@,
                EventView::Exited(success),
            ),
    {
        match &run.step {
            Step::Download { master: _, cookie: _, filename } => {
                if !success {
                    run.step = Step::Discard;
                } else if run.keep {
                    let filename = filename.clone();
                    run.step = Step::Store { filename };
                } else {
                    let cache = run.cache.clone();
                    self.end_completed(run, cache.as_str(), false, "Download voltooid");
                }
            },
            _ => {},
        }
    }

    /// Take an event into account: what it makes of the server and of the run.
    pub fn advance(&mut self, run: &mut JobRun, event: Event)
        ensures
            (final(self)@, final(run)@) == advanced(old(self)@, old(run)@, event@),
    {
        match event {
            Event::FileNonempty(b) => self.file_checked(run, b),
            Event::Moved(dest) => self.file_moved(run, dest),
            Event::Exited(success) => self.download_exited(run, success),
            Event::TitlePage(html) => match &run.step {
                Step::Title => {
                    let title = page_title(html.as_str());
                    run.step = Step::Promote { filename: video_filename(title.as_str()) };
                },
                _ => {},
            },
            Event::PageUnreachable(e) => match &run.step {
                Step::Page => {
                    let msg = prefixed("Pagina ophalen mislukt: ", e.as_str());
                    self.end_failed(run, msg.as_str());
                },
                _ => {},
            },
            Event::PageUnreadable(e) => match &run.step {
                Step::Page => {
                    let msg = prefixed("Pagina lezen mislukt: ", e.as_str());
                    self.end_failed(run, msg.as_str());
                },
                _ => {},
            },
            Event::Page(html) => match &run.step {
                Step::Page => self.take_page(run, html.as_str()),
                _ => {},
            },
            Event::HandshakeFailed(e) => match &run.step {
                Step::Handshake { signed: _, title: _ } => {
                    let msg = prefixed("CDN-handshake mislukt: ", e.as_str());
                    self.end_failed(run, msg.as_str());
                },
                _ => {},
            },
            Event::Cookies(headers) => match &run.step {
                Step::Handshake { signed, title } => {
                    let signed = signed.clone();
                    let title = title.clone();
                    self.take_cookies(run, signed.as_str(), title.as_str(), &headers);
                },
                _ => {},
            },
            Event::SpawnFailed(e) => match &run.step {
                Step::Download { master: _, cookie: _, filename: _ } => {
                    let msg = prefixed("ffmpeg kon niet starten: ", e.as_str());
                    self.end_failed(run, msg.as_str());
                },
                _ => {},
            },
            Event::Progress(sample) => match &run.step {
                Step::Download { master: _, cookie: _, filename: _ } => {
                    self.set_progress(run.id.as_str(), sample);
                },
                _ => {},
            },
            Event::Discarded(stderr) => match &run.step {
                Step::Discard => {
                    let line = error_line(stderr.as_str());
                    let msg = prefixed("ffmpeg fout: ", line.as_str());
                    self.end_failed(run, msg.as_str());
                },
                _ => {},
            },
        }
    }
}

} // verus!
