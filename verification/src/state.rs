//! What the server knows: its jobs, the index of the media library, and the
//! episodes that are being downloaded.
use crate::args::{Config, ConfigView};
use crate::jobs::{
    completed, downloading, failed, found, progressed, queued, searching, skipped, Job, JobView,
    Sample,
};
use crate::names::{library_file, media_path};
use crate::paths::{file_name, file_name_of};
use crate::table::Table;
use vstd::prelude::*;
use vstd::string::*;

verus! {

pub struct AppState {
    pub cfg: Config,
    pub jobs: Table<Job>,
    /// Episode key to file name in the media library.
    pub media_index: Table<String>,
    /// Keys of the episodes that are being downloaded.
    pub active: Table<()>,
}

#[verifier::ext_equal]
pub struct AppView {
    pub cfg: ConfigView,
    pub jobs: Map<Seq<char>, JobView>,
    pub media: Map<Seq<char>, Seq<char>>,
    pub active: Set<Seq<char>>,
}

impl View for AppState {
    type V = AppView;

    open spec fn view(&self) -> AppView {
        AppView {
            cfg: self.cfg@,
            jobs: self.jobs@.map_values(|j: Job| j@),
            media: self.media_index@.map_values(|f: String| f@),
            active: self.active@.dom(),
        }
    }
}

impl AppView {
    /// The job with the given id changes as `f` says; where there is none, nothing does.
    pub open spec fn update_job(self, id: Seq<char>, f: spec_fn(JobView) -> JobView) -> AppView {
        if self.jobs.contains_key(id) {
            AppView { jobs: self.jobs.insert(id, f(self.jobs[id])), ..self }
        } else {
            self
        }
    }

    /// The library holds the episode in the file at `dest`.
    pub open spec fn remember(self, key: Seq<char>, dest: Seq<char>) -> AppView {
        AppView { media: self.media.insert(key, indexed_name(dest)), ..self }
    }

    /// The episode is present: in the cache, or in the file that the index has for it.
    /// `cached` and `kept` say whether a regular file that is not empty lies at the one
    /// place and at the other.
    pub open spec fn has_episode(self, key: Seq<char>, cached: bool, kept: bool) -> bool {
        cached || (self.media.contains_key(key) && kept)
    }

    /// The path of the episode in the media library, if the index has it.
    pub open spec fn media_file(self, key: Seq<char>) -> Option<Seq<char>> {
        if self.media.contains_key(key) {
            Some(library_file(self.cfg.media_dir, self.media[key]))
        } else {
            None
        }
    }

    pub open spec fn claim(self, key: Seq<char>) -> AppView {
        AppView { active: self.active.insert(key), ..self }
    }

    pub open spec fn release(self, key: Seq<char>) -> AppView {
        AppView { active: self.active.remove(key), ..self }
    }
}

/// The name under which the index knows the file at `dest`.
pub open spec fn indexed_name(dest: Seq<char>) -> Seq<char> {
    match file_name_of(dest) {
        Some(name) => name,
        None => seq![],
    }
}

impl AppState {
    /// A server that has run no job yet.
    pub fn new(cfg: Config, media_index: Table<String>) -> (st: AppState)
        ensures
            st@.cfg == cfg@,
            st@.jobs == Map::<Seq<char>, JobView>::empty(),
            st@.media == media_index@.map_values(|f: String| f@),
            st@.active == Set::<Seq<char>>::empty(),
    {
        let st = AppState { cfg, jobs: Table::new(), media_index, active: Table::new() };
        assert(st@.jobs =~= Map::<Seq<char>, JobView>::empty());
        assert(st@.active =~= Set::<Seq<char>>::empty());
        st
    }

    fn take_job(&mut self, id: &str) -> (r: Option<Job>)
        ensures
            match r {
                Some(j) => old(self)@.jobs.contains_key(id@) && j@ == old(self)@.jobs[id@],
                None => !old(self)@.jobs.contains_key(id@),
            },
            final(self)@ == (AppView { jobs: old(self)@.jobs.remove(id@), ..old(self)@ }),
    {
        let r = self.jobs.remove(id);
        assert(self@ =~= (AppView { jobs: old(self)@.jobs.remove(id@), ..old(self)@ }));
        r
    }

    fn put_job(&mut self, id: &str, job: Job)
        ensures
            final(self)@ == (AppView { jobs: old(self)@.jobs.insert(id@, job@), ..old(self)@ }),
    {
        self.jobs.insert(id.to_string(), job);
        assert(self@ =~= (AppView { jobs: old(self)@.jobs.insert(id@, job@), ..old(self)@ }));
    }

    /// Enter a new job under `id`.
    pub fn add_job(&mut self, id: &str, keep: bool)
        ensures
            final(self)@ == (AppView {
                jobs: old(self)@.jobs.insert(id@, queued(keep)),
                ..old(self)@
            }),
    {
        let mut job = Job::new();
        job.kept = keep;
        assert(job@ =~= queued(keep));
        self.put_job(id, job);
    }

    pub fn set_searching(&mut self, id: &str)
        ensures
            final(self)@ == old(self)@.update_job(id@, |j: JobView| searching(j)),
    {
        if let Some(mut job) = self.take_job(id) {
            job.search();
            self.put_job(id, job);
        }
        assert(self@ =~= old(self)@.update_job(id@, |j: JobView| searching(j)));
    }

    pub fn set_downloading(&mut self, id: &str, title: &str, filename: &str)
        ensures
            final(self)@ == old(self)@.update_job(
                id@,
                |j: JobView| downloading(j, title@, filename@),
            ),
    {
        if let Some(mut job) = self.take_job(id) {
            job.download(title, filename);
            self.put_job(id, job);
        }
        assert(self@ =~= old(self)@.update_job(
            id@,
            |j: JobView| downloading(j, title@, filename@),
        ));
    }

    pub fn set_progress(&mut self, id: &str, sample: Sample)
        ensures
            final(self)@ == old(self)@.update_job(id@, |j: JobView| progressed(j, sample)),
    {
        if let Some(mut job) = self.take_job(id) {
            job.progress(sample);
            self.put_job(id, job);
        }
        assert(self@ =~= old(self)@.update_job(id@, |j: JobView| progressed(j, sample)));
    }

    pub fn set_skipped(&mut self, id: &str)
        ensures
            final(self)@ == old(self)@.update_job(id@, |j: JobView| skipped(j)),
    {
        if let Some(mut job) = self.take_job(id) {
            job.skip();
            self.put_job(id, job);
        }
        assert(self@ =~= old(self)@.update_job(id@, |j: JobView| skipped(j)));
    }

    pub fn set_completed(&mut self, id: &str, path: &str, kept: bool, msg: &str)
        ensures
            final(self)@ == old(self)@.update_job(
                id@,
                |j: JobView| completed(j, path@, kept, msg@),
            ),
    {
        if let Some(mut job) = self.take_job(id) {
            job.complete(path, kept, msg);
            self.put_job(id, job);
        }
        assert(self@ =~= old(self)@.update_job(id@, |j: JobView| completed(j, path@, kept, msg@)));
    }

    pub fn fail(&mut self, id: &str, msg: &str)
        ensures
            final(self)@ == old(self)@.update_job(id@, |j: JobView| failed(j, msg@)),
    {
        if let Some(mut job) = self.take_job(id) {
            job.fail(msg);
            self.put_job(id, job);
        }
        assert(self@ =~= old(self)@.update_job(id@, |j: JobView| failed(j, msg@)));
    }

    /// Mark a job as completed without a download, pointing at an existing file.
    pub fn finish_ok(&mut self, id: &str, path: &str, kept: bool, msg: &str)
        ensures
            final(self)@ == old(self)@.update_job(id@, |j: JobView| found(j, path@, kept, msg@)),
    {
        if let Some(mut job) = self.take_job(id) {
            job.finish_existing(path, kept, msg);
            self.put_job(id, job);
        }
        assert(self@ =~= old(self)@.update_job(id@, |j: JobView| found(j, path@, kept, msg@)));
    }

    /// The job with the given id.
    pub fn status(&self, id: &str) -> (r: Option<&Job>)
        ensures
            match r {
                Some(j) => self@.jobs.contains_key(id@) && j@ == self@.jobs[id@],
                None => !self@.jobs.contains_key(id@),
            },
    {
        self.jobs.get(id)
    }

    /// Path and name of the file to hand out for a job: only one that is done, and
    /// without error, has one.
    pub fn file(&self, id: &str) -> (r: Option<(String, String)>)
        ensures
            match r {
                Some((path, filename)) => self@.jobs.contains_key(id@) && self@.jobs[id@].done
                    && !self@.jobs[id@].error && path@ == self@.jobs[id@].path && filename@
                    == self@.jobs[id@].filename,
                None => !self@.jobs.contains_key(id@) || !self@.jobs[id@].done
                    || self@.jobs[id@].error,
            },
    {
        match self.jobs.get(id) {
            Some(j) => {
                if j.done && !j.error {
                    Some((j.path.clone(), j.filename.clone()))
                } else {
                    None
                }
            },
            None => None,
        }
    }

    /// The path of the episode in the media library, if the index has it.
    pub fn media_file(&self, key: &str) -> (r: Option<String>)
        ensures
            match r {
                Some(path) => self@.media_file(key@) == Some(path@),
                None => self@.media_file(key@) is None,
            },
    {
        match self.media_index.get(key) {
            Some(f) => Some(media_path(self.cfg.media_dir.as_str(), f.as_str())),
            None => None,
        }
    }

    /// Is this episode already present in the cache or the media library?
    /// `cached_len` is the length of the cached file where a regular file lies there, and
    /// `media_nonempty` says whether a regular file that is not empty lies at
    /// `media_file(key)`.
    pub fn is_downloaded(
        &self,
        key: &str,
        cached_len: Option<u64>,
        media_nonempty: bool,
    ) -> (b: bool)
        ensures
            b == self@.has_episode(key@, cached_len matches Some(n) && n > 0, media_nonempty),
    {
        if let Some(n) = cached_len {
            if n > 0 {
                return true;
            }
        }
        if self.media_index.contains_key(key) {
            return media_nonempty;
        }
        false
    }

    /// Record a kept file in the media index.
    pub fn remember_media(&mut self, key: &str, dest_path: &str)
        ensures
            final(self)@ == old(self)@.remember(key@, dest_path@),
    {
        let name = match file_name(dest_path) {
            Some(n) => n,
            None => String::new(),
        };
        self.media_index.insert(key.to_string(), name);
        assert(self@.media =~= old(self)@.media.insert(key@, name@));
        assert(self@ =~= old(self)@.remember(key@, dest_path@));
    }
}

} // verus!
