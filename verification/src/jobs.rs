//! A download job, as the user interface sees it, and what happens to it.
use crate::numbers::{decimal, to_decimal};
use crate::paths::{file_name, file_name_of};
use vstd::prelude::*;
use vstd::string::*;

verus! {

/// The bits of the single-precision number 0.
pub const NO_PROGRESS: u32 = 0;

/// The bits of the single-precision number 100.
pub const FULL_PROGRESS: u32 = 0x42C8_0000;

/// The bits of the single-precision number 99.
pub const MOST_PROGRESS: u32 = 0x42C6_0000;

/// The bits of the negative infinity of single precision.
pub const LEAST_PROGRESS: u32 = 0xFF80_0000;

#[derive(Debug)]
pub struct Job {
    pub status: String,
    /// The percentage that is done, as the bits of a single-precision number.
    pub progress_bits: u32,
    pub message: String,
    pub title: String,
    pub filename: String,
    pub done: bool,
    pub error: bool,
    /// True when the file is permanently kept in the media library.
    pub kept: bool,
    /// On-disk path of the finished file (set on success). Not exposed to clients.
    pub path: String,
}

#[verifier::ext_equal]
pub struct JobView {
    pub status: Seq<char>,
    pub progress_bits: u32,
    pub message: Seq<char>,
    pub title: Seq<char>,
    pub filename: Seq<char>,
    pub done: bool,
    pub error: bool,
    pub kept: bool,
    pub path: Seq<char>,
}

impl View for Job {
    type V = JobView;

    open spec fn view(&self) -> JobView {
        JobView {
            status: self.status@,
            progress_bits: self.progress_bits,
            message: self.message@,
            title: self.title@,
            filename: self.filename@,
            done: self.done,
            error: self.error,
            kept: self.kept,
            path: self.path@,
        }
    }
}

/// How far the encoder has come.
#[derive(Clone, Copy, Debug)]
pub enum Sample {
    /// The length of the video is known: percentage done (as the bits of a
    /// single-precision number), seconds done, and seconds in all.
    Measured { percent_bits: u32, secs: u64, total: u64 },
    /// Only the seconds done are known.
    Elapsed { secs: u64 },
}

/// The bits are those of a single-precision number of at most 99. Numbers without a sign
/// are ordered as their bits are; the others have the topmost bit set, and what lies
/// beyond the two infinities is not a number.
pub open spec fn is_at_most_99(bits: u32) -> bool {
    bits <= MOST_PROGRESS || 0x8000_0000 <= bits <= LEAST_PROGRESS
}

/// The percentage that is shown for a running download: 99 where more than that is
/// measured, or what is not a number.
pub open spec fn shown_percent(bits: u32) -> u32 {
    if is_at_most_99(bits) {
        bits
    } else {
        MOST_PROGRESS
    }
}

/// A job that waits to be run.
pub open spec fn queued(keep: bool) -> JobView {
    JobView {
        status: "In wachtrij"@,
        progress_bits: NO_PROGRESS,
        message: seq![],
        title: seq![],
        filename: seq![],
        done: false,
        error: false,
        kept: keep,
        path: seq![],
    }
}

pub open spec fn searching(j: JobView) -> JobView {
    JobView { status: "Video-URL opzoeken\u{2026}"@, ..j }
}

pub open spec fn downloading(j: JobView, title: Seq<char>, filename: Seq<char>) -> JobView {
    JobView { title, filename, status: "Downloaden\u{2026}"@, ..j }
}

pub open spec fn progressed(j: JobView, sample: Sample) -> JobView {
    match sample {
        Sample::Measured { percent_bits, secs, total } => JobView {
            progress_bits: shown_percent(percent_bits),
            message: decimal(secs as nat) + " / "@ + decimal(total as nat) + " sec"@,
            ..j
        },
        Sample::Elapsed { secs } => JobView {
            message: decimal(secs as nat) + " sec verwerkt"@,
            ..j
        },
    }
}

/// Another job downloads the same episode.
pub open spec fn skipped(j: JobView) -> JobView {
    JobView {
        done: true,
        status: "Overgeslagen"@,
        message: "Deze aflevering wordt al door een andere taak gedownload."@,
        ..j
    }
}

pub open spec fn failed(j: JobView, msg: Seq<char>) -> JobView {
    JobView { error: true, done: true, status: "Fout"@, message: msg, ..j }
}

/// The name under which an existing file is handed out.
pub open spec fn name_of_existing(path: Seq<char>) -> Seq<char> {
    match file_name_of(path) {
        Some(name) => name,
        None => "video.mp4"@,
    }
}

/// The file was there already.
pub open spec fn found(j: JobView, path: Seq<char>, kept: bool, msg: Seq<char>) -> JobView {
    JobView {
        progress_bits: FULL_PROGRESS,
        done: true,
        error: false,
        kept,
        status: "Klaar"@,
        message: msg,
        path,
        filename: if j.filename.len() == 0 {
            name_of_existing(path)
        } else {
            j.filename
        },
        ..j
    }
}

/// The file has been downloaded.
pub open spec fn completed(j: JobView, path: Seq<char>, kept: bool, msg: Seq<char>) -> JobView {
    JobView {
        progress_bits: FULL_PROGRESS,
        done: true,
        kept,
        status: "Klaar"@,
        message: msg,
        path,
        ..j
    }
}

/// The percentage that is shown for a running download, as the bits of a
/// single-precision number: at most 99.
pub fn capped_percent(bits: u32) -> (shown: u32)
    ensures
        shown == shown_percent(bits),
{
    if bits <= MOST_PROGRESS || (0x8000_0000 <= bits && bits <= LEAST_PROGRESS) {
        bits
    } else {
        MOST_PROGRESS
    }
}

impl Job {
    pub fn new() -> (j: Job)
        ensures
            j@ == queued(false),
    {
        let j = Job {
            status: "In wachtrij".to_string(),
            progress_bits: NO_PROGRESS,
            message: String::new(),
            title: String::new(),
            filename: String::new(),
            done: false,
            error: false,
            kept: false,
            path: String::new(),
        };
        assert(j@ =~= queued(false));
        j
    }

    pub fn search(&mut self)
        ensures
            final(self)@ == searching(old(self)@),
    {
        self.status = "Video-URL opzoeken\u{2026}".to_string();
    }

    pub fn download(&mut self, title: &str, filename: &str)
        ensures
            final(self)@ == downloading(old(self)@, title@, filename@),
    {
        self.title = title.to_string();
        self.filename = filename.to_string();
        self.status = "Downloaden\u{2026}".to_string();
    }

    pub fn progress(&mut self, sample: Sample)
        ensures
            final(self)@ == progressed(old(self)@, sample),
    {
        match sample {
            Sample::Measured { percent_bits, secs, total } => {
                self.progress_bits = capped_percent(percent_bits);
                let mut m = to_decimal(secs as u128);
                m.append(" / ");
                let t = to_decimal(total as u128);
                m.append(t.as_str());
                m.append(" sec");
                self.message = m;
            },
            Sample::Elapsed { secs } => {
                let mut m = to_decimal(secs as u128);
                m.append(" sec verwerkt");
                self.message = m;
            },
        }
    }

    pub fn skip(&mut self)
        ensures
            final(self)@ == skipped(old(self)@),
    {
        self.done = true;
        self.status = "Overgeslagen".to_string();
        self.message = "Deze aflevering wordt al door een andere taak gedownload.".to_string();
    }

    pub fn fail(&mut self, msg: &str)
        ensures
            final(self)@ == failed(old(self)@, msg@),
    {
        self.error = true;
        self.done = true;
        self.status = "Fout".to_string();
        self.message = msg.to_string();
    }

    /// Mark the job as completed without a download, pointing at an existing file.
    pub fn finish_existing(&mut self, path: &str, kept: bool, msg: &str)
        ensures
            final(self)@ == found(old(self)@, path@, kept, msg@),
    {
        let name = match file_name(path) {
            Some(n) => n,
            None => "video.mp4".to_string(),
        };
        self.progress_bits = FULL_PROGRESS;
        self.done = true;
        self.error = false;
        self.kept = kept;
        self.status = "Klaar".to_string();
        self.message = msg.to_string();
        self.path = path.to_string();
        if self.filename.as_str().is_empty() {
            self.filename = name;
        }
    }

    /// Mark the job as completed by its download.
    pub fn complete(&mut self, path: &str, kept: bool, msg: &str)
        ensures
            final(self)@ == completed(old(self)@, path@, kept, msg@),
    {
        self.progress_bits = FULL_PROGRESS;
        self.done = true;
        self.kept = kept;
        self.status = "Klaar".to_string();
        self.message = msg.to_string();
        self.path = path.to_string();
    }
}

/// The next tenth of the way to report: the one that `percent` has reached, where
/// it lies beyond the last one reported.
pub fn next_decile(last: u32, percent: u32) -> (r: Option<u32>)
    ensures
        r == (if percent / 10 > last {
            Some((percent / 10) as u32)
        } else {
            None
        }),
{
    if percent / 10 > last {
        Some(percent / 10)
    } else {
        None
    }
}

} // verus!
