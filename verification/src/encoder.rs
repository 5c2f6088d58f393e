//! The command lines of ffprobe and ffmpeg, and what ffmpeg prints.
use crate::text::{
    after_last, from_chars, occurs_at, since_last, starts_with, to_chars, trim, trimmed, views,
};
use vstd::prelude::*;
use vstd::string::*;

verus! {

/// The HTTP header that hands the cookies over.
pub open spec fn cookie_line(cookie: Seq<char>) -> Seq<char> {
    "Cookie: "@ + cookie + "\r\n"@
}

fn header_line(cookie: &str) -> (s: String)
    ensures
        s@ == cookie_line(cookie@),
{
    let mut s = "Cookie: ".to_string();
    s.append(cookie);
    s.append("\r\n");
    s
}

/// The arguments with which ffprobe reports the length of a video.
pub fn probe_args(master: &str, cookie: &str) -> (args: Vec<String>)
    ensures
        views(args@) == seq![
            "-v"@,
            "error"@,
            "-headers"@,
            cookie_line(cookie@),
            "-show_entries"@,
            "format=duration"@,
            "-of"@,
            "default=nw=1:nk=1"@,
            "-i"@,
            master@,
        ],
{
    let mut v: Vec<String> = Vec::new();
    v.push("-v".to_string());
    v.push("error".to_string());
    v.push("-headers".to_string());
    v.push(header_line(cookie));
    v.push("-show_entries".to_string());
    v.push("format=duration".to_string());
    v.push("-of".to_string());
    v.push("default=nw=1:nk=1".to_string());
    v.push("-i".to_string());
    v.push(master.to_string());
    assert(views(v@) =~= seq![
        "-v"@,
        "error"@,
        "-headers"@,
        cookie_line(cookie@),
        "-show_entries"@,
        "format=duration"@,
        "-of"@,
        "default=nw=1:nk=1"@,
        "-i"@,
        master@,
    ]);
    v
}

/// The arguments with which ffmpeg copies the first video and the first audio
/// stream into one file, reporting its progress on standard output.
pub fn encode_args(master: &str, cookie: &str, out: &str) -> (args: Vec<String>)
    ensures
        views(args@) == seq![
            "-y"@,
            "-loglevel"@,
            "error"@,
            "-headers"@,
            cookie_line(cookie@),
            "-i"@,
            master@,
            "-map"@,
            "0:v:0"@,
            "-map"@,
            "0:a:0"@,
            "-c"@,
            "copy"@,
            "-movflags"@,
            "+faststart"@,
            "-progress"@,
            "pipe:1"@,
            "-nostats"@,
            out@,
        ],
{
    let mut v: Vec<String> = Vec::new();
    v.push("-y".to_string());
    v.push("-loglevel".to_string());
    v.push("error".to_string());
    v.push("-headers".to_string());
    v.push(header_line(cookie));
    v.push("-i".to_string());
    v.push(master.to_string());
    v.push("-map".to_string());
    v.push("0:v:0".to_string());
    v.push("-map".to_string());
    v.push("0:a:0".to_string());
    v.push("-c".to_string());
    v.push("copy".to_string());
    v.push("-movflags".to_string());
    v.push("+faststart".to_string());
    v.push("-progress".to_string());
    v.push("pipe:1".to_string());
    v.push("-nostats".to_string());
    v.push(out.to_string());
    assert(views(v@) =~= seq![
        "-y"@,
        "-loglevel"@,
        "error"@,
        "-headers"@,
        cookie_line(cookie@),
        "-i"@,
        master@,
        "-map"@,
        "0:v:0"@,
        "-map"@,
        "0:a:0"@,
        "-c"@,
        "copy"@,
        "-movflags"@,
        "+faststart"@,
        "-progress"@,
        "pipe:1"@,
        "-nostats"@,
        out@,
    ]);
    v
}

/// The microseconds that a line of ffmpeg's progress report states, as text. Both
/// keys that ffmpeg uses for them count.
pub open spec fn reported_time(line: Seq<char>) -> Option<Seq<char>> {
    if occurs_at(line, "out_time_us="@, 0) {
        Some(trimmed(line.skip("out_time_us="@.len() as int)))
    } else if occurs_at(line, "out_time_ms="@, 0) {
        Some(trimmed(line.skip("out_time_ms="@.len() as int)))
    } else {
        None
    }
}

/// The microseconds that a line of ffmpeg's progress report states, as text.
pub fn progress_value(line: &str) -> (r: Option<String>)
    ensures
        match r {
            Some(v) => reported_time(line@) == Some(v@),
            None => reported_time(line@) is None,
        },
{
    proof {
        reveal_strlit("out_time_us=");
        reveal_strlit("out_time_ms=");
    }
    if starts_with(line, "out_time_us=") || starts_with(line, "out_time_ms=") {
        let v = to_chars(line);
        let len: usize = v.len();
        let rest = from_chars(&v, 12, len);
        assert(rest@ =~= line@.skip(12));
        Some(trim(rest.as_str()))
    } else {
        None
    }
}

/// The last line of what ffmpeg wrote to standard error, or `onbekende fout` where
/// it wrote nothing.
pub open spec fn last_error(stderr: Seq<char>) -> Seq<char> {
    if trimmed(stderr).len() == 0 {
        "onbekende fout"@
    } else {
        after_last(trimmed(stderr), '\n')
    }
}

/// The last line of what ffmpeg wrote to standard error.
pub fn error_line(stderr: &str) -> (r: String)
    ensures
        r@ == last_error(stderr@),
{
    let t = trim(stderr);
    if t.as_str().is_empty() {
        "onbekende fout".to_string()
    } else {
        since_last(t.as_str(), '\n')
    }
}

} // verus!
