use beng_leecher::args::{parse_args, Config};
use beng_leecher::cleanup::is_expired;
use beng_leecher::index::{load_media_index, saved_entries};
use beng_leecher::jobs::{
    capped_percent, next_decile, Job, Sample, FULL_PROGRESS, LEAST_PROGRESS, MOST_PROGRESS, NO_PROGRESS,
};
use beng_leecher::names::{cache_path, media_path, unique_media_path};
use beng_leecher::pipeline::{Action, Event, JobRun};
use beng_leecher::series::{list_episodes, series_base, series_response};
use beng_leecher::state::AppState;
use beng_leecher::table::Table;

const URL: &str = " https://x/serie/1/aflevering/77 ";
const PAGE: &str =
    "<title>Afl. 1 | De Schatkamer</title>\"https://sk-video/a.m3u8?p=1\\u0026q=2\"";

fn config() -> Config {
    parse_args(&Vec::new()).ok().unwrap()
}

fn server() -> AppState {
    AppState::new(config(), Table::new())
}

fn job<'a>(st: &'a AppState, id: &str) -> &'a Job {
    st.status(id).unwrap()
}

fn cookies() -> Event {
    Event::Cookies(vec![
        Some("CloudFront-Policy=a; Path=/".to_string()),
        None,
        Some("CloudFront-Signature=b".to_string()),
    ])
}

/// A run that has come as far as its download.
fn downloading(st: &mut AppState, id: &str, keep: bool) -> JobRun {
    let mut run = st.start(id, URL, keep);
    st.advance(&mut run, Event::FileNonempty(false));
    st.advance(&mut run, Event::Page(PAGE.to_string()));
    st.advance(&mut run, cookies());
    run
}

#[test]
fn progress_bits_are_those_of_the_numbers() {
    assert_eq!(f32::from_bits(NO_PROGRESS), 0.0);
    assert_eq!(f32::from_bits(FULL_PROGRESS), 100.0);
    assert_eq!(f32::from_bits(MOST_PROGRESS), 99.0);
    assert_eq!(f32::from_bits(LEAST_PROGRESS), f32::NEG_INFINITY);
}

#[test]
fn new_jobs_wait() {
    let mut st = server();
    assert!(st.status("1").is_none());
    let run = st.start("1", URL, true);
    let j = job(&st, "1");
    assert_eq!(j.status, "In wachtrij");
    assert_eq!(j.progress_bits, NO_PROGRESS);
    assert!(j.kept && !j.done && !j.error);
    assert!(j.message.is_empty() && j.title.is_empty() && j.filename.is_empty() && j.path.is_empty());
    assert_eq!(run.page_url, "https://x/serie/1/aflevering/77");
    assert_eq!(run.key, "77");
    assert!(matches!(run.action(), Action::CheckFile { path } if path == "downloads/77.mp4"));
    assert!(!Job::new().kept);
}

#[test]
fn download_goes_through_its_steps() {
    let mut st = server();
    let mut run = st.start("1", URL, false);
    st.advance(&mut run, Event::FileNonempty(false));
    assert_eq!(job(&st, "1").status, "Video-URL opzoeken\u{2026}");
    assert!(matches!(run.action(), Action::FetchPage { url } if url == "https://x/serie/1/aflevering/77"));
    st.advance(&mut run, Event::Page(PAGE.to_string()));
    assert!(matches!(run.action(), Action::FetchCookies { url } if url == "https://sk-video/a.m3u8?p=1&q=2"));
    st.advance(&mut run, cookies());
    assert_eq!(job(&st, "1").title, "Afl. 1 | De Schatkamer");
    assert_eq!(job(&st, "1").filename, "Afl_ 1.mp4");
    assert_eq!(job(&st, "1").status, "Downloaden\u{2026}");
    match run.action() {
        Action::Download { master, cookie, out } => {
            assert_eq!(master, "https://sk-video/a.m3u8");
            assert_eq!(cookie, "CloudFront-Policy=a; CloudFront-Signature=b");
            assert_eq!(out, "downloads/77.mp4");
        }
        a => panic!("{a:?}"),
    }
    assert!(st.file("1").is_none());
    st.advance(&mut run, Event::Exited(true));
    let j = job(&st, "1");
    assert!(j.done && !j.error && !j.kept);
    assert_eq!(j.status, "Klaar");
    assert_eq!(j.message, "Download voltooid");
    assert_eq!(j.path, "downloads/77.mp4");
    assert_eq!(j.progress_bits, FULL_PROGRESS);
    assert!(matches!(run.action(), Action::Finish));
    assert_eq!(
        st.file("1").unwrap(),
        ("downloads/77.mp4".to_string(), "Afl_ 1.mp4".to_string())
    );
}

#[test]
fn progress_is_reported() {
    let mut st = server();
    let mut run = downloading(&mut st, "1", false);
    let percent_bits = 12.5f32.to_bits();
    st.advance(&mut run, Event::Progress(Sample::Measured { percent_bits, secs: 3, total: 24 }));
    assert_eq!(f32::from_bits(job(&st, "1").progress_bits), 12.5);
    assert_eq!(job(&st, "1").message, "3 / 24 sec");
    st.advance(&mut run, Event::Progress(Sample::Elapsed { secs: 4 }));
    assert_eq!(f32::from_bits(job(&st, "1").progress_bits), 12.5);
    assert_eq!(job(&st, "1").message, "4 sec verwerkt");
    assert!(matches!(run.action(), Action::Download { .. }));
}

#[test]
fn deciles_are_reported_once() {
    assert_eq!(next_decile(0, 9), None);
    assert_eq!(next_decile(0, 10), Some(1));
    assert_eq!(next_decile(1, 19), None);
    assert_eq!(next_decile(1, 99), Some(9));
    assert_eq!(next_decile(9, 99), None);
}

#[test]
fn kept_download_is_moved_and_remembered() {
    let mut st = server();
    let mut run = downloading(&mut st, "1", true);
    st.advance(&mut run, Event::Exited(true));
    assert!(!job(&st, "1").done);
    let filename = match run.action() {
        Action::MoveToLibrary { from, filename } => {
            assert_eq!(from, "downloads/77.mp4");
            filename
        }
        a => panic!("{a:?}"),
    };
    assert_eq!(filename, "Afl_ 1.mp4");
    let dest = unique_media_path("media", &filename, |p: &String| p == "media/Afl_ 1.mp4").unwrap();
    st.advance(&mut run, Event::Moved(Some(dest)));
    let j = job(&st, "1");
    assert!(j.done && j.kept);
    assert_eq!(j.path, "media/Afl_ 1 (2).mp4");
    assert_eq!(j.message, "Opgeslagen op de mediaserver: media/Afl_ 1 (2).mp4");
    assert_eq!(st.media_file("77").unwrap(), "media/Afl_ 1 (2).mp4");

    // Every later job looks at that file first.
    let mut later = st.start("2", "https://y/aflevering/77?q", false);
    assert!(matches!(later.action(), Action::CheckFile { path } if path == "media/Afl_ 1 (2).mp4"));
    st.advance(&mut later, Event::FileNonempty(true));
    let j = job(&st, "2");
    assert!(j.done && !j.error && j.kept);
    assert_eq!(j.filename, "Afl_ 1 (2).mp4");
    assert_eq!(j.message, "Al aanwezig in mediabibliotheek \u{2014} niet opnieuw gedownload");
}

#[test]
fn failed_move_leaves_the_download_in_the_cache() {
    let mut st = server();
    let mut run = downloading(&mut st, "1", true);
    st.advance(&mut run, Event::Exited(true));
    st.advance(&mut run, Event::Moved(None));
    let j = job(&st, "1");
    assert!(j.done && !j.kept && !j.error);
    assert_eq!(j.path, "downloads/77.mp4");
    assert_eq!(j.message, "Opgeslagen in cache (verplaatsen mislukte): downloads/77.mp4");
    assert!(st.media_file("77").is_none());
}

#[test]
fn missing_library_file_leads_to_the_cache() {
    let index = load_media_index(vec![("77".to_string(), "a.mp4".to_string())], &vec![true]);
    let mut st = AppState::new(config(), index);
    let mut run = st.start("1", URL, false);
    st.advance(&mut run, Event::FileNonempty(false));
    assert!(matches!(run.action(), Action::CheckFile { path } if path == "downloads/77.mp4"));
}

#[test]
fn cached_episode_is_not_downloaded() {
    let mut st = server();
    let mut run = st.start("1", URL, false);
    st.advance(&mut run, Event::FileNonempty(true));
    let j = job(&st, "1");
    assert!(j.done && !j.kept && !j.error);
    assert_eq!(j.path, "downloads/77.mp4");
    assert_eq!(j.filename, "77.mp4");
    assert_eq!(j.message, "Al aanwezig in cache \u{2014} niet opnieuw gedownload");
}

#[test]
fn cached_episode_is_promoted() {
    let mut st = server();
    let mut run = st.start("1", URL, true);
    st.advance(&mut run, Event::FileNonempty(true));
    assert!(matches!(run.action(), Action::FetchTitle { url } if url == "https://x/serie/1/aflevering/77"));
    st.advance(&mut run, Event::TitlePage(String::new()));
    assert!(matches!(run.action(), Action::MoveToLibrary { from, filename }
        if from == "downloads/77.mp4" && filename == "schatkamer-video.mp4"));
    st.advance(&mut run, Event::Moved(Some("media/schatkamer-video.mp4".to_string())));
    let j = job(&st, "1");
    assert!(j.done && j.kept);
    assert_eq!(j.message, "Was al in cache \u{2014} verplaatst naar mediabibliotheek");
    assert_eq!(j.filename, "schatkamer-video.mp4");
    assert_eq!(st.media_file("77").unwrap(), "media/schatkamer-video.mp4");
}

#[test]
fn failed_promotion_serves_the_cache() {
    let mut st = server();
    let mut run = st.start("1", URL, true);
    st.advance(&mut run, Event::FileNonempty(true));
    st.advance(&mut run, Event::TitlePage(PAGE.to_string()));
    st.advance(&mut run, Event::Moved(None));
    let j = job(&st, "1");
    assert!(j.done && !j.kept);
    assert_eq!(j.path, "downloads/77.mp4");
    assert_eq!(j.message, "Al aanwezig in cache \u{2014} niet opnieuw gedownload");
}

#[test]
fn concurrent_job_is_skipped() {
    let mut st = server();
    let mut first = downloading(&mut st, "1", false);
    let mut second = st.start("2", URL, false);
    st.advance(&mut second, Event::FileNonempty(false));
    let j = job(&st, "2");
    assert!(j.done && !j.error);
    assert_eq!(j.status, "Overgeslagen");
    assert_eq!(j.message, "Deze aflevering wordt al door een andere taak gedownload.");
    assert!(matches!(second.action(), Action::Finish));
    assert!(matches!(first.action(), Action::Download { .. }));
    // Another episode is not held up.
    let mut other = st.start("3", "https://x/aflevering/78", false);
    st.advance(&mut other, Event::FileNonempty(false));
    assert!(matches!(other.action(), Action::FetchPage { .. }));
    // Once the first is through, the episode is free again.
    st.advance(&mut first, Event::Exited(true));
    let mut third = st.start("4", URL, false);
    st.advance(&mut third, Event::FileNonempty(false));
    assert!(matches!(third.action(), Action::FetchPage { .. }));
}

fn failure(events: Vec<Event>) -> (AppState, String) {
    let mut st = server();
    let mut run = st.start("1", URL, false);
    for e in events {
        st.advance(&mut run, e);
    }
    assert!(matches!(run.action(), Action::Finish));
    let j = job(&st, "1");
    assert!(j.done && j.error);
    assert_eq!(j.status, "Fout");
    let message = j.message.clone();
    assert!(st.file("1").is_none());
    // The episode can be asked for again.
    let mut again = st.start("2", URL, false);
    st.advance(&mut again, Event::FileNonempty(false));
    assert!(matches!(again.action(), Action::FetchPage { .. }));
    (st, message)
}

#[test]
fn failures_are_reported() {
    let absent = || Event::FileNonempty(false);
    let page = || Event::Page(PAGE.to_string());
    let e = || "boem".to_string();
    assert_eq!(failure(vec![absent(), Event::PageUnreachable(e())]).1, "Pagina ophalen mislukt: boem");
    assert_eq!(failure(vec![absent(), Event::PageUnreadable(e())]).1, "Pagina lezen mislukt: boem");
    assert_eq!(
        failure(vec![absent(), Event::Page("<html>".to_string())]).1,
        "Geen video-stream gevonden op deze pagina (DRM of geen aflevering?)."
    );
    assert_eq!(
        failure(vec![absent(), page(), Event::HandshakeFailed(e())]).1,
        "CDN-handshake mislukt: boem"
    );
    assert_eq!(
        failure(vec![absent(), page(), Event::Cookies(vec![None])]).1,
        "Geen CloudFront-cookies ontvangen; URL mogelijk verlopen."
    );
    assert_eq!(
        failure(vec![absent(), page(), cookies(), Event::SpawnFailed(e())]).1,
        "ffmpeg kon niet starten: boem"
    );
    assert_eq!(
        failure(vec![absent(), page(), cookies(), Event::Exited(false), Event::Discarded("a\nb\n".to_string())]).1,
        "ffmpeg fout: b"
    );
}

#[test]
fn partial_output_is_discarded_before_the_job_fails() {
    let mut st = server();
    let mut run = downloading(&mut st, "1", false);
    st.advance(&mut run, Event::Exited(false));
    assert!(matches!(run.action(), Action::Discard { path } if path == "downloads/77.mp4"));
    assert!(!job(&st, "1").done);
    st.advance(&mut run, Event::Discarded(String::new()));
    assert_eq!(job(&st, "1").message, "ffmpeg fout: onbekende fout");
}

#[test]
fn only_http_urls_are_fetched() {
    let mut st = server();
    let mut run = st.start("1", "ftp://x/aflevering/5", false);
    st.advance(&mut run, Event::FileNonempty(false));
    assert!(matches!(run.action(), Action::Finish));
    assert_eq!(job(&st, "1").message, "Geef een geldige http(s)-URL op.");
    assert!(job(&st, "1").error);
}

#[test]
fn unexpected_events_change_nothing() {
    let mut st = server();
    let mut run = st.start("1", URL, false);
    st.advance(&mut run, Event::Exited(true));
    st.advance(&mut run, cookies());
    st.advance(&mut run, Event::Moved(None));
    assert_eq!(job(&st, "1").status, "In wachtrij");
    assert!(matches!(run.action(), Action::CheckFile { .. }));
}

#[test]
fn purge_forgets_by_path_alone() {
    let mut st = server();
    // The id of this job is the stem of the purged file, but it has no file yet.
    let mut run = downloading(&mut st, "77", false);
    st.forget("77.mp4");
    assert!(!job(&st, "77").done);
    st.advance(&mut run, Event::Exited(true));
    assert_eq!(job(&st, "77").path, "downloads/77.mp4");
    st.forget("78.mp4");
    assert!(st.status("77").is_some());
    st.forget("77.mp4");
    assert!(st.status("77").is_none());
}

#[test]
fn run_without_a_job_comes_to_its_end() {
    let mut other = server();
    let mut run = other.start("1", URL, false);
    let mut st = server();
    st.advance(&mut run, Event::FileNonempty(false));
    st.advance(&mut run, Event::Page(PAGE.to_string()));
    st.advance(&mut run, cookies());
    st.advance(&mut run, Event::Exited(true));
    assert!(matches!(run.action(), Action::Finish));
    assert!(st.status("1").is_none());
}

#[test]
fn videos_expire_with_the_ttl() {
    assert!(is_expired("77.mp4", Some(3600), 3600));
    assert!(!is_expired("77.mp4", Some(3599), 3600));
    assert!(!is_expired("77.mp4", None, 3600));
    assert!(!is_expired("77.txt", Some(9999), 3600));
    assert!(!is_expired("77.MP4", Some(9999), 3600));
    assert!(!is_expired(".mp4", Some(9999), 3600));
    assert!(!is_expired("mp4", Some(9999), 3600));
}

#[test]
fn purged_file_leaves_the_job_list() {
    let mut st = server();
    for (id, url) in [("a", URL), ("b", "https://x/aflevering/78"), ("c", URL)] {
        let mut run = st.start(id, url, false);
        st.advance(&mut run, Event::FileNonempty(true));
    }
    st.start("d", URL, false);
    st.forget("77.mp4");
    assert!(st.status("a").is_none());
    assert!(st.status("c").is_none());
    assert!(st.status("b").is_some());
    assert!(st.status("d").is_some());
}

#[test]
fn episodes_count_as_downloaded() {
    let index = load_media_index(vec![("5".to_string(), "f.mp4".to_string())], &vec![true]);
    let st = AppState::new(config(), index);
    assert!(st.is_downloaded("1", Some(10), false));
    assert!(!st.is_downloaded("1", Some(0), true));
    assert!(!st.is_downloaded("1", None, true));
    assert!(st.is_downloaded("5", None, true));
    assert!(!st.is_downloaded("5", None, false));
    assert!(st.is_downloaded("5", Some(1), false));
}

#[test]
fn index_is_saved_and_loaded() {
    let mut st = server();
    st.remember_media("1", "media/a \"b\"\u{e9}.mp4");
    st.remember_media("2", "media/b.mp4");
    st.remember_media("1", "media/c.mp4");
    st.remember_media("3", "media/..");
    let text = st.media_index_text().unwrap();
    assert_eq!(text, "{\n  \"1\": \"c.mp4\",\n  \"2\": \"b.mp4\",\n  \"3\": \"\"\n}");
    let entries = saved_entries(&text);
    assert_eq!(entries.len(), 3);
    let present: Vec<bool> = entries.iter().map(|e| e.0 != "2").collect();
    let st2 = AppState::new(config(), load_media_index(entries, &present));
    assert_eq!(st2.media_file("1").unwrap(), "media/c.mp4");
    assert!(st2.media_file("2").is_none());
    assert_eq!(st2.media_entries().len(), 2);
}

#[test]
fn unreadable_index_is_empty() {
    assert!(saved_entries("").is_empty());
    assert!(saved_entries("[1]").is_empty());
    assert!(saved_entries("{\"a\": 1}").is_empty());
    assert_eq!(
        saved_entries("{\"a\": \"x\", \"a\": \"y\"}"),
        vec![("a".to_string(), "y".to_string())]
    );
}

#[test]
fn later_entries_replace_earlier_ones() {
    let e = |k: &str, v: &str| (k.to_string(), v.to_string());
    let index = load_media_index(vec![e("1", "a"), e("1", "b"), e("2", "c"), e("2", "d")], &vec![true, true, true, false]);
    assert_eq!(index.get("1").unwrap(), "b");
    assert!(index.get("2").is_none());
}

#[test]
fn table_keeps_one_value_for_a_key() {
    let mut t: Table<u32> = Table::new();
    t.insert("a".to_string(), 1);
    t.insert("b".to_string(), 2);
    t.insert("a".to_string(), 3);
    assert_eq!(t.get("a"), Some(&3));
    assert!(t.contains_key("b"));
    assert_eq!(t.keys().len(), 2);
    assert_eq!(t.remove("a"), Some(3));
    assert_eq!(t.remove("a"), None);
    assert_eq!(t.keys(), vec!["b".to_string()]);
}

#[test]
fn steps_leave_other_jobs_alone() {
    let mut st = server();
    let mut first = downloading(&mut st, "1", false);
    let mut second = st.start("2", "https://x/aflevering/78", true);
    st.advance(&mut second, Event::FileNonempty(true));
    st.advance(&mut second, Event::TitlePage(PAGE.to_string()));
    st.advance(&mut second, Event::Moved(Some("media/a.mp4".to_string())));
    assert_eq!(job(&st, "1").status, "Downloaden\u{2026}");
    assert!(st.media_file("77").is_none());
    st.advance(&mut first, Event::Exited(true));
    assert_eq!(job(&st, "2").path, "media/a.mp4");
    assert_eq!(st.media_file("78").unwrap(), "media/a.mp4");
}

#[test]
fn finished_runs_stay_finished() {
    let mut st = server();
    let mut run = downloading(&mut st, "1", false);
    st.advance(&mut run, Event::Exited(true));
    st.advance(&mut run, Event::Exited(false));
    st.advance(&mut run, Event::Progress(Sample::Elapsed { secs: 1 }));
    st.advance(&mut run, Event::FileNonempty(false));
    assert!(matches!(run.action(), Action::Finish));
    assert_eq!(job(&st, "1").message, "Download voltooid");
}

#[test]
fn purged_episode_is_downloaded_again() {
    let mut st = server();
    let mut run = downloading(&mut st, "1", false);
    st.advance(&mut run, Event::Exited(true));
    st.forget("77.mp4");
    assert!(st.status("1").is_none());
    let mut again = st.start("2", URL, false);
    st.advance(&mut again, Event::FileNonempty(false));
    assert!(matches!(again.action(), Action::FetchPage { url } if url == URL.trim()));
}

#[test]
fn kept_files_are_not_swept() {
    assert_ne!(media_path("media", "77.mp4"), cache_path("77"));
    let mut st = server();
    let mut run = downloading(&mut st, "1", true);
    st.advance(&mut run, Event::Exited(true));
    st.advance(&mut run, Event::Moved(Some("media/77.mp4".to_string())));
    st.forget("77.mp4");
    assert_eq!(job(&st, "1").path, "media/77.mp4");
    assert_eq!(st.media_file("77").unwrap(), "media/77.mp4");
}

#[test]
fn listed_episode_and_its_job_have_one_key() {
    let base = series_base("https://x/serie/9/naam/?a=b").unwrap();
    let group = ("4711".to_string(), "t".to_string(), "s".to_string());
    let listing = list_episodes(&vec![group]).unwrap();
    let key = listing.entries[0].id.clone();
    let answer = series_response(&base, listing, &vec![false]);
    let mut st = server();
    let run = st.start("1", &answer.episodes[0].url, false);
    assert_eq!(run.key, key);
    assert_eq!(run.cache, "downloads/4711.mp4");
}

#[test]
fn shown_percentage_is_the_lesser_of_the_measured_and_99() {
    for x in [
        0.0f64,
        -0.0,
        1e-300,
        12.5,
        98.999999,
        99.0,
        99.000000001,
        99.00001,
        100.0,
        1e300,
        -1e300,
        -3.5,
        f64::INFINITY,
        f64::NEG_INFINITY,
        f64::NAN,
        -f64::NAN,
    ] {
        let shown = capped_percent((x as f32).to_bits());
        assert_eq!(shown, (x.min(99.0) as f32).to_bits(), "{x}");
    }
    let step = 0x101;
    for k in 0..(u32::MAX / step) {
        let x = f32::from_bits(k * step);
        assert_eq!(capped_percent(k * step), x.min(99.0).to_bits());
    }
}

#[test]
fn progress_is_full_only_with_a_file() {
    let mut st = server();
    let mut run = downloading(&mut st, "1", false);
    let percent_bits = 100.0f32.to_bits();
    st.advance(&mut run, Event::Progress(Sample::Measured { percent_bits, secs: 24, total: 24 }));
    assert_eq!(f32::from_bits(job(&st, "1").progress_bits), 99.0);
    assert_eq!(job(&st, "1").message, "24 / 24 sec");
    st.advance(&mut run, Event::Exited(false));
    st.advance(&mut run, Event::Discarded(String::new()));
    assert_eq!(f32::from_bits(job(&st, "1").progress_bits), 99.0);

    let mut run = downloading(&mut st, "2", false);
    st.advance(&mut run, Event::Progress(Sample::Elapsed { secs: 4 }));
    assert_eq!(job(&st, "2").progress_bits, NO_PROGRESS);
    st.advance(&mut run, Event::Exited(true));
    assert_eq!(job(&st, "2").progress_bits, FULL_PROGRESS);
}

#[test]
fn zero_ttl_disables_purging() {
    assert!(!is_expired("77.mp4", Some(0), 0));
    assert!(!is_expired("77.mp4", Some(u64::MAX), 0));
    assert!(!is_expired("77.mp4", None, 0));
    assert!(is_expired("77.mp4", Some(1), 1));
}

#[test]
fn mark_agrees_with_the_job() {
    for indexed in [false, true] {
        for (cached_len, cached) in [(None, false), (Some(0), false), (Some(1), true)] {
            for kept in [false, true] {
                let entries = vec![("77".to_string(), "a.mp4".to_string())];
                let index = load_media_index(entries, &vec![indexed]);
                let mut st = AppState::new(config(), index);
                let marked = st.is_downloaded("77", cached_len, kept);
                let mut run = st.start("1", URL, false);
                if indexed {
                    st.advance(&mut run, Event::FileNonempty(kept));
                }
                if matches!(run.action(), Action::CheckFile { .. }) {
                    st.advance(&mut run, Event::FileNonempty(cached));
                }
                assert_eq!(marked, matches!(run.action(), Action::Finish));
                assert_eq!(marked, job(&st, "1").status == "Klaar");
                assert_eq!(!marked, matches!(run.action(), Action::FetchPage { .. }));
            }
        }
    }
}

#[test]
fn response_marks_each_episode_by_its_own_files() {
    let group = |id: &str| (id.to_string(), format!("titel {id}"), "Serie X".to_string());
    let groups = vec![group("1"), group("2"), group("3"), group("4"), group("5"), group("6")];
    let listing = list_episodes(&groups).unwrap();
    let entries = vec![("3".to_string(), "c.mp4".to_string()), ("4".to_string(), "d.mp4".to_string())];
    let st = AppState::new(config(), load_media_index(entries, &vec![true, true]));
    let r = st.marked_response(
        "https://x/serie/9",
        listing,
        &vec![None, Some(7), None, None, Some(0), None],
        &vec![false, false, true, false, false, true],
    );
    let marks: Vec<bool> = r.episodes.iter().map(|e| e.downloaded).collect();
    assert_eq!(marks, [false, true, true, false, false, false]);
    assert_eq!(r.series_title, "Serie X");
    assert_eq!(r.episodes[2].url, "https://x/serie/9/aflevering/3");
    assert_eq!(r.episodes[5].title, "titel 6");
}
