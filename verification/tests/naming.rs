use beng_leecher::names::{
    cache_path, content_disposition, episode_key, media_candidate, media_index_path, media_path,
    new_id, sanitize, unique_media_path,
};
use beng_leecher::paths::file_name;

#[test]
fn key_is_the_number_behind_aflevering() {
    assert_eq!(
        episode_key("https://schatkamer.beeldengeluid.nl/serie/1/x/aflevering/2101608060045577131"),
        "2101608060045577131"
    );
    assert_eq!(episode_key("https://x/aflevering/12?a=b"), "12");
    assert_eq!(episode_key("https://x/aflevering/12/aflevering/34"), "12");
    assert_eq!(episode_key("/aflevering/7abc"), "7");
}

#[test]
fn key_falls_back_to_the_url() {
    assert_eq!(episode_key("https://x.nl/film?id=9"), "https___x_nl_film_id_9");
    assert_eq!(episode_key("https://x/aflevering/abc/"), "https___x_aflevering_abc");
    assert_eq!(episode_key("https://x/aflevering"), "https___x_aflevering");
    assert_eq!(episode_key("__caf\u{e9}__"), "caf");
    assert_eq!(episode_key(""), "");
    // Only the first marker counts.
    assert_eq!(episode_key("/aflevering/x/aflevering/12"), "aflevering_x_aflevering_12");
    // Digits of other scripts are no digits here.
    assert_eq!(episode_key("/aflevering/\u{661}"), "aflevering");
}

#[test]
fn key_is_safe_in_a_file_name() {
    for url in ["a/b\\c:d", "\u{1F600} x", "https://e.nl/../..", "/aflevering/1/../../etc"] {
        assert!(episode_key(url).chars().all(|c| c.is_ascii_alphanumeric() || c == '_'));
    }
}

#[test]
fn key_of_a_listed_episode_is_its_id() {
    let base = "https://schatkamer.beeldengeluid.nl/serie/12/naam";
    for rest in ["", "?x=1", "/", "#y"] {
        assert_eq!(episode_key(&format!("{base}/aflevering/4711{rest}")), "4711");
    }
}

#[test]
fn paths_are_built_from_keys_and_names() {
    assert_eq!(cache_path("4711"), "downloads/4711.mp4");
    assert_eq!(cache_path(""), "downloads/.mp4");
    assert_eq!(media_path("media", "a b.mp4"), "media/a b.mp4");
    assert_eq!(media_index_path("/srv/media"), "/srv/media/.beng_leecher_index.json");
    assert_eq!(content_disposition("a b.mp4"), "attachment; filename=\"a b.mp4\"");
}

#[test]
fn cached_files_of_different_episodes_differ() {
    assert_ne!(cache_path("1"), cache_path("11"));
}

#[test]
fn titles_become_file_names() {
    assert_eq!(
        sanitize("WE ZIJN WEER THUIS - Afl. 11: Water in wijn | De Schatkamer"),
        "WE ZIJN WEER THUIS - Afl_ 11_ Water in wijn"
    );
    assert_eq!(sanitize("  a   b  "), "a b");
    assert_eq!(sanitize("a\tb"), "a_b");
    assert_eq!(sanitize("caf\u{e9} \u{4e2d}\u{6587} \u{b2}"), "caf\u{e9} \u{4e2d}\u{6587} \u{b2}");
    assert_eq!(sanitize("../../etc/passwd"), "______etc_passwd");
    assert_eq!(sanitize("x_y-z"), "x_y-z");
    assert_eq!(sanitize("\u{1F600}"), "_");
}

#[test]
fn empty_titles_get_a_name() {
    assert_eq!(sanitize(""), "schatkamer-video");
    assert_eq!(sanitize("   "), "schatkamer-video");
    assert_eq!(sanitize("| De Schatkamer"), "schatkamer-video");
}

#[test]
fn sanitizing_twice_changes_nothing() {
    for t in ["", "a|b", " x  y ", "../a", "caf\u{e9}: 1/2", "schatkamer-video"] {
        let once = sanitize(t);
        assert_eq!(sanitize(&once), once);
        assert!(!once.contains('/') && !once.contains('.') && !once.is_empty());
    }
}

#[test]
fn free_name_is_taken_as_it_is() {
    assert_eq!(unique_media_path("media", "a.mp4", |_p: &String| false).unwrap(), "media/a.mp4");
}

#[test]
fn taken_names_get_a_number() {
    let taken = ["media/a.mp4", "media/a (2).mp4"];
    assert_eq!(
        unique_media_path("media", "a.mp4", |p: &String| taken.contains(&p.as_str())).unwrap(),
        "media/a (3).mp4"
    );
    assert_eq!(
        unique_media_path("m", "a.b.mp4", |p: &String| p == "m/a.b.mp4").unwrap(),
        "m/a.b (2).mp4"
    );
    assert_eq!(unique_media_path("m", "plain", |p: &String| p == "m/plain").unwrap(), "m/plain (2)");
    assert_eq!(unique_media_path("m", ".mp4", |p: &String| p == "m/.mp4").unwrap(), "m/ (2).mp4");
}

#[test]
fn candidates_differ_and_lie_in_the_library() {
    assert_eq!(media_candidate("m", "a.mp4", 1), "m/a.mp4");
    assert_eq!(media_candidate("m", "a.mp4", 12), "m/a (12).mp4");
    assert_ne!(media_candidate("m", "a.mp4", 2), media_candidate("m", "a.mp4", 12));
    assert_eq!(file_name(&media_candidate("/srv/m", "a.mp4", 12)).unwrap(), "a (12).mp4");
}

#[test]
fn job_ids_are_time_and_counter() {
    assert_eq!(new_id(1700000000000, 0), "17000000000000");
    assert_eq!(new_id(1700000000000, 12), "170000000000012");
    assert_ne!(new_id(1700000000000, 1), new_id(1700000000001, 1));
    assert_ne!(new_id(1700000000000, 1), new_id(1700000000000, 11));
}
