use beng_leecher::encoder::{encode_args, error_line, probe_args, progress_value};
use beng_leecher::page::{
    cookie_header, find_signed_address, page_title, plain_address, title_or_default,
    unescape_address,
};
use beng_leecher::series::{
    html_unescape, list_episodes, resolve_series, series_base, series_fetch_url, series_response,
    SeriesError,
};

#[test]
fn signed_address_is_found_and_unescaped() {
    let html = "x\"src\":\"https://sk-video.cdn.beeldengeluid.nl/a/b.m3u8?Policy=aB_~-\\u0026Sig=x%20\\u0026Key=1\",";
    let signed = find_signed_address(html).unwrap();
    assert_eq!(signed, "https://sk-video.cdn.beeldengeluid.nl/a/b.m3u8?Policy=aB_~-&Sig=x%20&Key=1");
    assert_eq!(plain_address(&signed), "https://sk-video.cdn.beeldengeluid.nl/a/b.m3u8");
}

#[test]
fn signed_address_ends_where_the_query_ends() {
    let find = |s: &str| find_signed_address(s);
    assert_eq!(find("https://sk-video.m3u8?").unwrap(), "https://sk-video.m3u8?");
    assert_eq!(find("https://sk-video.m3u8?a=1&b=2").unwrap(), "https://sk-video.m3u8?a=1");
    assert_eq!(find("https://sk-video/x.m3u8?a\\u0026\\u0026b\\u002").unwrap(), "https://sk-video/x.m3u8?a&&b");
    // The path takes as much as it can.
    assert_eq!(
        find("https://sk-video/x.m3u8?a.m3u8?b c").unwrap(),
        "https://sk-video/x.m3u8?a.m3u8?b"
    );
}

#[test]
fn first_address_counts() {
    let html = "https://sk-video/no\" https://sk-video/one.m3u8?1\" https://sk-video/two.m3u8?2";
    assert_eq!(find_signed_address(html).unwrap(), "https://sk-video/one.m3u8?1");
}

#[test]
fn pages_without_stream_give_none() {
    for html in [
        "",
        "https://sk-video.cdn/x.m3u8",
        "https://other/x.m3u8?a",
        "https://sk-video\\x.m3u8?a",
        "https://sk-video\".m3u8?a",
    ] {
        assert_eq!(find_signed_address(html), None, "{html}");
    }
}

#[test]
fn unescaping_takes_every_escape() {
    assert_eq!(unescape_address("a\\u0026b\\u0026"), "a&b&");
    assert_eq!(unescape_address("a\\u0027"), "a\\u0027");
}

#[test]
fn title_is_the_first_tag() {
    assert_eq!(page_title("<head><title>  Afl. 1 | De Schatkamer\n</title>"), "Afl. 1 | De Schatkamer");
    assert_eq!(page_title("<title>a<b</title><title>second</title>"), "second");
    assert_eq!(page_title("<title></title><title>x</title>"), "schatkamer-video");
    assert_eq!(page_title("<title> \n </title>"), "schatkamer-video");
    assert_eq!(page_title("no title"), "schatkamer-video");
    assert_eq!(page_title(""), "schatkamer-video");
    assert_eq!(page_title("<title><title>in</title>"), "in");
}

#[test]
fn title_group_falls_back() {
    assert_eq!(title_or_default(Some(" x ".to_string())), "x");
    assert_eq!(title_or_default(Some("  ".to_string())), "schatkamer-video");
    assert_eq!(title_or_default(None), "schatkamer-video");
}

fn headers(v: &[&str]) -> Vec<Option<String>> {
    v.iter().map(|s| Some(s.to_string())).collect()
}

#[test]
fn signed_cookies_are_handed_on() {
    let h = headers(&[
        "CloudFront-Policy=abc; Path=/; Secure; HttpOnly",
        "session=1; Path=/",
        "  CloudFront-Signature=x=y  ;Secure",
        "CloudFront-Key-Pair-Id=K",
    ]);
    assert_eq!(
        cookie_header(&h).unwrap(),
        "CloudFront-Policy=abc; CloudFront-Signature=x=y; CloudFront-Key-Pair-Id=K"
    );
}

#[test]
fn answers_without_signed_cookies_give_none() {
    assert_eq!(cookie_header(&Vec::new()), None);
    assert_eq!(cookie_header(&headers(&["a=b", "", "x; CloudFront-Policy=1"])), None);
    assert_eq!(cookie_header(&vec![None]), None);
    assert_eq!(
        cookie_header(&vec![None, Some("CloudFront-A=1".to_string())]).unwrap(),
        "CloudFront-A=1"
    );
}

#[test]
fn entities_are_decoded() {
    assert_eq!(html_unescape("a &amp; b &#x27;c&#39; &quot;d&quot; &lt;e&gt;"), "a & b 'c' \"d\" <e>");
    assert_eq!(html_unescape("&amp;lt;"), "<");
    assert_eq!(html_unescape("&nbsp;&amp"), "&nbsp;&amp");
    assert_eq!(html_unescape("plain text"), "plain text");
    assert_eq!(html_unescape(""), "");
}

#[test]
fn series_urls_are_recognised() {
    let base = series_base("https://schatkamer.beeldengeluid.nl/serie/12/naam//?x=1&y=/").unwrap();
    assert_eq!(base, "https://schatkamer.beeldengeluid.nl/serie/12/naam");
    assert_eq!(
        series_fetch_url(&base),
        "https://schatkamer.beeldengeluid.nl/serie/12/naam?alleenafspeelbaar=ja"
    );
    assert_eq!(series_base("http://x?y=/serie/").unwrap(), "http://x");
}

#[test]
fn other_urls_are_no_series() {
    for url in ["", "ftp://x/serie/1", "https://x/aflevering/1", "/serie/1", " https://x/serie/1"] {
        assert!(matches!(series_base(url), Err(SeriesError::InvalidUrl)), "{url}");
    }
    assert_eq!(SeriesError::InvalidUrl.message(), "Geef een geldige serie-URL op.");
}

#[test]
fn series_errors_have_messages() {
    assert_eq!(
        SeriesError::Unreachable("x".to_string()).message(),
        "Serie-pagina ophalen mislukt: x"
    );
    assert_eq!(SeriesError::Unreadable("x".to_string()).message(), "Serie-pagina lezen mislukt: x");
    assert_eq!(
        SeriesError::NoEpisodes.message(),
        "Geen afspeelbare afleveringen gevonden op deze serie-pagina."
    );
}

fn episode(id: &str, title: &str, series: &str) -> String {
    format!("\\\"id\\\":\\\"{id}\\\",\\\"title\\\":\\\"{title}\\\",\\\"seriesTitle\\\":\\\"{series}\\\"")
}

#[test]
fn episodes_are_listed_once_in_page_order() {
    let html = format!(
        "x{}y{}{}z{}",
        episode("20", "Tom &amp; Jerry", "De &quot;Serie&quot;"),
        episode("10", "twee", "Andere"),
        episode("20", "nog eens", "x"),
        episode("a1", "geen id", "x")
    );
    let l = resolve_series(&html).unwrap();
    assert_eq!(l.series_title, "De \"Serie\"");
    let got: Vec<(&str, &str)> =
        l.entries.iter().map(|e| (e.id.as_str(), e.title.as_str())).collect();
    assert_eq!(got, vec![("20", "Tom & Jerry"), ("10", "twee")]);
}

#[test]
fn matches_do_not_overlap() {
    let html = format!("{}:\\\"5\\\",\\\"title\\\":\\\"t\\\",\\\"seriesTitle\\\":\\\"s\\\"", episode("1", "a", "id"));
    let l = resolve_series(&html).unwrap();
    assert_eq!(l.entries.len(), 1);
    assert_eq!(l.entries[0].id, "1");
}

#[test]
fn pages_without_episodes_are_an_error() {
    for html in ["", "<html>", "\"id\":\"1\",\"title\":\"x\",\"seriesTitle\":\"y\""] {
        assert!(matches!(resolve_series(html), Err(SeriesError::NoEpisodes)));
    }
    assert!(matches!(resolve_series(&episode("1", "", "y")), Err(SeriesError::NoEpisodes)));
    assert!(matches!(list_episodes(&Vec::new()), Err(SeriesError::NoEpisodes)));
}

fn group(id: &str, title: &str, series: &str) -> (String, String, String) {
    (id.to_string(), title.to_string(), series.to_string())
}

#[test]
fn series_title_is_the_first_that_is_not_empty() {
    let l = list_episodes(&vec![group("1", "a", ""), group("1", "b", "dup"), group("2", "c", "S")]);
    assert_eq!(l.unwrap().series_title, "S");
    let l = list_episodes(&vec![group("1", "a", "")]).unwrap();
    assert_eq!(l.series_title, "Serie");
    assert_eq!(l.entries[0].title, "a");
}

#[test]
fn response_has_addresses_and_flags() {
    let l = list_episodes(&vec![group("1", "a", "S"), group("2", "b", "S")]).unwrap();
    let r = series_response("https://x/serie/9", l, &vec![false, true]);
    assert_eq!(r.series_title, "S");
    assert_eq!(r.episodes.len(), 2);
    assert_eq!(r.episodes[0].url, "https://x/serie/9/aflevering/1");
    assert_eq!(r.episodes[0].title, "a");
    assert!(!r.episodes[0].downloaded);
    assert_eq!(r.episodes[1].url, "https://x/serie/9/aflevering/2");
    assert!(r.episodes[1].downloaded);
}

#[test]
fn command_lines_are_as_ffmpeg_wants_them() {
    assert_eq!(
        probe_args("M", "C"),
        [
            "-v", "error", "-headers", "Cookie: C\r\n", "-show_entries", "format=duration", "-of",
            "default=nw=1:nk=1", "-i", "M"
        ]
    );
    assert_eq!(
        encode_args("M", "C", "O"),
        [
            "-y", "-loglevel", "error", "-headers", "Cookie: C\r\n", "-i", "M", "-map", "0:v:0",
            "-map", "0:a:0", "-c", "copy", "-movflags", "+faststart", "-progress", "pipe:1",
            "-nostats", "O"
        ]
    );
}

#[test]
fn progress_lines_are_read() {
    assert_eq!(progress_value("out_time_us=1500000").unwrap(), "1500000");
    assert_eq!(progress_value("out_time_ms= 7 ").unwrap(), "7");
    assert_eq!(progress_value("out_time=00:00:01"), None);
    assert_eq!(progress_value(" out_time_us=1"), None);
    assert_eq!(progress_value(""), None);
}

#[test]
fn last_error_line_is_reported() {
    assert_eq!(error_line("a\nb\r\nlast  \n\n"), "last");
    assert_eq!(error_line("only"), "only");
    assert_eq!(error_line(" \n "), "onbekende fout");
    for s in ["x\ny", "x\r\ny\r\n", "\n\nz"] {
        assert_eq!(error_line(s), s.trim().lines().last().unwrap());
    }
}

#[test]
fn series_is_called_as_its_first_episode_says() {
    let html = format!("{}{}", episode("1", "a", "Een &amp; twee"), episode("2", "b", "Drie"));
    assert_eq!(resolve_series(&html).unwrap().series_title, "Een & twee");
}
