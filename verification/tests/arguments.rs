use beng_leecher::args::{parse_args, ArgsExit, Config};

fn parse(args: &[&str]) -> Result<Config, ArgsExit> {
    parse_args(&args.iter().map(|s| s.to_string()).collect())
}

#[test]
fn defaults_hold_without_arguments() {
    let cfg = parse(&[]).unwrap();
    assert_eq!(cfg.addr, "0.0.0.0:3380");
    assert_eq!(cfg.media_dir, "media");
    assert_eq!(cfg.cache_ttl_secs, 3600);
}

#[test]
fn options_set_the_configuration() {
    let cfg = parse(&["-m", "/srv/media", "-t", "6h"]).unwrap();
    assert_eq!(cfg.addr, "0.0.0.0:3380");
    assert_eq!(cfg.media_dir, "/srv/media");
    assert_eq!(cfg.cache_ttl_secs, 21600);
    let cfg = parse(&["--address", "127.0.0.1:3380", "--media-dir", "m", "--cache-ttl", "0"]).unwrap();
    assert_eq!(cfg.addr, "127.0.0.1:3380");
    assert_eq!(cfg.media_dir, "m");
    assert_eq!(cfg.cache_ttl_secs, 0);
}

#[test]
fn last_option_wins_and_values_may_look_like_options() {
    let cfg = parse(&["-a", "x", "-a", "-m"]).unwrap();
    assert_eq!(cfg.addr, "-m");
}

#[test]
fn missing_value_is_reported() {
    let e = parse(&["-m", "x", "--address"]).err().unwrap();
    assert!(matches!(&e, ArgsExit::MissingValue(f) if f == "--address"));
    assert_eq!(e.message(), "--address vereist een waarde");
    assert_eq!(e.exit_code(), 2);
}

#[test]
fn invalid_duration_is_reported() {
    let e = parse(&["-t", "soon"]).err().unwrap();
    assert!(matches!(&e, ArgsExit::InvalidDuration(r) if r == "soon"));
    assert_eq!(e.message(), "Ongeldige duur 'soon'. Gebruik bijv. 30m, 2h, 1d of 0 (uit).");
    assert_eq!(e.exit_code(), 2);
}

#[test]
fn overflowing_duration_is_reported() {
    let e = parse(&["-t", "18446744073709551615d"]).err().unwrap();
    assert!(matches!(&e, ArgsExit::DurationOverflow(r) if r == "18446744073709551615d"));
    assert_eq!(e.exit_code(), 101);
}

#[test]
fn unknown_argument_is_reported() {
    let e = parse(&["--frobnicate", "-h"]).err().unwrap();
    assert!(matches!(&e, ArgsExit::Unknown(a) if a == "--frobnicate"));
    assert_eq!(e.message(), "Onbekend argument: --frobnicate  (gebruik --help)");
    assert_eq!(e.exit_code(), 2);
}

#[test]
fn help_ends_the_parsing() {
    let e = parse(&["-a", "x", "-h", "--frobnicate"]).err().unwrap();
    assert!(matches!(&e, ArgsExit::Help));
    assert_eq!(e.exit_code(), 0);
    assert_eq!(
        e.message(),
        "beng_leecher \u{2014} Schatkamer video downloader\n\n\
         Gebruik: beng_leecher [opties]\n\n\
         Opties:\n  \
         -a, --address   <host:port>  Luisteradres (standaard 0.0.0.0:3380)\n  \
         -m, --media-dir <pad>        Map voor permanent bewaarde bestanden (standaard media)\n  \
         -t, --cache-ttl <duur>       Bewaartijd tijdelijke downloads, bijv. 30m/2h/1d, 0=uit (standaard 60m)\n  \
         -h, --help                   Toon deze hulp"
    );
}
