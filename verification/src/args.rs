//! The command line: listen address, media directory and cache TTL.
use crate::duration::{duration_of, duration_seconds, law_duration_units, parse_duration};
use crate::numbers::{decimal, digit};
use crate::text::{same, views};
use vstd::prelude::*;
use vstd::string::*;

verus! {

pub const DEFAULT_ADDR: &'static str = "0.0.0.0:3380";

pub const DEFAULT_MEDIA_DIR: &'static str = "media";

pub const DEFAULT_CACHE_TTL: &'static str = "60m";

/// Runtime configuration assembled from command-line arguments.
pub struct Config {
    pub addr: String,
    /// Where "save to media server" downloads are kept permanently.
    pub media_dir: String,
    /// Seconds to keep cached files before purging; 0 disables purging.
    pub cache_ttl_secs: u64,
}

pub struct ConfigView {
    pub addr: Seq<char>,
    pub media_dir: Seq<char>,
    pub cache_ttl_secs: u64,
}

impl View for Config {
    type V = ConfigView;

    open spec fn view(&self) -> ConfigView {
        ConfigView {
            addr: self.addr@,
            media_dir: self.media_dir@,
            cache_ttl_secs: self.cache_ttl_secs,
        }
    }
}

/// Why the arguments give no configuration.
#[derive(Debug)]
pub enum ArgsExit {
    /// The help text was asked for.
    Help,
    /// The option is the last argument, without the value that it needs.
    MissingValue(String),
    /// The value of the TTL option is not a duration.
    InvalidDuration(String),
    /// The value of the TTL option is a duration that no 64-bit number of seconds holds.
    DurationOverflow(String),
    /// There is no such option.
    Unknown(String),
}

pub enum ArgsExitView {
    Help,
    MissingValue(Seq<char>),
    InvalidDuration(Seq<char>),
    DurationOverflow(Seq<char>),
    Unknown(Seq<char>),
}

impl View for ArgsExit {
    type V = ArgsExitView;

    open spec fn view(&self) -> ArgsExitView {
        match *self {
            ArgsExit::Help => ArgsExitView::Help,
            ArgsExit::MissingValue(s) => ArgsExitView::MissingValue(s@),
            ArgsExit::InvalidDuration(s) => ArgsExitView::InvalidDuration(s@),
            ArgsExit::DurationOverflow(s) => ArgsExitView::DurationOverflow(s@),
            ArgsExit::Unknown(s) => ArgsExitView::Unknown(s@),
        }
    }
}

pub open spec fn default_config() -> ConfigView {
    ConfigView { addr: DEFAULT_ADDR@, media_dir: DEFAULT_MEDIA_DIR@, cache_ttl_secs: 3600 }
}

pub open spec fn is_address_flag(a: Seq<char>) -> bool {
    a == "-a"@ || a == "--address"@
}

pub open spec fn is_media_flag(a: Seq<char>) -> bool {
    a == "-m"@ || a == "--media-dir"@
}

pub open spec fn is_ttl_flag(a: Seq<char>) -> bool {
    a == "-t"@ || a == "--cache-ttl"@
}

pub open spec fn is_help_flag(a: Seq<char>) -> bool {
    a == "-h"@ || a == "--help"@
}

/// What the arguments make of a configuration, from the left; the first one that
/// asks for help or is wrong ends it.
pub open spec fn configured(args: Seq<Seq<char>>, cfg: ConfigView) -> Result<
    ConfigView,
    ArgsExitView,
>
    decreases args.len(),
{
    if args.len() == 0 {
        Ok(cfg)
    } else if is_address_flag(args[0]) || is_media_flag(args[0]) || is_ttl_flag(args[0]) {
        if args.len() == 1 {
            Err(ArgsExitView::MissingValue(args[0]))
        } else if is_address_flag(args[0]) {
            configured(args.skip(2), ConfigView { addr: args[1], ..cfg })
        } else if is_media_flag(args[0]) {
            configured(args.skip(2), ConfigView { media_dir: args[1], ..cfg })
        } else {
            match duration_of(args[1]) {
                Some(n) => if n <= u64::MAX {
                    configured(args.skip(2), ConfigView { cache_ttl_secs: n as u64, ..cfg })
                } else {
                    Err(ArgsExitView::DurationOverflow(args[1]))
                },
                None => Err(ArgsExitView::InvalidDuration(args[1])),
            }
        }
    } else if is_help_flag(args[0]) {
        Err(ArgsExitView::Help)
    } else {
        Err(ArgsExitView::Unknown(args[0]))
    }
}

proof fn lemma_default_ttl()
    ensures
        duration_of(DEFAULT_CACHE_TTL@) == Some(3600nat),
{
    reveal_strlit("60m");
    reveal_with_fuel(decimal, 2);
    assert(digit(6) == '6' && digit(0) == '0');
    assert(DEFAULT_CACHE_TTL@ =~= decimal(60).push('m'));
    law_duration_units(60);
}

/// The configuration that holds where no argument says otherwise.
pub fn initial_config() -> (cfg: Config)
    ensures
        cfg@ == default_config(),
{
    proof {
        lemma_default_ttl();
    }
    let ttl: u64 = match parse_duration(DEFAULT_CACHE_TTL) {
        Some(s) => s,
        None => 0,
    };
    Config {
        addr: DEFAULT_ADDR.to_string(),
        media_dir: DEFAULT_MEDIA_DIR.to_string(),
        cache_ttl_secs: ttl,
    }
}

/// The configuration that the command-line arguments give, the program's name not
/// among them.
pub fn parse_args(args: &Vec<String>) -> (r: Result<Config, ArgsExit>)
    ensures
        match r {
            Ok(cfg) => configured(views(args@), default_config()) == Ok::<ConfigView, ArgsExitView>(
                cfg@,
            ),
            Err(e) => configured(views(args@), default_config()) == Err::<ConfigView, ArgsExitView>(
                e@,
            ),
        },
{
    let mut cfg = initial_config();
    let mut i: usize = 0;
    let ghost all = views(args@);
    assert(all.skip(0) =~= all);
    while i < args.len()
        invariant
            i <= args@.len(),
            all == views(args@),
            configured(all, default_config()) == configured(all.skip(i as int), cfg@),
        decreases args@.len() - i,
    {
        let ghost rest = all.skip(i as int);
        assert(rest[0] == args@[i as int]@);
        let a = args[i].as_str();
        let address = same(a, "-a") || same(a, "--address");
        let media = same(a, "-m") || same(a, "--media-dir");
        let ttl = same(a, "-t") || same(a, "--cache-ttl");
        if address || media || ttl {
            if i + 1 == args.len() {
                return Err(ArgsExit::MissingValue(args[i].clone()));
            }
            assert(rest[1] == args@[i + 1]@);
            assert(rest.skip(2) =~= all.skip(i + 2));
            if address {
                cfg.addr = args[i + 1].clone();
            } else if media {
                cfg.media_dir = args[i + 1].clone();
            } else {
                match duration_seconds(args[i + 1].as_str()) {
                    Ok(Some(s)) => {
                        cfg.cache_ttl_secs = s;
                    },
                    Ok(None) => {
                        return Err(ArgsExit::InvalidDuration(args[i + 1].clone()));
                    },
                    Err(_) => {
                        return Err(ArgsExit::DurationOverflow(args[i + 1].clone()));
                    },
                }
            }
            i = i + 2;
        } else if same(a, "-h") || same(a, "--help") {
            return Err(ArgsExit::Help);
        } else {
            return Err(ArgsExit::Unknown(args[i].clone()));
        }
    }
    assert(all.skip(i as int) =~= Seq::<Seq<char>>::empty());
    Ok(cfg)
}

pub const HELP_HEAD: &'static str =
    "beng_leecher \u{2014} Schatkamer video downloader\n\nGebruik: beng_leecher [opties]\n\nOpties:\n";

/// The help text.
pub open spec fn help_text() -> Seq<char> {
    HELP_HEAD@ + "  -a, --address   <host:port>  Luisteradres (standaard "@ + DEFAULT_ADDR@ + ")\n"@
        + "  -m, --media-dir <pad>        Map voor permanent bewaarde bestanden (standaard "@
        + DEFAULT_MEDIA_DIR@ + ")\n"@
        + "  -t, --cache-ttl <duur>       Bewaartijd tijdelijke downloads, bijv. 30m/2h/1d, 0=uit (standaard "@
        + DEFAULT_CACHE_TTL@ + ")\n"@ + "  -h, --help                   Toon deze hulp"@
}

impl ArgsExit {
    /// What the program prints before it ends.
    pub fn message(&self) -> (m: String)
        ensures
            m@ == (match self@ {
                ArgsExitView::Help => help_text(),
                ArgsExitView::MissingValue(flag) => flag + " vereist een waarde"@,
                ArgsExitView::InvalidDuration(raw) => "Ongeldige duur '"@ + raw
                    + "'. Gebruik bijv. 30m, 2h, 1d of 0 (uit)."@,
                ArgsExitView::DurationOverflow(raw) => "Te lange duur '"@ + raw + "'."@,
                ArgsExitView::Unknown(a) => "Onbekend argument: "@ + a + "  (gebruik --help)"@,
            }),
    {
        match self {
            ArgsExit::Help => {
                let mut m = HELP_HEAD.to_string();
                m.append("  -a, --address   <host:port>  Luisteradres (standaard ");
                m.append(DEFAULT_ADDR);
                m.append(")\n");
                m.append(
                    "  -m, --media-dir <pad>        Map voor permanent bewaarde bestanden (standaard ",
                );
                m.append(DEFAULT_MEDIA_DIR);
                m.append(")\n");
                m.append(
                    "  -t, --cache-ttl <duur>       Bewaartijd tijdelijke downloads, bijv. 30m/2h/1d, 0=uit (standaard ",
                );
                m.append(DEFAULT_CACHE_TTL);
                m.append(")\n");
                m.append("  -h, --help                   Toon deze hulp");
                m
            },
            ArgsExit::MissingValue(flag) => {
                let mut m = flag.clone();
                m.append(" vereist een waarde");
                m
            },
            ArgsExit::InvalidDuration(raw) => {
                let mut m = "Ongeldige duur '".to_string();
                m.append(raw.as_str());
                m.append("'. Gebruik bijv. 30m, 2h, 1d of 0 (uit).");
                m
            },
            ArgsExit::DurationOverflow(raw) => {
                let mut m = "Te lange duur '".to_string();
                m.append(raw.as_str());
                m.append("'.");
                m
            },
            ArgsExit::Unknown(a) => {
                let mut m = "Onbekend argument: ".to_string();
                m.append(a.as_str());
                m.append("  (gebruik --help)");
                m
            },
        }
    }

    /// The status with which the program ends; that of a panic where the seconds
    /// of the TTL overflow.
    pub fn exit_code(&self) -> (code: i32)
        ensures
            code == (match self@ {
                ArgsExitView::Help => 0i32,
                ArgsExitView::DurationOverflow(_) => 101i32,
                _ => 2i32,
            }),
    {
        match self {
            ArgsExit::Help => 0,
            ArgsExit::DurationOverflow(_) => 101,
            _ => 2,
        }
    }
}

} // verus!
