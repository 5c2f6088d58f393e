//! What holds of the command line: every option takes effect as it is given, the last one
//! of its sort counts, and the first fault ends the reading.
use crate::args::{configured, ArgsExitView, ConfigView};
use crate::duration::duration_of;
use crate::numbers::{all_digits, law_parse, numeral_value, parsed_u64};
use crate::text::{is_ascii_digit, trimmed};
use crate::text_laws::{is_blank, is_tight, law_trim, lemma_trim_parts};
use vstd::prelude::*;

verus! {

/// A numeral with a unit behind it counts that unit, a bare one counts minutes, and white
/// space around the duration and before its unit does not matter.
pub proof fn law_duration_is_read(
    lead: Seq<char>,
    numeral: Seq<char>,
    gap: Seq<char>,
    trail: Seq<char>,
    n: u64,
)
    requires
        is_blank(lead),
        is_blank(gap),
        is_blank(trail),
        parsed_u64(numeral) == Some(n),
    ensures
        duration_of(lead + (numeral + gap + seq!['s']) + trail) == Some(n as nat),
        duration_of(lead + (numeral + gap + seq!['m']) + trail) == Some((n * 60) as nat),
        duration_of(lead + (numeral + gap + seq!['h']) + trail) == Some((n * 3600) as nat),
        duration_of(lead + (numeral + gap + seq!['d']) + trail) == Some((n * 86400) as nat),
        duration_of(lead + numeral + trail) == Some((n * 60) as nat),
{
    lemma_numeral_is_tight(numeral);
    lemma_with_unit(lead, numeral, gap, 's', trail, n);
    lemma_with_unit(lead, numeral, gap, 'm', trail, n);
    lemma_with_unit(lead, numeral, gap, 'h', trail, n);
    lemma_with_unit(lead, numeral, gap, 'd', trail, n);
    let e = Seq::<char>::empty();
    law_trim(lead, numeral, trail);
    law_trim(e, numeral, e);
    assert(e + numeral + e =~= numeral);
    reveal_strlit("0");
    if numeral == "0"@ {
        assert(numeral[0] == '0');
        assert(numeral.drop_last() =~= e);
        assert(numeral_value(e) == 0);
        assert(numeral_value(numeral) == 0);
        law_parse(numeral, numeral);
    }
}

proof fn lemma_numeral_is_tight(numeral: Seq<char>)
    requires
        parsed_u64(numeral) is Some,
    ensures
        numeral.len() > 0,
        is_tight(numeral),
        is_ascii_digit(numeral.last()),
{
    law_parse(numeral, numeral);
    let n = numeral.len() as int;
    if all_digits(numeral) {
        assert(is_ascii_digit(numeral[0]) && is_ascii_digit(numeral[n - 1]));
    } else {
        let d = numeral.skip(1);
        assert(is_ascii_digit(d[n - 2]));
        assert(d[n - 2] == numeral[n - 1]);
    }
}

proof fn lemma_with_unit(
    lead: Seq<char>,
    numeral: Seq<char>,
    gap: Seq<char>,
    c: char,
    trail: Seq<char>,
    n: u64,
)
    requires
        is_blank(lead),
        is_blank(gap),
        is_blank(trail),
        parsed_u64(numeral) == Some(n),
        c == 's' || c == 'm' || c == 'h' || c == 'd',
    ensures
        duration_of(lead + (numeral + gap + seq![c]) + trail) == Some(
            (n * (if c == 's' {
                1int
            } else if c == 'm' {
                60
            } else if c == 'h' {
                3600
            } else {
                86400
            })) as nat,
        ),
{
    lemma_numeral_is_tight(numeral);
    let t = numeral + gap + seq![c];
    let e = Seq::<char>::empty();
    assert(t[0] == numeral[0]);
    assert(t[t.len() - 1] == c);
    law_trim(lead, t, trail);
    assert(t.drop_last() =~= e + numeral + gap);
    law_trim(e, numeral, gap);
    reveal_strlit("0");
    assert(t.last() != "0"@[0]);
}

/// Nothing else is a duration.
pub proof fn law_nothing_else_is_a_duration(s: Seq<char>)
    requires
        duration_of(s) is Some,
    ensures
        ({
            let t = trimmed(s);
            &&& t.len() > 0
            &&& {
                ||| '0' <= t.last() <= '9' && parsed_u64(t) is Some
                ||| (t.last() == 's' || t.last() == 'm' || t.last() == 'h' || t.last() == 'd')
                    && parsed_u64(trimmed(t.drop_last())) is Some
            }
        }),
{
    let t = trimmed(s);
    let e = Seq::<char>::empty();
    reveal_strlit("0");
    if t == "0"@ {
        assert(t[0] == '0');
        assert(all_digits(t));
        assert(t.drop_last() =~= e);
        assert(numeral_value(e) == 0);
        assert(numeral_value(t) == 0);
        law_parse(t, t);
    } else if is_ascii_digit(t.last()) {
        if parsed_u64(trimmed(t)) is Some {
            let (a, b) = lemma_trim_parts(s);
            law_trim(e, t, e);
            assert(e + t + e =~= t);
        }
    }
}

/// An option with its value, which for the TTL is a duration that fits.
pub open spec fn is_setting(option: Seq<char>, value: Seq<char>) -> bool {
    ||| option == "-a"@ || option == "--address"@
    ||| option == "-m"@ || option == "--media-dir"@
    ||| (option == "-t"@ || option == "--cache-ttl"@) && (duration_of(value) matches Some(n) && n
        <= u64::MAX)
}

/// Options, each with its value behind it.
pub open spec fn are_settings(args: Seq<Seq<char>>) -> bool {
    &&& args.len() % 2 == 0
    &&& forall|i: int|
        0 <= i < args.len() && i % 2 == 0 ==> is_setting(#[trigger] args[i], args[i + 1])
}

/// From `i` on none of the arguments in the place of an option is `short` or `long`.
pub open spec fn absent_from(
    args: Seq<Seq<char>>,
    i: int,
    short: Seq<char>,
    long: Seq<char>,
) -> bool {
    forall|j: int|
        i <= j < args.len() && j % 2 == 0 ==> #[trigger] args[j] != short && args[j] != long
}

/// The last time that `short` or `long` is given is at `i`.
pub open spec fn last_given(
    args: Seq<Seq<char>>,
    i: int,
    short: Seq<char>,
    long: Seq<char>,
) -> bool {
    &&& 0 <= i < args.len() && i % 2 == 0
    &&& args[i] == short || args[i] == long
    &&& absent_from(args, i + 1, short, long)
}

proof fn lemma_options_differ()
    ensures
        "-a"@ != "-m"@ && "-a"@ != "-t"@ && "-a"@ != "-h"@ && "-m"@ != "-t"@ && "-m"@ != "-h"@
            && "-t"@ != "-h"@,
        "--address"@ != "--media-dir"@ && "--address"@ != "--cache-ttl"@ && "--address"@
            != "--help"@ && "--media-dir"@ != "--cache-ttl"@ && "--media-dir"@ != "--help"@
            && "--cache-ttl"@ != "--help"@,
        "-a"@.len() == 2 && "-m"@.len() == 2 && "-t"@.len() == 2 && "-h"@.len() == 2,
        "--address"@.len() > 2 && "--media-dir"@.len() > 2 && "--cache-ttl"@.len() > 2
            && "--help"@.len() > 2,
{
    reveal_strlit("-a");
    reveal_strlit("-m");
    reveal_strlit("-t");
    reveal_strlit("-h");
    reveal_strlit("--address");
    reveal_strlit("--media-dir");
    reveal_strlit("--cache-ttl");
    reveal_strlit("--help");
    assert("-a"@[1] == 'a' && "-m"@[1] == 'm' && "-t"@[1] == 't' && "-h"@[1] == 'h');
    assert("--address"@[2] == 'a' && "--media-dir"@[2] == 'm' && "--cache-ttl"@[2] == 'c'
        && "--help"@[2] == 'h');
}

proof fn lemma_settings_rest(args: Seq<Seq<char>>)
    requires
        are_settings(args),
        args.len() > 0,
    ensures
        args.len() >= 2,
        is_setting(args[0], args[1]),
        are_settings(args.skip(2)),
{
    let rest = args.skip(2);
    assert(is_setting(args[0], args[0int + 1]));
    assert forall|i: int| 0 <= i < rest.len() && i % 2 == 0 implies is_setting(
        #[trigger] rest[i],
        rest[i + 1],
    ) by {
        assert(rest[i] == args[i + 2]);
        assert(rest[i + 1] == args[i + 2 + 1]);
    }
}

/// Options take effect as they are given: the last address, the last media directory and
/// the last TTL, in seconds, are those of the configuration; what no option sets stays as
/// it was; and an option sets nothing but its own field.
pub proof fn law_last_option_counts(args: Seq<Seq<char>>, cfg: ConfigView, i: int)
    requires
        are_settings(args),
    ensures
        configured(args, cfg) is Ok,
        ({
            let c = configured(args, cfg)->Ok_0;
            &&& absent_from(args, 0, "-a"@, "--address"@) ==> c.addr == cfg.addr
            &&& last_given(args, i, "-a"@, "--address"@) ==> c.addr == args[i + 1]
            &&& absent_from(args, 0, "-m"@, "--media-dir"@) ==> c.media_dir == cfg.media_dir
            &&& last_given(args, i, "-m"@, "--media-dir"@) ==> c.media_dir == args[i + 1]
            &&& absent_from(args, 0, "-t"@, "--cache-ttl"@) ==> c.cache_ttl_secs
                == cfg.cache_ttl_secs
            &&& last_given(args, i, "-t"@, "--cache-ttl"@) ==> Some(c.cache_ttl_secs as nat)
                == duration_of(args[i + 1])
        }),
    decreases args.len(),
{
    lemma_options_differ();
    if args.len() > 0 {
        lemma_settings_rest(args);
        let rest = args.skip(2);
        let a = args[0];
        let next = if a == "-a"@ || a == "--address"@ {
            ConfigView { addr: args[1], ..cfg }
        } else if a == "-m"@ || a == "--media-dir"@ {
            ConfigView { media_dir: args[1], ..cfg }
        } else {
            ConfigView { cache_ttl_secs: duration_of(args[1])->0 as u64, ..cfg }
        };
        assert(configured(args, cfg) == configured(rest, next));
        law_last_option_counts(rest, next, i - 2);
        lemma_shift(args, i, "-a"@, "--address"@);
        lemma_shift(args, i, "-m"@, "--media-dir"@);
        lemma_shift(args, i, "-t"@, "--cache-ttl"@);
        if i >= 2 && i < args.len() && i % 2 == 0 {
            assert(rest[i - 2 + 1] == args[i + 1]);
        }
    }
}

proof fn lemma_shift(args: Seq<Seq<char>>, i: int, short: Seq<char>, long: Seq<char>)
    requires
        args.len() >= 2,
        args.len() % 2 == 0,
    ensures
        absent_from(args, 0, short, long) ==> absent_from(args.skip(2), 0, short, long) && args[0]
            != short && args[0] != long,
        last_given(args, i, short, long) && i >= 2 ==> last_given(args.skip(2), i - 2, short, long),
        last_given(args, i, short, long) && i < 2 ==> i == 0 && absent_from(
            args.skip(2),
            0,
            short,
            long,
        ),
{
    let rest = args.skip(2);
    assert(forall|j: int| 0 <= j < rest.len() ==> rest[j] == #[trigger] args[j + 2]);
    if absent_from(args, 0, short, long) {
        assert(args[0] != short);
        assert forall|j: int| 0 <= j < rest.len() && j % 2 == 0 implies #[trigger] rest[j] != short
            && rest[j] != long by {
            assert(args[j + 2] != short && args[j + 2] != long);
        }
    }
    if last_given(args, i, short, long) {
        let from = if i >= 2 {
            i - 1
        } else {
            0
        };
        assert forall|j: int|
            from <= j < rest.len() && j % 2 == 0 implies #[trigger] rest[j] != short && rest[j]
            != long by {
            assert(args[j + 2] != short && args[j + 2] != long);
        }
        if i >= 2 {
            assert(rest[i - 2] == args[i]);
        }
    }
}

/// The first argument that asks for help or is wrong decides, whatever comes behind it:
/// the option without a value, the value that is no duration or too long a one, and the
/// unknown argument are named.
pub proof fn law_first_fault_decides(
    good: Seq<Seq<char>>,
    rest: Seq<Seq<char>>,
    cfg: ConfigView,
)
    requires
        are_settings(good),
        rest.len() > 0,
    ensures
        ({
            let a = rest[0];
            let r = configured(good + rest, cfg);
            let is_ttl = a == "-t"@ || a == "--cache-ttl"@;
            let is_option = a == "-a"@ || a == "--address"@ || a == "-m"@ || a == "--media-dir"@
                || is_ttl;
            let is_help = a == "-h"@ || a == "--help"@;
            &&& is_help ==> r == Err::<ConfigView, ArgsExitView>(ArgsExitView::Help)
            &&& is_option && rest.len() == 1 ==> r == Err::<ConfigView, ArgsExitView>(
                ArgsExitView::MissingValue(a),
            )
            &&& is_ttl && rest.len() > 1 && duration_of(rest[1]) is None ==> r == Err::<
                ConfigView,
                ArgsExitView,
            >(ArgsExitView::InvalidDuration(rest[1]))
            &&& is_ttl && rest.len() > 1 && (duration_of(rest[1]) matches Some(n) && n > u64::MAX)
                ==> r == Err::<ConfigView, ArgsExitView>(ArgsExitView::DurationOverflow(rest[1]))
            &&& !is_option && !is_help ==> r == Err::<ConfigView, ArgsExitView>(
                ArgsExitView::Unknown(a),
            )
        }),
    decreases good.len(),
{
    lemma_options_differ();
    let all = good + rest;
    if good.len() == 0 {
        assert(all =~= rest);
    } else {
        lemma_settings_rest(good);
        let tail = good.skip(2);
        assert(all.skip(2) =~= tail + rest);
        assert(all[0] == good[0] && all[1] == good[1]);
        let a = good[0];
        let next = if a == "-a"@ || a == "--address"@ {
            ConfigView { addr: good[1], ..cfg }
        } else if a == "-m"@ || a == "--media-dir"@ {
            ConfigView { media_dir: good[1], ..cfg }
        } else {
            ConfigView { cache_ttl_secs: duration_of(good[1])->0 as u64, ..cfg }
        };
        assert(configured(all, cfg) == configured(tail + rest, next));
        law_first_fault_decides(tail, rest, next);
    }
}

} // verus!
