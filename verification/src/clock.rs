//! Log lines with the time of day in front.
use crate::numbers::{to_two_digits, two_digits};
use vstd::prelude::*;
use vstd::string::*;

verus! {

/// The UTC time of day, hours, minutes and seconds, at `secs` seconds since the epoch.
pub open spec fn time_of_day(secs: nat) -> Seq<char> {
    let t = secs % 86400;
    two_digits(t / 3600) + ":"@ + two_digits(t % 3600 / 60) + ":"@ + two_digits(t % 60)
}

/// A log line with the UTC time of day in front.
pub fn log_line(secs: u64, msg: &str) -> (line: String)
    ensures
        line@ == "["@ + time_of_day(secs as nat) + "] "@ + msg@,
{
    let t: u64 = secs % 86400;
    let h = to_two_digits(t / 3600);
    let m = to_two_digits(t % 3600 / 60);
    let s = to_two_digits(t % 60);
    let mut line = "[".to_string();
    line.append(h.as_str());
    line.append(":");
    line.append(m.as_str());
    line.append(":");
    line.append(s.as_str());
    line.append("] ");
    line.append(msg);
    assert(line@ =~= "["@ + time_of_day(secs as nat) + "] "@ + msg@);
    line
}

} // verus!
