//! The command-line settings: the checks on the numbers given for the ping
//! timeout and interval, and on the Redis host.

use vstd::prelude::*;
use vstd::string::*;
use crate::text::{parse_i64, parse_u64, spec_parse_i64, spec_parse_u64};

verus! {

/// Whether a flag's value is a positive number: a decimal `u64`, or else a
/// floating-point number above zero. This machine's floating-point parse and
/// comparison decide the second case; `float_is_positive` is their answer
/// for `v`.
pub fn is_positive(v: String, float_is_positive: bool) -> (r: Result<(), String>)
    ensures
        r is Ok <==> spec_parse_u64(v@) is Some || float_is_positive,
        r matches Err(m) ==> m@ == v@ + " isn't a positive number"@,
{
    if parse_u64(v.as_str()).is_some() {
        return Ok(());
    }
    if float_is_positive {
        return Ok(());
    }
    Err(v.concat(" isn't a positive number"))
}

/// The interval, in seconds, between ping rounds when its flag cannot be read
/// as an integer.
pub const DEFAULT_PING_INTERVAL: i64 = 5;

/// The interval that the flag's text gives: the integer it denotes, or the
/// default where it denotes none.
pub open spec fn spec_ping_interval(text: Seq<char>) -> i64 {
    match spec_parse_i64(text) {
        Some(i) => i,
        None => DEFAULT_PING_INTERVAL,
    }
}

/// The interval is the integer the flag's text denotes whenever it denotes
/// one, whatever its value; the default is taken only for a text that
/// denotes no integer.
pub proof fn lemma_interval_is_the_given_integer(text: Seq<char>)
    ensures
        spec_parse_i64(text) matches Some(i) ==> spec_ping_interval(text) == i,
        spec_parse_i64(text) is None ==> spec_ping_interval(text) == DEFAULT_PING_INTERVAL,
        spec_ping_interval(text) != DEFAULT_PING_INTERVAL ==> spec_parse_i64(text) is Some,
{
}

/// The settings that the flags give, apart from the ping timeout.
pub struct Settings {
    pub redis_host: String,
    pub ping_interval: i64,
}

/// Checks the Redis host flag, which must be an IPv4 or IPv6 address (this
/// machine's address parser decides which, if either, it is), and reads the
/// ping interval.
pub fn configure(
    redis_host: String,
    is_ipv4: bool,
    is_ipv6: bool,
    ping_interval: &str,
) -> (r: Result<Settings, String>)
    ensures
        r is Err <==> !is_ipv4 && !is_ipv6,
        r matches Err(m) ==> m@ == "Wrong redis host address"@,
        r matches Ok(s) ==> s.redis_host@ == redis_host@ && s.ping_interval == spec_ping_interval(
            ping_interval@,
        ),
{
    if !is_ipv4 && !is_ipv6 {
        return Err(String::from_str("Wrong redis host address"));
    }
    let interval = match parse_i64(ping_interval) {
        Some(i) => i,
        None => DEFAULT_PING_INTERVAL,
    };
    Ok(Settings { redis_host, ping_interval: interval })
}

} // verus!
