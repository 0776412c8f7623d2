//! Compact compound-duration formatting.
//!
//! Turns a scalar count of seconds (or nanoseconds) into a terse
//! human-readable string such as `69d10h40m` or `3s129µs723ns`: the value is
//! decomposed against a descending ladder of unit sizes, zero-valued units
//! are skipped, and the non-zero terms are concatenated largest first.
//!
//! All entry points take a 64-bit unsigned count. A caller holding a wider
//! integer must narrow it first; such a narrowing keeps only the low-order
//! 64 bits and is lossy by design.

use vstd::prelude::*;

pub mod model;
mod render;

verus! {

/// One nanosecond, in nanoseconds.
pub const NS: u64 = 1;

/// One microsecond, in nanoseconds.
pub const US: u64 = 1_000;

/// One millisecond, in nanoseconds.
pub const MS: u64 = 1_000_000;

/// One second, in nanoseconds.
pub const NANOS: u64 = 1_000_000_000;

/// One second, in seconds.
pub const SECOND: u64 = 1;

/// One minute, in seconds.
pub const MINUTE: u64 = 60;

/// One hour, in seconds.
pub const HOUR: u64 = 3_600;

/// One day, in seconds.
pub const DAY: u64 = 86_400;

/// One week, in seconds.
pub const WEEK: u64 = 604_800;

/// Converts a count of seconds to a compound duration over days, hours,
/// minutes and seconds, such as `69d10h40m`.
///
/// Zero-valued units are omitted; a zero input yields `0s`.
#[must_use]
pub fn format_dhms(seconds: u64) -> (r: String)
    ensures
        r@ == model::format_spec(seconds as nat, model::dhms_ladder()),
{
    if seconds == 0 {
        proof {
            reveal_strlit("0s");
            reveal_strlit("s");
            assert("0s"@ =~= model::format_spec(0, model::dhms_ladder()));
        }
        return String::from_str("0s");
    }
    let mut buf = String::new();
    let days = seconds / DAY;
    let mut sec = seconds % DAY;
    render::push_term(&mut buf, days, "d");
    let hours = sec / HOUR;
    sec = sec % HOUR;
    render::push_term(&mut buf, hours, "h");
    let minutes = sec / MINUTE;
    sec = sec % MINUTE;
    render::push_term(&mut buf, minutes, "m");
    render::push_term(&mut buf, sec, "s");
    proof {
        model::lemma_dhms_render(seconds as nat);
        assert(buf@ =~= model::format_spec(seconds as nat, model::dhms_ladder()));
    }
    buf
}

/// Converts a count of seconds to a compound duration over weeks, days,
/// hours, minutes and seconds, such as `9w6d10h40m`.
///
/// Zero-valued units are omitted; a zero input yields `0s`.
#[must_use]
pub fn format_wdhms(seconds: u64) -> (r: String)
    ensures
        r@ == model::format_spec(seconds as nat, model::wdhms_ladder()),
{
    if seconds == 0 {
        proof {
            reveal_strlit("0s");
            reveal_strlit("s");
            assert("0s"@ =~= model::format_spec(0, model::wdhms_ladder()));
        }
        return String::from_str("0s");
    }
    let mut buf = String::new();
    let weeks = seconds / WEEK;
    let mut sec = seconds % WEEK;
    render::push_term(&mut buf, weeks, "w");
    let days = sec / DAY;
    sec = sec % DAY;
    render::push_term(&mut buf, days, "d");
    let hours = sec / HOUR;
    sec = sec % HOUR;
    render::push_term(&mut buf, hours, "h");
    let minutes = sec / MINUTE;
    sec = sec % MINUTE;
    render::push_term(&mut buf, minutes, "m");
    render::push_term(&mut buf, sec, "s");
    proof {
        model::lemma_wdhms_render(seconds as nat);
        assert(buf@ =~= model::format_spec(seconds as nat, model::wdhms_ladder()));
    }
    buf
}

/// Converts a count of nanoseconds to a compound duration over days, hours,
/// minutes, seconds, milliseconds, microseconds and nanoseconds, such as
/// `3s129µs723ns`.
///
/// Zero-valued units are omitted; a zero input yields `0ns`.
#[must_use]
pub fn format_ns(nanos: u64) -> (r: String)
    ensures
        r@ == model::format_spec(nanos as nat, model::ns_ladder()),
{
    if nanos == 0 {
        proof {
            reveal_strlit("0ns");
            reveal_strlit("ns");
            assert("0ns"@ =~= model::format_spec(0, model::ns_ladder()));
        }
        return String::from_str("0ns");
    }
    let mut buf = String::new();
    let days = nanos / (DAY * NANOS);
    let mut ns = nanos % (DAY * NANOS);
    render::push_term(&mut buf, days, "d");
    let hours = ns / (HOUR * NANOS);
    ns = ns % (HOUR * NANOS);
    render::push_term(&mut buf, hours, "h");
    let minutes = ns / (MINUTE * NANOS);
    ns = ns % (MINUTE * NANOS);
    render::push_term(&mut buf, minutes, "m");
    let sec = ns / (SECOND * NANOS);
    ns = ns % (SECOND * NANOS);
    render::push_term(&mut buf, sec, "s");
    let millis = ns / MS;
    ns = ns % MS;
    render::push_term(&mut buf, millis, "ms");
    let micros = ns / US;
    ns = ns % US;
    render::push_term(&mut buf, micros, "\u{b5}s");
    render::push_term(&mut buf, ns, "ns");
    proof {
        model::lemma_ns_render(nanos as nat);
        assert(buf@ =~= model::format_spec(nanos as nat, model::ns_ladder()));
    }
    buf
}

} // verus!
