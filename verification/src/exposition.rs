use vstd::prelude::*;
use vstd::string::*;
use crate::driver::IndexStats;
use crate::index::{GeoIndex, stale_ids};

verus! {

/// Age, in seconds, beyond which the periodic cleanup forgets a driver.
pub const CLEANUP_MAX_AGE_SECONDS: u64 = 600;

/// The character of a decimal digit.
pub open spec fn digit_char(digit: nat) -> char {
    if digit == 0 {
        '0'
    } else if digit == 1 {
        '1'
    } else if digit == 2 {
        '2'
    } else if digit == 3 {
        '3'
    } else if digit == 4 {
        '4'
    } else if digit == 5 {
        '5'
    } else if digit == 6 {
        '6'
    } else if digit == 7 {
        '7'
    } else if digit == 8 {
        '8'
    } else {
        '9'
    }
}

/// A number in decimal digits, without leading zeros.
pub open spec fn decimal(n: nat) -> Seq<char>
    decreases n,
{
    if n < 10 {
        seq![digit_char(n)]
    } else {
        decimal(n / 10).push(digit_char(n % 10))
    }
}

fn digit_text(digit: usize) -> (text: &'static str)
    requires
        digit < 10,
    ensures
        text@ == seq![digit_char(digit as nat)],
{
    proof {
        reveal_strlit("0");
        reveal_strlit("1");
        reveal_strlit("2");
        reveal_strlit("3");
        reveal_strlit("4");
        reveal_strlit("5");
        reveal_strlit("6");
        reveal_strlit("7");
        reveal_strlit("8");
        reveal_strlit("9");
    }
    let text = if digit == 0 {
        "0"
    } else if digit == 1 {
        "1"
    } else if digit == 2 {
        "2"
    } else if digit == 3 {
        "3"
    } else if digit == 4 {
        "4"
    } else if digit == 5 {
        "5"
    } else if digit == 6 {
        "6"
    } else if digit == 7 {
        "7"
    } else if digit == 8 {
        "8"
    } else {
        "9"
    };
    assert(text@ =~= seq![digit_char(digit as nat)]);
    text
}

/// Writes a number in decimal digits.
pub fn decimal_text(n: usize) -> (text: String)
    ensures
        text@ == decimal(n as nat),
    decreases n,
{
    if n < 10 {
        String::from_str(digit_text(n))
    } else {
        let mut text = decimal_text(n / 10);
        text.append(digit_text(n % 10));
        assert(text@ =~= decimal((n / 10) as nat).push(digit_char((n % 10) as nat)));
        text
    }
}

/// The lines that expose one gauge: its help, its type, and its level.
pub open spec fn gauge_text(name: Seq<char>, help: Seq<char>, level: nat) -> Seq<char> {
    "# HELP "@ + name + " "@ + help + "\n# TYPE "@ + name + " gauge\n"@ + name + " "@ + decimal(
        level,
    ) + "\n"@
}

/// Writes the lines that expose one gauge.
pub fn gauge_block(name: &str, help: &str, level: usize) -> (text: String)
    ensures
        text@ == gauge_text(name@, help@, level as nat),
{
    let mut text = String::from_str("# HELP ");
    text.append(name);
    text.append(" ");
    text.append(help);
    text.append("\n# TYPE ");
    text.append(name);
    text.append(" gauge\n");
    text.append(name);
    text.append(" ");
    let digits = decimal_text(level);
    text.append(digits.as_str());
    text.append("\n");
    text
}

/// The exposition of the five gauges of the index, an empty line between
/// one gauge and the next.
pub open spec fn metrics_text(stats: IndexStats) -> Seq<char> {
    gauge_text(
        "geo_index_total_drivers"@,
        "Total number of drivers in index"@,
        stats.total_drivers as nat,
    ) + "\n"@ + gauge_text(
        "geo_index_active_drivers"@,
        "Number of active drivers (not offline)"@,
        stats.active_drivers as nat,
    ) + "\n"@ + gauge_text(
        "geo_index_available_drivers"@,
        "Number of available drivers"@,
        stats.available_drivers as nat,
    ) + "\n"@ + gauge_text(
        "geo_index_total_buckets"@,
        "Total number of geohash buckets"@,
        stats.total_buckets as nat,
    ) + "\n"@ + gauge_text(
        "geo_index_precision"@,
        "Geohash precision level"@,
        stats.precision as nat,
    )
}

/// Writes the exposition of the five gauges of the index.
pub fn render_metrics(stats: &IndexStats) -> (text: String)
    ensures
        text@ == metrics_text(*stats),
{
    let mut text = gauge_block(
        "geo_index_total_drivers",
        "Total number of drivers in index",
        stats.total_drivers,
    );
    text.append("\n");
    let active = gauge_block(
        "geo_index_active_drivers",
        "Number of active drivers (not offline)",
        stats.active_drivers,
    );
    text.append(active.as_str());
    text.append("\n");
    let available = gauge_block(
        "geo_index_available_drivers",
        "Number of available drivers",
        stats.available_drivers,
    );
    text.append(available.as_str());
    text.append("\n");
    let buckets = gauge_block(
        "geo_index_total_buckets",
        "Total number of geohash buckets",
        stats.total_buckets,
    );
    text.append(buckets.as_str());
    text.append("\n");
    let precision = gauge_block("geo_index_precision", "Geohash precision level", stats.precision);
    text.append(precision.as_str());
    text
}

/// What a cleanup did: how many drivers it forgot, and the age beyond
/// which it forgot them.
#[derive(Clone, Copy, Debug, PartialEq, Eq, Structural)]
pub struct CleanupReport {
    pub removed_count: usize,
    pub max_age_seconds: u64,
}

/// Forgets the drivers whose records are older than
/// `CLEANUP_MAX_AGE_SECONDS` at time `now`.
pub fn cleanup_at(index: &mut GeoIndex, now: u64) -> (report: CleanupReport)
    requires
        old(index).wf(),
    ensures
        final(index).wf(),
        final(index).spec_precision() == old(index).spec_precision(),
        report.max_age_seconds == CLEANUP_MAX_AGE_SECONDS,
        report.removed_count == stale_ids(old(index).table(), CLEANUP_MAX_AGE_SECONDS, now).len(),
        final(index).table() == old(index).table().remove_keys(
            stale_ids(old(index).table(), CLEANUP_MAX_AGE_SECONDS, now),
        ),
{
    let removed_count = index.cleanup_stale_drivers_at(CLEANUP_MAX_AGE_SECONDS, now);
    CleanupReport { removed_count, max_age_seconds: CLEANUP_MAX_AGE_SECONDS }
}

/// Forgets the drivers whose records are older than
/// `CLEANUP_MAX_AGE_SECONDS` by the wall clock.
pub fn cleanup(index: &mut GeoIndex) -> (report: CleanupReport)
    requires
        old(index).wf(),
    ensures
        final(index).wf(),
        final(index).spec_precision() == old(index).spec_precision(),
        report.max_age_seconds == CLEANUP_MAX_AGE_SECONDS,
        exists|now: u64|
            final(index).table() == old(index).table().remove_keys(
                #[trigger] stale_ids(old(index).table(), CLEANUP_MAX_AGE_SECONDS, now),
            ) && report.removed_count == stale_ids(
                old(index).table(),
                CLEANUP_MAX_AGE_SECONDS,
                now,
            ).len(),
{
    let removed_count = index.cleanup_stale_drivers(CLEANUP_MAX_AGE_SECONDS);
    CleanupReport { removed_count, max_age_seconds: CLEANUP_MAX_AGE_SECONDS }
}

} // verus!
