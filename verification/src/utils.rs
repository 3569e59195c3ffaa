//! Validation of test parameters, percentages, the composite quality score
//! and the wording of rates and latencies for a reader.

use crate::decimal::{
    compact_fraction, decimal, div_round_half_even, one_decimal, push_compact_fraction,
    push_decimal, push_one_decimal, push_two_decimals, round_half_even, two_decimals,
};
use vstd::prelude::*;

verus! {

/// Shortest test duration that is accepted, in seconds.
pub const MIN_DURATION_SECS: u64 = 5;

/// Longest test duration that is accepted, in seconds.
pub const MAX_DURATION_SECS: u64 = 300;

/// Smallest number of parallel connections that is accepted.
pub const MIN_CONNECTIONS: u32 = 1;

/// Largest number of parallel connections that is accepted.
pub const MAX_CONNECTIONS: u32 = 16;

/// Largest identifier a measurement server can carry.
pub const MAX_SERVER_ID: u32 = 999_999;

/// One megabit per second, in bits per second.
pub const MBPS: u64 = 1_000_000;

/// One millisecond, in microseconds.
pub const MILLIS: u32 = 1_000;

/// A test may run for 5 to 300 seconds.
pub open spec fn duration_in_range(duration_secs: u64) -> bool {
    MIN_DURATION_SECS <= duration_secs <= MAX_DURATION_SECS
}

/// A test may use 1 to 16 parallel connections.
pub open spec fn connections_in_range(connections: u32) -> bool {
    MIN_CONNECTIONS <= connections <= MAX_CONNECTIONS
}

/// A server identifier is positive and has at most six digits.
pub open spec fn server_id_in_range(id: u32) -> bool {
    1 <= id <= MAX_SERVER_ID
}

/// Tells whether a test duration in seconds is acceptable.
pub fn validate_duration(duration_secs: u64) -> (ok: bool)
    ensures
        ok == duration_in_range(duration_secs),
{
    MIN_DURATION_SECS <= duration_secs && duration_secs <= MAX_DURATION_SECS
}

/// Tells whether a number of parallel connections is acceptable.
pub fn validate_connections(connections: u32) -> (ok: bool)
    ensures
        ok == connections_in_range(connections),
{
    MIN_CONNECTIONS <= connections && connections <= MAX_CONNECTIONS
}

/// Tells whether a server identifier is acceptable.
pub fn validate_server_id(id: u32) -> (ok: bool)
    ensures
        ok == server_id_in_range(id),
{
    1 <= id && id <= MAX_SERVER_ID
}

/// The share of `value` in `total` in whole percent, rounded down; zero when
/// there is no total.
pub open spec fn percentage_of(value: int, total: int) -> int {
    if total == 0 {
        0
    } else {
        (value * 100) / total
    }
}

/// Computes `value / total * 100`, rounded down to a whole percent. A zero
/// `total` is not an error: the share of anything in nothing is reported as 0.
pub fn calculate_percentage(value: u64, total: u64) -> (percent: u128)
    ensures
        percent == percentage_of(value as int, total as int),
        total == 0 ==> percent == 0,
{
    if total == 0 {
        0
    } else {
        (value as u128 * 100) / (total as u128)
    }
}

/// Sub-score for throughput: rises in steps with the download rate.
pub open spec fn speed_band(download_bps: int) -> int {
    if download_bps >= 100 * MBPS {
        100
    } else if download_bps >= 50 * MBPS {
        80
    } else if download_bps >= 25 * MBPS {
        60
    } else if download_bps >= 10 * MBPS {
        40
    } else {
        20
    }
}

/// Sub-score for latency: falls in steps as the round trip takes longer.
pub open spec fn latency_band(ping_us: int) -> int {
    if ping_us <= 20 * MILLIS {
        100
    } else if ping_us <= 50 * MILLIS {
        80
    } else if ping_us <= 100 * MILLIS {
        60
    } else if ping_us <= 200 * MILLIS {
        40
    } else {
        20
    }
}

/// `numerator / 10` rounded to the nearest integer, halves upward.
pub open spec fn round_tenths(numerator: int) -> int {
    (numerator + 5) / 10
}

/// Limits a value to the range of a score, 0 to 100.
pub open spec fn clamp_score(value: int) -> int {
    if value < 0 {
        0
    } else if value > 100 {
        100
    } else {
        value
    }
}

/// The composite score: seven parts throughput and three parts latency,
/// rounded and kept within 0 to 100. The upload rate is accepted for the
/// caller's convenience and has no weight of its own.
pub open spec fn quality_score(download_bps: int, upload_bps: int, ping_us: int) -> int {
    clamp_score(round_tenths(7 * speed_band(download_bps) + 3 * latency_band(ping_us)))
}

/// Grades a connection from 0 (worst) to 100 (best) from its download and
/// upload rates in bits per second and its latency in microseconds.
pub fn get_quality_score(download_bps: u64, upload_bps: u64, ping_us: u32) -> (score: u8)
    ensures
        score == quality_score(download_bps as int, upload_bps as int, ping_us as int),
        score <= 100,
{
    let speed: u32 = if download_bps >= 100 * MBPS {
        100
    } else if download_bps >= 50 * MBPS {
        80
    } else if download_bps >= 25 * MBPS {
        60
    } else if download_bps >= 10 * MBPS {
        40
    } else {
        20
    };
    let latency: u32 = if ping_us <= 20 * MILLIS {
        100
    } else if ping_us <= 50 * MILLIS {
        80
    } else if ping_us <= 100 * MILLIS {
        60
    } else if ping_us <= 200 * MILLIS {
        40
    } else {
        20
    };
    let rounded: u32 = (7 * speed + 3 * latency + 5) / 10;
    if rounded > 100 {
        100
    } else {
        rounded as u8
    }
}

/// A quality score never leaves the range 0 to 100.
pub proof fn lemma_quality_score_bounded(download_bps: int, upload_bps: int, ping_us: int)
    ensures
        0 <= quality_score(download_bps, upload_bps, ping_us) <= 100,
{
}

/// A faster download never lowers the score.
pub proof fn lemma_quality_score_rises_with_download(
    slower: int,
    faster: int,
    upload_bps: int,
    ping_us: int,
)
    requires
        slower <= faster,
    ensures
        quality_score(slower, upload_bps, ping_us) <= quality_score(faster, upload_bps, ping_us),
{
}

/// A faster upload never lowers the score.
pub proof fn lemma_quality_score_rises_with_upload(
    download_bps: int,
    slower: int,
    faster: int,
    ping_us: int,
)
    requires
        slower <= faster,
    ensures
        quality_score(download_bps, slower, ping_us) <= quality_score(download_bps, faster, ping_us),
{
}

/// A longer round trip never raises the score.
pub proof fn lemma_quality_score_falls_with_latency(
    download_bps: int,
    upload_bps: int,
    shorter: int,
    longer: int,
)
    requires
        shorter <= longer,
    ensures
        quality_score(download_bps, upload_bps, longer) <= quality_score(
            download_bps,
            upload_bps,
            shorter,
        ),
{
}

/// With sub-scores that are multiples of twenty the weighted sum is a whole
/// number of tenths, so rounding changes nothing and the score is exactly
/// `0.7 * speed + 0.3 * latency`.
pub proof fn lemma_quality_score_is_exact(download_bps: int, upload_bps: int, ping_us: int)
    ensures
        10 * quality_score(download_bps, upload_bps, ping_us) == 7 * speed_band(download_bps) + 3
            * latency_band(ping_us),
{
}

/// The grade that belongs to a score, as text.
pub open spec fn description_text(score: u8) -> Seq<char> {
    if 90 <= score <= 100 {
        "Excellent"@
    } else if 80 <= score <= 89 {
        "Very Good"@
    } else if 70 <= score <= 79 {
        "Good"@
    } else if 60 <= score <= 69 {
        "Fair"@
    } else if 50 <= score <= 59 {
        "Poor"@
    } else {
        "Very Poor"@
    }
}

/// Names the grade of a quality score. A value above 100 is no score and is
/// graded like the lowest ones.
pub fn get_quality_description(score: u8) -> (text: &'static str)
    ensures
        text@ == description_text(score),
{
    if score > 100 {
        "Very Poor"
    } else if score >= 90 {
        "Excellent"
    } else if score >= 80 {
        "Very Good"
    } else if score >= 70 {
        "Good"
    } else if score >= 60 {
        "Fair"
    } else if score >= 50 {
        "Poor"
    } else {
        "Very Poor"
    }
}

/// A character that may stand in a file name as it is: a letter or digit of
/// ASCII, a point, a hyphen or an underscore.
pub open spec fn is_filename_char(c: char) -> bool {
    ||| 'a' <= c <= 'z'
    ||| 'A' <= c <= 'Z'
    ||| '0' <= c <= '9'
    ||| c == '.'
    ||| c == '-'
    ||| c == '_'
}

/// A name with an underscore in place of each character that may not stand
/// in a file name.
pub open spec fn sanitized(name: Seq<char>) -> Seq<char> {
    Seq::new(
        name.len(),
        |i: int|
            if is_filename_char(name[i]) {
                name[i]
            } else {
                '_'
            },
    )
}

/// Tells whether a character may stand in a file name as it is.
pub fn keeps_in_filename(c: char) -> (keep: bool)
    ensures
        keep == is_filename_char(c),
{
    ('a' <= c && c <= 'z') || ('A' <= c && c <= 'Z') || ('0' <= c && c <= '9') || c == '.' || c
        == '-' || c == '_'
}

/// Makes a name safe for use as a file name: every character but letters and
/// digits of ASCII, points, hyphens and underscores becomes an underscore.
pub fn sanitize_filename(filename: &str) -> (clean: String)
    ensures
        clean@ == sanitized(filename@),
{
    let length: usize = filename.unicode_len();
    let mut clean = String::new();
    let mut i: usize = 0;
    while i < length
        invariant
            i <= length == filename@.len(),
            clean@ == sanitized(filename@.take(i as int)),
        decreases length - i,
    {
        let ghost before = clean@;
        if keeps_in_filename(filename.get_char(i)) {
            clean.append(filename.substring_char(i, i + 1));
            assert(filename@.subrange(i as int, i + 1) =~= seq![filename@[i as int]]);
        } else {
            proof {
                reveal_strlit("_");
            }
            clean.append("_");
        }
        assert(clean@ =~= before.push(sanitized(filename@)[i as int]));
        assert(clean@ =~= sanitized(filename@.take(i + 1)));
        i += 1;
    }
    assert(filename@.take(length as int) =~= filename@);
    clean
}

/// One gigabit per second, in bits per second.
pub const GBPS: u64 = 1_000_000_000;

/// A throughput as text. Below one megabit per second it is given in kilobits
/// with two decimals, below one gigabit per second in megabits with two
/// decimals, and from there on in gigabits with as many decimals as the value
/// has. Two decimals are rounded to the nearest, a tie to the even neighbour.
pub open spec fn speed_text(bps: nat) -> Seq<char> {
    if bps < MBPS {
        two_decimals(round_half_even(bps, 10)) + " Kbps"@
    } else if bps < GBPS {
        two_decimals(round_half_even(bps, 10_000)) + " Mbps"@
    } else {
        decimal(bps / (GBPS as nat)) + compact_fraction(bps % (GBPS as nat), 9) + " Gbps"@
    }
}

/// Writes a throughput in bits per second for a reader, in the unit that
/// suits its size: `500.00 Kbps`, `50.00 Mbps`, `1.5 Gbps`.
pub fn format_speed(bps: u64) -> (text: String)
    ensures
        text@ == speed_text(bps as nat),
{
    let mut text = String::new();
    if bps < MBPS {
        push_two_decimals(&mut text, div_round_half_even(bps, 10));
        text.append(" Kbps");
    } else if bps < GBPS {
        push_two_decimals(&mut text, div_round_half_even(bps, 10_000));
        text.append(" Mbps");
    } else {
        push_decimal(&mut text, bps / GBPS);
        push_compact_fraction(&mut text, bps % GBPS, 9);
        text.append(" Gbps");
    }
    assert(text@ =~= speed_text(bps as nat));
    text
}

/// A latency as text. Below one millisecond it is given in microseconds, from
/// there on in milliseconds, with one decimal either way. The decimal is
/// rounded to the nearest, a tie to the even neighbour.
pub open spec fn ping_text(ping_us: nat) -> Seq<char> {
    if ping_us < MILLIS {
        one_decimal(10 * ping_us) + " \u{3bc}s"@
    } else {
        one_decimal(round_half_even(ping_us, 100)) + " ms"@
    }
}

/// Writes a latency in microseconds for a reader: `500.0 μs`, `25.0 ms`.
pub fn format_ping(ping_us: u32) -> (text: String)
    ensures
        text@ == ping_text(ping_us as nat),
{
    let mut text = String::new();
    if ping_us < MILLIS {
        push_one_decimal(&mut text, 10 * (ping_us as u64));
        text.append(" \u{3bc}s");
    } else {
        push_one_decimal(&mut text, div_round_half_even(ping_us as u64, 100));
        text.append(" ms");
    }
    assert(text@ =~= ping_text(ping_us as nat));
    text
}

} // verus!
