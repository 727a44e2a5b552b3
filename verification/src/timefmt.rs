//! Unix timestamps in milliseconds written as UTC dates and times, and dates
//! read back, through `chrono`.

use vstd::prelude::*;

verus! {

/// The smallest and largest whole seconds that `chrono` turns into a date
/// (January 1, 262143 BCE and December 31, 262142 CE, 23:59:59).
pub open spec fn chrono_min_secs() -> int {
    -8_334_601_315_200
}

/// See [`chrono_min_secs`].
pub open spec fn chrono_max_secs() -> int {
    8_210_266_876_799
}

/// `DateTime::<Utc>::from_timestamp(secs, nsecs)` yields a date: the seconds
/// are in range and the nanoseconds are below one second, or below two
/// seconds on the last second of a minute (a leap second).
pub open spec fn chrono_accepts(secs: int, nsecs: int) -> bool {
    &&& chrono_min_secs() <= secs <= chrono_max_secs()
    &&& (nsecs < 1_000_000_000 || (nsecs < 2_000_000_000 && secs % 60 == 59))
}

/// The format strings this library hands to `chrono`.
pub open spec fn known_format(f: Seq<char>) -> bool {
    f == "%Y-%m-%d %H:%M:%S UTC"@ || f == "%Y-%m-%d %H:%M:%S"@ || f == "%m-%d %H:%M"@ || f
        == "%H:%M:%S"@
}

/// The text `chrono` writes for the UTC instant `secs` + `nsecs` with
/// strftime format `fmt`.
pub uninterp spec fn chrono_utc_format(secs: int, nsecs: int, fmt: Seq<char>) -> Seq<char>;

/// `chrono::DateTime::<Utc>::from_timestamp(secs, nsecs)` followed by
/// `format(fmt).to_string()`. Claimed: a date exists exactly when
/// [`chrono_accepts`] holds (the range and nanosecond checks of the crate's
/// `from_timestamp`), and then the text is `chrono`'s rendering of it, a
/// function of the arguments alone.
#[verifier::external_body]
fn format_utc(secs: i64, nsecs: u32, fmt: &str) -> (r: Option<String>)
    requires
        known_format(fmt@),
    ensures
        r is Some <==> chrono_accepts(secs as int, nsecs as int),
        r matches Some(s) ==> s@ == chrono_utc_format(secs as int, nsecs as int, fmt@),
{
    match chrono::DateTime::from_timestamp(secs, nsecs) {
        Some(dt) => Some(dt.format(fmt).to_string()),
        None => None,
    }
}

/// Whole seconds of a millisecond timestamp, truncated toward zero (`/`).
pub open spec fn ms_secs(ts: int) -> int {
    if ts >= 0 {
        ts / 1000
    } else {
        -((-ts) / 1000)
    }
}

/// Nanoseconds of a millisecond timestamp: `ts.rem_euclid(1000) * 1_000_000`.
pub open spec fn ms_nanos(ts: int) -> int {
    (ts % 1000) * 1_000_000
}

/// A millisecond timestamp at or after the epoch is shown as the instant it
/// names: its whole seconds and its nanoseconds (less than a second) add
/// back up to it.
pub proof fn law_timestamp_splits_into_its_instant(ts: int)
    requires
        ts >= 0,
    ensures
        0 <= ms_nanos(ts) < 1_000_000_000,
        ms_nanos(ts) % 1_000_000 == 0,
        ms_secs(ts) * 1000 + ms_nanos(ts) / 1_000_000 == ts,
{
    assert(ms_secs(ts) * 1000 + ts % 1000 == ts) by (nonlinear_arith)
        requires
            ts >= 0,
            ms_secs(ts) == ts / 1000,
    ;
    assert(0 <= ts % 1000 < 1000);
    assert(((ts % 1000) * 1_000_000) / 1_000_000 == ts % 1000) by (nonlinear_arith);
    assert(((ts % 1000) * 1_000_000) % 1_000_000 == 0) by (nonlinear_arith);
}

/// The text for timestamp `ts` in format `fmt`, or `fallback` when `chrono`
/// has no date for it.
pub open spec fn ts_text(ts: int, fmt: Seq<char>, fallback: Seq<char>) -> Seq<char> {
    if chrono_accepts(ms_secs(ts), ms_nanos(ts)) {
        chrono_utc_format(ms_secs(ts), ms_nanos(ts), fmt)
    } else {
        fallback
    }
}

fn split_ms(ts: i64) -> (r: (i64, u32))
    ensures
        r.0 as int == ms_secs(ts as int),
        r.1 as int == ms_nanos(ts as int),
{
    let secs: i64 = if ts >= 0 {
        ts / 1000
    } else {
        let m: i128 = 0 - (ts as i128);
        (0 - m / 1000) as i64
    };
    let rem: i64 = if ts >= 0 {
        ts % 1000
    } else {
        let m: i128 = 0 - (ts as i128);
        let r = m % 1000;
        if r == 0 {
            0
        } else {
            (1000 - r) as i64
        }
    };
    proof {
        if ts < 0 {
            let m = -(ts as int);
            assert(m % 1000 == 0 ==> (ts as int) % 1000 == 0) by (nonlinear_arith)
                requires m == -(ts as int), m > 0;
            assert(m % 1000 != 0 ==> (ts as int) % 1000 == 1000 - m % 1000) by (nonlinear_arith)
                requires m == -(ts as int), m > 0;
        }
    }
    (secs, (rem * 1_000_000) as u32)
}

/// The fallback text `(invalid timestamp <ts>)`.
pub open spec fn invalid_ts_text(ts: int) -> Seq<char> {
    "(invalid timestamp "@ + crate::text::dec_int(ts) + ")"@
}

/// `ts` as `YYYY-MM-DD HH:MM:SS UTC`.
pub fn ts_to_iso(ts: i64) -> (r: String)
    ensures
        r@ == ts_text(ts as int, "%Y-%m-%d %H:%M:%S UTC"@, invalid_ts_text(ts as int)),
{
    let (secs, nsecs) = split_ms(ts);
    match format_utc(secs, nsecs, "%Y-%m-%d %H:%M:%S UTC") {
        Some(s) => s,
        None => {
            let mut out = String::from_str("(invalid timestamp ");
            crate::text::push_dec_i64(&mut out, ts);
            out.append(")");
            out
        },
    }
}

/// `ts` as `YYYY-MM-DD HH:MM:SS`.
pub fn ts_to_iso_short(ts: i64) -> (r: String)
    ensures
        r@ == ts_text(ts as int, "%Y-%m-%d %H:%M:%S"@, invalid_ts_text(ts as int)),
{
    let (secs, nsecs) = split_ms(ts);
    match format_utc(secs, nsecs, "%Y-%m-%d %H:%M:%S") {
        Some(s) => s,
        None => {
            let mut out = String::from_str("(invalid timestamp ");
            crate::text::push_dec_i64(&mut out, ts);
            out.append(")");
            out
        },
    }
}

/// `ts` as `MM-DD HH:MM`, or empty.
pub fn ts_to_compact(ts: i64) -> (r: String)
    ensures
        r@ == ts_text(ts as int, "%m-%d %H:%M"@, Seq::empty()),
{
    let (secs, nsecs) = split_ms(ts);
    match format_utc(secs, nsecs, "%m-%d %H:%M") {
        Some(s) => s,
        None => String::new(),
    }
}

/// `ts` as `HH:MM:SS`, or empty.
pub fn ts_to_time(ts: i64) -> (r: String)
    ensures
        r@ == ts_text(ts as int, "%H:%M:%S"@, Seq::empty()),
{
    let (secs, nsecs) = split_ms(ts);
    match format_utc(secs, nsecs, "%H:%M:%S") {
        Some(s) => s,
        None => String::new(),
    }
}


/// The nanoseconds that `((ts % 1000) * 1_000_000) as u32` computes: `%`
/// keeps the sign of `ts`, and a negative product wraps modulo `2^32`.
pub open spec fn wrapped_ms_nanos(ts: int) -> int {
    let r = if ts >= 0 {
        ts % 1000
    } else {
        -((-ts) % 1000)
    };
    if r >= 0 {
        r * 1_000_000
    } else {
        4_294_967_296 + r * 1_000_000
    }
}

/// The time of day `HH:MM:SS` of a millisecond timestamp, or `??:??:??`.
pub fn format_timestamp(ts_ms: i64) -> (r: String)
    ensures
        r@ == (if chrono_accepts(ms_secs(ts_ms as int), wrapped_ms_nanos(ts_ms as int)) {
            chrono_utc_format(ms_secs(ts_ms as int), wrapped_ms_nanos(ts_ms as int), "%H:%M:%S"@)
        } else {
            "??:??:??"@
        }),
{
    let (secs, _) = split_ms(ts_ms);
    let nsecs: u32 = if ts_ms >= 0 {
        ((ts_ms % 1000) * 1_000_000) as u32
    } else {
        let m: i128 = 0 - (ts_ms as i128);
        let r = m % 1000;
        if r == 0 {
            0
        } else {
            (4_294_967_296 - r * 1_000_000) as u32
        }
    };
    match format_utc(secs, nsecs, "%H:%M:%S") {
        Some(s) => s,
        None => String::from_str("??:??:??"),
    }
}

/// The millisecond timestamp that `chrono` parses from `s` with format `fmt`
/// as a UTC date and time, if it parses.
pub uninterp spec fn chrono_datetime_ms(s: Seq<char>, fmt: Seq<char>) -> Option<int>;

/// The millisecond timestamp of the start (00:00:00 UTC) of the date that
/// `chrono` parses from `s` with format `fmt`, if it parses.
pub uninterp spec fn chrono_date_ms(s: Seq<char>, fmt: Seq<char>) -> Option<int>;

/// `chrono::NaiveDateTime::parse_from_str(s, fmt)` followed by
/// `and_utc().timestamp_millis()`. Claimed: the result is `chrono`'s parse,
/// a function of the arguments alone.
#[verifier::external_body]
fn parse_datetime_ms(s: &str, fmt: &str) -> (r: Option<i64>)
    ensures
        r matches Some(v) ==> chrono_datetime_ms(s@, fmt@) == Some(v as int),
        r is None ==> chrono_datetime_ms(s@, fmt@) is None,
{
    match chrono::NaiveDateTime::parse_from_str(s, fmt) {
        Ok(dt) => Some(dt.and_utc().timestamp_millis()),
        Err(_) => None,
    }
}

/// `chrono::NaiveDate::parse_from_str(s, fmt)` followed by
/// `and_hms_opt(0, 0, 0)` and `and_utc().timestamp_millis()`. Claimed: the
/// result is `chrono`'s parse, a function of the arguments alone (midnight
/// always exists, so `and_hms_opt` cannot fail).
#[verifier::external_body]
fn parse_date_ms(s: &str, fmt: &str) -> (r: Option<i64>)
    ensures
        r matches Some(v) ==> chrono_date_ms(s@, fmt@) == Some(v as int),
        r is None ==> chrono_date_ms(s@, fmt@) is None,
{
    match chrono::NaiveDate::parse_from_str(s, fmt) {
        Ok(d) => match d.and_hms_opt(0, 0, 0) {
            Some(dt) => Some(dt.and_utc().timestamp_millis()),
            None => None,
        },
        Err(_) => None,
    }
}

/// What [`parse_date`] returns: `YYYY-MM-DD HH:MM:SS` first, then
/// `YYYY-MM-DD` at midnight.
pub open spec fn parsed_date(s: Seq<char>) -> Option<int> {
    match chrono_datetime_ms(s, "%Y-%m-%d %H:%M:%S"@) {
        Some(v) => Some(v),
        None => chrono_date_ms(s, "%Y-%m-%d"@),
    }
}

/// Parses `YYYY-MM-DD HH:MM:SS` or `YYYY-MM-DD` (midnight) as a UTC
/// millisecond timestamp.
pub fn parse_date(s: &str) -> (r: Option<i64>)
    ensures
        match r {
            Some(v) => parsed_date(s@) == Some(v as int),
            None => parsed_date(s@) is None,
        },
{
    match parse_datetime_ms(s, "%Y-%m-%d %H:%M:%S") {
        Some(v) => Some(v),
        None => parse_date_ms(s, "%Y-%m-%d"),
    }
}

} // verus!
