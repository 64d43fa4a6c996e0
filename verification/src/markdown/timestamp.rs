use vstd::prelude::*;

use crate::text::decimal;
use crate::text::push_decimal;

verus! {

/// The timestamp styles Discord documents for `<t:unix:style>`.
pub const TIMESTAMP_STYLES: &'static str = "tTdDfFR";

/// One of the documented timestamp styles.
pub open spec fn valid_style(style: char) -> bool {
    style == 't' || style == 'T' || style == 'd' || style == 'D' || style == 'f' || style == 'F'
        || style == 'R'
}

/// Whether `style` is a documented timestamp style.
pub fn is_valid_style(style: char) -> (b: bool)
    ensures
        b == valid_style(style),
        b == TIMESTAMP_STYLES@.contains(style),
{
    proof {
        reveal_strlit("tTdDfFR");
        if valid_style(style) {
            let s = TIMESTAMP_STYLES@;
            assert(s[0] == 't' && s[1] == 'T' && s[2] == 'd' && s[3] == 'D' && s[4] == 'f' && s[5] == 'F' && s[6] == 'R');
            if style == 't' { assert(s[0] == style); }
            else if style == 'T' { assert(s[1] == style); }
            else if style == 'd' { assert(s[2] == style); }
            else if style == 'D' { assert(s[3] == style); }
            else if style == 'f' { assert(s[4] == style); }
            else if style == 'F' { assert(s[5] == style); }
            else { assert(s[6] == style); }
        }
    }
    style == 't' || style == 'T' || style == 'd' || style == 'D' || style == 'f' || style == 'F'
        || style == 'R'
}

/// Whether chrono represents the UTC instant `unix` seconds after the epoch
/// (`DateTime::<Utc>::from_timestamp(unix, 0).is_some()`).
pub uninterp spec fn utc_instant_exists(unix: i64) -> bool;

/// What chrono's `format(pattern)` writes for the UTC instant `unix`.
pub uninterp spec fn utc_strftime(unix: i64, pattern: Seq<char>) -> Seq<char>;

/// The unix time chrono's RFC 3339 parser reads from `text`, if it accepts it.
pub uninterp spec fn rfc3339_unix(text: Seq<char>) -> Option<i64>;

/// The strftime patterns this module hands to chrono.
pub open spec fn known_pattern(p: Seq<char>) -> bool {
    ||| p == "%-I:%M %p"@
    ||| p == "%-I:%M:%S %p"@
    ||| p == "%m/%d/%Y"@
    ||| p == "%B %-d, %Y"@
    ||| p == "%A, %B %-d, %Y %-I:%M %p"@
    ||| p == "%B %-d, %Y %-I:%M %p"@
}

/// Calls `chrono::DateTime::<Utc>::from_timestamp(unix, 0)` and reports whether it
/// succeeded. The contract claims the answer is a function of `unix`, and, as the
/// source shows (the day count must fit an `i32`), that a representable instant lies
/// within 2^48 seconds of the epoch.
#[verifier::external_body]
pub(crate) fn utc_timestamp_valid(unix: i64) -> (b: bool)
    ensures
        b == utc_instant_exists(unix),
        b ==> -(1i64 << 48) <= unix <= (1i64 << 48),
{
    chrono::DateTime::from_timestamp(unix, 0).is_some()
}

/// Formats the UTC instant `unix` with chrono's `DateTime::format(pattern)`. The
/// contract claims only that the text is a function of `unix` and `pattern`.
#[verifier::external_body]
fn format_utc(unix: i64, pattern: &str) -> (s: String)
    requires
        utc_instant_exists(unix),
        known_pattern(pattern@),
    ensures
        s@ == utc_strftime(unix, pattern@),
{
    match chrono::DateTime::from_timestamp(unix, 0) {
        Some(t) => t.format(pattern).to_string(),
        None => String::new(),
    }
}

/// Parses `text` with `chrono::DateTime::parse_from_rfc3339` and converts the
/// result to unix seconds. The contract claims only that the answer is a function
/// of `text`.
#[verifier::external_body]
pub(crate) fn parse_rfc3339_unix(text: &str) -> (r: Option<i64>)
    ensures
        r == rfc3339_unix(text@),
{
    chrono::DateTime::parse_from_rfc3339(text).ok().map(|t| t.timestamp())
}

/// Reads the system clock with `chrono::Utc::now()`, in unix seconds. Nothing is
/// claimed of the value.
#[verifier::external_body]
fn utc_now_unix() -> i64 {
    chrono::Utc::now().timestamp()
}

/// The text shown for the timestamp `<t:unix:style>` when the clock reads `now_unix`.
pub open spec fn timestamp_text(unix: i64, style: char, now_unix: i64) -> Seq<char> {
    if !utc_instant_exists(unix) {
        Seq::empty()
    } else if style == 't' {
        utc_strftime(unix, "%-I:%M %p"@)
    } else if style == 'T' {
        utc_strftime(unix, "%-I:%M:%S %p"@)
    } else if style == 'd' {
        utc_strftime(unix, "%m/%d/%Y"@)
    } else if style == 'D' {
        utc_strftime(unix, "%B %-d, %Y"@)
    } else if style == 'F' {
        utc_strftime(unix, "%A, %B %-d, %Y %-I:%M %p"@)
    } else if style == 'R' {
        relative_text(now_unix - unix)
    } else {
        utc_strftime(unix, "%B %-d, %Y %-I:%M %p"@)
    }
}

pub open spec fn abs(x: int) -> nat {
    if x < 0 { (-x) as nat } else { x as nat }
}

/// The unit and amount of a relative time span of `magnitude` seconds.
pub open spec fn relative_bucket(magnitude: nat) -> (nat, Seq<char>) {
    if magnitude < 60 {
        (magnitude, "second"@)
    } else if magnitude < 3600 {
        (magnitude / 60, "minute"@)
    } else if magnitude < 86400 {
        (magnitude / 3600, "hour"@)
    } else if magnitude < 2592000 {
        (magnitude / 86400, "day"@)
    } else if magnitude < 31536000 {
        (magnitude / 2592000, "month"@)
    } else {
        (magnitude / 31536000, "year"@)
    }
}

/// "now", "N units ago" or "in N units", for a clock that is `diff` seconds past the
/// instant.
pub open spec fn relative_text(diff: int) -> Seq<char> {
    if diff == 0 {
        "now"@
    } else {
        let (amount, unit) = relative_bucket(abs(diff));
        let noun = if amount == 1 { unit } else { unit + "s"@ };
        if diff < 0 {
            "in "@ + decimal(amount) + " "@ + noun
        } else {
            decimal(amount) + " "@ + noun + " ago"@
        }
    }
}

/// "N unit" or "N units" for a span of `magnitude` seconds.
pub open spec fn relative_phrase(magnitude: nat) -> Seq<char> {
    let (amount, unit) = relative_bucket(magnitude);
    decimal(amount) + " "@ + if amount == 1 {
        unit
    } else {
        unit + "s"@
    }
}

/// A relative timestamp reads "now" only at the instant itself; a span reads
/// "in N units" ahead and "N units ago" behind, with the same words both ways and
/// an amount of at least one.
pub proof fn law_relative_time_is_symmetric(d: int)
    requires
        d > 0,
    ensures
        relative_text(0) == "now"@,
        relative_text(d) == relative_phrase(d as nat) + " ago"@,
        relative_text(-d) == "in "@ + relative_phrase(d as nat),
        relative_bucket(d as nat).0 >= 1,
{
    let (amount, unit) = relative_bucket(d as nat);
    assert(abs(d) == d);
    assert(abs(-d) == d);
    assert(relative_text(d) =~= relative_phrase(d as nat) + " ago"@);
    assert(relative_text(-d) =~= "in "@ + relative_phrase(d as nat));
    if d >= 60 {
        assert(relative_bucket(d as nat).0 >= 1) by (nonlinear_arith)
            requires
                d >= 60,
                relative_bucket(d as nat) == (if d < 3600 {
                    ((d / 60) as nat, "minute"@)
                } else if d < 86400 {
                    ((d / 3600) as nat, "hour"@)
                } else if d < 2592000 {
                    ((d / 86400) as nat, "day"@)
                } else if d < 31536000 {
                    ((d / 2592000) as nat, "month"@)
                } else {
                    ((d / 31536000) as nat, "year"@)
                }),
        ;
    }
}

/// The text of a timestamp in `style`, with the clock read now.
pub fn fmt(unix: i64, style: char) -> (s: String)
    ensures
        exists|now: i64| s@ == timestamp_text(unix, style, now),
        style != 'R' ==> s@ == timestamp_text(unix, style, 0),
{
    let now = utc_now_unix();
    fmt_with(unix, style, now)
}

/// The text of a timestamp in `style` when the clock reads `now_unix`.
pub fn fmt_with(unix: i64, style: char, now_unix: i64) -> (s: String)
    ensures
        s@ == timestamp_text(unix, style, now_unix),
{
    if !utc_timestamp_valid(unix) {
        return String::new();
    }
    if style == 't' {
        format_utc(unix, "%-I:%M %p")
    } else if style == 'T' {
        format_utc(unix, "%-I:%M:%S %p")
    } else if style == 'd' {
        format_utc(unix, "%m/%d/%Y")
    } else if style == 'D' {
        format_utc(unix, "%B %-d, %Y")
    } else if style == 'F' {
        format_utc(unix, "%A, %B %-d, %Y %-I:%M %p")
    } else if style == 'R' {
        relative(unix, now_unix)
    } else {
        format_utc(unix, "%B %-d, %Y %-I:%M %p")
    }
}

/// The relative text of an instant; the span is measured in 128 bits, so every
/// pair of readings has its exact text.
pub fn relative(unix: i64, now_unix: i64) -> (s: String)
    ensures
        s@ == relative_text(now_unix - unix),
{
    let diff_secs: i128 = now_unix as i128 - unix as i128;
    if diff_secs == 0 {
        return String::from_str("now");
    }
    let future = diff_secs < 0;
    let magnitude: u64 = if diff_secs < 0 { (0i128 - diff_secs) as u64 } else { diff_secs as u64 };
    let (amount, unit): (u64, &str) = if magnitude < 60 {
        (magnitude, "second")
    } else if magnitude < 3600 {
        (magnitude / 60, "minute")
    } else if magnitude < 86400 {
        (magnitude / 3600, "hour")
    } else if magnitude < 2592000 {
        (magnitude / 86400, "day")
    } else if magnitude < 31536000 {
        (magnitude / 2592000, "month")
    } else {
        (magnitude / 31536000, "year")
    };
    let mut noun = String::from_str(unit);
    if amount != 1 {
        noun.append("s");
    }
    let mut out = String::new();
    if future {
        out.append("in ");
        push_decimal(&mut out, amount);
        out.append(" ");
        out.append(noun.as_str());
    } else {
        push_decimal(&mut out, amount);
        out.append(" ");
        out.append(noun.as_str());
        out.append(" ago");
    }
    out
}

} // verus!
