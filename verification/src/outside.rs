//! Calls into std and into other crates whose results the library takes on trust.

use vstd::prelude::*;

#[allow(unused_imports)]
use crate::util::text::{is_digit, is_space};
use crate::util::time::{Duration, Timestamp};

verus! {

/// `s` as Rust writes it between double quotes, with its escapes.
pub uninterp spec fn quoted(s: Seq<char>) -> Seq<char>;

/// The `Debug` form of a `str`: the text between double quotes, with what needs it escaped.
#[verifier::external_body]
pub(crate) fn quote(s: &str) -> (r: String)
    ensures
        r@ == quoted(s@),
{
    format!("{s:?}")
}

/// Bytes read as UTF-8, every malformed stretch replaced by U+FFFD.
pub uninterp spec fn lossy(b: Seq<u8>) -> Seq<char>;

/// `String::from_utf8_lossy`: the text that the bytes encode, with malformed stretches replaced.
#[verifier::external_body]
pub(crate) fn from_utf8_lossy(b: &[u8]) -> (r: String)
    ensures
        r@ == lossy(b@),
        vstd::utf8::valid_utf8(b@) ==> r@ == vstd::utf8::decode_utf8(b@),
{
    String::from_utf8_lossy(b).into_owned()
}

/// What is wrong with a pattern, in the words of the `regex` crate; nothing where it compiles.
pub uninterp spec fn pattern_fault(p: Seq<char>) -> Option<Seq<char>>;

/// `regex::Regex::new`: the message of its error for a pattern that it does not accept.
#[verifier::external_body]
pub(crate) fn pattern_error(p: &str) -> (r: Option<String>)
    ensures
        match r {
            Some(m) => pattern_fault(p@) == Some(m@),
            None => pattern_fault(p@) is None,
        },
{
    regex::Regex::new(p).err().map(|e| e.to_string())
}

/// Whether a pattern that compiles is found somewhere in a text.
pub uninterp spec fn pattern_found(p: Seq<char>, text: Seq<char>) -> bool;

/// `regex::Regex::is_match`: whether the pattern is found anywhere in the text.
#[verifier::external_body]
pub(crate) fn pattern_matches(p: &str, text: &str) -> (r: bool)
    requires
        pattern_fault(p@) is None,
    ensures
        r == pattern_found(p@, text@),
{
    regex::Regex::new(p).is_ok_and(|re| re.is_match(text))
}

/// What a text says as a duration in nanoseconds, or why it says none, as the `humantime` crate
/// reads it.
pub uninterp spec fn duration_read(s: Seq<char>) -> Result<nat, Seq<char>>;

/// The number that the digits before position `k` write, since anything else but white space.
pub open spec fn number_upto(s: Seq<char>, k: int) -> nat
    decreases k,
{
    if k <= 0 {
        0
    } else if is_digit(s[k - 1]) {
        number_upto(s, k - 1) * 10 + (s[k - 1] as nat - 48) as nat
    } else if is_space(s[k - 1]) {
        number_upto(s, k - 1)
    } else {
        0
    }
}

/// The most seconds that the unit which begins at position `i` has, by its first letters.
pub open spec fn most_seconds(s: Seq<char>, i: int) -> nat {
    let next = if i + 1 < s.len() {
        s[i + 1]
    } else {
        ' '
    };
    if s[i] == 's' || s[i] == 'n' || s[i] == 'u' || s[i] == 'µ' {
        1
    } else if s[i] == 'M' || (s[i] == 'm' && next == 'o') {
        2_630_016
    } else if s[i] == 'm' {
        60
    } else if s[i] == 'h' {
        3_600
    } else if s[i] == 'd' {
        86_400
    } else if s[i] == 'w' {
        604_800
    } else {
        31_557_600
    }
}

/// At least as many seconds as what stands before position `k` can write.
pub open spec fn seconds_upto(s: Seq<char>, k: int) -> nat
    decreases k,
{
    if k <= 0 {
        0
    } else if is_digit(s[k - 1]) || is_space(s[k - 1]) {
        seconds_upto(s, k - 1)
    } else {
        seconds_upto(s, k - 1) + (number_upto(s, k - 1) + 1) * most_seconds(s, k - 1)
    }
}

/// A text that cannot write as many seconds as 64 bits can count.
pub open spec fn is_tame(s: Seq<char>) -> bool {
    seconds_upto(s, s.len() as int) < u64::MAX
}

/// `humantime::parse_duration`: the duration that a text like `2min 12s` writes. It panics where
/// the seconds have filled 64 bits and exactly one second of smaller units comes on top, which
/// takes a text that is not tame.
#[verifier::external_body]
pub(crate) fn parse_duration(s: &str) -> (r: Result<Duration, String>)
    requires
        is_tame(s@),
    ensures
        match r {
            Ok(d) => duration_read(s@) == Ok::<nat, Seq<char>>(d.ns as nat),
            Err(m) => duration_read(s@) == Err::<nat, Seq<char>>(m@),
        },
{
    humantime::parse_duration(s).map(|d| Duration { ns: d.as_nanos() }).map_err(|e| e.to_string())
}

/// A text says a duration of that many nanoseconds.
pub open spec fn reads_as(s: Seq<char>, ns: nat) -> bool {
    duration_read(s) == Ok::<nat, Seq<char>>(ns)
}

/// A duration in nanoseconds as the `humantime` crate writes it.
pub uninterp spec fn duration_written(ns: nat) -> Seq<char>;

/// `humantime::format_duration`: the duration in words. The crate guarantees that reading them
/// gives the same duration.
#[verifier::external_body]
pub(crate) fn format_duration(secs: u64, nanos: u32) -> (r: String)
    requires
        nanos < 1_000_000_000,
    ensures
        r@ == duration_written((secs * 1_000_000_000 + nanos) as nat),
        reads_as(r@, (secs * 1_000_000_000 + nanos) as nat),
{
    humantime::format_duration(std::time::Duration::new(secs, nanos)).to_string()
}

/// An instant in nanoseconds since the epoch as the `jiff` crate writes it; nothing where its
/// calendar does not reach.
pub uninterp spec fn instant_written(ns: int) -> Seq<char>;

/// `jiff::Timestamp` as text: date and time in UTC.
#[verifier::external_body]
pub(crate) fn instant_text(t: Timestamp) -> (r: String)
    ensures
        r@ == instant_written(t.ns as int),
{
    jiff::Timestamp::from_nanosecond(t.ns).map(|t| t.to_string()).unwrap_or_default()
}

/// The instant that a text names, in nanoseconds since the epoch, as the `jiff` crate reads it.
pub uninterp spec fn instant_read(s: Seq<char>) -> Option<int>;

/// `jiff::Timestamp` read from text: the instant of a date and time with its offset from UTC; none
/// where the text is no such thing.
#[verifier::external_body]
pub(crate) fn parse_instant(s: &str) -> (r: Option<Timestamp>)
    ensures
        match r {
            Some(t) => instant_read(s@) == Some(t.ns as int),
            None => instant_read(s@) is None,
        },
{
    let t: jiff::Timestamp = s.parse().ok()?;
    Some(Timestamp { ns: t.as_nanosecond() })
}

/// An instant in nanoseconds since the epoch in a format of the `jiff` crate.
pub uninterp spec fn instant_formatted(ns: int, format: Seq<char>) -> Seq<char>;

/// `jiff::Timestamp::strftime`: the instant in UTC in the given format; nothing where the
/// calendar does not reach. It is used with these two formats alone.
#[verifier::external_body]
pub(crate) fn strftime(t: Timestamp, format: &str) -> (r: String)
    requires
        format@ == "%Y%m%dT%H%M%S"@ || format@ == "%Y%m%dT%H%M%SZ"@,
    ensures
        r@ == instant_formatted(t.ns as int, format@),
{
    jiff::Timestamp::from_nanosecond(t.ns).map(|t| t.strftime(format).to_string()).unwrap_or_default()
}

/// A time zone of the `jiff` crate.
#[verifier::external_type_specification]
#[verifier::external_body]
pub struct ExTimeZone(jiff::tz::TimeZone);

/// An instant in nanoseconds since the epoch, by the rules that a time zone holds, in a format of
/// the `jiff` crate.
pub uninterp spec fn local_formatted(ns: int, tz: jiff::tz::TimeZone, format: Seq<char>) -> Seq<
    char,
>;

/// `jiff::Timestamp::to_zoned` and `jiff::Zoned::strftime`: the instant in a time zone in the given
/// format; nothing where the calendar does not reach. It is used with this format alone.
#[verifier::external_body]
pub(crate) fn local_text(t: Timestamp, tz: &jiff::tz::TimeZone, format: &str) -> (r: String)
    requires
        format@ == "%Y-%m-%d %H:%M"@,
    ensures
        r@ == local_formatted(t.ns as int, *tz, format@),
{
    let at = jiff::Timestamp::from_nanosecond(t.ns).map(|t| t.to_zoned(tz.clone()));
    at.map(|z| z.strftime(format).to_string()).unwrap_or_default()
}

/// A date and time of day that no zone is named with.
#[derive(Clone, Copy, Debug, PartialEq, Eq, Structural)]
pub struct Civil {
    pub year: i16,
    pub month: i8,
    pub day: i8,
    pub hour: i8,
    pub minute: i8,
    pub second: i8,
    pub nanosecond: i32,
}

/// The date, or date and time, that a text writes, as the `jiff` crate reads it.
pub uninterp spec fn civil_read(s: Seq<char>) -> Option<Civil>;

/// `jiff::civil::DateTime` read from text: the date and time that it writes; none where it writes
/// no such thing.
#[verifier::external_body]
pub(crate) fn parse_civil(s: &str) -> (r: Option<Civil>)
    ensures
        r == civil_read(s@),
{
    let d: jiff::civil::DateTime = s.parse().ok()?;
    Some(Civil {
        year: d.year(),
        month: d.month(),
        day: d.day(),
        hour: d.hour(),
        minute: d.minute(),
        second: d.second(),
        nanosecond: d.subsec_nanosecond(),
    })
}

/// The instant of a date and time by the rules that a time zone holds.
pub uninterp spec fn instant_in(c: Civil, tz: jiff::tz::TimeZone) -> Option<Timestamp>;

/// `jiff::civil::DateTime::to_zoned`: the instant of a date and time in a time zone; none where
/// there is no such date or calendars do not reach. A time that a clock shows twice, or skips, is
/// settled by the rules that the zone holds, and by nothing else.
#[verifier::external_body]
pub(crate) fn instant_at(c: Civil, tz: &jiff::tz::TimeZone) -> (r: Option<Timestamp>)
    ensures
        r == instant_in(c, *tz),
{
    let (s, ns) = (c.second, c.nanosecond);
    let d = jiff::civil::DateTime::new(c.year, c.month, c.day, c.hour, c.minute, s, ns).ok()?;
    Some(Timestamp { ns: d.to_zoned(tz.clone()).ok()?.timestamp().as_nanosecond() })
}

/// The SHA-256 digest of bytes.
pub uninterp spec fn sha256_of(b: Seq<u8>) -> Seq<u8>;

/// `sha2::Sha256::digest`: the digest of the bytes.
#[verifier::external_body]
pub(crate) fn sha256(b: &[u8]) -> (r: Vec<u8>)
    ensures
        r@ == sha256_of(b@),
{
    <sha2::Sha256 as sha2::Digest>::digest(b).to_vec()
}

/// The text at a JSON pointer in a JSON document; nothing where the document is malformed or
/// there is no text at that place.
pub uninterp spec fn json_text_at(doc: Seq<char>, pointer: Seq<char>) -> Option<Seq<char>>;

/// `serde_json::from_str` and `Value::pointer`: the text at that place of the document.
#[verifier::external_body]
pub(crate) fn json_text(doc: &str, pointer: &str) -> (r: Option<String>)
    ensures
        match r {
            Some(t) => json_text_at(doc@, pointer@) == Some(t@),
            None => json_text_at(doc@, pointer@) is None,
        },
{
    let v: serde_json::Value = serde_json::from_str(doc).ok()?;
    v.pointer(pointer)?.as_str().map(String::from)
}

/// What is wrong with a JSON document, in the words of the `serde_json` crate; nothing where it
/// is well formed.
pub uninterp spec fn json_fault(doc: Seq<u8>) -> Option<Seq<char>>;

/// `serde_json::from_slice`: the message of its error for a document that it does not accept.
#[verifier::external_body]
pub(crate) fn json_error(doc: &[u8]) -> (r: Option<String>)
    ensures
        match r {
            Some(m) => json_fault(doc@) == Some(m@),
            None => json_fault(doc@) is None,
        },
{
    serde_json::from_slice::<serde_json::Value>(doc).err().map(|e| e.to_string())
}

/// The unsigned number at a JSON pointer in a JSON document.
pub uninterp spec fn json_number_at(doc: Seq<u8>, pointer: Seq<char>) -> Option<u64>;

/// `serde_json::from_slice` and `Value::pointer`: the unsigned number at that place of the
/// document; nothing where the document is malformed or there is no such number there.
#[verifier::external_body]
pub(crate) fn json_number(doc: &[u8], pointer: &str) -> (r: Option<u64>)
    ensures
        r == json_number_at(doc@, pointer@),
{
    let v: serde_json::Value = serde_json::from_slice(doc).ok()?;
    v.pointer(pointer)?.as_u64()
}

} // verus!
