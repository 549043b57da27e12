//! How task fields are written as text in the store and read back: ids as
//! UUID strings, times as RFC 3339 strings, statuses as words.
use vstd::prelude::*;
use crate::text::hex_text;

verus! {

/// The hyphenated lower-case form of the UUID with value `v`: its 32 hex
/// digits in groups of 8, 4, 4, 4 and 12, separated by `-`.
pub open spec fn uuid_text(v: u128) -> Seq<char> {
    let h = hex_text(v as nat, 32);
    h.subrange(0, 8) + seq!['-'] + h.subrange(8, 12) + seq!['-'] + h.subrange(12, 16) + seq!['-']
        + h.subrange(16, 20) + seq!['-'] + h.subrange(20, 32)
}

/// The value of the UUID that `uuid::Uuid::parse_str` reads from `text`
/// (simple, hyphenated, braced or URN form), or `None` when it rejects it.
pub uninterp spec fn uuid_parse(text: Seq<char>) -> Option<u128>;

/// The RFC 3339 text that chrono writes (`DateTime::<Utc>::to_rfc3339`) for
/// the instant `secs` seconds and `nanos` nanoseconds after the Unix epoch,
/// or `None` when `DateTime::from_timestamp` rejects those values.
pub uninterp spec fn rfc3339_of(secs: i64, nanos: u32) -> Option<Seq<char>>;

/// The instant (seconds after the epoch and nanoseconds) that
/// `DateTime::parse_from_rfc3339` reads from `text`, or `None` when it
/// rejects it.
pub uninterp spec fn rfc3339_instant(text: Seq<char>) -> Option<(i64, u32)>;

/// Calls `uuid::Uuid::parse_str` and takes the value of the UUID it parsed.
#[verifier::external_body]
pub(crate) fn parse_uuid(text: &str) -> (r: Option<u128>)
    ensures
        r == uuid_parse(text@),
{
    match uuid::Uuid::parse_str(text) {
        Ok(u) => Some(u.as_u128()),
        Err(_) => None,
    }
}

/// Calls `to_string` on `uuid::Uuid::from_u128(v)`. The uuid crate writes a
/// UUID as 36 characters, hyphenated lower-case hex of its big-endian bytes,
/// and `parse_str` reads that form back to the same value.
#[verifier::external_body]
pub(crate) fn format_uuid(v: u128) -> (s: String)
    ensures
        s@ == uuid_text(v),
        uuid_parse(s@) == Some(v),
{
    uuid::Uuid::from_u128(v).to_string()
}

/// The instant `secs` seconds after the epoch falls in the years 0000 to
/// 9999, which chrono writes with four digits.
pub open spec fn four_digit_year(secs: i64) -> bool {
    -62167219200 <= secs <= 253402300799
}

/// Calls `DateTime::to_rfc3339` on the `DateTime<Utc>` that
/// `DateTime::from_timestamp(secs, nanos)` builds; `None` when it builds none.
/// For a year from 0000 to 9999 chrono writes the date with four digits, the
/// fraction with all its non-zero digits and a leap second as second 60,
/// which `DateTime::parse_from_rfc3339` reads back as the same instant; other
/// years it writes with a sign and five digits, which the parser rejects.
#[verifier::external_body]
pub(crate) fn format_rfc3339(secs: i64, nanos: u32) -> (r: Option<String>)
    ensures
        match r {
            Some(s) => rfc3339_of(secs, nanos) == Some(s@),
            None => rfc3339_of(secs, nanos) is None,
        },
        match r {
            Some(s) => four_digit_year(secs) ==> rfc3339_instant(s@) == Some((secs, nanos)),
            None => true,
        },
{
    match chrono::DateTime::from_timestamp(secs, nanos) {
        Some(t) => Some(t.to_rfc3339()),
        None => None,
    }
}

/// Calls `DateTime::parse_from_rfc3339`, moves the result to UTC and takes its
/// Unix seconds and sub-second nanoseconds.
#[verifier::external_body]
pub(crate) fn parse_rfc3339(text: &str) -> (r: Option<(i64, u32)>)
    ensures
        r == rfc3339_instant(text@),
{
    match chrono::DateTime::parse_from_rfc3339(text) {
        Ok(t) => {
            let utc = t.with_timezone(&chrono::Utc);
            Some((utc.timestamp(), utc.timestamp_subsec_nanos()))
        },
        Err(_) => None,
    }
}

/// The lower-case form that `str::to_lowercase` gives of `s`.
pub uninterp spec fn lowercase(s: Seq<char>) -> Seq<char>;

/// Calls `str::to_lowercase`.
#[verifier::external_body]
pub(crate) fn to_lowercase(s: &str) -> (r: String)
    ensures
        r@ == lowercase(s@),
{
    s.to_lowercase()
}

} // verus!
