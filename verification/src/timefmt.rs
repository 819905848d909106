use vstd::prelude::*;

verus! {

/// Format of the persisted rotation timestamps: date and time at minute
/// precision, without a zone marker; writing and reading use the same
/// clock convention.
pub const ROTATION_TIME_FORMAT: &'static str = "%Y-%m-%d %H:%M";

/// The start of the last minute of year 9999, the largest minute-aligned
/// instant the timestamp format can hold.
pub const MAX_STAMP_SECONDS: i64 = 253402300740;

/// `MAX_STAMP_SECONDS` in whole minutes.
pub const MAX_STAMP_MINUTES: i64 = 4223371679;

/// What `parse_stamp` reads out of a timestamp string: seconds since the
/// Unix epoch, or nothing when the string does not match the format.
pub uninterp spec fn time_of(s: Seq<char>) -> Option<i64>;

/// Relies on chrono's `NaiveDateTime::parse_from_str` with the fixed
/// format `%Y-%m-%d %H:%M`: the result is a function of the string alone.
#[verifier::external_body]
pub(crate) fn parse_stamp(s: &str) -> (r: Option<i64>)
    ensures
        r == time_of(s@),
{
    match chrono::NaiveDateTime::parse_from_str(s, ROTATION_TIME_FORMAT) {
        Ok(t) => Some(t.and_utc().timestamp()),
        Err(_) => None,
    }
}

/// Relies on chrono's timestamp formatting with `%Y-%m-%d %H:%M`, and on
/// `parse_from_str` reading back exactly what was formatted: for a
/// minute-aligned instant up to year 9999 the round trip is the identity.
#[verifier::external_body]
pub(crate) fn format_stamp(seconds: i64) -> (r: String)
    requires
        0 <= seconds <= MAX_STAMP_SECONDS,
        seconds % 60 == 0,
    ensures
        time_of(r@) == Some(seconds),
{
    let t = chrono::DateTime::<chrono::Utc>::from_timestamp(seconds, 0).expect("within year 9999");
    t.format(ROTATION_TIME_FORMAT).to_string()
}

/// The recorded minutes a stored timestamp string stands for: it must
/// parse, lie within the representable range and be minute-aligned.
pub open spec fn stored_minutes(stamp: Seq<char>) -> Option<i64> {
    match time_of(stamp) {
        Option::Some(t) => if 0 <= t <= MAX_STAMP_SECONDS && t % 60 == 0 {
            Some((t / 60) as i64)
        } else {
            None
        },
        Option::None => None,
    }
}

/// Reads a stored timestamp string back into whole minutes.
pub fn parse_stored_minutes(stamp: &str) -> (r: Option<i64>)
    ensures
        r == stored_minutes(stamp@),
        r matches Some(m) ==> 0 <= m <= MAX_STAMP_MINUTES,
{
    match parse_stamp(stamp) {
        Option::Some(t) => {
            if 0 <= t && t <= MAX_STAMP_SECONDS && t % 60 == 0 {
                assert(t / 60 <= MAX_STAMP_MINUTES) by {
                    assert(MAX_STAMP_SECONDS / 60 == MAX_STAMP_MINUTES);
                };
                Some(t / 60)
            } else {
                None
            }
        },
        Option::None => None,
    }
}

/// Writes whole minutes as a timestamp string that reads back to the
/// same value.
pub fn format_stored_minutes(minutes: i64) -> (r: String)
    requires
        0 <= minutes <= MAX_STAMP_MINUTES,
    ensures
        stored_minutes(r@) == Some(minutes),
{
    let seconds: i64 = minutes * 60;
    let r = format_stamp(seconds);
    assert(stored_minutes(r@) == Some(minutes)) by {
        assert(seconds / 60 == minutes);
        assert(seconds % 60 == 0);
    };
    r
}

} // verus!
