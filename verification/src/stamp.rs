use chrono::Timelike;
use vstd::prelude::*;

verus! {

/// A timestamp read from one log record: the instant in epoch
/// milliseconds, and its rendering in the machine's local time zone.
#[derive(Debug, Clone)]
pub struct Stamp {
    pub ms: i64,
    pub iso: String,
    pub date: String,
    pub hour: u8,
}

/// Whether a text names an instant in the timestamp format the logs use,
/// and which instant, in epoch milliseconds. Both depend on the text
/// alone; the trusted reader below is the sole source of this name.
pub uninterp spec fn rfc3339_epoch_ms(s: Seq<char>) -> Option<i64>;

/// Relies on chrono: DateTime::parse_from_rfc3339 reads the text;
/// with_timezone(&Local) moves it to the machine's local calendar;
/// timestamp_millis, to_rfc3339, the "%Y-%m-%d" rendering and
/// Timelike::hour give the four readings. Success and the instant depend
/// on the text alone and carry the name `rfc3339_epoch_ms`; the calendar
/// readings depend on the machine's time zone besides, so nothing is
/// promised of them beyond the hour's range.
#[verifier::external_body]
pub fn parse_local_timestamp(s: &str) -> (r: Option<Stamp>)
    ensures
        match r {
            Some(st) => rfc3339_epoch_ms(s@) == Some(st.ms) && st.hour < 24,
            None => rfc3339_epoch_ms(s@) is None,
        },
{
    let dt = match chrono::DateTime::parse_from_rfc3339(s) {
        Ok(dt) => dt,
        Err(_) => return None,
    };
    let local = dt.with_timezone(&chrono::Local);
    Some(Stamp {
        ms: local.timestamp_millis(),
        iso: local.to_rfc3339(),
        date: local.format("%Y-%m-%d").to_string(),
        hour: local.hour() as u8,
    })
}

/// Relies on std::time::SystemTime::now for the wall clock: seconds since
/// the epoch, zero if the clock stands before it. Nothing can be promised
/// of a clock reading.
#[verifier::external_body]
pub fn now_secs() -> u64 {
    std::time::SystemTime::now()
        .duration_since(std::time::UNIX_EPOCH)
        .unwrap_or_default()
        .as_secs()
}

} // verus!
