//! Polling the USGS earthquake feed: which query to send next, and what to do
//! with the earthquakes it returns.
//!
//! The feed is asked for the newest earthquake since a start time. When one
//! comes back, its magnitude is reported and the next query starts one second
//! after it, so that the same earthquake is not reported twice.
use std::fmt::Write;
use vstd::prelude::*;

verus! {

/// The query for the newest earthquake; the start time (UTC) is appended.
pub const QUERY_BASE_URL: &'static str =
    "https://earthquake.usgs.gov/fdsnws/event/1/query?format=geojson&limit=1&starttime=";

/// `a / b` rounded toward zero, as Rust's integer division computes it.
pub open spec fn div_toward_zero(a: int, b: int) -> int {
    if a >= 0 {
        a / b
    } else {
        -((-a) / b)
    }
}

/// The start (in whole seconds since the Unix epoch) of the query that
/// follows an earthquake at `time_ms` milliseconds since the epoch.
pub open spec fn start_after(time_ms: int) -> int {
    div_toward_zero(time_ms, 1000) + 1
}

/// The format of the query start time: ISO 8601 date and time, UTC, no zone.
pub const QUERY_TIME_FORMAT: &'static str = "%Y-%m-%dT%H:%M:%S";

/// The UTC date and time `secs` seconds and `nsecs` nanoseconds after the
/// Unix epoch, written with the strftime-style format `fmt`, or `None` where
/// chrono cannot represent that time or cannot apply that format.
pub uninterp spec fn utc_text(secs: i64, nsecs: u32, fmt: Seq<char>) -> Option<Seq<char>>;

/// chrono's `DateTime::from_timestamp(secs, nsecs)`, written with
/// `format(fmt)`. The result depends on the arguments alone (UTC, no locale).
/// It is named, not stated: neither the calendar computation, nor the range in
/// which chrono cannot represent a time, nor the formats it refuses are written
/// out here. chrono's formatting error is returned as `None`.
#[verifier::external_body]
fn format_utc(secs: i64, nsecs: u32, fmt: &str) -> (text: Option<String>)
    ensures
        text is Some <==> utc_text(secs, nsecs, fmt@) is Some,
        text matches Some(t) ==> t@ == utc_text(secs, nsecs, fmt@).unwrap(),
{
    match chrono::DateTime::from_timestamp(secs, nsecs) {
        Some(t) => {
            let mut text = String::new();
            match write!(text, "{}", t.format(fmt)) {
                Ok(()) => Some(text),
                Err(_) => None,
            }
        },
        None => None,
    }
}

/// The query URL for the newest earthquake after the time written `start_text`.
pub fn query_url_for(start_text: &str) -> (url: String)
    ensures
        url@ == QUERY_BASE_URL@ + start_text@,
{
    let mut url = String::from_str(QUERY_BASE_URL);
    url.append(start_text);
    url
}

/// The state of the earthquake watcher: where the next query starts.
pub struct QuakeWatch {
    start_secs: i64,
}

impl QuakeWatch {
    /// The query start, in seconds since the Unix epoch.
    pub closed spec fn start(self) -> int {
        self.start_secs as int
    }

    /// A watcher whose first query starts at `start_secs`.
    pub fn new(start_secs: i64) -> (w: Self)
        ensures
            w.start() == start_secs,
    {
        QuakeWatch { start_secs }
    }

    /// The query start, in seconds since the Unix epoch.
    pub fn start_secs(&self) -> (s: i64)
        ensures
            s == self.start(),
    {
        self.start_secs
    }

    /// The URL of the next query: the query base followed by the start time,
    /// to the whole second, in `QUERY_TIME_FORMAT`; or `None` where the start
    /// time cannot be written as a date.
    pub fn query_url(&self) -> (url: Option<String>)
        ensures
            utc_text(self.start() as i64, 0, QUERY_TIME_FORMAT@) matches Some(t) ==> (url matches Some(
                u,
            ) && u@ == QUERY_BASE_URL@ + t),
            utc_text(self.start() as i64, 0, QUERY_TIME_FORMAT@) is None ==> url is None,
    {
        match format_utc(self.start_secs, 0, QUERY_TIME_FORMAT) {
            Some(text) => Some(query_url_for(text.as_str())),
            None => None,
        }
    }

    /// Takes in the times (milliseconds since the Unix epoch) of the
    /// earthquakes that a query returned, newest first, and says whether the
    /// first one is to be reported. When it is, the next query starts one
    /// second after the whole second in which it happened; otherwise the next
    /// query starts where this one did.
    pub fn observe(&mut self, times_ms: &[i64]) -> (report: bool)
        ensures
            report == (times_ms@.len() > 0),
            report ==> final(self).start() == start_after(times_ms@[0] as int),
            !report ==> final(self).start() == old(self).start(),
            report && times_ms@[0] >= 0 ==> final(self).start() * 1000 > times_ms@[0]
                && (final(self).start() - 1) * 1000 <= times_ms@[0],
            report && times_ms@[0] < 0 ==> (final(self).start() - 1) * 1000 >= times_ms@[0]
                && (final(self).start() - 2) * 1000 < times_ms@[0],
    {
        proof {
            if times_ms@.len() > 0 {
                lemma_start_after_event(times_ms@[0] as int);
            }
        }
        if times_ms.len() > 0 {
            let timestamp = (times_ms[0] / 1000) + 1;
            self.start_secs = timestamp;
            true
        } else {
            false
        }
    }
}


/// The query that follows a reported earthquake starts at the first whole
/// second after the whole second of the earthquake (seconds counted toward
/// zero from the epoch): strictly after it, so the next query cannot return
/// it again, and no later, so no second after it is skipped.
pub proof fn lemma_start_after_event(time_ms: int)
    ensures
        start_after(time_ms) * 1000 > time_ms,
        time_ms >= 0 ==> (start_after(time_ms) - 1) * 1000 <= time_ms,
        time_ms >= 0 ==> start_after(time_ms) == time_ms / 1000 + 1,
        time_ms < 0 ==> (start_after(time_ms) - 1) * 1000 >= time_ms,
        time_ms < 0 ==> (start_after(time_ms) - 2) * 1000 < time_ms,
{
    if time_ms >= 0 {
        vstd::arithmetic::div_mod::lemma_fundamental_div_mod(time_ms, 1000);
        assert(0 <= time_ms % 1000 < 1000);
    } else {
        vstd::arithmetic::div_mod::lemma_fundamental_div_mod(-time_ms, 1000);
        assert(0 <= (-time_ms) % 1000 < 1000);
    }
}

} // verus!
