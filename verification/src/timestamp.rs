use crate::digits::padded_str;
use crate::digits::padded_u64;
use chrono::Datelike;
use chrono::Timelike;
use vstd::prelude::*;

verus! {

/// A civil wall-clock instant, held as plain calendar and clock fields. The
/// gateway's timestamp convention renders such an instant with a fixed
/// `-04:00` offset and `.000` milliseconds, whatever the process's zone.
#[derive(Clone, Copy, Debug, PartialEq, Eq, Structural)]
pub struct Timestamp {
    pub year: u32,
    pub month: u32,
    pub day: u32,
    pub hour: u32,
    pub minute: u32,
    pub second: u32,
}

pub open spec fn is_leap_year(y: nat) -> bool {
    y % 4 == 0 && (y % 100 != 0 || y % 400 == 0)
}

pub open spec fn spec_days_in_month(y: nat, m: nat) -> nat {
    if m == 2 {
        if is_leap_year(y) {
            29
        } else {
            28
        }
    } else if m == 4 || m == 6 || m == 9 || m == 11 {
        30
    } else {
        31
    }
}

/// The number of days of the given month, by the proleptic Gregorian rules.
pub fn days_in_month(y: u32, m: u32) -> (r: u32)
    requires
        1 <= m <= 12,
    ensures
        r == spec_days_in_month(y as nat, m as nat),
{
    if m == 2 {
        if y % 4 == 0 && (y % 100 != 0 || y % 400 == 0) {
            29
        } else {
            28
        }
    } else if m == 4 || m == 6 || m == 9 || m == 11 {
        30
    } else {
        31
    }
}

impl Timestamp {
    /// A well-formed instant: a real calendar date of the four-digit era and
    /// a real time of day.
    pub open spec fn wf(self) -> bool {
        &&& 1 <= self.year <= 9999
        &&& 1 <= self.month <= 12
        &&& 1 <= self.day <= spec_days_in_month(self.year as nat, self.month as nat)
        &&& self.hour < 24
        &&& self.minute < 60
        &&& self.second < 60
    }

    /// The instant one hour later, rolling over day, month and year.
    pub open spec fn spec_plus_one_hour(self) -> Timestamp {
        if self.hour < 23 {
            Timestamp { hour: (self.hour + 1) as u32, ..self }
        } else if self.day < spec_days_in_month(self.year as nat, self.month as nat) {
            Timestamp { hour: 0, day: (self.day + 1) as u32, ..self }
        } else if self.month < 12 {
            Timestamp { hour: 0, day: 1, month: (self.month + 1) as u32, ..self }
        } else {
            Timestamp { hour: 0, day: 1, month: 1, year: (self.year + 1) as u32, ..self }
        }
    }

    /// Advances the instant by exactly one hour of civil time.
    pub fn plus_one_hour(self) -> (r: Timestamp)
        requires
            self.wf(),
            self.year <= 9998,
        ensures
            r == self.spec_plus_one_hour(),
            r.wf(),
    {
        if self.hour < 23 {
            Timestamp { hour: self.hour + 1, ..self }
        } else if self.day < days_in_month(self.year, self.month) {
            Timestamp { hour: 0, day: self.day + 1, ..self }
        } else if self.month < 12 {
            Timestamp { hour: 0, day: 1, month: self.month + 1, ..self }
        } else {
            Timestamp { hour: 0, day: 1, month: 1, year: self.year + 1, ..self }
        }
    }

    /// The gateway's timestamp convention: `YYYY-MM-DDTHH:MM:SS.000-04:00`,
    /// with a literal `-04:00` offset and zero milliseconds.
    pub open spec fn spec_format(self) -> Seq<char> {
        padded_str(self.year as nat, 4) + "-"@ + padded_str(self.month as nat, 2) + "-"@
            + padded_str(self.day as nat, 2) + "T"@ + padded_str(self.hour as nat, 2) + ":"@
            + padded_str(self.minute as nat, 2) + ":"@ + padded_str(self.second as nat, 2)
            + ".000-04:00"@
    }

    /// Renders the instant in the gateway's timestamp convention.
    pub fn format(self) -> (r: String)
        requires
            self.wf(),
        ensures
            r@ == self.spec_format(),
    {
        let mut r = padded_u64(self.year as u64, 4);
        r.append("-");
        let part = padded_u64(self.month as u64, 2);
        r.append(part.as_str());
        r.append("-");
        let part = padded_u64(self.day as u64, 2);
        r.append(part.as_str());
        r.append("T");
        let part = padded_u64(self.hour as u64, 2);
        r.append(part.as_str());
        r.append(":");
        let part = padded_u64(self.minute as u64, 2);
        r.append(part.as_str());
        r.append(":");
        let part = padded_u64(self.second as u64, 2);
        r.append(part.as_str());
        r.append(".000-04:00");
        proof {
            assert(r@ =~= self.spec_format());
        }
        r
    }
}

/// Validates raw clock parts into a well-formed instant. Accepts exactly the
/// instants of the four-digit era (the year capped one short, so one more
/// hour still renders in four digits) whose fields form a real calendar date
/// and time of day.
pub fn from_clock_parts(y: i64, mo: u32, d: u32, h: u32, mi: u32, s: u32) -> (r: Option<
    Timestamp,
>)
    ensures
        r is Some <==> (1 <= y <= 9998 && 1 <= mo <= 12 && 1 <= d <= spec_days_in_month(
            y as nat,
            mo as nat,
        ) && h < 24 && mi < 60 && s < 60),
        r matches Some(t) ==> t == (Timestamp {
            year: y as u32,
            month: mo,
            day: d,
            hour: h,
            minute: mi,
            second: s,
        }) && t.wf() && t.year <= 9998,
{
    if y < 1 || y > 9998 {
        return None;
    }
    if mo < 1 || mo > 12 {
        return None;
    }
    if d < 1 || d > days_in_month(y as u32, mo) {
        return None;
    }
    if h >= 24 || mi >= 60 || s >= 60 {
        return None;
    }
    Some(Timestamp { year: y as u32, month: mo, day: d, hour: h, minute: mi, second: s })
}

/// Relies on chrono's `Local::now` and the `Datelike`/`Timelike` accessors:
/// `month` is 1 to 12, `day` 1 to 31, `hour` under 24, `minute` and `second`
/// under 60. The year is whatever the system clock says and is not bounded;
/// chrono itself panics if the clock reads before the Unix epoch.
#[verifier::external_body]
fn clock_now_parts() -> (r: (i64, u32, u32, u32, u32, u32))
    ensures
        1 <= r.1 <= 12,
        1 <= r.2 <= 31,
        r.3 < 24,
        r.4 < 60,
        r.5 < 60,
{
    let t = chrono::Local::now();
    (t.year() as i64, t.month(), t.day(), t.hour(), t.minute(), t.second())
}

/// Reads the current local wall-clock time. Returns `None` only if the
/// system clock is outside the four-digit era or reports an impossible
/// calendar date.
pub fn current_timestamp() -> (r: Option<Timestamp>)
    ensures
        r is Some ==> r->Some_0.wf() && r->Some_0.year <= 9998,
{
    let (y, mo, d, h, mi, s) = clock_now_parts();
    from_clock_parts(y, mo, d, h, mi, s)
}

} // verus!
