//! Resolving a parsed cadence against a time snapshot.
//!
//! [`next_occurrence`] takes the parts of a cadence string and a
//! [`NowParts`] snapshot and returns the next instant, strictly after the
//! snapshot, at which the cadence fires in the snapshot's frame.  The
//! computation is purely civil: which date fires depends only on the
//! snapshot's wall-clock fields, so the local and UTC variants of the same
//! cadence differ exactly by the frame offset.

use crate::calendar::{
    add_days, civil_seconds, day_number, days_in_month_of, getMonthDay, lemma_add_days_number,
    lemma_add_days_snoc, lemma_mod7_add, lemma_next_day_number, lemma_next_month_days,
    lemma_weekday_target, next_day, next_day_exec, valid_date, weekday_of,
};
use crate::errors::{message_of, TError, TErrorKind, TResult};
use crate::parsers::{clock_spec, parse_clock, str_eq_str, DateParser};
use crate::wallclock::NowParts;
use vstd::prelude::*;

verus! {

/// The message that reports a clock string which is not `HH:MM:SS`.
pub open spec fn bad_clock_msg() -> Seq<char> {
    "invalid clock string, expected HH:MM:SS"@
}

/// An instant at which a cadence fires: the civil fields read by the frame
/// the computation ran in, the weekday, the Unix timestamp of the instant
/// and the frame's offset east of UTC.
#[derive(Debug, Clone, Copy, PartialEq, Eq, Structural)]
pub struct NextDate {
    pub year: i32,
    pub month: u8,
    pub day: u8,
    pub hour: u8,
    pub minute: u8,
    pub second: u8,
    pub weekday: u8,
    pub timestamp: i64,
    pub offset: i32,
}

impl NextDate {
    /// The civil fields form a valid date-time that agrees with the weekday
    /// and names the instant `timestamp + offset` seconds after the epoch.
    pub open spec fn wf(self) -> bool {
        &&& valid_date(self.year as int, self.month as int, self.day as int)
        &&& self.hour < 24
        &&& self.minute < 60
        &&& self.second < 60
        &&& self.weekday == weekday_of(self.year as int, self.month as int, self.day as int)
        &&& self.timestamp + self.offset == civil_seconds(
            self.year as int,
            self.month as int,
            self.day as int,
            self.hour as int,
            self.minute as int,
            self.second as int,
        )
        &&& -86400 < self.offset < 86400
    }
}

/// What a cadence resolves to at a given snapshot.
pub enum Occurrence {
    /// The action names no cadence kind.
    BadFormat,
    /// The clock string is not `HH:MM:SS`.
    BadClock,
    /// A weekly cadence names a weekday outside 0..=6.
    BadWeekday,
    /// A monthly cadence names a day the resolved month does not have.
    DateOverflow,
    /// The cadence fires next at this civil date-time of the frame.
    Fire { year: int, month: int, day: int, hour: int, minute: int, second: int },
}

/// How many days ahead the next firing of a weekly cadence lies: the cyclic
/// distance from the snapshot's weekday to the target, except that distance
/// zero stands for a full week when today's firing time has already passed.
pub open spec fn weekly_gap(target: int, now_wd: int, clock_future: bool) -> int {
    let delta = (target - now_wd + 7) % 7;
    if delta != 0 {
        delta
    } else if clock_future {
        0
    } else {
        7
    }
}

/// A daily cadence fires today at its time of day, or tomorrow if that has
/// passed.
pub open spec fn daily_spec(clock: Seq<char>, now: NowParts) -> Occurrence {
    match clock_spec(clock) {
        None => Occurrence::BadClock,
        Some(c) => {
            if c.0 * 3600 + c.1 * 60 + c.2 > now.secs_of_day() {
                Occurrence::Fire {
                    year: now.year as int,
                    month: now.month as int,
                    day: now.day as int,
                    hour: c.0,
                    minute: c.1,
                    second: c.2,
                }
            } else {
                let (y, m, d) = next_day(now.year as int, now.month as int, now.day as int);
                Occurrence::Fire { year: y, month: m, day: d, hour: c.0, minute: c.1, second: c.2 }
            }
        },
    }
}

/// A weekly cadence fires on the next date with the requested weekday, a
/// full week ahead when that is today but the time has passed.
pub open spec fn weekly_spec(clock: Seq<char>, wd: int, now: NowParts) -> Occurrence {
    match clock_spec(clock) {
        None => Occurrence::BadClock,
        Some(c) => {
            if !(0 <= wd <= 6) {
                Occurrence::BadWeekday
            } else {
                let k = weekly_gap(
                    wd,
                    now.weekday as int,
                    c.0 * 3600 + c.1 * 60 + c.2 > now.secs_of_day(),
                );
                let (y, m, d) = add_days(now.year as int, now.month as int, now.day as int, k);
                Occurrence::Fire { year: y, month: m, day: d, hour: c.0, minute: c.1, second: c.2 }
            }
        },
    }
}

/// A monthly cadence fires this month on the requested day, rolling over to
/// the next month when today's firing has passed; a day the resolved month
/// does not have — this month's length when resolving this month, the next
/// month's length after rolling over — is a date overflow.
pub open spec fn monthly_spec(clock: Seq<char>, dom: int, now: NowParts) -> Occurrence {
    if dom < 1 || dom > days_in_month_of(now.year as int, now.month as int) {
        Occurrence::DateOverflow
    } else {
        match clock_spec(clock) {
            None => Occurrence::BadClock,
            Some(c) => {
                if dom > now.day || (dom == now.day && c.0 * 3600 + c.1 * 60 + c.2
                    > now.secs_of_day()) {
                    Occurrence::Fire {
                        year: now.year as int,
                        month: now.month as int,
                        day: dom,
                        hour: c.0,
                        minute: c.1,
                        second: c.2,
                    }
                } else {
                    let y2 = if now.month < 12 {
                        now.year as int
                    } else {
                        now.year + 1
                    };
                    let m2 = if now.month < 12 {
                        now.month + 1
                    } else {
                        1int
                    };
                    if dom > days_in_month_of(y2, m2) {
                        Occurrence::DateOverflow
                    } else {
                        Occurrence::Fire {
                            year: y2,
                            month: m2,
                            day: dom,
                            hour: c.0,
                            minute: c.1,
                            second: c.2,
                        }
                    }
                }
            },
        }
    }
}

/// The civil date-time at which the cadence in `p` next fires, strictly
/// after the snapshot `now`, or the error that prevents it.
pub open spec fn next_occurrence_spec(p: DateParser, now: NowParts) -> Occurrence {
    if p.action@ == "day"@ {
        daily_spec(p.clock@, now)
    } else if p.action@ == "week"@ {
        weekly_spec(p.clock@, p.day_time as int, now)
    } else if p.action@ == "month"@ {
        monthly_spec(p.clock@, p.day_time as int, now)
    } else {
        Occurrence::BadFormat
    }
}

/// The exact relation between an [`Occurrence`] and a result: each error
/// maps to its error kind and message, and a firing maps to an `Ok` whose
/// civil fields are the spec's, whose offset is the snapshot's, and whose
/// well-formedness then pins its timestamp.
pub open spec fn occ_post(o: Occurrence, now: NowParts, r: TResult<NextDate>) -> bool {
    match o {
        Occurrence::Fire { year, month, day, hour, minute, second } => {
            &&& r matches Ok(n)
            &&& n.year == year
            &&& n.month == month
            &&& n.day == day
            &&& n.hour == hour
            &&& n.minute == minute
            &&& n.second == second
            &&& n.offset == now.offset
            &&& n.wf()
        },
        Occurrence::BadFormat => r matches Err(e) && e.kind is BadFormat && e.error@ == message_of(
            TErrorKind::BadFormat,
        ),
        Occurrence::BadClock => r matches Err(e) && e.kind matches TErrorKind::Other(m) && m@
            == bad_clock_msg() && e.error@ == bad_clock_msg(),
        Occurrence::BadWeekday => r matches Err(e) && e.kind is WeekDay && e.error@ == message_of(
            TErrorKind::WeekDay,
        ),
        Occurrence::DateOverflow => r matches Err(e) && e.kind is DateOverflow && e.error@
            == message_of(TErrorKind::DateOverflow),
    }
}

/// The exact relation between the inputs of [`next_occurrence`] and its
/// result.
pub open spec fn next_post(p: DateParser, now: NowParts, r: TResult<NextDate>) -> bool {
    occ_post(next_occurrence_spec(p, now), now, r)
}

/// The three cadence keywords are pairwise distinct strings.
pub proof fn lemma_keywords_distinct()
    ensures
        "day"@ != "week"@,
        "day"@ != "month"@,
        "week"@ != "month"@,
{
    reveal_strlit("day");
    reveal_strlit("week");
    reveal_strlit("month");
    assert("day"@.len() == 3);
    assert("week"@.len() == 4);
    assert("month"@.len() == 5);
}

/// The error that reports a malformed clock string.
fn clock_err() -> (e: TError)
    ensures
        e.kind matches TErrorKind::Other(m) && m@ == bad_clock_msg(),
        e.error@ == bad_clock_msg(),
{
    TError::new(TErrorKind::Other(String::from_str("invalid clock string, expected HH:MM:SS")))
}

/// Resolves a daily cadence: today at the given time, or tomorrow.
fn daily_next(clock: &String, now: &NowParts) -> (r: TResult<NextDate>)
    requires
        now.wf(),
    ensures
        occ_post(daily_spec(clock@, *now), *now, r),
        r matches Ok(n) ==> n.timestamp > now.timestamp,
{
    let ghost y0 = now.year as int;
    let ghost m0 = now.month as int;
    let ghost d0 = now.day as int;
    let ghost dn0 = day_number(y0, m0, d0);
    let nsecs: u32 = now.hour as u32 * 3600 + now.minute as u32 * 60 + now.second as u32;
    let base: i64 = now.timestamp - nsecs as i64;
    let c = match parse_clock(clock.as_str()) {
        None => {
            return Err(clock_err());
        },
        Some(c) => c,
    };
    let csecs: u32 = c.hour as u32 * 3600 + c.minute as u32 * 60 + c.second as u32;
    if csecs > nsecs {
        Ok(
            NextDate {
                year: now.year,
                month: now.month,
                day: now.day,
                hour: c.hour,
                minute: c.minute,
                second: c.second,
                weekday: now.weekday,
                timestamp: base + csecs as i64,
                offset: now.offset,
            },
        )
    } else {
        proof {
            lemma_next_day_number(y0, m0, d0);
            lemma_mod7_add(dn0, now.weekday as int, 1);
        }
        let (y2, m2, d2) = next_day_exec(now.year, now.month, now.day);
        let wd2 = ((now.weekday as u32 + 1) % 7) as u8;
        Ok(
            NextDate {
                year: y2,
                month: m2,
                day: d2,
                hour: c.hour,
                minute: c.minute,
                second: c.second,
                weekday: wd2,
                timestamp: base + 86400 + csecs as i64,
                offset: now.offset,
            },
        )
    }
}

/// Resolves a weekly cadence: the next date with the requested weekday.
#[verifier::loop_isolation(false)]
fn weekly_next(clock: &String, wd: i8, now: &NowParts) -> (r: TResult<NextDate>)
    requires
        now.wf(),
    ensures
        occ_post(weekly_spec(clock@, wd as int, *now), *now, r),
        r matches Ok(n) ==> n.timestamp > now.timestamp && n.weekday as int == wd as int,
{
    let ghost y0 = now.year as int;
    let ghost m0 = now.month as int;
    let ghost d0 = now.day as int;
    let ghost dn0 = day_number(y0, m0, d0);
    let nsecs: u32 = now.hour as u32 * 3600 + now.minute as u32 * 60 + now.second as u32;
    let base: i64 = now.timestamp - nsecs as i64;
    let c = match parse_clock(clock.as_str()) {
        None => {
            return Err(clock_err());
        },
        Some(c) => c,
    };
    if wd < 0 || wd > 6 {
        return Err(TError::new(TErrorKind::WeekDay));
    }
    let csecs: u32 = c.hour as u32 * 3600 + c.minute as u32 * 60 + c.second as u32;
    let delta: i32 = ((wd as i32) - (now.weekday as i32) + 7) % 7;
    let k: u8 = if delta != 0 {
        delta as u8
    } else if csecs > nsecs {
        0
    } else {
        7
    };
    let mut cy = now.year;
    let mut cm = now.month;
    let mut cd = now.day;
    let mut j: u8 = 0;
    while j < k
        invariant
            j <= k,
            (cy as int, cm as int, cd as int) == add_days(y0, m0, d0, j as int),
            valid_date(cy as int, cm as int, cd as int),
            cy == now.year || (cy == now.year + 1 && cm == 1 && cd as int <= 1 + j as int),
        decreases k - j,
    {
        proof {
            lemma_add_days_snoc(y0, m0, d0, j as int);
        }
        let (a, b, e) = next_day_exec(cy, cm, cd);
        cy = a;
        cm = b;
        cd = e;
        j = j + 1;
    }
    proof {
        lemma_add_days_number(y0, m0, d0, k as int);
        lemma_mod7_add(dn0, now.weekday as int, k as int);
        lemma_weekday_target(now.weekday as int, wd as int, k as int);
    }
    let wd2 = ((now.weekday as u32 + k as u32) % 7) as u8;
    Ok(
        NextDate {
            year: cy,
            month: cm,
            day: cd,
            hour: c.hour,
            minute: c.minute,
            second: c.second,
            weekday: wd2,
            timestamp: base + (k as i64) * 86400 + csecs as i64,
            offset: now.offset,
        },
    )
}

/// Resolves a monthly cadence: this month on the requested day, or the next
/// month, re-checking that the day exists in the month it lands in.
fn monthly_next(clock: &String, dom_in: i8, now: &NowParts) -> (r: TResult<NextDate>)
    requires
        now.wf(),
    ensures
        occ_post(monthly_spec(clock@, dom_in as int, *now), *now, r),
        r matches Ok(n) ==> n.timestamp > now.timestamp && n.day as int == dom_in as int,
{
    let ghost y0 = now.year as int;
    let ghost m0 = now.month as int;
    let ghost d0 = now.day as int;
    let ghost dn0 = day_number(y0, m0, d0);
    let nsecs: u32 = now.hour as u32 * 3600 + now.minute as u32 * 60 + now.second as u32;
    let base: i64 = now.timestamp - nsecs as i64;
    let dim = match getMonthDay(now.year, now.month as i32) {
        Some(v) => v,
        None => {
            proof {
                assert(false);
            }
            31
        },
    };
    if dom_in < 1 || dom_in as i32 > dim {
        return Err(TError::new(TErrorKind::DateOverflow));
    }
    let c = match parse_clock(clock.as_str()) {
        None => {
            return Err(clock_err());
        },
        Some(c) => c,
    };
    let dom: u8 = dom_in as u8;
    let csecs: u32 = c.hour as u32 * 3600 + c.minute as u32 * 60 + c.second as u32;
    if dom > now.day || (dom == now.day && csecs > nsecs) {
        proof {
            lemma_mod7_add(dn0, now.weekday as int, dom - now.day);
        }
        let wd2 = ((now.weekday as u32 + (dom - now.day) as u32) % 7) as u8;
        Ok(
            NextDate {
                year: now.year,
                month: now.month,
                day: dom,
                hour: c.hour,
                minute: c.minute,
                second: c.second,
                weekday: wd2,
                timestamp: base + (dom as i64 - now.day as i64) * 86400 + csecs as i64,
                offset: now.offset,
            },
        )
    } else {
        let y2: i32 = if now.month < 12 {
            now.year
        } else {
            now.year + 1
        };
        let m2: u8 = if now.month < 12 {
            now.month + 1
        } else {
            1
        };
        let dim2 = match getMonthDay(y2, m2 as i32) {
            Some(v) => v,
            None => {
                proof {
                    assert(false);
                }
                31
            },
        };
        if dom as i32 > dim2 {
            return Err(TError::new(TErrorKind::DateOverflow));
        }
        let ghost full = dom as int - now.day as int + dim as int;
        proof {
            lemma_next_month_days(y0, m0, dom as int);
            assert(full >= 0);
            lemma_mod7_add(dn0, now.weekday as int, full);
            vstd::arithmetic::div_mod::lemma_add_mod_noop(now.weekday as int, full, 7);
            vstd::arithmetic::div_mod::lemma_small_mod(now.weekday as nat, 7);
        }
        let shift: u32 = ((dom as u32 + dim as u32) - now.day as u32) % 7;
        let wd2 = ((now.weekday as u32 + shift) % 7) as u8;
        Ok(
            NextDate {
                year: y2,
                month: m2,
                day: dom,
                hour: c.hour,
                minute: c.minute,
                second: c.second,
                weekday: wd2,
                timestamp: base + (dom as i64 - now.day as i64 + dim as i64) * 86400
                    + csecs as i64,
                offset: now.offset,
            },
        )
    }
}

/// Resolves the cadence in `p` against the snapshot `now`, as
/// [`next_post`] states.  Every successful result lies strictly after the
/// snapshot; a weekly cadence fires on its weekday, a monthly cadence on
/// its day of the month.
pub fn next_occurrence(p: &DateParser, now: &NowParts) -> (r: TResult<NextDate>)
    requires
        now.wf(),
    ensures
        next_post(*p, *now, r),
        r matches Ok(n) ==> n.timestamp > now.timestamp,
        p.action@ == "week"@ ==> (r matches Ok(n) ==> n.weekday as int == p.day_time as int),
        p.action@ == "month"@ ==> (r matches Ok(n) ==> n.day as int == p.day_time as int),
{
    proof {
        lemma_keywords_distinct();
    }
    if str_eq_str(p.action.as_str(), "day") {
        daily_next(&p.clock, now)
    } else if str_eq_str(p.action.as_str(), "week") {
        weekly_next(&p.clock, p.day_time, now)
    } else if str_eq_str(p.action.as_str(), "month") {
        monthly_next(&p.clock, p.day_time, now)
    } else {
        Err(TError::new(TErrorKind::BadFormat))
    }
}

/// Which civil date-time a cadence resolves to depends only on the
/// snapshot's wall-clock fields, never on its frame: two snapshots whose
/// clocks show the same reading resolve every cadence alike.
pub proof fn lemma_frame_independent(p: DateParser, a: NowParts, b: NowParts)
    requires
        a.wf(),
        b.wf(),
        a.year == b.year,
        a.month == b.month,
        a.day == b.day,
        a.hour == b.hour,
        a.minute == b.minute,
        a.second == b.second,
    ensures
        next_occurrence_spec(p, a) == next_occurrence_spec(p, b),
{
}

/// Resolving the same cadence in two frames whose clocks show the same
/// reading — the local and the UTC variant of one wall-clock cadence —
/// succeeds or fails alike, lands on the same civil date-time, and the two
/// instants differ exactly by the difference of the frame offsets.
pub proof fn lemma_frame_round_trip(
    p: DateParser,
    a: NowParts,
    b: NowParts,
    ra: TResult<NextDate>,
    rb: TResult<NextDate>,
)
    requires
        a.wf(),
        b.wf(),
        a.year == b.year,
        a.month == b.month,
        a.day == b.day,
        a.hour == b.hour,
        a.minute == b.minute,
        a.second == b.second,
        next_post(p, a, ra),
        next_post(p, b, rb),
    ensures
        ra is Ok <==> rb is Ok,
        (ra is Ok && rb is Ok) ==> {
            let na = ra->Ok_0;
            let nb = rb->Ok_0;
            &&& na.year == nb.year
            &&& na.month == nb.month
            &&& na.day == nb.day
            &&& na.hour == nb.hour
            &&& na.minute == nb.minute
            &&& na.second == nb.second
            &&& na.weekday == nb.weekday
            &&& nb.timestamp - na.timestamp == a.offset - b.offset
        },
        (ra is Err && rb is Err) ==> ra->Err_0.error@ == rb->Err_0.error@,
{
    lemma_frame_independent(p, a, b);
}

} // verus!
