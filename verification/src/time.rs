use chrono::{LocalResult, TimeZone, Utc};
use vstd::prelude::*;

verus! {

/// The milliseconds from the start of 1970 to the given second of the given
/// day in UTC, leap seconds not counted; nothing where the calendar has no
/// such second.
pub uninterp spec fn utc_millis(year: i32, month: u32, day: u32, hour: u32, min: u32, sec: u32)
    -> Option<i64>;

/// Calls `chrono::TimeZone::with_ymd_and_hms` on `chrono::Utc` and, where
/// that gives a single time, `chrono::DateTime::timestamp_millis` on it.
/// What comes back is taken for `utc_millis` of the same six numbers; no
/// more is claimed of it.
#[verifier::external_body]
fn utc_timestamp_millis(year: i32, month: u32, day: u32, hour: u32, min: u32, sec: u32) -> (millis:
    Option<i64>)
    ensures
        millis == utc_millis(year, month, day, hour, min, sec),
{
    match Utc.with_ymd_and_hms(year, month, day, hour, min, sec) {
        LocalResult::Single(time) => Some(time.timestamp_millis()),
        _ => None,
    }
}

/// The milliseconds in an hour.
pub const HOUR: i64 = 3_600_000;

/// The milliseconds in a week.
pub const WEEK: i64 = 604_800_000;

/// The time at which the game of `day` of `season` starts, in milliseconds
/// from the start of 1970. Days are an hour apart and seasons a week. The
/// days before day 99 count from 24 August 2020, 16:00 UTC, for season 3;
/// the days from 99 on count from 29 August 2020, 13:00 UTC. In season 3
/// the days 59 to 98 came ten hours late, and the days 88 to 98 three more.
pub open spec fn game_millis(season: u16, day: u8) -> Option<int> {
    let start = if day >= 99 {
        utc_millis(2020, 8, 29, 13, 0, 0)
    } else {
        utc_millis(2020, 8, 24, 16, 0, 0)
    };
    let hours = if day >= 99 {
        day - 99
    } else if season == 3 && day >= 88 {
        day + 13
    } else if season == 3 && day >= 59 {
        day + 10
    } else {
        day as int
    };
    match start {
        Some(start) => Some(start + (season - 3) * WEEK + hours * HOUR),
        None => None,
    }
}

/// The time at which the game of `day` of `season` starts, in milliseconds
/// from the start of 1970, for a game that starts after that.
pub fn game_time(season: u16, day: u8) -> (millis: u64)
    requires
        game_millis(season, day) matches Some(millis) && millis > 0,
    ensures
        game_millis(season, day) == Some(millis as int),
{
    let start = if day >= 99 {
        utc_timestamp_millis(2020, 8, 29, 13, 0, 0)
    } else {
        utc_timestamp_millis(2020, 8, 24, 16, 0, 0)
    };
    let hours: i128 = if day >= 99 {
        day as i128 - 99
    } else if season == 3 && day >= 88 {
        day as i128 + 13
    } else if season == 3 && day >= 59 {
        day as i128 + 10
    } else {
        day as i128
    };
    match start {
        Some(start) => {
            let millis: i128 = start as i128 + (season as i128 - 3) * (WEEK as i128) + hours * (HOUR
                as i128);
            millis as u64
        },
        None => 0,
    }
}

/// The time at which the game of `day` of `season` starts, if the calendar
/// has its first day and the game starts after the start of 1970.
pub fn game_time_checked(season: u16, day: u8) -> (millis: Option<u64>)
    ensures
        match millis {
            Some(millis) => game_millis(season, day) == Some(millis as int) && millis > 0,
            None => !(game_millis(season, day) matches Some(millis) && millis > 0),
        },
{
    let start = if day >= 99 {
        utc_timestamp_millis(2020, 8, 29, 13, 0, 0)
    } else {
        utc_timestamp_millis(2020, 8, 24, 16, 0, 0)
    };
    match start {
        Some(start) => {
            let hours: i128 = if day >= 99 {
                day as i128 - 99
            } else if season == 3 && day >= 88 {
                day as i128 + 13
            } else if season == 3 && day >= 59 {
                day as i128 + 10
            } else {
                day as i128
            };
            let millis: i128 = start as i128 + (season as i128 - 3) * (WEEK as i128) + hours * (HOUR
                as i128);
            if millis > 0 {
                Some(game_time(season, day))
            } else {
                None
            }
        },
        None => None,
    }
}

} // verus!
