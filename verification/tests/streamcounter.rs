use arewevarietyyet::datetime::first_day_in_year;
use arewevarietyyet::model::Year;
use arewevarietyyet::streamcounter::{count, LongestDitch};
use arewevarietyyet::sullygnome::StreamData;

const DAY: u64 = 86400;

/// Seconds since the epoch for the given day of January 2022 and time of
/// day.
fn jan_2022(day: u64, h: u64, m: u64, s: u64) -> u64 {
    first_day_in_year(2022) + (day - 1) * DAY + h * 3600 + m * 60 + s
}

#[test]
fn it_works() {
    assert_eq!(
        count(&vec![
            StreamData {
                start_date_time: jan_2022(4, 14, 8, 5),
                length: 0
            },
            StreamData {
                start_date_time: jan_2022(2, 14, 8, 5),
                length: 0,
            },
            StreamData {
                start_date_time: jan_2022(1, 23, 8, 5),
                length: 0,
            },
            StreamData {
                start_date_time: jan_2022(1, 14, 8, 5),
                length: 0
            },
        ]),
        3
    );
}

#[test]
fn count_session_spanning_midnight_touches_both_days() {
    // Jan 1 14:00-23:00 and Jan 2 00:00-02:00, newest first: two distinct
    // calendar days even though the evening and the night form one
    // continuous session.
    let streams = vec![
        StreamData {
            start_date_time: jan_2022(2, 0, 0, 0),
            length: 120,
        },
        StreamData {
            start_date_time: jan_2022(1, 14, 0, 0),
            length: 540,
        },
    ];
    assert_eq!(count(&streams), 2);
}

#[test]
fn count_empty_is_zero() {
    assert_eq!(count(&vec![]), 0);
}

#[test]
fn count_single_multi_day_session() {
    // One session from Jan 1 22:00 running 50 hours touches Jan 1-4
    // (it ends Jan 4 00:00, which counts as touched).
    let streams = vec![StreamData {
        start_date_time: jan_2022(1, 22, 0, 0),
        length: 50 * 60,
    }];
    assert_eq!(count(&streams), 4);
}

#[test]
fn longest_ditch_largest_gap_beats_current_dangling_gap() {
    // Newest-first sessions with gaps of 5, 2 and 10 days between
    // consecutive pairs; the most recent one ended 1 day before `now`.
    // The 10-day historical gap wins over the 1-day dangling gap.
    let base = first_day_in_year(2022);
    let streams = vec![
        StreamData {
            start_date_time: base + 17 * DAY,
            length: 0,
        },
        StreamData {
            start_date_time: base + 12 * DAY,
            length: 0,
        },
        StreamData {
            start_date_time: base + 10 * DAY,
            length: 0,
        },
        StreamData {
            start_date_time: base,
            length: 0,
        },
    ];
    let now = base + 18 * DAY;
    let ditch = LongestDitch::calculate(Year::Current, &streams, now);
    assert_eq!(
        ditch,
        LongestDitch::Past {
            from: base,
            duration: "10days".to_owned(),
        }
    );
}

#[test]
fn longest_ditch_current_when_dangling_gap_is_largest() {
    // Historical gaps of 2 days, but the channel has been silent for 5
    // days: the ditch is still open, anchored at the last session's end.
    let base = first_day_in_year(2022);
    let streams = vec![
        StreamData {
            start_date_time: base + 4 * DAY,
            length: 60,
        },
        StreamData {
            start_date_time: base + 2 * DAY,
            length: 60,
        },
        StreamData {
            start_date_time: base,
            length: 60,
        },
    ];
    let now = base + 9 * DAY;
    let ditch = LongestDitch::calculate(Year::Current, &streams, now);
    assert_eq!(
        ditch,
        LongestDitch::Current {
            from: base + 4 * DAY + 3600,
        }
    );
}

#[test]
fn longest_ditch_empty_current_year_is_anchored_at_year_start() {
    let base = first_day_in_year(2024);
    let now = base + 40 * DAY;
    let ditch = LongestDitch::calculate(Year::Current, &vec![], now);
    assert_eq!(ditch, LongestDitch::Current { from: base });
}

#[test]
fn longest_ditch_single_session_current_year() {
    let base = first_day_in_year(2022);
    let streams = vec![StreamData {
        start_date_time: base + 3 * DAY,
        length: 90,
    }];
    let now = base + 5 * DAY;
    let ditch = LongestDitch::calculate(Year::Current, &streams, now);
    assert_eq!(
        ditch,
        LongestDitch::Current {
            from: base + 3 * DAY + 90 * 60,
        }
    );
}

#[test]
fn longest_ditch_past_year_reports_largest_gap_with_duration() {
    // Gaps of 2h37m and 1h: the 2h37m gap wins and is rendered.
    let base = first_day_in_year(2021);
    let streams = vec![
        StreamData {
            start_date_time: base + 20_000 + 3600 + 9420,
            length: 0,
        },
        StreamData {
            start_date_time: base + 20_000 + 3600,
            length: 0,
        },
        StreamData {
            start_date_time: base + 20_000,
            length: 0,
        },
    ];
    let now = first_day_in_year(2022) + 30 * DAY;
    let ditch = LongestDitch::calculate(Year::Last(2021), &streams, now);
    assert_eq!(
        ditch,
        LongestDitch::Past {
            from: base + 20_000 + 3600,
            duration: "2h 37m".to_owned(),
        }
    );
}

#[test]
fn longest_ditch_tie_keeps_first_maximum() {
    // Two equal 5-day gaps: the first pair encountered (the most recent
    // one) wins.
    let base = first_day_in_year(2021);
    let streams = vec![
        StreamData {
            start_date_time: base + 10 * DAY,
            length: 0,
        },
        StreamData {
            start_date_time: base + 5 * DAY,
            length: 0,
        },
        StreamData {
            start_date_time: base,
            length: 0,
        },
    ];
    let now = first_day_in_year(2022);
    let ditch = LongestDitch::calculate(Year::Last(2021), &streams, now);
    assert_eq!(
        ditch,
        LongestDitch::Past {
            from: base + 5 * DAY,
            duration: "5days".to_owned(),
        }
    );
}

#[test]
fn longest_ditch_of_touching_sessions_is_zero_seconds() {
    // The sessions touch back to back: the largest gap is zero, rendered
    // as a zero duration.
    let base = first_day_in_year(2021);
    let streams = vec![
        StreamData {
            start_date_time: base + 3600,
            length: 60,
        },
        StreamData {
            start_date_time: base,
            length: 60,
        },
    ];
    let now = first_day_in_year(2022);
    let ditch = LongestDitch::calculate(Year::Last(2021), &streams, now);
    assert_eq!(
        ditch,
        LongestDitch::Past {
            from: base + 3600,
            duration: "0s".to_owned(),
        }
    );
}

#[test]
fn longest_ditch_overlap_clamps_to_zero_seconds() {
    // Overlapping sessions give a negative gap, clamped to zero in the
    // rendered duration.
    let base = first_day_in_year(2021);
    let streams = vec![
        StreamData {
            start_date_time: base + 1800,
            length: 60,
        },
        StreamData {
            start_date_time: base,
            length: 60,
        },
    ];
    let now = first_day_in_year(2022);
    let ditch = LongestDitch::calculate(Year::Last(2021), &streams, now);
    assert_eq!(
        ditch,
        LongestDitch::Past {
            from: base + 3600,
            duration: "0s".to_owned(),
        }
    );
}

#[test]
fn longest_ditch_past_year_without_pairs_falls_back_to_year_start() {
    let base = first_day_in_year(2021);
    let streams = vec![StreamData {
        start_date_time: base + 7 * DAY,
        length: 45,
    }];
    let now = first_day_in_year(2022);
    let ditch = LongestDitch::calculate(Year::Last(2021), &streams, now);
    assert_eq!(
        ditch,
        LongestDitch::Past {
            from: base,
            duration: "0".to_owned(),
        }
    );
}
