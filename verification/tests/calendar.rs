use muzzle::calendar::{chrono_utc_now, civil_from_days};

#[test]
fn epoch() {
    assert_eq!(chrono_utc_now(0), "1970-01-01 00:00:00");
}

#[test]
fn second_before_midnight() {
    assert_eq!(chrono_utc_now(86_399), "1970-01-01 23:59:59");
    assert_eq!(chrono_utc_now(86_400), "1970-01-02 00:00:00");
}

#[test]
fn billionth_second() {
    assert_eq!(chrono_utc_now(1_000_000_000), "2001-09-09 01:46:40");
}

#[test]
fn leap_day_of_a_leap_century() {
    assert_eq!(chrono_utc_now(951_782_400), "2000-02-29 00:00:00");
    assert_eq!(chrono_utc_now(951_868_799), "2000-02-29 23:59:59");
    assert_eq!(chrono_utc_now(951_868_800), "2000-03-01 00:00:00");
}

#[test]
fn no_leap_day_in_a_plain_century() {
    assert_eq!(chrono_utc_now(4_107_542_399), "2100-02-28 23:59:59");
    assert_eq!(chrono_utc_now(4_107_542_400), "2100-03-01 00:00:00");
}

#[test]
fn turn_of_the_year() {
    assert_eq!(chrono_utc_now(1_704_067_199), "2023-12-31 23:59:59");
    assert_eq!(chrono_utc_now(1_704_067_200), "2024-01-01 00:00:00");
}

#[test]
fn years_beyond_four_digits() {
    assert_eq!(chrono_utc_now(253_402_300_799), "9999-12-31 23:59:59");
    assert_eq!(chrono_utc_now(253_402_300_800), "10000-01-01 00:00:00");
}

#[test]
fn latest_moment() {
    assert_eq!(chrono_utc_now(u64::MAX), "584554051223-11-09 07:00:15");
}

#[test]
fn timestamps_grow() {
    let moments = [0, 59, 60, 3_599, 3_600, 86_399, 86_400, 951_868_799, 253_402_300_799];
    for pair in moments.windows(2) {
        let (earlier, later) = (chrono_utc_now(pair[0]), chrono_utc_now(pair[1]));
        assert_eq!(earlier.len(), 19);
        assert_eq!(later.len(), 19);
        assert!(earlier < later);
    }
}

#[test]
fn days_follow_each_other() {
    let mut date: (u64, u32, u32) = (1970, 1, 1);
    for days in 0..800_000u64 {
        assert_eq!(civil_from_days(days), date);
        let (y, m, d) = date;
        let leap = y % 4 == 0 && (y % 100 != 0 || y % 400 == 0);
        let length = match m {
            2 => {
                if leap {
                    29
                } else {
                    28
                }
            }
            4 | 6 | 9 | 11 => 30,
            _ => 31,
        };
        date = if d < length {
            (y, m, d + 1)
        } else if m < 12 {
            (y, m + 1, 1)
        } else {
            (y + 1, 1, 1)
        };
    }
}
