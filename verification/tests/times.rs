use feedgen::order::newest_first;
use feedgen::timestamp::Timestamp;

#[test]
fn timestamps_are_made_of_valid_parts_only() {
    let t = Timestamp::new(1_700_000_000, 123_456_789, 3600).unwrap();
    assert_eq!(t.seconds(), 1_700_000_000);
    assert_eq!(t.nanos(), 123_456_789);
    assert_eq!(t.offset(), 3600);
    assert!(Timestamp::new(0, 1_000_000_000, 0).is_none());
    assert!(Timestamp::new(0, 0, 93_600).is_none());
    assert!(Timestamp::new(0, 0, -93_600).is_none());
    assert!(Timestamp::new(i64::MIN, 999_999_999, -93_599).is_some());
    let u = Timestamp::from_unix_seconds(5);
    assert_eq!((u.seconds(), u.nanos(), u.offset()), (5, 0, 0));
}

#[test]
fn instants_compare_without_their_offsets() {
    let a = Timestamp::new(10, 5, 3600).unwrap();
    let b = Timestamp::new(10, 5, -3600).unwrap();
    let c = Timestamp::new(10, 6, 0).unwrap();
    let d = Timestamp::new(-11, 999_999_999, 0).unwrap();
    assert!(a.same_instant(&b));
    assert!(!a.is_before(&b));
    assert!(a.is_before(&c));
    assert!(!c.is_before(&a));
    assert!(d.is_before(&a));
    assert!(!a.same_instant(&c));
}

#[test]
fn civil_dates_become_instants() {
    let t = Timestamp::from_civil(2024, 1, 1, 0, 0, 0, 0);
    assert_eq!((t.seconds(), t.nanos(), t.offset()), (1_704_067_200, 0, 0));
    let t = Timestamp::from_civil(2024, 1, 1, 0, 0, 0, -5400);
    assert_eq!((t.seconds(), t.offset()), (1_704_072_600, -5400));
    let t = Timestamp::from_civil(1970, 1, 1, 0, 0, 0, 3600);
    assert_eq!(t.seconds(), -3600);
    let t = Timestamp::from_civil(2024, 2, 29, 23, 59, 59, 0);
    assert_eq!(t.seconds(), 1_709_251_199);
}

#[test]
fn newest_comes_first_and_ties_keep_their_order() {
    let at = |s: i64| Timestamp::from_unix_seconds(s);
    assert_eq!(newest_first(&vec![]), Vec::<usize>::new());
    assert_eq!(newest_first(&vec![at(5)]), vec![0]);
    assert_eq!(newest_first(&vec![at(1), at(3), at(2)]), vec![1, 2, 0]);
    assert_eq!(newest_first(&vec![at(2), at(2), at(3), at(2), at(1)]), vec![2, 0, 1, 3, 4]);
    let a = Timestamp::new(7, 1, 0).unwrap();
    let b = Timestamp::new(7, 2, 7200).unwrap();
    assert_eq!(newest_first(&vec![a, b]), vec![1, 0]);
}

#[test]
fn the_instant_of_a_date_is_counted_from_1970() {
    let cases: [((i32, u8, u8, u8, u8, u8, i32), i64); 12] = [
        ((1970, 1, 1, 0, 0, 0, 0), 0),
        ((1970, 1, 1, 0, 0, 0, 3600), -3600),
        ((1969, 12, 31, 23, 59, 59, 0), -1),
        ((2000, 3, 1, 0, 0, 0, 0), 951_868_800),
        ((2024, 2, 29, 12, 0, 0, 3600), 1_709_204_400),
        ((2023, 12, 31, 23, 59, 59, -18_000), 1_704_085_199),
        ((1900, 3, 1, 0, 0, 0, 0), -2_203_891_200),
        ((1, 1, 1, 0, 0, 0, 0), -62_135_596_800),
        ((0, 3, 1, 0, 0, 0, 0), -62_162_035_200),
        ((-9999, 1, 1, 0, 0, 0, 0), -377_705_116_800),
        ((9999, 12, 31, 23, 59, 59, 0), 253_402_300_799),
        ((-4, 2, 29, 0, 0, 0, 93_599), -62_288_352_000 - 93_599),
    ];
    for ((year, month, day, hour, minute, second, offset), seconds) in cases {
        let at = Timestamp::from_civil(year, month, day, hour, minute, second, offset);
        assert_eq!((at.seconds(), at.nanos(), at.offset()), (seconds, 0, offset), "{year}-{month}-{day}");
    }
}

fn is_leap(year: i64) -> bool {
    year.rem_euclid(4) == 0 && (year.rem_euclid(100) != 0 || year.rem_euclid(400) == 0)
}

fn counted_days(year: i64, month: i64, day: i64) -> i64 {
    let past = year - 1;
    let lengths = [31, if is_leap(year) { 29 } else { 28 }, 31, 30, 31, 30, 31, 31, 30, 31, 30, 31];
    let before: i64 = lengths[..(month - 1) as usize].iter().sum();
    365 * past + past.div_euclid(4) - past.div_euclid(100) + past.div_euclid(400) + before + (day - 1)
        - 719_162
}

#[test]
fn the_instant_of_every_date_is_its_count_of_days_and_seconds() {
    let mut year: i32 = -9999;
    while year <= 9999 {
        for month in 1..=12u8 {
            let last: u8 = match month {
                2 => {
                    if is_leap(year as i64) {
                        29
                    } else {
                        28
                    }
                }
                4 | 6 | 9 | 11 => 30,
                _ => 31,
            };
            for day in [1, 15, last] {
                let offset = (year % 7) * 13_371 % 93_600;
                let at = Timestamp::from_civil(year, month, day, 23, 59, 58, offset);
                let counted = counted_days(year as i64, month as i64, day as i64) * 86_400
                    + 23 * 3600
                    + 59 * 60
                    + 58
                    - offset as i64;
                assert_eq!(at.seconds(), counted, "{year}-{month}-{day}");
            }
        }
        year += if (-20..=20).contains(&year) || year.abs() > 9990 { 1 } else { 3 };
    }
}
