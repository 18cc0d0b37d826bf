use stethoscope::time::rfc3339;

#[test]
fn known_instants() {
    assert_eq!(rfc3339(0).unwrap(), "1970-01-01T00:00:00Z");
    assert_eq!(rfc3339(1).unwrap(), "1970-01-01T00:00:01Z");
    assert_eq!(rfc3339(86_399).unwrap(), "1970-01-01T23:59:59Z");
    assert_eq!(rfc3339(86_400).unwrap(), "1970-01-02T00:00:00Z");
    assert_eq!(rfc3339(1_709_164_800).unwrap(), "2024-02-29T00:00:00Z");
    assert_eq!(rfc3339(1_709_251_200).unwrap(), "2024-03-01T00:00:00Z");
    assert_eq!(rfc3339(951_782_400).unwrap(), "2000-02-29T00:00:00Z");
    assert_eq!(rfc3339(1_774_008_191).unwrap(), "2026-03-20T12:03:11Z");
    assert_eq!(rfc3339(253_402_300_799).unwrap(), "9999-12-31T23:59:59Z");
}

#[test]
fn out_of_range_is_none() {
    assert!(rfc3339(-1).is_none());
    assert!(rfc3339(253_402_300_800).is_none());
}

#[test]
fn every_day_for_a_century_round_trips() {
    const DAYS_IN: [u32; 12] = [31, 28, 31, 30, 31, 30, 31, 31, 30, 31, 30, 31];
    let (mut y, mut m, mut d) = (1970i64, 1u32, 1u32);
    for day in 0..36_525i64 {
        let expected = format!("{y:04}-{m:02}-{d:02}T00:00:00Z");
        assert_eq!(rfc3339(day * 86_400).unwrap(), expected, "day {day}");
        let leap = (y % 4 == 0 && y % 100 != 0) || y % 400 == 0;
        let last = if m == 2 && leap { 29 } else { DAYS_IN[m as usize - 1] };
        d += 1;
        if d > last {
            d = 1;
            m += 1;
        }
        if m > 12 {
            m = 1;
            y += 1;
        }
    }
    assert_eq!((y, m, d), (2070, 1, 1));
}

#[test]
fn the_century_years_follow_the_gregorian_rule() {
    // 1900 and 2100 are not leap years; 2000 is.
    assert_eq!(rfc3339(4_107_542_400).unwrap(), "2100-03-01T00:00:00Z");
    assert_eq!(rfc3339(4_107_456_000).unwrap(), "2100-02-28T00:00:00Z");
    assert_eq!(rfc3339(951_868_800).unwrap(), "2000-03-01T00:00:00Z");
}

#[test]
fn the_last_second_of_each_day_is_23_59_59() {
    assert_eq!(rfc3339(1_709_251_199).unwrap(), "2024-02-29T23:59:59Z");
    assert_eq!(rfc3339(946_684_799).unwrap(), "1999-12-31T23:59:59Z");
    assert_eq!(rfc3339(946_684_800).unwrap(), "2000-01-01T00:00:00Z");
}

#[test]
fn text_order_is_time_order() {
    let instants = [0i64, 59, 60, 3_599, 3_600, 86_399, 86_400, 951_782_400, 1_709_164_800, 253_402_300_799];
    for w in instants.windows(2) {
        let a = rfc3339(w[0]).unwrap();
        let b = rfc3339(w[1]).unwrap();
        assert!(a < b, "{a} < {b}");
        assert_eq!(a.len(), 20);
    }
    let t = 1_774_008_191i64;
    let s = rfc3339(t).unwrap();
    assert_eq!(&s[..10], &rfc3339(t - t % 86_400).unwrap()[..10]);
    assert_eq!(&s[11..19], format!("{:02}:{:02}:{:02}", t % 86_400 / 3600, t % 3600 / 60, t % 60));
}
