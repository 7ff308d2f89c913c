use rsync_backup::timestamp::{
    is_valid_snapshot_name, parse_stamp, text_less, SnapshotName, SnapshotTime, STAMP_FORMAT,
    STAMP_LEN,
};

#[test]
fn stamp_has_twelve_digits() {
    assert_eq!(STAMP_LEN, 12);
    assert_eq!(STAMP_FORMAT, "%Y%m%d%H%M");
}

#[test]
fn fields_are_read_from_fixed_positions() {
    assert_eq!(
        parse_stamp("202402291759"),
        Some(SnapshotTime { year: 2024, month: 2, day: 29, hour: 17, minute: 59 })
    );
    assert_eq!(
        parse_stamp("000101010000"),
        Some(SnapshotTime { year: 1, month: 1, day: 1, hour: 0, minute: 0 })
    );
    // The fields are read as they stand, whether or not the calendar has such a minute.
    assert_eq!(
        parse_stamp("999999999999"),
        Some(SnapshotTime { year: 9999, month: 99, day: 99, hour: 99, minute: 99 })
    );
}

#[test]
fn strings_that_are_not_twelve_digits_have_no_fields() {
    for name in [
        "",
        "notadate",
        "20240101000",
        "2024010100000",
        "2024-01-01 0",
        " 20240101000",
        "+20240101000",
        "20240101000a",
        "２０２４０１０１００００",
        "2024010100\u{661}\u{662}",
    ] {
        assert_eq!(parse_stamp(name), None, "{name}");
        assert!(!is_valid_snapshot_name(name), "{name}");
        assert!(SnapshotName::new(name).is_none(), "{name}");
    }
}

#[test]
fn valid_names_spell_a_minute_of_the_calendar() {
    for name in [
        "202401010000",
        "202402020000",
        "202402291200",
        "200002290000",
        "202412312359",
        "000001010000",
        "000002290000",
        "999912312359",
        "202404300101",
    ] {
        assert!(is_valid_snapshot_name(name), "{name}");
        assert_eq!(SnapshotName::new(name).unwrap().as_str(), name);
    }
}

#[test]
fn minutes_that_the_calendar_does_not_have_are_no_names() {
    for name in [
        "202300010000",
        "202313010000",
        "202301000000",
        "202301320000",
        "202302290000",
        "190002290000",
        "210002290000",
        "202402300000",
        "202404310000",
        "202406310000",
        "202409310000",
        "202411310000",
        "202401012400",
        "202401010060",
        "202401019999",
    ] {
        assert!(!is_valid_snapshot_name(name), "{name}");
        assert!(SnapshotName::new(name).is_none(), "{name}");
    }
}

#[test]
fn every_month_has_its_last_day() {
    let days = [31, 28, 31, 30, 31, 30, 31, 31, 30, 31, 30, 31];
    for (i, last) in days.iter().enumerate() {
        let month = i + 1;
        assert!(is_valid_snapshot_name(&format!("2023{month:02}{last:02}0000")));
        let after = last + 1;
        assert!(!is_valid_snapshot_name(&format!("2023{month:02}{after:02}0000")));
    }
}

#[test]
fn name_gives_its_time() {
    let name = SnapshotName::new("202402020304").unwrap();
    assert_eq!(name.time(), SnapshotTime { year: 2024, month: 2, day: 2, hour: 3, minute: 4 });
    assert_eq!(name.clone(), name);
}

#[test]
fn order_of_strings() {
    assert!(text_less("202401010000", "202402020000"));
    assert!(!text_less("202402020000", "202401010000"));
    assert!(!text_less("202401010000", "202401010000"));
    assert!(text_less("", "a"));
    assert!(!text_less("a", ""));
    assert!(!text_less("", ""));
    assert!(text_less("ab", "abc"));
    assert!(text_less("abc", "abd"));
    assert!(text_less("Z", "a"));
    assert!(text_less("z", "\u{e9}"));
    assert!(text_less("\u{ffff}", "\u{10000}"));
}

#[test]
fn order_of_strings_is_that_of_the_standard_library() {
    let texts = ["", "a", "ab", "b", "202401010000", "202312312359", "\u{e9}", "\u{1f600}", "~"];
    for a in texts {
        for b in texts {
            assert_eq!(text_less(a, b), a < b, "{a} {b}");
        }
    }
}

fn as_tuple(t: SnapshotTime) -> (u32, u32, u32, u32, u32) {
    (t.year, t.month, t.day, t.hour, t.minute)
}

#[test]
fn order_of_names_is_the_order_of_time() {
    let names = [
        "199912312359",
        "200001010000",
        "202312312359",
        "202401010000",
        "202401010001",
        "202401010100",
        "202401020000",
        "202402010000",
        "202402020000",
        "999912312359",
    ];
    for (i, a) in names.iter().enumerate() {
        for (j, b) in names.iter().enumerate() {
            let x = SnapshotName::new(a).unwrap();
            let y = SnapshotName::new(b).unwrap();
            assert_eq!(x.is_before(&y), i < j);
            assert_eq!(x.is_before(&y), as_tuple(x.time()) < as_tuple(y.time()));
            assert_eq!(text_less(a, b), i < j);
        }
    }
}

fn seconds_since_the_epoch(name: &str) -> i64 {
    chrono::NaiveDateTime::parse_from_str(name, STAMP_FORMAT).unwrap().and_utc().timestamp()
}

#[test]
fn order_of_names_is_the_order_of_the_clock() {
    let names = [
        "000001010000",
        "000012312359",
        "000101010000",
        "189912312359",
        "190002282359",
        "190003010000",
        "199912312359",
        "200002282359",
        "200002290000",
        "200003010000",
        "202312312359",
        "202401010000",
        "202402291200",
        "202403010000",
        "999912312359",
    ];
    for a in names {
        for b in names {
            let x = SnapshotName::new(a).unwrap();
            let y = SnapshotName::new(b).unwrap();
            assert_eq!(
                x.is_before(&y),
                seconds_since_the_epoch(a) < seconds_since_the_epoch(b),
                "{a} {b}"
            );
        }
    }
    // A minute is sixty seconds, a day has 1440 minutes, and a leap year 366 days.
    assert_eq!(
        seconds_since_the_epoch("202401010001") - seconds_since_the_epoch("202401010000"),
        60
    );
    assert_eq!(
        seconds_since_the_epoch("202501010000") - seconds_since_the_epoch("202401010000"),
        366 * 1440 * 60
    );
}
