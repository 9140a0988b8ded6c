use chrono::{Datelike, Timelike};
use rustwari::himawaridt::{
    locator_from, HimawariDatetime, SnapshotError, UtcInstant, ValidationWarning, STEP_MINUTES,
    URLBASE,
};

fn snapshot(year: u32, month: u32, day: u32, h: u32, m: u32) -> HimawariDatetime {
    HimawariDatetime { year, month, day, h, m }
}

fn instant(year: i64, month: u32, day: u32, hour: u32, minute: u32) -> UtcInstant {
    UtcInstant { year, month, day, hour, minute }
}

#[test]
fn pretty_filename_follows_the_convention() {
    assert_eq!(snapshot(2022, 9, 21, 0, 10).pretty_filename(), "fulldisc-2022-09-21 00_10.png");
    assert_eq!(snapshot(2015, 7, 7, 1, 50).pretty_filename(), "fulldisc-2015-07-07 01_50.png");
    assert_eq!(snapshot(2018, 12, 31, 23, 0).pretty_filename(), "fulldisc-2018-12-31 23_00.png");
}

#[test]
fn pretty_filename_widens_for_large_fields() {
    assert_eq!(snapshot(0, 0, 0, 0, 0).pretty_filename(), "fulldisc-0-00-00 00_00.png");
    assert_eq!(
        snapshot(4294967295, 100, 7, 123, 4294967295).pretty_filename(),
        "fulldisc-4294967295-100-07 123_4294967295.png"
    );
}

#[test]
fn from_path_reads_a_finished_name() {
    assert_eq!(
        HimawariDatetime::from_path("fulldisc-2022-09-21 00_10.png"),
        Ok(snapshot(2022, 9, 21, 0, 10))
    );
}

#[test]
fn from_path_reads_the_file_name_of_a_path() {
    let expected = Ok(HimawariDatetime { year: 2022, month: 9, day: 21, h: 0, m: 10 });
    for path in [
        "./test_data/fulldisc-2022-09-21 00_10.png",
        "test_data/fulldisc-2022-09-21 00_10.png",
        "completed/fulldisc-2022-09-21 00_10.png",
        "/fulldisc-2022-09-21 00_10.png",
        "/home/user/completed/fulldisc-2022-09-21 00_10.png",
        "//fulldisc-2022-09-21 00_10.png",
        "2021-01-01/fulldisc-2020-01-01 00_00.png/fulldisc-2022-09-21 00_10.png",
        "fulldisc-1999-01-01 00_00.png/fulldisc-2022-09-21 00_10.png",
    ] {
        assert_eq!(HimawariDatetime::from_path(path), expected, "{path}");
    }
}

#[test]
fn from_path_round_trips_behind_directories() {
    for s in [snapshot(2015, 7, 7, 1, 50), snapshot(2030, 12, 31, 23, 50), snapshot(0, 0, 0, 0, 0)]
    {
        for directory in ["", ".", "completed", "/data/backup", "a-b/c_d e.f"] {
            let path = format!("{}/{}", directory, s.pretty_filename());
            assert_eq!(HimawariDatetime::from_path(&path), Ok(s), "{path}");
        }
    }
}

#[test]
fn from_path_reads_unpadded_fields() {
    assert_eq!(
        HimawariDatetime::from_path("fulldisc-2022-2-3 0_30.png"),
        Ok(snapshot(2022, 2, 3, 0, 30))
    );
}

#[test]
fn from_path_takes_any_extension() {
    assert_eq!(
        HimawariDatetime::from_path("fulldisc-2022-09-21 00_10.jpeg"),
        Ok(snapshot(2022, 9, 21, 0, 10))
    );
    assert_eq!(
        HimawariDatetime::from_path("fulldisc-2022-09-21 00_10."),
        Ok(snapshot(2022, 9, 21, 0, 10))
    );
}

#[test]
fn from_path_round_trips() {
    let cases = vec![
        snapshot(2015, 7, 7, 1, 50),
        snapshot(2022, 9, 21, 0, 10),
        snapshot(2018, 8, 18, 9, 0),
        snapshot(2030, 12, 31, 23, 50),
        snapshot(0, 0, 0, 0, 0),
        snapshot(4294967295, 4294967295, 4294967295, 4294967295, 4294967295),
        snapshot(7, 100, 9, 10, 99),
    ];
    for s in cases {
        assert_eq!(HimawariDatetime::from_path(&s.pretty_filename()), Ok(s));
    }
}

#[test]
fn from_path_rejects_what_is_no_name() {
    let bad = vec![
        "",
        "fulldisc",
        "fulldisc-",
        "fulldisk-2022-09-21 00_10.png",
        "Fulldisc-2022-09-21 00_10.png",
        " fulldisc-2022-09-21 00_10.png",
        "fulldisc-2022-09-21 00_10",
        "fulldisc-2022-09-21 00_10png",
        "fulldisc-2022-09-21 00-10.png",
        "fulldisc-2022-09-21_00_10.png",
        "fulldisc-2022-09 21 00_10.png",
        "fulldisc-2022/09/21 00_10.png",
        "fulldisc--09-21 00_10.png",
        "fulldisc-2022-09-21 _10.png",
        "fulldisc-2022-09-21 00_.png",
        "fulldisc-2022-09-21  00_10.png",
        "fulldisc-+2022-09-21 00_10.png",
        "fulldisc-2022-0x9-21 00_10.png",
        "fulldisc-2022-09-21 00_1o.png",
        "fulldisc-2022-09-21 00_10.png/",
        "fulldisc-2022-09-21 00_10.p/ng",
        "fulldisc-2022-09-21/00_10.png",
        "completed/",
        "/",
        "completed/xfulldisc-2022-09-21 00_10.png",
        "completed\\fulldisc-2022-09-21 00_10.png",
    ];
    for name in bad {
        assert_eq!(
            HimawariDatetime::from_path(name),
            Err(SnapshotError::UnrecognizedArtifactName),
            "{name}"
        );
    }
}

#[test]
fn from_path_rejects_numbers_beyond_32_bits() {
    assert_eq!(
        HimawariDatetime::from_path("fulldisc-4294967295-09-21 00_10.png"),
        Ok(snapshot(4294967295, 9, 21, 0, 10))
    );
    assert_eq!(
        HimawariDatetime::from_path("fulldisc-4294967296-09-21 00_10.png"),
        Err(SnapshotError::UnrecognizedArtifactName)
    );
    assert_eq!(
        HimawariDatetime::from_path("fulldisc-2022-09-21 00_99999999999999999999999.png"),
        Err(SnapshotError::UnrecognizedArtifactName)
    );
    assert_eq!(
        HimawariDatetime::from_path("fulldisc-000000000000000000002022-09-21 00_10.png"),
        Ok(snapshot(2022, 9, 21, 0, 10))
    );
}

#[test]
fn locator_is_written_out_exactly() {
    let s = snapshot(2018, 8, 18, 9, 0);
    assert_eq!(
        s.locator(17, 3),
        "https://himawari8.nict.go.jp/img/D531106/20d/550/2018/08/18/090000_17_3.png"
    );
    assert_eq!(
        snapshot(2022, 9, 21, 0, 10).locator(0, 19),
        "https://himawari8.nict.go.jp/img/D531106/20d/550/2022/09/21/001000_0_19.png"
    );
    assert!(s.locator(17, 3).starts_with(URLBASE));
}

#[test]
fn get_url_yields_the_exact_locator() {
    let url = snapshot(2018, 8, 18, 9, 0).get_url(17, 3).unwrap();
    assert_eq!(
        url.as_str(),
        "https://himawari8.nict.go.jp/img/D531106/20d/550/2018/08/18/090000_17_3.png"
    );
    assert_eq!(url, url::Url::parse(&snapshot(2018, 8, 18, 9, 0).locator(17, 3)).unwrap());
    assert_eq!(url.path(), "/img/D531106/20d/550/2018/08/18/090000_17_3.png");
    assert_eq!(url.host_str(), Some("himawari8.nict.go.jp"));
}

#[test]
fn a_text_that_is_no_url_is_a_malformed_locator() {
    assert_eq!(locator_from(url::Url::parse("")), Err(SnapshotError::MalformedLocator));
    assert_eq!(
        locator_from(url::Url::parse("img/D531106/20d/550/2018/08/18/090000_17_3.png")),
        Err(SnapshotError::MalformedLocator)
    );
    assert_eq!(locator_from(url::Url::parse("https://")), Err(SnapshotError::MalformedLocator));
    let url = url::Url::parse("https://example.net/a.png").unwrap();
    assert_eq!(locator_from(Ok(url.clone())), Ok(url));
}

#[test]
fn get_url_tells_columns_from_rows() {
    let s = snapshot(2018, 8, 18, 9, 0);
    assert!(s.get_url(3, 17).unwrap().as_str().ends_with("090000_3_17.png"));
    assert_ne!(s.get_url(3, 17), s.get_url(17, 3));
}

#[test]
fn closest_snapshot_rounds_the_minute_down() {
    let now = instant(2024, 1, 1, 0, 0);
    for (minute, rounded) in
        [(0, 0), (9, 0), (10, 10), (17, 10), (19, 10), (20, 20), (39, 30), (50, 50), (59, 50)]
    {
        let (s, warning) =
            HimawariDatetime::closest_snapshot(&instant(2022, 9, 21, 0, minute), &now);
        assert_eq!(s, snapshot(2022, 9, 21, 0, rounded));
        assert_eq!(warning, None);
        assert_eq!(s.m % STEP_MINUTES, 0);
    }
}

#[test]
fn closest_snapshot_accepts_the_present() {
    let now = instant(2022, 9, 21, 0, 17);
    assert_eq!(
        HimawariDatetime::closest_snapshot(&now, &now),
        (snapshot(2022, 9, 21, 0, 10), None)
    );
}

#[test]
fn closest_snapshot_falls_back_on_a_future_request() {
    let now = instant(2022, 9, 21, 0, 17);
    let first = snapshot(2015, 7, 7, 1, 50);
    for requested in [
        instant(2022, 9, 21, 0, 18),
        instant(2022, 9, 21, 1, 0),
        instant(2022, 9, 22, 0, 0),
        instant(2022, 10, 1, 0, 0),
        instant(2023, 1, 1, 0, 0),
    ] {
        assert_eq!(
            HimawariDatetime::closest_snapshot(&requested, &now),
            (first, Some(ValidationWarning::InFuture))
        );
    }
}

#[test]
fn closest_snapshot_falls_back_before_the_dataset() {
    let now = instant(2022, 9, 21, 0, 17);
    let first = snapshot(2015, 7, 7, 1, 50);
    for requested in [
        instant(2015, 7, 7, 1, 49),
        instant(2015, 7, 7, 0, 59),
        instant(2015, 7, 6, 23, 59),
        instant(2015, 6, 30, 12, 0),
        instant(2014, 12, 31, 23, 59),
        instant(0, 1, 1, 0, 0),
    ] {
        assert_eq!(
            HimawariDatetime::closest_snapshot(&requested, &now),
            (first, Some(ValidationWarning::BeforeDataset))
        );
    }
    assert_eq!(
        HimawariDatetime::closest_snapshot(&instant(2015, 7, 7, 1, 50), &now),
        (first, None)
    );
    assert_eq!(
        HimawariDatetime::closest_snapshot(&instant(2015, 7, 7, 1, 59), &now),
        (first, None)
    );
    assert_eq!(
        HimawariDatetime::closest_snapshot(&instant(2015, 7, 7, 2, 5), &now),
        (snapshot(2015, 7, 7, 2, 0), None)
    );
}

#[test]
fn closest_snapshot_falls_back_outside_calendar_and_clock() {
    let now = instant(2022, 9, 21, 0, 17);
    let first = snapshot(2015, 7, 7, 1, 50);
    for requested in [
        instant(2020, 0, 1, 0, 0),
        instant(2020, 13, 1, 0, 0),
        instant(2020, 1, 0, 0, 0),
        instant(2020, 1, 32, 0, 0),
        instant(2020, 1, 1, 24, 0),
        instant(2020, 1, 1, 0, 60),
        instant(-1, 1, 1, 0, 0),
        instant(4294967296, 1, 1, 0, 0),
    ] {
        assert_eq!(
            HimawariDatetime::closest_snapshot(&requested, &now),
            (first, Some(ValidationWarning::OutOfRange))
        );
    }
}

#[test]
fn closest_snapshot_is_never_later_than_the_request() {
    let now = instant(2030, 1, 1, 0, 0);
    for year in [2015i64, 2016, 2022, 2029] {
        for month in [7u32, 8, 12] {
            for day in [7u32, 8, 31] {
                for hour in [1u32, 2, 23] {
                    for minute in [0u32, 7, 49, 50, 51, 59] {
                        let requested = instant(year, month, day, hour, minute);
                        let (s, _) = HimawariDatetime::closest_snapshot(&requested, &now);
                        let chosen = (s.year as i64, s.month, s.day, s.h, s.m);
                        if (year, month, day, hour, minute) >= (2015, 7, 7, 1, 50) {
                            assert!(chosen <= (year, month, day, hour, minute));
                        }
                        assert!(s.m % 10 == 0 && s.m <= 50);
                    }
                }
            }
        }
    }
}

#[test]
fn earliest_is_the_first_snapshot() {
    assert_eq!(HimawariDatetime::earliest(), snapshot(2015, 7, 7, 1, 50));
}

#[test]
fn snapshot_from_an_instant() {
    assert_eq!(HimawariDatetime::from(instant(2022, 9, 21, 0, 10)), snapshot(2022, 9, 21, 0, 10));
    assert_eq!(HimawariDatetime::from(instant(2022, 9, 21, 0, 15)), snapshot(2022, 9, 21, 0, 10));
    assert_eq!(HimawariDatetime::from(instant(2001, 9, 21, 0, 15)), snapshot(2015, 7, 7, 1, 50));
    let s: HimawariDatetime = instant(2018, 8, 18, 9, 0).into();
    assert_eq!(s, snapshot(2018, 8, 18, 9, 0));
}

#[test]
fn instants_are_ordered_field_by_field() {
    let t = instant(2022, 9, 21, 0, 10);
    assert!(!t.is_earlier(&t));
    assert!(t.is_earlier(&instant(2022, 9, 21, 0, 11)));
    assert!(t.is_earlier(&instant(2022, 9, 21, 1, 0)));
    assert!(t.is_earlier(&instant(2022, 9, 22, 0, 0)));
    assert!(t.is_earlier(&instant(2022, 10, 1, 0, 0)));
    assert!(t.is_earlier(&instant(2023, 1, 1, 0, 0)));
    assert!(!t.is_earlier(&instant(2021, 12, 31, 23, 59)));
    assert!(!t.is_earlier(&instant(2022, 9, 21, 0, 9)));
}

#[test]
fn new_keeps_a_past_moment_and_rounds_it() {
    assert_eq!(HimawariDatetime::new(2018, 8, 18, 9, 0), snapshot(2018, 8, 18, 9, 0));
    assert_eq!(HimawariDatetime::new(2018, 8, 18, 9, 47), snapshot(2018, 8, 18, 9, 40));
    assert_eq!(HimawariDatetime::new(2015, 7, 20, 0, 0), snapshot(2015, 7, 20, 0, 0));
}

#[test]
fn new_falls_back_to_the_first_snapshot() {
    let first = snapshot(2015, 7, 7, 1, 50);
    assert_eq!(HimawariDatetime::new(2014, 12, 1, 0, 0), first);
    assert_eq!(HimawariDatetime::new(2015, 7, 7, 1, 40), first);
    assert_eq!(HimawariDatetime::new(9999, 1, 1, 0, 0), first);
    assert_eq!(HimawariDatetime::new(2018, 13, 1, 0, 0), first);
    assert_eq!(HimawariDatetime::new(2018, 1, 1, 24, 0), first);
    assert_eq!(HimawariDatetime::new(2018, 1, 1, 0, 60), first);
}

#[test]
fn closest_to_now_rounds_the_clock_down() {
    let before = chrono::Utc::now();
    let s = HimawariDatetime::closest_to_now();
    let after = chrono::Utc::now();
    assert!(s.m % 10 == 0 && s.m <= 50);
    assert!((1..=12).contains(&s.month) && (1..=31).contains(&s.day) && s.h <= 23);
    let rounded = |t: chrono::DateTime<chrono::Utc>| {
        (t.year() as u32, t.month(), t.day(), t.hour(), t.minute() - t.minute() % 10)
    };
    let chosen = (s.year, s.month, s.day, s.h, s.m);
    assert!(rounded(before) <= chosen && chosen <= rounded(after));
    assert_eq!(HimawariDatetime::new(s.year, s.month, s.day, s.h, s.m), s);
}
