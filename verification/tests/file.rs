use memory_palace::file::{
    append, Date, Datetime, DatetimeError, ItemInDisk, ItemsInDisk, Offset, ReadError, Time,
};
use memory_palace::{Item, Timestamp};

fn utc(year: u16, month: u8, day: u8, hour: u8, minute: u8, second: u8) -> Datetime {
    Datetime {
        date: Some(Date { year, month, day }),
        time: Some(Time { hour, minute, second, nanosecond: 0 }),
        offset: Some(Offset::Z),
    }
}

fn record(question: &str, due: Option<Datetime>) -> ItemInDisk {
    ItemInDisk {
        question: question.to_string(),
        answer: "a".to_string(),
        first_remember_time: None,
        last_check_time: None,
        due_time: due,
        tag: None,
    }
}

fn card(question: &str) -> Item {
    Item {
        question: question.to_string(),
        answer: "a".to_string(),
        first_remember_time: None,
        last_check_time: None,
        due_time: None,
        tag: None,
    }
}

#[test]
fn a_time_on_disk_names_an_instant() {
    assert_eq!(utc(1970, 1, 1, 0, 0, 0).to_timestamp(), Ok(Timestamp::new(0, 0)));
    assert_eq!(utc(2024, 1, 1, 0, 0, 0).to_timestamp(), Ok(Timestamp::new(1_704_067_200, 0)));
    assert_eq!(utc(2024, 2, 1, 0, 0, 0).to_timestamp(), Ok(Timestamp::new(1_706_745_600, 0)));
    assert_eq!(utc(2024, 2, 29, 23, 59, 59).to_timestamp(), Ok(Timestamp::new(1_709_251_199, 0)));
    assert_eq!(utc(1969, 12, 31, 23, 59, 59).to_timestamp(), Ok(Timestamp::new(-1, 0)));
    assert_eq!(utc(1, 1, 1, 0, 0, 0).to_timestamp(), Ok(Timestamp::new(-62_135_596_800, 0)));
    assert_eq!(
        utc(9999, 12, 31, 23, 59, 59).to_timestamp(),
        Ok(Timestamp::new(253_402_300_799, 0))
    );
    let mut fine = utc(2001, 9, 9, 1, 46, 40);
    fine.time = Some(Time { hour: 1, minute: 46, second: 40, nanosecond: 123_456_789 });
    assert_eq!(fine.to_timestamp(), Ok(Timestamp::new(1_000_000_000, 123_456_789)));
}

#[test]
fn an_instant_lies_on_a_day_at_a_time() {
    let midnight = Time { hour: 0, minute: 0, second: 0, nanosecond: 0 };
    assert_eq!(Timestamp::on_day(0, &midnight), Ok(Timestamp::new(0, 0)));
    assert_eq!(Timestamp::on_day(19_723, &midnight), Ok(Timestamp::new(1_704_067_200, 0)));
    assert_eq!(Timestamp::on_day(-1, &midnight), Ok(Timestamp::new(-86_400, 0)));
    let late = Time { hour: 23, minute: 59, second: 59, nanosecond: 999_999_999 };
    assert_eq!(Timestamp::on_day(1, &late), Ok(Timestamp::new(172_799, 999_999_999)));
    assert_eq!(Timestamp::on_day(-1, &late), Ok(Timestamp::new(-1, 999_999_999)));
    assert_eq!(
        Timestamp::on_day(i32::MAX, &late),
        Ok(Timestamp::new(i32::MAX as i64 * 86_400 + 86_399, 999_999_999))
    );
    assert_eq!(
        Timestamp::on_day(i32::MIN, &midnight),
        Ok(Timestamp::new(i32::MIN as i64 * 86_400, 0))
    );
    let noon = Time { hour: 12, minute: 30, second: 15, nanosecond: 5 };
    assert_eq!(Timestamp::on_day(2, &noon), Ok(Timestamp::new(2 * 86_400 + 45_015, 5)));
    for bad in [
        Time { hour: 24, minute: 0, second: 0, nanosecond: 0 },
        Time { hour: 0, minute: 60, second: 0, nanosecond: 0 },
        Time { hour: 0, minute: 0, second: 60, nanosecond: 0 },
        Time { hour: 23, minute: 59, second: 59, nanosecond: 1_000_000_000 },
        Time { hour: 255, minute: 255, second: 255, nanosecond: u32::MAX },
    ] {
        assert_eq!(Timestamp::on_day(0, &bad), Err(DatetimeError::NoSuchTime));
    }
}

#[test]
fn an_instant_falls_on_a_day_and_a_second() {
    assert_eq!(Timestamp::new(0, 9).day_and_second(), (0, 0));
    assert_eq!(Timestamp::new(86_399, 0).day_and_second(), (0, 86_399));
    assert_eq!(Timestamp::new(86_400, 0).day_and_second(), (1, 0));
    assert_eq!(Timestamp::new(-1, 0).day_and_second(), (-1, 86_399));
    assert_eq!(Timestamp::new(-86_400, 0).day_and_second(), (-1, 0));
    assert_eq!(Timestamp::new(-86_401, 0).day_and_second(), (-2, 86_399));
    assert_eq!(Timestamp::new(1_704_067_200 + 45_015, 0).day_and_second(), (19_723, 45_015));
    assert_eq!(Timestamp::new(i64::MAX, 0).day_and_second(), (106_751_991_167_300, 55_807));
    assert_eq!(Timestamp::new(i64::MIN, 0).day_and_second(), (-106_751_991_167_301, 30_592));
}

#[test]
fn a_date_and_a_second_are_written_in_utc() {
    assert_eq!(Datetime::on_date(2024, 2, 29, 45_015), Some(utc(2024, 2, 29, 12, 30, 15)));
    assert_eq!(Datetime::on_date(0, 1, 1, 0), Some(utc(0, 1, 1, 0, 0, 0)));
    assert_eq!(Datetime::on_date(9999, 12, 31, 86_399), Some(utc(9999, 12, 31, 23, 59, 59)));
    assert_eq!(Datetime::on_date(-1, 12, 31, 0), None);
    assert_eq!(Datetime::on_date(10_000, 1, 1, 0), None);
    assert_eq!(Datetime::on_date(2024, 0, 1, 0), None);
    assert_eq!(Datetime::on_date(2024, 13, 1, 0), None);
    assert_eq!(Datetime::on_date(2024, 1, 0, 0), None);
    assert_eq!(Datetime::on_date(2024, 1, 32, 0), None);
    assert_eq!(Datetime::on_date(2024, 1, 1, -1), None);
    assert_eq!(Datetime::on_date(2024, 1, 1, 86_400), None);
}

#[test]
fn a_time_on_disk_agrees_with_chrono() {
    for (y, m, d, h, mi, s) in [
        (2000u16, 2u8, 29u8, 12u8, 0u8, 0u8),
        (1999, 12, 31, 23, 59, 59),
        (2038, 1, 19, 3, 14, 8),
        (1600, 3, 1, 6, 7, 8),
        (0, 1, 1, 0, 0, 0),
    ] {
        let expected = chrono::NaiveDate::from_ymd_opt(y as i32, m as u32, d as u32)
            .unwrap()
            .and_hms_opt(h as u32, mi as u32, s as u32)
            .unwrap()
            .and_utc()
            .timestamp();
        assert_eq!(utc(y, m, d, h, mi, s).to_timestamp(), Ok(Timestamp::new(expected, 0)));
    }
}

#[test]
fn a_time_without_offset_is_refused() {
    let mut value = utc(2024, 1, 1, 0, 0, 0);
    value.offset = None;
    assert_eq!(value.to_timestamp(), Err(DatetimeError::NoOffset));
    value.date = None;
    value.time = None;
    assert_eq!(value.to_timestamp(), Err(DatetimeError::NoOffset));
}

#[test]
fn a_time_not_in_utc_is_refused() {
    let mut value = utc(2024, 1, 1, 0, 0, 0);
    value.offset = Some(Offset::Custom { minutes: 60 });
    assert_eq!(value.to_timestamp(), Err(DatetimeError::NotUtc));
    value.offset = Some(Offset::Custom { minutes: 0 });
    assert_eq!(value.to_timestamp(), Err(DatetimeError::NotUtc));
}

#[test]
fn a_time_without_date_or_time_of_day_is_refused() {
    let mut value = utc(2024, 1, 1, 0, 0, 0);
    value.date = None;
    assert_eq!(value.to_timestamp(), Err(DatetimeError::NoDate));
    value.time = None;
    assert_eq!(value.to_timestamp(), Err(DatetimeError::NoDate));
    let mut value = utc(2024, 1, 1, 0, 0, 0);
    value.time = None;
    assert_eq!(value.to_timestamp(), Err(DatetimeError::NoTime));
}

#[test]
fn a_date_that_the_calendar_lacks_is_refused() {
    assert_eq!(utc(2023, 2, 29, 0, 0, 0).to_timestamp(), Err(DatetimeError::NoSuchDate));
    assert_eq!(utc(2023, 4, 31, 0, 0, 0).to_timestamp(), Err(DatetimeError::NoSuchDate));
    assert_eq!(utc(2023, 0, 1, 0, 0, 0).to_timestamp(), Err(DatetimeError::NoSuchDate));
    assert_eq!(utc(2023, 13, 1, 0, 0, 0).to_timestamp(), Err(DatetimeError::NoSuchDate));
    assert_eq!(utc(2023, 1, 0, 0, 0, 0).to_timestamp(), Err(DatetimeError::NoSuchDate));
    assert_eq!(utc(1900, 2, 29, 0, 0, 0).to_timestamp(), Err(DatetimeError::NoSuchDate));
    assert_eq!(utc(2023, 2, 30, 24, 0, 0).to_timestamp(), Err(DatetimeError::NoSuchDate));
}

#[test]
fn a_time_of_day_that_the_day_lacks_is_refused() {
    assert_eq!(utc(2023, 1, 1, 24, 0, 0).to_timestamp(), Err(DatetimeError::NoSuchTime));
    assert_eq!(utc(2023, 1, 1, 0, 60, 0).to_timestamp(), Err(DatetimeError::NoSuchTime));
    assert_eq!(utc(2023, 1, 1, 0, 0, 60).to_timestamp(), Err(DatetimeError::NoSuchTime));
    let mut value = utc(2023, 1, 1, 0, 0, 0);
    value.time = Some(Time { hour: 0, minute: 0, second: 0, nanosecond: 1_000_000_000 });
    assert_eq!(value.to_timestamp(), Err(DatetimeError::NoSuchTime));
}

#[test]
fn an_instant_is_written_in_utc_to_the_second() {
    assert_eq!(Datetime::from_timestamp(&Timestamp::new(0, 0)), Some(utc(1970, 1, 1, 0, 0, 0)));
    assert_eq!(
        Datetime::from_timestamp(&Timestamp::new(1_704_067_200, 999_999_999)),
        Some(utc(2024, 1, 1, 0, 0, 0))
    );
    assert_eq!(
        Datetime::from_timestamp(&Timestamp::new(1_709_251_199, 5)),
        Some(utc(2024, 2, 29, 23, 59, 59))
    );
    assert_eq!(
        Datetime::from_timestamp(&Timestamp::new(-1, 0)),
        Some(utc(1969, 12, 31, 23, 59, 59))
    );
    assert_eq!(
        Datetime::from_timestamp(&Timestamp::new(-86_400, 0)),
        Some(utc(1969, 12, 31, 0, 0, 0))
    );
    assert_eq!(
        Datetime::from_timestamp(&Timestamp::new(-86_401, 0)),
        Some(utc(1969, 12, 30, 23, 59, 59))
    );
    assert_eq!(
        Datetime::from_timestamp(&Timestamp::new(1_000_000_000, 0)),
        Some(utc(2001, 9, 9, 1, 46, 40))
    );
    assert_eq!(
        Datetime::from_timestamp(&Timestamp::new(253_402_300_799, 0)),
        Some(utc(9999, 12, 31, 23, 59, 59))
    );
    assert_eq!(
        Datetime::from_timestamp(&Timestamp::new(-62_167_219_200, 0)),
        Some(utc(0, 1, 1, 0, 0, 0))
    );
}

#[test]
fn an_instant_outside_four_digit_years_is_not_written() {
    assert_eq!(Datetime::from_timestamp(&Timestamp::new(253_402_300_800, 0)), None);
    assert_eq!(Datetime::from_timestamp(&Timestamp::new(-62_167_219_201, 0)), None);
    assert_eq!(Datetime::from_timestamp(&Timestamp::new(i64::MAX, 0)), None);
    assert_eq!(Datetime::from_timestamp(&Timestamp::new(i64::MIN, 0)), None);
    assert_eq!(Datetime::from_timestamp(&Timestamp::new(300_000 * 366 * 86_400, 0)), None);
}

#[test]
fn what_is_written_reads_back_to_the_second() {
    for secs in [
        0i64,
        1,
        -1,
        59,
        86_399,
        86_400,
        951_782_400,
        1_706_745_600,
        4_102_444_799,
        -2_208_988_800,
    ] {
        let written = Datetime::from_timestamp(&Timestamp::new(secs, 123)).unwrap();
        assert_eq!(written.to_timestamp(), Ok(Timestamp::new(secs, 0)));
        let by_chrono = chrono::DateTime::from_timestamp(secs, 0).unwrap();
        let date = written.date.unwrap();
        let time = written.time.unwrap();
        assert_eq!(
            format!(
                "{:04}-{:02}-{:02}T{:02}:{:02}:{:02}Z",
                date.year, date.month, date.day, time.hour, time.minute, time.second
            ),
            by_chrono.format("%Y-%m-%dT%H:%M:%SZ").to_string()
        );
    }
}

#[test]
fn a_record_gives_its_item() {
    let mut on_disk = record("q", Some(utc(2024, 1, 1, 0, 0, 0)));
    on_disk.first_remember_time = Some(utc(2023, 12, 1, 8, 30, 0));
    on_disk.tag = Some("t".to_string());
    let item = on_disk.into_item().unwrap();
    assert_eq!(item.question, "q");
    assert_eq!(item.answer, "a");
    assert_eq!(item.first_remember_time, Some(Timestamp::new(1_701_419_400, 0)));
    assert_eq!(item.last_check_time, None);
    assert_eq!(item.due_time, Some(Timestamp::new(1_704_067_200, 0)));
    assert_eq!(item.tag, Some("t".to_string()));
}

#[test]
fn a_record_with_a_bad_time_gives_the_first_error() {
    let mut on_disk = record("q", Some(utc(2023, 2, 29, 0, 0, 0)));
    assert_eq!(on_disk.into_item().err(), Some(DatetimeError::NoSuchDate));
    on_disk = record("q", Some(utc(2023, 2, 29, 0, 0, 0)));
    on_disk.last_check_time = Some(utc(2023, 1, 1, 25, 0, 0));
    assert_eq!(on_disk.into_item().err(), Some(DatetimeError::NoSuchTime));
    on_disk = record("q", Some(utc(2023, 2, 29, 0, 0, 0)));
    on_disk.last_check_time = Some(utc(2023, 1, 1, 25, 0, 0));
    let mut local = utc(2023, 1, 1, 0, 0, 0);
    local.offset = None;
    on_disk.first_remember_time = Some(local);
    assert_eq!(on_disk.into_item().err(), Some(DatetimeError::NoOffset));
}

#[test]
fn an_item_goes_to_disk_and_back() {
    let mut item = card("q");
    item.first_remember_time = Some(Timestamp::new(1_701_419_400, 5));
    item.last_check_time = Some(Timestamp::new(1_704_067_200, 999));
    item.due_time = Some(Timestamp::new(1_706_745_600, 0));
    item.tag = Some("x y".to_string());
    let on_disk = ItemInDisk::from_item(item).unwrap();
    assert_eq!(on_disk.question, "q");
    assert_eq!(on_disk.first_remember_time, Some(utc(2023, 12, 1, 8, 30, 0)));
    assert_eq!(on_disk.last_check_time, Some(utc(2024, 1, 1, 0, 0, 0)));
    assert_eq!(on_disk.due_time, Some(utc(2024, 2, 1, 0, 0, 0)));
    let back = on_disk.into_item().unwrap();
    assert_eq!(back.question, "q");
    assert_eq!(back.answer, "a");
    assert_eq!(back.first_remember_time, Some(Timestamp::new(1_701_419_400, 0)));
    assert_eq!(back.last_check_time, Some(Timestamp::new(1_704_067_200, 0)));
    assert_eq!(back.due_time, Some(Timestamp::new(1_706_745_600, 0)));
    assert_eq!(back.tag, Some("x y".to_string()));
}

#[test]
fn an_item_that_cannot_be_written_gives_no_record() {
    let mut item = card("q");
    item.due_time = Some(Timestamp::new(253_402_300_800, 0));
    assert!(ItemInDisk::from_item(item).is_none());
    let mut item = card("q");
    item.last_check_time = Some(Timestamp::new(i64::MIN, 0));
    assert!(ItemInDisk::from_item(item).is_none());
}

#[test]
fn a_store_is_read_record_by_record() {
    let stored = ItemsInDisk {
        items: vec![record("a", None), record("b", Some(utc(2024, 1, 1, 0, 0, 0)))],
    };
    let items = stored.into_items().unwrap();
    assert_eq!(items.len(), 2);
    assert_eq!(items[0].question, "a");
    assert_eq!(items[0].due_time, None);
    assert_eq!(items[1].question, "b");
    assert_eq!(items[1].due_time, Some(Timestamp::new(1_704_067_200, 0)));
    assert!(ItemsInDisk { items: Vec::new() }.into_items().unwrap().is_empty());
}

#[test]
fn a_store_with_a_bad_record_names_the_first() {
    let mut local = utc(2024, 1, 1, 0, 0, 0);
    local.offset = Some(Offset::Custom { minutes: -300 });
    let stored = ItemsInDisk {
        items: vec![
            record("a", None),
            record("b", Some(local)),
            record("c", Some(utc(2024, 2, 30, 0, 0, 0))),
        ],
    };
    assert_eq!(
        stored.into_items().err(),
        Some(ReadError { position: 1, error: DatetimeError::NotUtc })
    );
}

#[test]
fn a_store_is_written_record_by_record() {
    let mut due = card("b");
    due.due_time = Some(Timestamp::new(1_704_067_200, 77));
    let stored = ItemsInDisk::from_items(vec![card("a"), due]).unwrap();
    assert_eq!(stored.items.len(), 2);
    assert_eq!(stored.items[0].question, "a");
    assert_eq!(stored.items[0].due_time, None);
    assert_eq!(stored.items[1].due_time, Some(utc(2024, 1, 1, 0, 0, 0)));
    let mut lost = card("c");
    lost.due_time = Some(Timestamp::new(i64::MAX, 0));
    assert!(ItemsInDisk::from_items(vec![card("a"), lost]).is_none());
}

#[test]
fn append_puts_the_new_items_last() {
    let mut stored = vec![card("a"), card("b")];
    append(&mut stored, vec![card("c"), card("a")]);
    let asked: Vec<&str> = stored.iter().map(|item| item.question.as_str()).collect();
    assert_eq!(asked, vec!["a", "b", "c", "a"]);
    append(&mut stored, Vec::new());
    assert_eq!(stored.len(), 4);
}
