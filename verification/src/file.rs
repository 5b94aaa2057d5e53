//! Items as they are kept on disk: times of review are written as calendar
//! dates and times of day in UTC, to the second.

use crate::item::Item;
use crate::time::Timestamp;
use chrono::{Datelike, NaiveDate};
use vstd::prelude::*;

verus! {

/// A calendar date as written on disk.
#[derive(Clone, Copy, Debug, PartialEq, Eq, Structural)]
pub struct Date {
    pub year: u16,
    pub month: u8,
    pub day: u8,
}

/// A time of day as written on disk.
#[derive(Clone, Copy, Debug, PartialEq, Eq, Structural)]
pub struct Time {
    pub hour: u8,
    pub minute: u8,
    pub second: u8,
    pub nanosecond: u32,
}

/// The distance from UTC that a time on disk is written with.
#[derive(Clone, Copy, Debug, PartialEq, Eq, Structural)]
pub enum Offset {
    /// UTC itself.
    Z,
    /// So many minutes ahead of UTC.
    Custom { minutes: i16 },
}

/// A point in time as written on disk. Each part may be missing there.
#[derive(Clone, Copy, Debug, PartialEq, Eq, Structural)]
pub struct Datetime {
    pub date: Option<Date>,
    pub time: Option<Time>,
    pub offset: Option<Offset>,
}

/// Why a time on disk does not name an instant.
#[derive(Clone, Copy, Debug, PartialEq, Eq, Structural)]
pub enum DatetimeError {
    /// It says nothing of its distance from UTC.
    NoOffset,
    /// It is not written in UTC.
    NotUtc,
    /// It has no date.
    NoDate,
    /// It has no time of day.
    NoTime,
    /// The calendar has no such day.
    NoSuchDate,
    /// The day has no such time.
    NoSuchTime,
}

/// The day that the calendar date falls on, counted from 1970-01-01 as day
/// 0 in the proleptic Gregorian calendar; nothing if the calendar has no such
/// date, or the date lies outside the years that `chrono` counts.
pub uninterp spec fn epoch_days(year: i32, month: u32, day: u32) -> Option<i32>;

/// The calendar date of a day counted from 1970-01-01 as day 0: year, month
/// and day of the month; nothing if the day lies outside the years that
/// `chrono` counts.
pub uninterp spec fn calendar_date(days: i32) -> Option<(i32, u32, u32)>;

/// `NaiveDate::from_ymd_opt` makes the date, or nothing where the calendar has
/// none; `NaiveDate::to_epoch_days` counts its days from 1970-01-01. The
/// result is a matter of the three numbers alone.
#[verifier::external_body]
fn days_of_date(year: i32, month: u32, day: u32) -> (days: Option<i32>)
    ensures
        days == epoch_days(year, month, day),
{
    match NaiveDate::from_ymd_opt(year, month, day) {
        Some(date) => Some(date.to_epoch_days()),
        None => None,
    }
}

/// `NaiveDate::from_epoch_days` makes the date of a day counted from
/// 1970-01-01, or nothing where the day is out of range; `Datelike` reads its
/// year, month and day. The result is a matter of the day's number alone.
#[verifier::external_body]
fn date_of_days(days: i32) -> (date: Option<(i32, u32, u32)>)
    ensures
        date == calendar_date(days),
{
    match NaiveDate::from_epoch_days(days) {
        Some(date) => Some((date.year(), date.month(), date.day())),
        None => None,
    }
}

/// The seconds from midnight to a time of day; nothing if the day has no
/// such time.
pub open spec fn seconds_of_day(time: Time) -> Option<int> {
    if time.hour < 24 && time.minute < 60 && time.second < 60 && time.nanosecond < 1_000_000_000 {
        Some(time.hour * 3600 + time.minute * 60 + time.second)
    } else {
        None
    }
}

/// The instant at a time of day on the day numbered `days` from 1970-01-01.
pub open spec fn instant_on(days: i32, time: Time) -> Result<Timestamp, DatetimeError> {
    match seconds_of_day(time) {
        None => Err(DatetimeError::NoSuchTime),
        Some(seconds) => Ok(
            Timestamp { secs: (days * 86_400 + seconds) as i64, nanos: time.nanosecond },
        ),
    }
}

/// The instant that a time on disk names. It must be complete and written
/// in UTC, and the calendar must have its date and time.
pub open spec fn instant_of(value: Datetime) -> Result<Timestamp, DatetimeError> {
    if value.offset is None {
        Err(DatetimeError::NoOffset)
    } else if value.offset != Some(Offset::Z) {
        Err(DatetimeError::NotUtc)
    } else if value.date is None {
        Err(DatetimeError::NoDate)
    } else if value.time is None {
        Err(DatetimeError::NoTime)
    } else {
        let date = value.date->0;
        match epoch_days(date.year as i32, date.month as u32, date.day as u32) {
            None => Err(DatetimeError::NoSuchDate),
            Some(days) => instant_on(days, value.time->0),
        }
    }
}

/// The number of the day an instant falls on, counted from 1970-01-01.
pub open spec fn day_of(instant: Timestamp) -> int {
    instant.secs as int / 86_400
}

/// The seconds from midnight to an instant.
pub open spec fn second_of(instant: Timestamp) -> int {
    instant.secs as int % 86_400
}

/// How a calendar date and a second of the day are written on disk: in UTC,
/// to the second. Nothing if the year does not have four digits, or one of
/// the numbers is none of a date or of a day.
pub open spec fn written_on(year: i32, month: u32, day: u32, seconds: int) -> Option<Datetime> {
    if 0 <= year <= 9999 && 1 <= month <= 12 && 1 <= day <= 31 && 0 <= seconds < 86_400 {
        Some(
            Datetime {
                date: Some(Date { year: year as u16, month: month as u8, day: day as u8 }),
                time: Some(
                    Time {
                        hour: (seconds / 3600) as u8,
                        minute: (seconds % 3600 / 60) as u8,
                        second: (seconds % 60) as u8,
                        nanosecond: 0,
                    },
                ),
                offset: Some(Offset::Z),
            },
        )
    } else {
        None
    }
}

/// How an instant is written on disk: in UTC, to the second. Nothing if its
/// year cannot be written with four digits, or if the date found for its day
/// would not be read back as that day.
pub open spec fn written(instant: Timestamp) -> Option<Datetime> {
    let days = day_of(instant);
    if days < i32::MIN || days > i32::MAX {
        None
    } else {
        match calendar_date(days as i32) {
            None => None,
            Some((year, month, day)) => if epoch_days(year, month, day) == Some(days as i32) {
                written_on(year, month, day, second_of(instant))
            } else {
                None
            },
        }
    }
}

impl Timestamp {
    /// The instant without its part below a second.
    pub open spec fn to_the_second(self) -> Timestamp {
        Timestamp { secs: self.secs, nanos: 0 }
    }

    /// The instant at a time of day on the day numbered `days` from
    /// 1970-01-01.
    pub fn on_day(days: i32, time: &Time) -> (instant: Result<Timestamp, DatetimeError>)
        ensures
            instant == instant_on(days, *time),
            instant matches Ok(t) ==> t.wf(),
    {
        if time.hour >= 24 || time.minute >= 60 || time.second >= 60 || time.nanosecond
            >= 1_000_000_000 {
            return Err(DatetimeError::NoSuchTime);
        }
        let seconds: i64 = time.hour as i64 * 3600 + time.minute as i64 * 60 + time.second as i64;
        Ok(Timestamp { secs: days as i64 * 86_400 + seconds, nanos: time.nanosecond })
    }

    /// The number of the day the instant falls on, counted from 1970-01-01,
    /// and the seconds from its midnight to the instant.
    pub fn day_and_second(&self) -> (parts: (i64, i64))
        ensures
            parts.0 == day_of(*self),
            parts.1 == second_of(*self),
            0 <= parts.1 < 86_400,
    {
        if self.secs >= 0 {
            (self.secs / 86_400, self.secs % 86_400)
        } else {
            let back: i64 = -(self.secs + 1);
            (-(back / 86_400) - 1, 86_399 - back % 86_400)
        }
    }
}

impl Datetime {
    /// How a calendar date and a second of the day are written on disk.
    pub fn on_date(year: i32, month: u32, day: u32, seconds: i64) -> (value: Option<Datetime>)
        ensures
            value == written_on(year, month, day, seconds as int),
    {
        if year < 0 || year > 9999 || month < 1 || month > 12 || day < 1 || day > 31 || seconds < 0
            || seconds >= 86_400 {
            return None;
        }
        Some(
            Datetime {
                date: Some(Date { year: year as u16, month: month as u8, day: day as u8 }),
                time: Some(
                    Time {
                        hour: (seconds / 3600) as u8,
                        minute: (seconds % 3600 / 60) as u8,
                        second: (seconds % 60) as u8,
                        nanosecond: 0,
                    },
                ),
                offset: Some(Offset::Z),
            },
        )
    }

    /// The instant that this time on disk names.
    pub fn to_timestamp(&self) -> (instant: Result<Timestamp, DatetimeError>)
        ensures
            instant == instant_of(*self),
            instant matches Ok(t) ==> t.wf(),
    {
        match self.offset {
            None => {
                return Err(DatetimeError::NoOffset);
            },
            Some(Offset::Custom { minutes: _ }) => {
                return Err(DatetimeError::NotUtc);
            },
            Some(Offset::Z) => {},
        }
        let date = match self.date {
            None => {
                return Err(DatetimeError::NoDate);
            },
            Some(date) => date,
        };
        let time = match self.time {
            None => {
                return Err(DatetimeError::NoTime);
            },
            Some(time) => time,
        };
        match days_of_date(date.year as i32, date.month as u32, date.day as u32) {
            None => Err(DatetimeError::NoSuchDate),
            Some(days) => Timestamp::on_day(days, &time),
        }
    }

    /// How `instant` is written on disk. What is written names the instant
    /// again, to the second: the date found for its day is written only if
    /// it is read back as that day.
    pub fn from_timestamp(instant: &Timestamp) -> (value: Option<Datetime>)
        ensures
            value == written(*instant),
            value matches Some(v) ==> instant_of(v) == Ok::<Timestamp, DatetimeError>(
                instant.to_the_second(),
            ),
    {
        let (days, seconds) = instant.day_and_second();
        if days < i32::MIN as i64 || days > i32::MAX as i64 {
            return None;
        }
        match date_of_days(days as i32) {
            None => None,
            Some((year, month, day)) => {
                if days_of_date(year, month, day) != Some(days as i32) {
                    return None;
                }
                Datetime::on_date(year, month, day, seconds)
            },
        }
    }
}

/// An item as it is kept on disk.
#[derive(Debug)]
pub struct ItemInDisk {
    pub question: String,
    pub answer: String,
    pub first_remember_time: Option<Datetime>,
    pub last_check_time: Option<Datetime>,
    pub due_time: Option<Datetime>,
    pub tag: Option<String>,
}

/// The instant that an optional time on disk names.
pub open spec fn optional_instant(value: Option<Datetime>) -> Result<
    Option<Timestamp>,
    DatetimeError,
> {
    match value {
        None => Ok(None),
        Some(value) => match instant_of(value) {
            Ok(instant) => Ok(Some(instant)),
            Err(e) => Err(e),
        },
    }
}

/// How an optional instant is written on disk.
pub open spec fn optional_written(instant: Option<Timestamp>) -> Option<Option<Datetime>> {
    match instant {
        None => Some(None),
        Some(instant) => match written(instant) {
            Some(value) => Some(Some(value)),
            None => None,
        },
    }
}

/// The item that a record on disk holds. Where a time is not an instant,
/// the error of the first such time: of the start of the streak, then of
/// the last check, then of the due time.
pub open spec fn item_of(record: ItemInDisk) -> Result<Item, DatetimeError> {
    match optional_instant(record.first_remember_time) {
        Err(e) => Err(e),
        Ok(first_remember_time) => match optional_instant(record.last_check_time) {
            Err(e) => Err(e),
            Ok(last_check_time) => match optional_instant(record.due_time) {
                Err(e) => Err(e),
                Ok(due_time) => Ok(
                    Item {
                        question: record.question,
                        answer: record.answer,
                        first_remember_time,
                        last_check_time,
                        due_time,
                        tag: record.tag,
                    },
                ),
            },
        },
    }
}

/// The record that keeps an item on disk; nothing if one of its times cannot
/// be written.
pub open spec fn record_of(item: Item) -> Option<ItemInDisk> {
    match (
        optional_written(item.first_remember_time),
        optional_written(item.last_check_time),
        optional_written(item.due_time),
    ) {
        (Some(first_remember_time), Some(last_check_time), Some(due_time)) => Some(
            ItemInDisk {
                question: item.question,
                answer: item.answer,
                first_remember_time,
                last_check_time,
                due_time,
                tag: item.tag,
            },
        ),
        _ => None,
    }
}

/// The item with its times cut to the second, as the disk keeps them.
pub open spec fn kept_on_disk(item: Item) -> Item {
    Item {
        first_remember_time: match item.first_remember_time {
            Some(t) => Some(t.to_the_second()),
            None => None,
        },
        last_check_time: match item.last_check_time {
            Some(t) => Some(t.to_the_second()),
            None => None,
        },
        due_time: match item.due_time {
            Some(t) => Some(t.to_the_second()),
            None => None,
        },
        ..item
    }
}

/// Reads an optional time from disk.
fn read_optional(value: &Option<Datetime>) -> (instant: Result<Option<Timestamp>, DatetimeError>)
    ensures
        instant == optional_instant(*value),
{
    match value {
        None => Ok(None),
        Some(value) => match value.to_timestamp() {
            Ok(instant) => Ok(Some(instant)),
            Err(e) => Err(e),
        },
    }
}

/// Writes an optional instant for the disk.
fn write_optional(instant: &Option<Timestamp>) -> (value: Option<Option<Datetime>>)
    ensures
        value == optional_written(*instant),
        value matches Some(Some(v)) ==> instant_of(v) == Ok::<Timestamp, DatetimeError>(
            instant->0.to_the_second(),
        ),
{
    match instant {
        None => Some(None),
        Some(instant) => match Datetime::from_timestamp(instant) {
            Some(value) => Some(Some(value)),
            None => None,
        },
    }
}

impl ItemInDisk {
    /// The item that this record holds.
    pub fn into_item(self) -> (item: Result<Item, DatetimeError>)
        ensures
            item == item_of(self),
    {
        let first_remember_time = match read_optional(&self.first_remember_time) {
            Ok(instant) => instant,
            Err(e) => {
                return Err(e);
            },
        };
        let last_check_time = match read_optional(&self.last_check_time) {
            Ok(instant) => instant,
            Err(e) => {
                return Err(e);
            },
        };
        let due_time = match read_optional(&self.due_time) {
            Ok(instant) => instant,
            Err(e) => {
                return Err(e);
            },
        };
        Ok(
            Item {
                question: self.question,
                answer: self.answer,
                first_remember_time,
                last_check_time,
                due_time,
                tag: self.tag,
            },
        )
    }

    /// The record that keeps `item` on disk. Read again, it gives the item
    /// back with its times cut to the second.
    pub fn from_item(item: Item) -> (record: Option<ItemInDisk>)
        ensures
            record == record_of(item),
            record matches Some(r) ==> item_of(r) == Ok::<Item, DatetimeError>(kept_on_disk(item)),
    {
        let first_remember_time = match write_optional(&item.first_remember_time) {
            Some(value) => value,
            None => {
                return None;
            },
        };
        let last_check_time = match write_optional(&item.last_check_time) {
            Some(value) => value,
            None => {
                return None;
            },
        };
        let due_time = match write_optional(&item.due_time) {
            Some(value) => value,
            None => {
                return None;
            },
        };
        Some(
            ItemInDisk {
                question: item.question,
                answer: item.answer,
                first_remember_time,
                last_check_time,
                due_time,
                tag: item.tag,
            },
        )
    }
}

/// A store as it is kept on disk.
#[derive(Debug)]
pub struct ItemsInDisk {
    pub items: Vec<ItemInDisk>,
}

/// The record at `position` of a store on disk holds a time that is no
/// instant.
#[derive(Clone, Copy, Debug, PartialEq, Eq, Structural)]
pub struct ReadError {
    pub position: usize,
    pub error: DatetimeError,
}

/// The store that the records on disk hold, item for item; or the first
/// record that holds no item, and why.
pub open spec fn items_of(records: Seq<ItemInDisk>, result: Result<Vec<Item>, ReadError>) -> bool {
    match result {
        Ok(items) => {
            &&& items.len() == records.len()
            &&& forall|i: int|
                0 <= i < records.len() ==> item_of(#[trigger] records[i]) == Ok::<
                    Item,
                    DatetimeError,
                >(items[i])
        },
        Err(e) => {
            &&& e.position < records.len()
            &&& item_of(records[e.position as int]) == Err::<Item, DatetimeError>(e.error)
            &&& forall|i: int| 0 <= i < e.position ==> item_of(#[trigger] records[i]) is Ok
        },
    }
}

/// The records that keep a store on disk, item for item; nothing if a time
/// of some item cannot be written.
pub open spec fn records_of(items: Seq<Item>, result: Option<ItemsInDisk>) -> bool {
    match result {
        Some(stored) => {
            &&& stored.items.len() == items.len()
            &&& forall|i: int|
                0 <= i < items.len() ==> record_of(#[trigger] items[i]) == Some(stored.items[i])
        },
        None => exists|i: int| 0 <= i < items.len() && record_of(#[trigger] items[i]) is None,
    }
}

impl ItemsInDisk {
    /// The store that these records hold.
    pub fn into_items(self) -> (result: Result<Vec<Item>, ReadError>)
        ensures
            items_of(self.items@, result),
    {
        let ghost records = self.items@;
        let mut items: Vec<Item> = Vec::new();
        for record in it: self.items
            invariant
                it.seq() == records,
                items.len() == it.index(),
                forall|i: int|
                    0 <= i < it.index() ==> item_of(#[trigger] records[i]) == Ok::<
                        Item,
                        DatetimeError,
                    >(items[i]),
        {
            match record.into_item() {
                Ok(item) => {
                    items.push(item);
                },
                Err(error) => {
                    return Err(ReadError { position: items.len(), error });
                },
            }
        }
        Ok(items)
    }

    /// The records that keep `items` on disk. Read again, each gives its
    /// item back with its times cut to the second.
    pub fn from_items(items: Vec<Item>) -> (result: Option<ItemsInDisk>)
        ensures
            records_of(items@, result),
            result matches Some(stored) ==> forall|i: int|
                0 <= i < items.len() ==> item_of(#[trigger] stored.items[i]) == Ok::<
                    Item,
                    DatetimeError,
                >(kept_on_disk(items[i])),
    {
        let ghost all = items@;
        let mut records: Vec<ItemInDisk> = Vec::new();
        for item in it: items
            invariant
                it.seq() == all,
                records.len() == it.index(),
                forall|i: int|
                    0 <= i < it.index() ==> record_of(#[trigger] all[i]) == Some(records[i]),
                forall|i: int|
                    0 <= i < it.index() ==> item_of(#[trigger] records[i]) == Ok::<
                        Item,
                        DatetimeError,
                    >(kept_on_disk(all[i])),
        {
            match ItemInDisk::from_item(item) {
                Some(record) => {
                    records.push(record);
                },
                None => {
                    return None;
                },
            }
        }
        Some(ItemsInDisk { items: records })
    }
}

/// Puts `items` behind what `stored` holds already, so that the whole can be
/// written as one store.
pub fn append(stored: &mut Vec<Item>, items: Vec<Item>)
    ensures
        final(stored)@ == old(stored)@ + items@,
{
    let mut items = items;
    stored.append(&mut items);
}

} // verus!
