//! One flashcard and the rules that move its next review.

use crate::random::random_range;
use crate::time::Timestamp;
use vstd::prelude::*;

verus! {

/// The interval an item starts from, and falls back to: 20 hours.
pub const INIT_INTERVAL_SECS: i64 = 72_000;

/// The longest interval a streak can earn before jitter: 360 days.
pub const MAX_INTERVAL_SECS: i64 = 31_104_000;

/// The longest interval that can be scheduled: the cap and half of it again.
pub const MAX_JITTERED_SECS: i64 = 46_656_000;

/// The base of an interval: the delay held between zero and the cap.
pub open spec fn interval_base(delay: int) -> int {
    if delay <= 0 {
        0
    } else if delay < MAX_INTERVAL_SECS {
        delay
    } else {
        MAX_INTERVAL_SECS as int
    }
}

/// Whether `interval` may be scheduled after `delay`: it lies in the window
/// that starts at the base and is half the base wide. Where the window is
/// empty (a base under two seconds) it is the base itself.
pub open spec fn interval_allowed(delay: int, interval: int) -> bool {
    let base = interval_base(delay);
    if base / 2 == 0 {
        interval == base
    } else {
        base <= interval < base + base / 2
    }
}

/// Draws the interval to schedule after `delay` seconds.
pub fn timeout(delay: i64) -> (interval: i64)
    ensures
        interval_allowed(delay as int, interval as int),
        0 <= interval <= MAX_JITTERED_SECS,
        interval_base(delay as int) <= interval,
        delay >= 2 ==> interval < interval_base(delay as int) + interval_base(delay as int) / 2,
{
    let base: i64 = if delay <= 0 {
        0
    } else if delay < MAX_INTERVAL_SECS {
        delay
    } else {
        MAX_INTERVAL_SECS
    };
    let width: i64 = base / 2;
    if width == 0 {
        base
    } else {
        let mut source = rand::rng();
        random_range(&mut source, base, base + width)
    }
}

/// Whether an interval can still be added to `now`: the latest time that could
/// be scheduled from it is a number the machine holds.
pub open spec fn schedulable(now: Timestamp) -> bool {
    now.secs + MAX_JITTERED_SECS <= i64::MAX
}

/// Tests `schedulable`.
pub fn is_schedulable(now: &Timestamp) -> (r: bool)
    ensures
        r == schedulable(*now),
{
    now.secs <= i64::MAX - MAX_JITTERED_SECS
}

/// One flashcard with its review state.
#[derive(Debug)]
pub struct Item {
    pub question: String,
    pub answer: String,
    /// When the current streak of correct answers began; absent outside a streak.
    pub first_remember_time: Option<Timestamp>,
    /// When the item was last reviewed, whatever the outcome.
    pub last_check_time: Option<Timestamp>,
    /// When the item is next up for review; absent until the first review.
    pub due_time: Option<Timestamp>,
    /// Labels, separated by whitespace.
    pub tag: Option<String>,
}

impl Clone for Item {
    fn clone(&self) -> (copy: Self)
        ensures
            copy == *self,
    {
        Item {
            question: self.question.clone(),
            answer: self.answer.clone(),
            first_remember_time: self.first_remember_time,
            last_check_time: self.last_check_time,
            due_time: self.due_time,
            tag: match &self.tag {
                Some(tag) => Some(tag.clone()),
                None => None,
            },
        }
    }
}

impl Item {
    /// Up for review at `now`: never reviewed, or due strictly before `now`.
    pub open spec fn eligible(self, now: Timestamp) -> bool {
        match self.due_time {
            Some(due) => due.nanos_since_epoch() < now.nanos_since_epoch(),
            None => true,
        }
    }

    /// The delay that a correct answer at `now` feeds to the interval: the
    /// whole seconds the streak has lasted, or the initial interval where no
    /// streak is running.
    pub open spec fn streak_delay(self, now: Timestamp) -> int {
        match self.first_remember_time {
            Some(first) => now.spec_seconds_since(first),
            None => INIT_INTERVAL_SECS as int,
        }
    }

    /// The item after a correct answer at `now`, scheduled `interval` seconds on.
    pub open spec fn after_correct(self, now: Timestamp, interval: int) -> Item {
        Item {
            first_remember_time: if self.first_remember_time is Some {
                self.first_remember_time
            } else {
                Some(now)
            },
            last_check_time: Some(now),
            due_time: Some(now.spec_plus_seconds(interval)),
            ..self
        }
    }

    /// The item after a wrong answer at `now`, scheduled `interval` seconds on.
    pub open spec fn after_wrong(self, now: Timestamp, interval: int) -> Item {
        Item {
            first_remember_time: None,
            last_check_time: Some(now),
            due_time: Some(now.spec_plus_seconds(interval)),
            ..self
        }
    }

    /// The seconds from `now` to the due time of an item scheduled at `now`.
    pub open spec fn scheduled_interval(self, now: Timestamp) -> int {
        self.due_time->0.secs - now.secs
    }

    /// `after` is `self` marked correct at `now`, with an interval that the
    /// streak allows.
    pub open spec fn marked_correct(self, now: Timestamp, after: Item) -> bool {
        &&& after.due_time is Some
        &&& interval_allowed(self.streak_delay(now), after.scheduled_interval(now))
        &&& after == self.after_correct(now, after.scheduled_interval(now))
    }

    /// `after` is `self` marked wrong at `now`, with an interval that the
    /// initial delay allows.
    pub open spec fn marked_wrong(self, now: Timestamp, after: Item) -> bool {
        &&& after.due_time is Some
        &&& interval_allowed(INIT_INTERVAL_SECS as int, after.scheduled_interval(now))
        &&& after == self.after_wrong(now, after.scheduled_interval(now))
    }

    /// Tests `eligible`.
    pub fn is_eligible(&self, now: &Timestamp) -> (r: bool)
        ensures
            r == self.eligible(*now),
    {
        match &self.due_time {
            Some(due) => due.is_before(now),
            None => true,
        }
    }

    /// The delay that a correct answer at `now` starts from, held to `i64`.
    pub fn delay_at(&self, now: &Timestamp) -> (delay: i64)
        ensures
            delay == crate::time::clamp_i64(self.streak_delay(*now)),
    {
        match &self.first_remember_time {
            Some(first) => now.seconds_since(first),
            None => INIT_INTERVAL_SECS,
        }
    }

    /// Records a correct answer at `now` and schedules the next review
    /// `interval` seconds later. The streak keeps its start, or starts now.
    pub fn correct_after(&mut self, now: &Timestamp, interval: i64)
        requires
            i64::MIN <= now.secs + interval <= i64::MAX,
        ensures
            *final(self) == old(self).after_correct(*now, interval as int),
    {
        if self.first_remember_time.is_none() {
            self.first_remember_time = Some(*now);
        }
        self.due_time = Some(now.plus_seconds(interval));
        self.last_check_time = Some(*now);
    }

    /// Records a wrong answer at `now`, which ends the streak, and schedules
    /// the next review `interval` seconds later.
    pub fn wrong_after(&mut self, now: &Timestamp, interval: i64)
        requires
            i64::MIN <= now.secs + interval <= i64::MAX,
        ensures
            *final(self) == old(self).after_wrong(*now, interval as int),
    {
        self.first_remember_time = None;
        self.due_time = Some(now.plus_seconds(interval));
        self.last_check_time = Some(*now);
    }

    /// Records a correct answer at `now`. The next review comes after an
    /// interval drawn for the time the streak has lasted so far.
    pub fn correct(&mut self, now: &Timestamp)
        requires
            schedulable(*now),
        ensures
            old(self).marked_correct(*now, *final(self)),
    {
        let interval = timeout(self.delay_at(now));
        self.correct_after(now, interval);
    }

    /// Records a wrong answer at `now`. The streak ends and the next review
    /// comes after an interval drawn for the initial delay.
    pub fn wrong(&mut self, now: &Timestamp)
        requires
            schedulable(*now),
        ensures
            old(self).marked_wrong(*now, *final(self)),
    {
        let interval = timeout(INIT_INTERVAL_SECS);
        self.wrong_after(now, interval);
    }
}

/// A streak grows with the time it has lasted. When an item is marked correct
/// at `t0` and again at `t1`, the second interval is drawn for the delay from
/// the start of the streak to `t1`; where the first answer began the streak,
/// that is the gap between the two answers.
pub proof fn lemma_streak_growth(
    item: Item,
    t0: Timestamp,
    first: Item,
    t1: Timestamp,
    second: Item,
)
    requires
        item.marked_correct(t0, first),
        first.marked_correct(t1, second),
    ensures
        first.first_remember_time is Some,
        second.first_remember_time == first.first_remember_time,
        interval_allowed(
            t1.spec_seconds_since(first.first_remember_time->0),
            second.scheduled_interval(t1),
        ),
        item.first_remember_time is None ==> first.first_remember_time == Some(t0)
            && interval_allowed(t1.spec_seconds_since(t0), second.scheduled_interval(t1)),
{
}

/// A wrong answer ends the streak: the item holds no start of a streak, and
/// the next correct answer is scheduled as a first success is, from the
/// initial interval, and begins a new streak.
pub proof fn lemma_wrong_resets_streak(
    item: Item,
    t0: Timestamp,
    failed: Item,
    t1: Timestamp,
    next: Item,
)
    requires
        item.marked_wrong(t0, failed),
        failed.marked_correct(t1, next),
    ensures
        failed.first_remember_time is None,
        next.first_remember_time == Some(t1),
        interval_allowed(INIT_INTERVAL_SECS as int, next.scheduled_interval(t1)),
        INIT_INTERVAL_SECS <= next.scheduled_interval(t1) < INIT_INTERVAL_SECS + INIT_INTERVAL_SECS
            / 2,
{
}

} // verus!
