//! A tracker that measures a value against a quota and reports, through a
//! messenger of the caller's choice, when the quota is nearly or wholly used.

use vstd::prelude::*;

verus! {

/// Whoever carries the tracker's warnings.
pub trait Messenger {
    fn send(&self, msg: &str);
}

/// How much of the quota a value uses.
#[derive(Clone, Copy, PartialEq, Eq, Debug, Structural)]
pub enum Level {
    /// Less than three quarters.
    Normal,
    /// Three quarters or more.
    Warning,
    /// Nine tenths or more.
    Urgent,
    /// More than all of it.
    Exceeded,
}

/// The level of `value` against `max`, by the exact ratio of the two. With
/// no quota at all, any use exceeds it and no use is normal.
pub open spec fn level_of(value: nat, max: nat) -> Level {
    if value > max {
        Level::Exceeded
    } else if max == 0 {
        Level::Normal
    } else if 10 * value >= 9 * max {
        Level::Urgent
    } else if 4 * value >= 3 * max {
        Level::Warning
    } else {
        Level::Normal
    }
}

/// Computes the level of `value` against `max`.
pub fn classify(value: usize, max: usize) -> (level: Level)
    ensures
        level == level_of(value as nat, max as nat),
{
    let v: u128 = value as u128;
    let m: u128 = max as u128;
    if value > max {
        Level::Exceeded
    } else if max == 0 {
        Level::Normal
    } else if 10 * v >= 9 * m {
        Level::Urgent
    } else if 4 * v >= 3 * m {
        Level::Warning
    } else {
        Level::Normal
    }
}

/// The text that goes with a level; none with the normal one.
pub open spec fn message_of(level: Level) -> Option<&'static str> {
    match level {
        Level::Normal => None,
        Level::Warning => Some("警告：你已经用完了75%以上的配额！"),
        Level::Urgent => Some("紧急警告：你已经用完了90%以上的配额！"),
        Level::Exceeded => Some("错误：你超过了限制!"),
    }
}

/// The text that is sent for a level; none for the normal one.
pub fn message_for(level: Level) -> (msg: Option<&'static str>)
    ensures
        msg == message_of(level),
{
    match level {
        Level::Normal => None,
        Level::Warning => Some("警告：你已经用完了75%以上的配额！"),
        Level::Urgent => Some("紧急警告：你已经用完了90%以上的配额！"),
        Level::Exceeded => Some("错误：你超过了限制!"),
    }
}

/// Tracks a value against a quota fixed at creation.
pub struct LimitTracker<'a, T: Messenger> {
    messenger: &'a T,
    value: usize,
    max: usize,
}

impl<'a, T: Messenger> LimitTracker<'a, T> {
    /// The value last set; zero at first.
    pub closed spec fn value(&self) -> usize {
        self.value
    }

    /// The quota.
    pub closed spec fn max(&self) -> usize {
        self.max
    }

    /// A tracker with the given quota and nothing used.
    pub fn new(messenger: &'a T, max: usize) -> (t: LimitTracker<'a, T>)
        ensures
            t.value() == 0,
            t.max() == max,
    {
        LimitTracker { messenger, value: 0, max }
    }

    /// Records the value and, unless its level is normal, sends that
    /// level's message once. Returns the level.
    pub fn set_value(&mut self, value: usize) -> (level: Level)
        ensures
            final(self).value() == value,
            final(self).max() == old(self).max(),
            level == level_of(value as nat, old(self).max() as nat),
    {
        self.value = value;
        let level = classify(self.value, self.max);
        match message_for(level) {
            Some(msg) => {
                self.messenger.send(msg);
            },
            None => {},
        }
        level
    }
}

} // verus!
