//! The kinds of daily subscription a chat can hold.

use crate::clock::{read_time_of_day, time_of_day, SECONDS_OF_DAY};
use vstd::prelude::*;
use vstd::string::StringExecFns;

verus! {

/// How a subscription's time of day is written: hours and minutes.
pub const TIME_FORMAT: &'static str = "%H:%M";

/// What a chat has subscribed to.
#[derive(Copy, Clone, Debug, PartialEq, Eq, Structural)]
pub enum SubscriptionType {
    Comics,
    Events,
}

impl SubscriptionType {
    /// The name under which a kind is stored and typed by users.
    pub open spec fn name(self) -> Seq<char> {
        match self {
            SubscriptionType::Comics => "comics"@,
            SubscriptionType::Events => "events"@,
        }
    }

    /// The kind that a name stands for, if it stands for one.
    pub open spec fn named(s: Seq<char>) -> Option<SubscriptionType> {
        if s == "comics"@ {
            Some(SubscriptionType::Comics)
        } else if s == "events"@ {
            Some(SubscriptionType::Events)
        } else {
            None
        }
    }

    /// The stored name of this kind.
    pub fn as_str(&self) -> (s: &'static str)
        ensures
            s@ == self.name(),
    {
        match self {
            SubscriptionType::Comics => "comics",
            SubscriptionType::Events => "events",
        }
    }

    /// Reads a kind from its stored name; any other text is no kind.
    pub fn parse(s: &str) -> (kind: Option<SubscriptionType>)
        ensures
            kind == Self::named(s@),
    {
        let given = String::from_str(s);
        if given == String::from_str("comics") {
            Some(SubscriptionType::Comics)
        } else if given == String::from_str("events") {
            Some(SubscriptionType::Events)
        } else {
            None
        }
    }

    /// Every kind is read back from its own name, and a name that is read
    /// as a kind is that kind's name.
    pub proof fn lemma_name_round_trip(kind: SubscriptionType, s: Seq<char>)
        ensures
            Self::named(kind.name()) == Some(kind),
            Self::named(s) == Some(kind) ==> s == kind.name(),
    {
        reveal_strlit("comics");
        reveal_strlit("events");
        assert("comics"@[0] != "events"@[0]);
    }
}

/// What comes of a request to subscribe.
#[derive(Copy, Clone, Debug, PartialEq, Eq, Structural)]
pub enum SubscribeStep {
    /// What was asked for is no kind of subscription.
    BadKind,
    /// The time is no time of day in hours and minutes.
    BadTime,
    /// The subscription that is to be stored, with its time of day in
    /// whole seconds from midnight.
    Subscribe { kind: SubscriptionType, second_of_day: u32 },
}

/// What a request to subscribe comes to. The kind is looked at first.
pub open spec fn subscribe_step(subscription_type: Seq<char>, time: Seq<char>) -> SubscribeStep {
    match SubscriptionType::named(subscription_type) {
        None => SubscribeStep::BadKind,
        Some(kind) => match time_of_day(time, TIME_FORMAT@) {
            None => SubscribeStep::BadTime,
            Some(second_of_day) => SubscribeStep::Subscribe { kind, second_of_day },
        },
    }
}

/// Decides what a request to subscribe comes to.
pub fn handle_subscribe(subscription_type: &str, time: &str) -> (step: SubscribeStep)
    ensures
        step == subscribe_step(subscription_type@, time@),
        step matches SubscribeStep::Subscribe { second_of_day, .. } ==> second_of_day
            < SECONDS_OF_DAY,
{
    match SubscriptionType::parse(subscription_type) {
        None => SubscribeStep::BadKind,
        Some(kind) => match read_time_of_day(time, TIME_FORMAT) {
            None => SubscribeStep::BadTime,
            Some(second_of_day) => SubscribeStep::Subscribe { kind, second_of_day },
        },
    }
}

} // verus!
