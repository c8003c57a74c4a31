//! Which calendar events a daily summary announces.

use crate::pattern::capture_first_group;
use crate::pattern::first_group;
use crate::telegram_utils::{escaped, telegram_escape};
use crate::text::{decimal_text, decimal_u32, read_decimal_u32, write_decimal};
use vstd::prelude::*;
use vstd::string::StringExecFns;

verus! {

/// For how many days ahead events are fetched.
pub const FETCH_DAYS_IN_FUTURE: i64 = 100;

/// The pattern by which an event's description asks for a countdown.
pub const COUNTDOWN_DAYS_PATTERN: &'static str = "countdown_days=(\\d+)";

/// What an event's description asks of the summary.
#[derive(Copy, Clone, Debug, PartialEq, Eq, Structural)]
pub struct EventConfig {
    countdown_days: Option<u32>,
}

/// How an event stands in the summary.
#[derive(Copy, Clone, Debug, PartialEq, Eq, Structural)]
pub enum SummaryEvent {
    /// The event is today.
    Today,
    /// The event is announced ahead. Holds the days until it.
    Upcoming(u32),
}

/// The days from `today` to `event_day` as a number of 32 bits without sign.
/// The days to an event that began before today wrap around.
pub open spec fn days_until(event_day: i32, today: i32) -> u32 {
    if event_day >= today {
        (event_day - today) as u32
    } else {
        (0x1_0000_0000 + (event_day - today)) as u32
    }
}

/// How an event stands in the summary of `today`. An event of today
/// stands as that. Any other event is announced from `countdown_days` days
/// before its day on, and not at all before that. An event without a day
/// does not stand in the summary.
pub open spec fn summary_of(
    countdown_days: Option<u32>,
    event_day: Option<i32>,
    today: i32,
) -> Option<SummaryEvent> {
    match event_day {
        None => None,
        Some(day) => {
            let countdown = match countdown_days {
                Some(days) => days,
                None => 0,
            };
            if day == today {
                Some(SummaryEvent::Today)
            } else if day - countdown <= today {
                Some(SummaryEvent::Upcoming(days_until(day, today)))
            } else {
                None
            }
        },
    }
}

/// What a description asks for: the countdown that its first request names,
/// if it names one that is a number of 32 bits.
pub open spec fn config_of(description: Seq<char>) -> Option<u32> {
    match first_group(COUNTDOWN_DAYS_PATTERN@, description) {
        Some(digits) => decimal_u32(digits),
        None => None,
    }
}

impl EventConfig {
    /// A configuration that asks for a countdown of `countdown_days` days, or for none.
    pub fn new(countdown_days: Option<u32>) -> (config: Self)
        ensures
            config.countdown_days() == countdown_days,
    {
        Self { countdown_days }
    }

    /// For how many days before the event it is announced, if that was asked for.
    pub closed spec fn countdown_days(&self) -> Option<u32> {
        self.countdown_days
    }

    /// For how many days before the event it is announced, if that was asked for.
    pub fn days(&self) -> (days: Option<u32>)
        ensures
            days == self.countdown_days(),
    {
        self.countdown_days
    }

    /// How an event with this configuration stands in the summary of
    /// `today`. Days are counted from a common first day.
    pub fn as_summary_event(&self, event_day: Option<i32>, today: i32) -> (event: Option<
        SummaryEvent,
    >)
        ensures
            event == summary_of(self.countdown_days(), event_day, today),
    {
        let countdown: i64 = match self.countdown_days {
            Some(days) => days as i64,
            None => 0,
        };
        match event_day {
            None => None,
            Some(day) => {
                if day == today {
                    Some(SummaryEvent::Today)
                } else if day as i64 - countdown <= today as i64 {
                    let distance: i64 = day as i64 - today as i64;
                    let days: u32 = if distance >= 0 {
                        distance as u32
                    } else {
                        (0x1_0000_0000i64 + distance) as u32
                    };
                    Some(SummaryEvent::Upcoming(days))
                } else {
                    None
                }
            },
        }
    }
}

impl Default for EventConfig {
    fn default() -> (config: Self)
        ensures
            config.countdown_days() == None::<u32>,
    {
        Self { countdown_days: None }
    }
}

/// Reads from an event's description what it asks of the summary.
pub fn get_event_config(description: &str) -> (config: EventConfig)
    ensures
        config.countdown_days() == config_of(description@),
{
    match capture_first_group(COUNTDOWN_DAYS_PATTERN, description) {
        Some(digits) => EventConfig { countdown_days: read_decimal_u32(digits.as_str()) },
        None => EventConfig::default(),
    }
}

/// An event of today stands as that whatever countdown is asked for, and an
/// event of a later day is announced exactly when today lies within its
/// countdown.
pub proof fn lemma_summary_of_later_event(countdown_days: Option<u32>, event_day: i32, today: i32)
    requires
        event_day > today,
    ensures
        summary_of(countdown_days, Some(today), today) == Some(SummaryEvent::Today),
        summary_of(countdown_days, Some(event_day), today) == if countdown_days matches Some(days)
            && event_day - today <= days {
            Some(SummaryEvent::Upcoming((event_day - today) as u32))
        } else {
            None
        },
{
}

/// An event of today as the summary shows it.
#[derive(Debug)]
pub struct TodayLine {
    /// What the event is called.
    pub summary: String,
    /// The time of day at which it begins, as it is to be shown, unless it
    /// takes the whole day.
    pub time: Option<String>,
}

/// An event of a later day as the summary shows it.
#[derive(Debug)]
pub struct UpcomingLine {
    /// What the event is called.
    pub summary: String,
    /// The days until the event.
    pub days: u32,
    /// The day of the event, as it is to be shown.
    pub date: String,
}

/// How the days until an event are told: tomorrow by its name, any other
/// number of days as a number.
pub open spec fn days_label(days: u32) -> Seq<char> {
    if days == 1 {
        "Huomenna"@
    } else {
        decimal_text(days as nat) + " päivän päästä"@
    }
}

/// The line of an event of today, escaped for sending.
pub open spec fn today_line_text(line: TodayLine) -> Seq<char> {
    match line.time {
        Some(time) => escaped(line.summary@ + " ("@ + time@ + ")"@ + "\n"@),
        None => escaped(line.summary@ + "\n"@),
    }
}

/// The line of an event of a later day, escaped for sending.
pub open spec fn upcoming_line_text(line: UpcomingLine) -> Seq<char> {
    escaped(days_label(line.days) + ": "@ + line.summary@ + " ("@ + line.date@ + ")\n"@)
}

/// The lines of the events of today, one behind the other.
pub open spec fn today_text(lines: Seq<TodayLine>) -> Seq<char>
    decreases lines.len(),
{
    if lines.len() == 0 {
        Seq::empty()
    } else {
        today_text(lines.drop_last()) + today_line_text(lines.last())
    }
}

/// The lines of the events of later days, one behind the other.
pub open spec fn upcoming_text(lines: Seq<UpcomingLine>) -> Seq<char>
    decreases lines.len(),
{
    if lines.len() == 0 {
        Seq::empty()
    } else {
        upcoming_text(lines.drop_last()) + upcoming_line_text(lines.last())
    }
}

/// The part of the summary that tells of today: a heading and the lines,
/// or nothing where today holds no event.
pub open spec fn today_part(lines: Seq<TodayLine>) -> Seq<char> {
    if lines.len() == 0 {
        Seq::empty()
    } else {
        "*Tänään*:\n"@ + today_text(lines)
    }
}

/// The part of the summary that tells of later days: a heading and the
/// lines, or nothing where no later event is announced.
pub open spec fn upcoming_part(lines: Seq<UpcomingLine>) -> Seq<char> {
    if lines.len() == 0 {
        Seq::empty()
    } else {
        "*Tulevat tapahtumat*:\n"@ + upcoming_text(lines)
    }
}

/// The summary: the part of today, an empty line behind it if there is
/// one, and the part of the later days.
pub open spec fn summary_text(today: Seq<TodayLine>, upcoming: Seq<UpcomingLine>) -> Seq<char> {
    if today.len() == 0 {
        upcoming_part(upcoming)
    } else {
        today_part(today) + "\n"@ + upcoming_part(upcoming)
    }
}

/// Tells the days until an event.
pub fn label_days(days: u32) -> (label: String)
    ensures
        label@ == days_label(days),
{
    if days == 1 {
        String::from_str("Huomenna")
    } else {
        let mut label = write_decimal(days as u64);
        label.append(" päivän päästä");
        label
    }
}

/// Writes the summary of the events given, for sending as MarkdownV2.
/// There is no summary where there is no event.
pub fn print_calendar_events(today: &Vec<TodayLine>, upcoming: &Vec<UpcomingLine>) -> (message:
    Option<String>)
    ensures
        message is None <==> today@.len() == 0 && upcoming@.len() == 0,
        message matches Some(text) ==> text@ == summary_text(today@, upcoming@),
{
    if today.len() == 0 && upcoming.len() == 0 {
        return None;
    }
    let mut message = String::new();
    if today.len() > 0 {
        message.append("*Tänään*:\n");
        let ghost heading = message@;
        let mut i: usize = 0;
        assert(today@.take(0) =~= Seq::empty());
        assert(heading + today_text(today@.take(0)) == heading);
        while i < today.len()
            invariant
                i <= today@.len(),
                heading == "*Tänään*:\n"@,
                message@ == heading + today_text(today@.take(i as int)),
            decreases today@.len() - i,
        {
            let line = &today[i];
            let mut plain = line.summary.clone();
            match &line.time {
                Some(time) => {
                    plain.append(" (");
                    plain.append(time.as_str());
                    plain.append(")");
                },
                None => {},
            }
            plain.append("\n");
            let escaped_line = telegram_escape(plain.as_str());
            proof {
                assert(today@.take(i as int + 1).drop_last() == today@.take(i as int));
                assert(today@.take(i as int + 1).last() == today@[i as int]);
                assert(escaped_line@ == today_line_text(today@[i as int]));
                assert(heading + (today_text(today@.take(i as int)) + escaped_line@) == heading
                    + today_text(today@.take(i as int)) + escaped_line@);
            }
            message.append(escaped_line.as_str());
            i += 1;
        }
        assert(today@.take(today@.len() as int) == today@);
        message.append("\n");
    }
    let ghost front = message@;
    if upcoming.len() > 0 {
        message.append("*Tulevat tapahtumat*:\n");
        let ghost heading = message@;
        let mut i: usize = 0;
        assert(upcoming@.take(0) =~= Seq::empty());
        assert(heading + upcoming_text(upcoming@.take(0)) == heading);
        while i < upcoming.len()
            invariant
                i <= upcoming@.len(),
                heading == front + "*Tulevat tapahtumat*:\n"@,
                message@ == heading + upcoming_text(upcoming@.take(i as int)),
            decreases upcoming@.len() - i,
        {
            let line = &upcoming[i];
            let mut plain = label_days(line.days);
            plain.append(": ");
            plain.append(line.summary.as_str());
            plain.append(" (");
            plain.append(line.date.as_str());
            plain.append(")\n");
            let escaped_line = telegram_escape(plain.as_str());
            proof {
                assert(upcoming@.take(i as int + 1).drop_last() == upcoming@.take(i as int));
                assert(upcoming@.take(i as int + 1).last() == upcoming@[i as int]);
                assert(escaped_line@ == upcoming_line_text(upcoming@[i as int]));
                assert(heading + (upcoming_text(upcoming@.take(i as int)) + escaped_line@)
                    == heading + upcoming_text(upcoming@.take(i as int)) + escaped_line@);
            }
            message.append(escaped_line.as_str());
            i += 1;
        }
        assert(upcoming@.take(upcoming@.len() as int) == upcoming@);
        assert(message@ == front + ("*Tulevat tapahtumat*:\n"@ + upcoming_text(upcoming@)));
    } else {
        assert(front + upcoming_part(upcoming@) == front);
    }
    Some(message)
}

} // verus!
