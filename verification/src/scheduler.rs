//! What the scheduler does with a subscription that has come due.

use crate::subscriptions::SubscriptionType;
use vstd::prelude::*;

verus! {

/// How many seconds lie between two looks at the subscriptions.
pub const POLL_INTERVAL_SECONDS: u64 = 10;

/// A subscription that came due this many minutes ago, or longer, is no
/// longer carried out: it is only marked as done for the day.
pub const OUTDATED_SUBSCRIPTIONS_THRESHOLD_MINUTES: i64 = 60;

/// What is sent for a subscription.
#[derive(Copy, Clone, Debug, PartialEq, Eq, Structural)]
pub enum ScheduledTask {
    /// The latest strip of the first comic.
    Fingerpori,
    /// The latest strip of the second comic.
    Lasaga,
}

/// What is sent for a subscription of kind `kind`, in this order.
pub open spec fn tasks_of(kind: SubscriptionType) -> Seq<ScheduledTask> {
    match kind {
        SubscriptionType::Comics => seq![ScheduledTask::Fingerpori, ScheduledTask::Lasaga],
        SubscriptionType::Events => Seq::empty(),
    }
}

/// Whether a subscription that was due at `scheduled_second` is still
/// carried out at `now_second`, both counted in seconds from midnight: it
/// is while less than the threshold has passed since it was due.
pub open spec fn still_due(now_second: u32, scheduled_second: u32) -> bool {
    now_second - scheduled_second < OUTDATED_SUBSCRIPTIONS_THRESHOLD_MINUTES * 60
}

/// What is sent for a subscription of kind `kind`, in this order.
pub fn handle_scheduled_task(kind: SubscriptionType) -> (tasks: Vec<ScheduledTask>)
    ensures
        tasks@ == tasks_of(kind),
{
    let mut tasks: Vec<ScheduledTask> = Vec::new();
    match kind {
        SubscriptionType::Comics => {
            tasks.push(ScheduledTask::Fingerpori);
            tasks.push(ScheduledTask::Lasaga);
            assert(tasks@ =~= tasks_of(kind));
        },
        SubscriptionType::Events => {
            assert(tasks@ =~= tasks_of(kind));
        },
    }
    tasks
}

/// Decides whether a pending subscription is carried out or only marked
/// as done. Both times are counted in whole seconds from midnight.
pub fn handle_subscriptions(now_second: u32, scheduled_second: u32) -> (carried_out: bool)
    ensures
        carried_out == still_due(now_second, scheduled_second),
{
    let passed: i64 = now_second as i64 - scheduled_second as i64;
    passed < OUTDATED_SUBSCRIPTIONS_THRESHOLD_MINUTES * 60
}

} // verus!
