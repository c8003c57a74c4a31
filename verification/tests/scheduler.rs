use haloobot::scheduler::{
    handle_scheduled_task, handle_subscriptions, ScheduledTask,
    OUTDATED_SUBSCRIPTIONS_THRESHOLD_MINUTES, POLL_INTERVAL_SECONDS,
};
use haloobot::subscriptions::SubscriptionType;

#[test]
fn comics_send_both_strips_and_events_send_nothing() {
    assert_eq!(
        handle_scheduled_task(SubscriptionType::Comics),
        vec![ScheduledTask::Fingerpori, ScheduledTask::Lasaga]
    );
    assert_eq!(handle_scheduled_task(SubscriptionType::Events), vec![]);
}

#[test]
fn a_subscription_is_carried_out_within_the_hour() {
    assert_eq!(OUTDATED_SUBSCRIPTIONS_THRESHOLD_MINUTES, 60);
    assert_eq!(POLL_INTERVAL_SECONDS, 10);
    let nine = 9 * 3600;
    assert!(handle_subscriptions(nine, nine));
    assert!(handle_subscriptions(nine + 3599, nine));
    assert!(!handle_subscriptions(nine + 3600, nine));
    assert!(!handle_subscriptions(nine + 7200, nine));
}

#[test]
fn a_subscription_that_is_due_later_counts_as_within_the_hour() {
    assert!(handle_subscriptions(0, 86399));
}
