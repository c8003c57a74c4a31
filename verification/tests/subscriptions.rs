use haloobot::subscriptions::{handle_subscribe, SubscribeStep, SubscriptionType, TIME_FORMAT};

#[test]
fn subscription_names() {
    assert_eq!(SubscriptionType::Comics.as_str(), "comics");
    assert_eq!(SubscriptionType::Events.as_str(), "events");
}

#[test]
fn subscription_parse_known_names() {
    assert_eq!(SubscriptionType::parse("comics"), Some(SubscriptionType::Comics));
    assert_eq!(SubscriptionType::parse("events"), Some(SubscriptionType::Events));
}

#[test]
fn subscription_parse_refuses_other_text() {
    assert_eq!(SubscriptionType::parse("Comics"), None);
    assert_eq!(SubscriptionType::parse(""), None);
    assert_eq!(SubscriptionType::parse("comics "), None);
}

#[test]
fn subscription_name_round_trip() {
    for kind in [SubscriptionType::Comics, SubscriptionType::Events] {
        assert_eq!(SubscriptionType::parse(kind.as_str()), Some(kind));
    }
}

#[test]
fn subscription_time_format() {
    assert_eq!(TIME_FORMAT, "%H:%M");
}

#[test]
fn a_request_with_kind_and_time_is_a_subscription() {
    assert_eq!(
        handle_subscribe("comics", "09:30"),
        SubscribeStep::Subscribe { kind: SubscriptionType::Comics, second_of_day: 9 * 3600 + 30 * 60 }
    );
    assert_eq!(
        handle_subscribe("events", "7:15"),
        SubscribeStep::Subscribe { kind: SubscriptionType::Events, second_of_day: 7 * 3600 + 15 * 60 }
    );
    assert_eq!(
        handle_subscribe("events", "23:59"),
        SubscribeStep::Subscribe { kind: SubscriptionType::Events, second_of_day: 86340 }
    );
    assert_eq!(
        handle_subscribe("comics", "00:00"),
        SubscribeStep::Subscribe { kind: SubscriptionType::Comics, second_of_day: 0 }
    );
}

#[test]
fn a_request_for_no_kind_is_refused_before_the_time_is_looked_at() {
    assert_eq!(handle_subscribe("news", "09:30"), SubscribeStep::BadKind);
    assert_eq!(handle_subscribe("news", "never"), SubscribeStep::BadKind);
}

#[test]
fn a_request_with_no_time_of_day_is_refused() {
    assert_eq!(handle_subscribe("comics", "24:00"), SubscribeStep::BadTime);
    assert_eq!(handle_subscribe("comics", "17:60"), SubscribeStep::BadTime);
    assert_eq!(handle_subscribe("comics", "noon"), SubscribeStep::BadTime);
    assert_eq!(handle_subscribe("comics", ""), SubscribeStep::BadTime);
    assert_eq!(handle_subscribe("comics", "09:30:15"), SubscribeStep::BadTime);
}
