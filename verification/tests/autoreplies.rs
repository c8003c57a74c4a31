use haloobot::autoreplies::{Autoreply, AutoreplyResponse, AutoreplySet, RuleError};

fn literal(chat: i64, name: &str, pattern: &str, text: &str) -> Autoreply {
    Autoreply::new(chat, name.to_string(), pattern, AutoreplyResponse::Literal(text.to_string()))
        .unwrap()
}

fn names(matches: &[&Autoreply]) -> Vec<String> {
    matches.iter().map(|rule| rule.name().to_string()).collect()
}

#[test]
fn rule_keeps_what_it_was_made_of() {
    let rule = Autoreply::new(
        -100,
        "greet".to_string(),
        "h[ae]llo",
        AutoreplyResponse::Sticker("file-1".to_string()),
    )
    .unwrap();
    assert_eq!(rule.chat_id(), -100);
    assert_eq!(rule.name(), "greet");
    assert_eq!(rule.pattern(), "h[ae]llo");
    assert!(matches!(rule.response(), AutoreplyResponse::Sticker(id) if id == "file-1"));
    let copy = rule.clone();
    assert_eq!(copy.name(), "greet");
    assert_eq!(copy.pattern(), "h[ae]llo");
}

#[test]
fn rule_with_a_pattern_that_does_not_compile_is_refused() {
    let outcome =
        Autoreply::new(1, "bad".to_string(), "(unclosed", AutoreplyResponse::Literal("x".to_string()));
    match outcome {
        Err(RuleError::InvalidPattern(message)) => assert!(!message.is_empty()),
        _ => panic!("an unclosed group is no pattern"),
    }
}

#[test]
fn empty_set_matches_nothing() {
    let set = AutoreplySet::empty();
    assert_eq!(set.len(), 0);
    assert!(set.get_matches("anything").is_empty());
    assert!(set.get_matches("").is_empty());
    let built = AutoreplySet::new(&[]).unwrap();
    assert!(built.get_matches("anything").is_empty());
}

#[test]
fn match_returns_the_matching_rules_in_registration_order() {
    let set = AutoreplySet::new(&[
        literal(1, "cat", "cat", "meow"),
        literal(1, "dog", "dog", "woof"),
        literal(1, "any", "o", "oh"),
        literal(1, "bird", "bird", "tweet"),
    ])
    .unwrap();
    assert_eq!(names(&set.get_matches("a dog and a cat")), vec!["cat", "dog", "any"]);
    assert_eq!(names(&set.get_matches("dog")), vec!["dog", "any"]);
    assert_eq!(names(&set.get_matches("bird")), vec!["bird"]);
    assert!(set.get_matches("fish").is_empty());
}

#[test]
fn rules_that_do_not_match_have_no_part_wherever_they_stand() {
    let first = AutoreplySet::new(&[
        literal(1, "x", "xyz", "no"),
        literal(1, "a", "a", "A"),
        literal(1, "b", "b", "B"),
    ])
    .unwrap();
    let second = AutoreplySet::new(&[
        literal(1, "a", "a", "A"),
        literal(1, "x", "xyz", "no"),
        literal(1, "b", "b", "B"),
    ])
    .unwrap();
    let third = AutoreplySet::new(&[
        literal(1, "a", "a", "A"),
        literal(1, "b", "b", "B"),
        literal(1, "x", "xyz", "no"),
    ])
    .unwrap();
    for set in [&first, &second, &third] {
        assert_eq!(names(&set.get_matches("ab")), vec!["a", "b"]);
    }
}

#[test]
fn matching_searches_and_does_not_ask_for_a_full_match() {
    let set = AutoreplySet::new(&[
        literal(1, "inner", "ell", "found"),
        literal(1, "anchored", "^ell$", "whole"),
    ])
    .unwrap();
    assert_eq!(names(&set.get_matches("hello")), vec!["inner"]);
    assert_eq!(names(&set.get_matches("ell")), vec!["inner", "anchored"]);
}

#[test]
fn rules_that_share_a_pattern_all_appear() {
    let set = AutoreplySet::new(&[
        literal(1, "first", "hi", "one"),
        literal(1, "other", "yo", "two"),
        literal(1, "second", "hi", "three"),
    ])
    .unwrap();
    assert_eq!(names(&set.get_matches("hi")), vec!["first", "second"]);
    assert_eq!(names(&set.get_matches("yo hi")), vec!["first", "second", "other"]);
}

#[test]
fn adding_a_rule_makes_it_match() {
    let mut set = AutoreplySet::empty();
    assert!(set.add_autoreply(literal(1, "a", "alpha", "A")).is_ok());
    assert_eq!(names(&set.get_matches("alpha beta")), vec!["a"]);
    assert!(set.add_autoreply(literal(1, "b", "beta", "B")).is_ok());
    assert!(set.add_autoreply(literal(1, "a2", "alpha", "A again")).is_ok());
    assert_eq!(set.len(), 3);
    assert_eq!(names(&set.get_matches("alpha beta")), vec!["a", "a2", "b"]);
    assert_eq!(names(&set.get_matches("beta")), vec!["b"]);
}

#[test]
fn adding_behaves_as_building_from_the_whole_list() {
    let rules = vec![
        literal(1, "a", "a+", "A"),
        literal(1, "b", "b", "B"),
        literal(1, "c", "a+", "C"),
        literal(1, "d", "[ab]", "D"),
    ];
    let built = AutoreplySet::new(&rules).unwrap();
    let mut grown = AutoreplySet::empty();
    for rule in &rules {
        grown.add_autoreply(rule.clone()).unwrap();
    }
    for text in ["a", "b", "ab", "xyz", "aaa b"] {
        assert_eq!(names(&built.get_matches(text)), names(&grown.get_matches(text)));
    }
}

#[test]
fn a_second_rule_of_the_same_name_is_refused_and_changes_nothing() {
    let mut set = AutoreplySet::new(&[literal(1, "greet", "hello", "hi")]).unwrap();
    assert!(set.has_name(1, "greet"));
    assert!(!set.has_name(2, "greet"));
    assert!(!set.has_name(1, "other"));
    let outcome = set.add_autoreply(literal(1, "greet", "bye", "later"));
    assert!(matches!(outcome, Err(RuleError::DuplicateName)));
    assert_eq!(set.len(), 1);
    assert!(set.get_matches("bye").is_empty());
    assert_eq!(names(&set.get_matches("hello")), vec!["greet"]);
}

#[test]
fn the_same_name_in_another_chat_is_another_name() {
    let mut set = AutoreplySet::new(&[literal(1, "greet", "hello", "hi")]).unwrap();
    assert!(set.add_autoreply(literal(2, "greet", "hello", "hi")).is_ok());
    assert_eq!(set.len(), 2);
}

#[test]
fn building_from_rules_that_share_a_name_is_refused() {
    let outcome = AutoreplySet::new(&[
        literal(1, "greet", "hello", "hi"),
        literal(1, "other", "x", "y"),
        literal(1, "greet", "bye", "later"),
    ]);
    assert!(matches!(outcome, Err(RuleError::DuplicateName)));
}
