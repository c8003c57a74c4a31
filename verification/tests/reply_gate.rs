use haloobot::autoreplies::{Autoreply, AutoreplyResponse};
use haloobot::chance::{fires, fires_on, CHANCE_ONE};
use haloobot::reply_gate::{combine, decide};

fn literal(name: &str, text: &str) -> Autoreply {
    Autoreply::new(1, name.to_string(), "x", AutoreplyResponse::Literal(text.to_string())).unwrap()
}

fn sticker(name: &str, file_id: &str) -> Autoreply {
    Autoreply::new(1, name.to_string(), "x", AutoreplyResponse::Sticker(file_id.to_string()))
        .unwrap()
}

#[test]
fn chance_one_is_two_to_the_53() {
    assert_eq!(CHANCE_ONE, 1u64 << 53);
}

#[test]
fn a_thing_happens_on_the_draws_below_its_chance() {
    assert!(fires_on(5, 4));
    assert!(!fires_on(5, 5));
    assert!(!fires_on(0, 0));
    assert!(fires_on(CHANCE_ONE, CHANCE_ONE - 1));
}

#[test]
fn certain_chance_always_fires_and_zero_never() {
    for _ in 0..500 {
        assert!(fires(CHANCE_ONE));
        assert!(fires(u64::MAX));
        assert!(!fires(0));
    }
}

#[test]
fn a_chance_in_between_fires_sometimes() {
    let mut fired = 0;
    for _ in 0..2000 {
        if fires(CHANCE_ONE / 2) {
            fired += 1;
        }
    }
    assert!(fired > 0 && fired < 2000);
}

#[test]
fn fired_literals_are_joined_by_single_spaces() {
    let a = literal("a", "one");
    let b = literal("b", "two");
    let c = literal("c", "three");
    let reply = combine(&vec![(&a, true), (&b, false), (&c, true)]);
    assert_eq!(reply.text, Some("one three".to_string()));
    assert_eq!(reply.sticker, None);
    let all = combine(&vec![(&a, true), (&b, true), (&c, true)]);
    assert_eq!(all.text, Some("one two three".to_string()));
}

#[test]
fn nothing_fired_gives_no_reply() {
    let a = literal("a", "one");
    let s = sticker("s", "file");
    let reply = combine(&vec![(&a, false), (&s, false)]);
    assert_eq!(reply.text, None);
    assert_eq!(reply.sticker, None);
    let empty = combine(&vec![]);
    assert_eq!(empty.text, None);
    assert_eq!(empty.sticker, None);
}

#[test]
fn a_fired_sticker_ends_it() {
    let a = literal("a", "A");
    let b = sticker("b", "B");
    let c = literal("c", "C");
    let reply = combine(&vec![(&a, true), (&b, true), (&c, true)]);
    assert_eq!(reply.text, Some("A".to_string()));
    assert_eq!(reply.sticker, Some("B".to_string()));
    let without_text = combine(&vec![(&a, false), (&b, true), (&c, true)]);
    assert_eq!(without_text.text, None);
    assert_eq!(without_text.sticker, Some("B".to_string()));
}

#[test]
fn a_sticker_that_did_not_fire_ends_nothing() {
    let a = literal("a", "A");
    let b = sticker("b", "B");
    let c = literal("c", "C");
    let d = sticker("d", "D");
    let e = sticker("e", "E");
    let reply = combine(&vec![(&a, true), (&b, false), (&c, true), (&d, true), (&e, true)]);
    assert_eq!(reply.text, Some("A C".to_string()));
    assert_eq!(reply.sticker, Some("D".to_string()));
}

#[test]
fn forced_reply_fires_every_rule_up_to_the_first_sticker() {
    let a = literal("a", "A");
    let b = sticker("b", "B");
    let c = literal("c", "C");
    for _ in 0..100 {
        let reply = decide(&vec![&a, &b, &c], 0, true);
        assert_eq!(reply.text, Some("A".to_string()));
        assert_eq!(reply.sticker, Some("B".to_string()));
    }
}

#[test]
fn certain_chance_needs_no_force() {
    let a = literal("a", "A");
    let c = literal("c", "C");
    for _ in 0..100 {
        let reply = decide(&vec![&a, &c], CHANCE_ONE, false);
        assert_eq!(reply.text, Some("A C".to_string()));
        assert_eq!(reply.sticker, None);
    }
}

#[test]
fn chance_zero_never_replies() {
    let a = literal("a", "A");
    let b = sticker("b", "B");
    for _ in 0..100 {
        let reply = decide(&vec![&a, &b], 0, false);
        assert_eq!(reply.text, None);
        assert_eq!(reply.sticker, None);
    }
}

#[test]
fn a_chance_in_between_gives_one_of_the_possible_replies() {
    let a = literal("a", "A");
    let b = sticker("b", "B");
    let c = literal("c", "C");
    for _ in 0..300 {
        let reply = decide(&vec![&a, &b, &c], CHANCE_ONE / 2, false);
        match (reply.text.as_deref(), reply.sticker.as_deref()) {
            (None, None)
            | (Some("A"), None)
            | (Some("C"), None)
            | (Some("A C"), None)
            | (None, Some("B"))
            | (Some("A"), Some("B")) => {}
            other => panic!("not a reply of these rules: {:?}", other),
        }
    }
}
