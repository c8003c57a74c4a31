use haloobot::argument_parser::{parse_arguments, ArgumentError};
use std::borrow::Cow;

#[test]
fn parse_quoted() {
    let input = "\"hello\" \"world\"";
    let expected = vec![Cow::Borrowed("hello"), Cow::Borrowed("world")];
    let actual = parse_arguments(input).unwrap().1;
    assert_eq!(actual, expected);
}

#[test]
fn parse_quoted_with_space() {
    let input = "\"hello world\"";
    let expected = vec![Cow::Borrowed("hello world")];
    let actual = parse_arguments(input).unwrap().1;
    assert_eq!(actual, expected);
}

#[test]
fn parse_unquoted() {
    let input = "hello world";
    let expected = vec![Cow::Borrowed("hello"), Cow::Borrowed("world")];
    let actual = parse_arguments(input).unwrap().1;
    assert_eq!(actual, expected);
}

#[test]
fn parse_mixed() {
    let input = "hello \"world\"";
    let expected = vec![Cow::Borrowed("hello"), Cow::Borrowed("world")];
    let actual = parse_arguments(input).unwrap().1;
    assert_eq!(actual, expected);
}

#[test]
fn parse_escaped() {
    let input = r#""hello \"world\"""#;
    let expected: Vec<Cow<str>> = vec![Cow::Owned("hello \"world\"".to_string())];
    let actual = parse_arguments(input).unwrap().1;
    assert_eq!(actual, expected);
}

#[test]
fn parse_leaves_nothing_behind() {
    assert_eq!(parse_arguments("a b").unwrap().0, "");
}

#[test]
fn parse_takes_spaces_around_and_between() {
    let actual = parse_arguments("   one    \"two three\"  four   ").unwrap().1;
    assert_eq!(actual, vec!["one", "two three", "four"]);
}

#[test]
fn parse_escaped_backslash() {
    let actual = parse_arguments(r#""a\\b" c\d"#).unwrap().1;
    assert_eq!(actual, vec!["a\\b", "c\\d"]);
}

#[test]
fn parse_keeps_characters_outside_ascii() {
    let actual = parse_arguments("nimi \"hyvää päivää\" 🎉").unwrap().1;
    assert_eq!(actual, vec!["nimi", "hyvää päivää", "🎉"]);
}

#[test]
fn parse_refuses_input_without_arguments() {
    assert_eq!(parse_arguments(""), Err(ArgumentError { position: 0 }));
    assert_eq!(parse_arguments("   "), Err(ArgumentError { position: 3 }));
}

#[test]
fn parse_refuses_an_empty_text_in_quotes() {
    assert!(parse_arguments("\"\"").is_err());
    assert!(parse_arguments("a \"\" b").is_err());
}

#[test]
fn parse_refuses_a_quote_that_does_not_close() {
    assert!(parse_arguments("\"hello").is_err());
    assert!(parse_arguments("a \"b c").is_err());
    assert!(parse_arguments("\"hello\\\"").is_err());
}

#[test]
fn parse_refuses_a_backslash_before_another_character() {
    assert!(parse_arguments(r#""a\nb""#).is_err());
}

#[test]
fn parse_refuses_arguments_without_a_space_between() {
    assert!(parse_arguments("\"a\"\"b\"").is_err());
    assert!(parse_arguments("ab\"cd\"").is_err());
    assert!(parse_arguments("\"ab\"cd").is_err());
}

fn write_quoted(arguments: &[&str]) -> String {
    let quoted: Vec<String> = arguments
        .iter()
        .map(|argument| {
            let mut text = String::from("\"");
            for c in argument.chars() {
                if c == '"' || c == '\\' {
                    text.push('\\');
                }
                text.push(c);
            }
            text.push('"');
            text
        })
        .collect();
    quoted.join(" ")
}

#[test]
fn arguments_written_in_quotes_are_read_back() {
    let lists: Vec<Vec<&str>> = vec![
        vec!["a"],
        vec!["hello world", "x"],
        vec!["say \"hi\"", "back\\slash", " ", "\\", "\""],
        vec!["päivää", "🎉 🎉", "a b  c"],
    ];
    for arguments in lists {
        let input = write_quoted(&arguments);
        assert_eq!(parse_arguments(&input).unwrap().1, arguments);
    }
}
