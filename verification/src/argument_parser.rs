//! The arguments of a command, as a user types them.
//!
//! Arguments stand between spaces. An argument is either a word, which
//! holds neither a space nor a double quote, or a text in double quotes, in
//! which a backslash stands before each double quote and each backslash that
//! belongs to the text. A text in quotes holds at least one character.

use crate::text::{chars_of, texts_of};
use vstd::prelude::*;

verus! {

/// The input is no list of arguments.
#[derive(Debug, PartialEq, Eq, Structural)]
pub struct ArgumentError {
    /// The place in the input, counted in characters, of the argument that
    /// could not be read, or the length of the input where it holds none.
    pub position: usize,
}

/// The first place at or behind `i` that holds no space.
pub open spec fn spaces_end(input: Seq<char>, i: int) -> int
    decreases input.len() - i,
{
    if 0 <= i < input.len() && input[i] == ' ' {
        spaces_end(input, i + 1)
    } else {
        i
    }
}

/// The first place at or behind `i` that holds a space or a double quote.
pub open spec fn word_end(input: Seq<char>, i: int) -> int
    decreases input.len() - i,
{
    if 0 <= i < input.len() && input[i] != ' ' && input[i] != '"' {
        word_end(input, i + 1)
    } else {
        i
    }
}

/// The text in quotes of which `so_far` was read and the rest begins at `i`,
/// with the place behind its closing quote. There is none where the input
/// ends before the quote closes, where a backslash stands before anything
/// but a double quote or a backslash, or where the text is empty.
pub open spec fn quoted_from(input: Seq<char>, i: int, so_far: Seq<char>) -> Option<
    (Seq<char>, int),
>
    decreases input.len() - i,
{
    if i < 0 || i >= input.len() {
        None
    } else if input[i] == '"' {
        if so_far.len() == 0 {
            None
        } else {
            Some((so_far, i + 1))
        }
    } else if input[i] == '\\' {
        if i + 1 < input.len() && (input[i + 1] == '"' || input[i + 1] == '\\') {
            quoted_from(input, i + 2, so_far.push(input[i + 1]))
        } else {
            None
        }
    } else {
        quoted_from(input, i + 1, so_far.push(input[i]))
    }
}

/// The argument that begins at `i`, with the place behind it.
pub open spec fn argument_at(input: Seq<char>, i: int) -> Option<(Seq<char>, int)> {
    if input[i] == '"' {
        quoted_from(input, i + 1, Seq::empty())
    } else {
        Some((input.subrange(i, word_end(input, i)), word_end(input, i)))
    }
}

/// The arguments that begin at `i` and reach to the end of the input but
/// for spaces. Behind each argument but the last stands at least one space.
pub open spec fn arguments_from(input: Seq<char>, i: int) -> Option<Seq<Seq<char>>>
    decreases input.len() - i,
{
    if i < 0 || i >= input.len() || input[i] == ' ' {
        None
    } else {
        match argument_at(input, i) {
            None => None,
            Some((text, end)) => {
                let next = spaces_end(input, end);
                if next >= input.len() {
                    Some(seq![text])
                } else if next == end || next <= i {
                    None
                } else {
                    match arguments_from(input, next) {
                        Some(rest) => Some(seq![text] + rest),
                        None => None,
                    }
                }
            },
        }
    }
}

/// The arguments that the input holds: at least one, with any number of
/// spaces before the first and behind the last.
pub open spec fn parsed(input: Seq<char>) -> Option<Seq<Seq<char>>> {
    arguments_from(input, spaces_end(input, 0))
}

/// Where the word from `i` on ends, within the input.
proof fn lemma_word_end(input: Seq<char>, i: int)
    requires
        0 <= i <= input.len(),
    ensures
        i <= word_end(input, i) <= input.len(),
        forall|j: int| i <= j < word_end(input, i) ==> input[j] != ' ' && input[j] != '"',
        word_end(input, i) < input.len() ==> input[word_end(input, i)] == ' ' || input[word_end(
            input,
            i,
        )] == '"',
    decreases input.len() - i,
{
    if i < input.len() && input[i] != ' ' && input[i] != '"' {
        lemma_word_end(input, i + 1);
    }
}

/// A text in quotes ends behind the place where it began and holds a character.
proof fn lemma_quoted_from(input: Seq<char>, i: int, so_far: Seq<char>)
    requires
        0 <= i,
    ensures
        quoted_from(input, i, so_far) matches Some((text, end)) ==> i < end <= input.len()
            && text.len() >= 1 && text.len() >= so_far.len(),
    decreases input.len() - i,
{
    if i < input.len() && input[i] != '"' {
        if input[i] == '\\' {
            if i + 1 < input.len() && (input[i + 1] == '"' || input[i + 1] == '\\') {
                lemma_quoted_from(input, i + 2, so_far.push(input[i + 1]));
            }
        } else {
            lemma_quoted_from(input, i + 1, so_far.push(input[i]));
        }
    }
}

/// What is read holds at least one argument, and no argument is empty.
pub proof fn lemma_arguments_not_empty(input: Seq<char>, i: int)
    ensures
        arguments_from(input, i) matches Some(arguments) ==> arguments.len() >= 1 && forall|
            k: int,
        | 0 <= k < arguments.len() ==> (#[trigger] arguments[k]).len() >= 1,
    decreases input.len() - i,
{
    if !(i < 0 || i >= input.len() || input[i] == ' ') {
        match argument_at(input, i) {
            None => {},
            Some((text, end)) => {
                if input[i] == '"' {
                    lemma_quoted_from(input, i + 1, Seq::empty());
                } else {
                    lemma_word_end(input, i + 1);
                }
                assert(text.len() >= 1);
                let next = spaces_end(input, end);
                if next < input.len() && next != end && next > i {
                    lemma_arguments_not_empty(input, next);
                    match arguments_from(input, next) {
                        Some(rest) => {
                            let all = seq![text] + rest;
                            assert forall|k: int| 0 <= k < all.len() implies (
                            #[trigger] all[k]).len() >= 1 by {
                                if k > 0 {
                                    assert(all[k] == rest[k - 1]);
                                }
                            }
                        },
                        None => {},
                    }
                }
            },
        }
    }
}

/// A character as it is written inside quotes: behind a backslash if it is
/// a double quote or a backslash.
pub open spec fn written_char(c: char) -> Seq<char> {
    if c == '"' || c == '\\' {
        seq!['\\', c]
    } else {
        seq![c]
    }
}

/// A text as it is written inside quotes.
pub open spec fn written_inside(text: Seq<char>) -> Seq<char>
    decreases text.len(),
{
    if text.len() == 0 {
        Seq::empty()
    } else {
        written_char(text[0]) + written_inside(text.skip(1))
    }
}

/// A text written as an argument in quotes.
pub open spec fn written_quoted(text: Seq<char>) -> Seq<char> {
    seq!['"'] + written_inside(text) + seq!['"']
}

/// Arguments written in quotes, with one space between two of them.
pub open spec fn written(arguments: Seq<Seq<char>>) -> Seq<char>
    decreases arguments.len(),
{
    if arguments.len() == 0 {
        Seq::empty()
    } else if arguments.len() == 1 {
        written_quoted(arguments[0])
    } else {
        written_quoted(arguments[0]) + seq![' '] + written(arguments.skip(1))
    }
}

/// What is written inside quotes is read back, up to the closing quote.
proof fn lemma_quoted_read_back(
    before: Seq<char>,
    so_far: Seq<char>,
    text: Seq<char>,
    behind: Seq<char>,
)
    requires
        so_far.len() + text.len() >= 1,
    ensures
        quoted_from(
            before + written_inside(text) + seq!['"'] + behind,
            before.len() as int,
            so_far,
        ) == Some((so_far + text, (before.len() + written_inside(text).len() + 1) as int)),
    decreases text.len(),
{
    let input = before + written_inside(text) + seq!['"'] + behind;
    let i = before.len() as int;
    if text.len() == 0 {
        assert(written_inside(text) =~= Seq::empty());
        assert(input[i] == '"');
        assert(so_far + text =~= so_far);
    } else {
        let c = text[0];
        let rest = text.skip(1);
        let longer = before + written_char(c);
        assert(written_inside(text) == written_char(c) + written_inside(rest));
        assert(input =~= longer + written_inside(rest) + seq!['"'] + behind);
        lemma_quoted_read_back(longer, so_far.push(c), rest, behind);
        assert(so_far.push(c) + rest =~= so_far + text);
        if c == '"' || c == '\\' {
            assert(input[i] == '\\');
            assert(input[i + 1] == c);
            assert(longer.len() == i + 2);
        } else {
            assert(input[i] == c);
            assert(longer.len() == i + 1);
        }
    }
}

/// What is written as arguments is read back as them.
proof fn lemma_written_read_back(before: Seq<char>, arguments: Seq<Seq<char>>)
    requires
        arguments.len() >= 1,
        forall|k: int| 0 <= k < arguments.len() ==> (#[trigger] arguments[k]).len() >= 1,
    ensures
        arguments_from(before + written(arguments), before.len() as int) == Some(arguments),
    decreases arguments.len(),
{
    let input = before + written(arguments);
    let i = before.len() as int;
    let first = arguments[0];
    let inside = written_inside(first);
    let end = i + 1 + inside.len() + 1;
    assert(first.len() >= 1);
    if arguments.len() == 1 {
        assert(input =~= (before + seq!['"']) + inside + seq!['"'] + Seq::<char>::empty());
        lemma_quoted_read_back(before + seq!['"'], Seq::empty(), first, Seq::empty());
        assert(Seq::<char>::empty() + first =~= first);
        assert(input[i] == '"');
        assert(end == input.len());
        assert(arguments =~= seq![first]);
    } else {
        let others = arguments.skip(1);
        let behind = seq![' '] + written(others);
        assert(input =~= (before + seq!['"']) + inside + seq!['"'] + behind);
        lemma_quoted_read_back(before + seq!['"'], Seq::empty(), first, behind);
        assert(Seq::<char>::empty() + first =~= first);
        assert(input[i] == '"');
        assert forall|k: int| 0 <= k < others.len() implies (#[trigger] others[k]).len() >= 1 by {
            assert(others[k] == arguments[k + 1]);
        }
        let longer = before + written_quoted(first) + seq![' '];
        assert(input =~= longer + written(others));
        assert(longer.len() == end + 1);
        lemma_written_read_back(longer, others);
        assert(input[end] == ' ');
        assert(written(others)[0] == '"') by {
            if others.len() == 1 {
                assert(written(others) == written_quoted(others[0]));
            } else {
                assert(written(others) == written_quoted(others[0]) + seq![' '] + written(
                    others.skip(1),
                ));
            }
        }
        assert(input[end + 1] == '"');
        assert(spaces_end(input, end + 1) == end + 1);
        assert(spaces_end(input, end) == end + 1);
        assert(seq![first] + others =~= arguments);
    }
}

/// Any arguments, at least one and none of them empty, are read back from
/// what they are written as in quotes: the same arguments in the same order.
pub proof fn lemma_parse_round_trip(arguments: Seq<Seq<char>>)
    requires
        arguments.len() >= 1,
        forall|k: int| 0 <= k < arguments.len() ==> (#[trigger] arguments[k]).len() >= 1,
    ensures
        parsed(written(arguments)) == Some(arguments),
{
    let input = written(arguments);
    lemma_written_read_back(Seq::empty(), arguments);
    assert(Seq::<char>::empty() + input =~= input);
    assert(input[0] == '"') by {
        if arguments.len() == 1 {
            assert(input == written_quoted(arguments[0]));
        } else {
            assert(input == written_quoted(arguments[0]) + seq![' '] + written(arguments.skip(1)));
        }
    }
}

/// The place behind the spaces that begin at `start`.
fn skip_spaces(chars: &Vec<char>, start: usize) -> (end: usize)
    requires
        start <= chars@.len(),
    ensures
        end == spaces_end(chars@, start as int),
        start <= end <= chars@.len(),
{
    let mut i = start;
    while i < chars.len() && chars[i] == ' '
        invariant
            start <= i <= chars@.len(),
            spaces_end(chars@, start as int) == spaces_end(chars@, i as int),
        decreases chars@.len() - i,
    {
        i += 1;
    }
    i
}

/// The place behind the word that begins at `start`.
fn skip_word(chars: &Vec<char>, start: usize) -> (end: usize)
    requires
        start <= chars@.len(),
    ensures
        end == word_end(chars@, start as int),
        start <= end <= chars@.len(),
{
    let mut i = start;
    while i < chars.len() && chars[i] != ' ' && chars[i] != '"'
        invariant
            start <= i <= chars@.len(),
            word_end(chars@, start as int) == word_end(chars@, i as int),
        decreases chars@.len() - i,
    {
        i += 1;
    }
    i
}

/// The characters from `start` up to `end` as a string.
fn copy_range(chars: &Vec<char>, start: usize, end: usize) -> (text: String)
    requires
        start <= end <= chars@.len(),
    ensures
        text@ == chars@.subrange(start as int, end as int),
{
    let mut text = String::new();
    let mut i = start;
    while i < end
        invariant
            start <= i <= end <= chars@.len(),
            text@ == chars@.subrange(start as int, i as int),
        decreases end - i,
    {
        text.push(chars[i]);
        assert(text@ =~= chars@.subrange(start as int, i as int + 1));
        i += 1;
    }
    text
}

/// The text in quotes that begins at `start`, behind its opening quote.
fn read_quoted(chars: &Vec<char>, start: usize) -> (outcome: Option<(String, usize)>)
    requires
        start <= chars@.len(),
    ensures
        match outcome {
            Some((text, end)) => quoted_from(chars@, start as int, Seq::empty()) == Some(
                (text@, end as int),
            ) && start < end <= chars@.len(),
            None => quoted_from(chars@, start as int, Seq::empty()) is None,
        },
{
    let ghost whole = quoted_from(chars@, start as int, Seq::empty());
    let n = chars.len();
    let mut text = String::new();
    let mut holds_any = false;
    let mut i = start;
    while i < n
        invariant
            n == chars@.len(),
            start <= i <= n,
            holds_any == (text@.len() > 0),
            whole == quoted_from(chars@, start as int, Seq::empty()),
            whole == quoted_from(chars@, i as int, text@),
        decreases n - i,
    {
        let c = chars[i];
        if c == '"' {
            if holds_any {
                return Some((text, i + 1));
            } else {
                return None;
            }
        } else if c == '\\' {
            if i + 1 < n && (chars[i + 1] == '"' || chars[i + 1] == '\\') {
                text.push(chars[i + 1]);
                holds_any = true;
                i += 2;
            } else {
                return None;
            }
        } else {
            text.push(c);
            holds_any = true;
            i += 1;
        }
    }
    None
}

/// Reads the arguments of a command. With them comes what is left of the
/// input behind them, which is nothing: input that holds anything but
/// arguments and spaces is refused.
pub fn parse_arguments(input: &str) -> (outcome: Result<(&str, Vec<String>), ArgumentError>)
    ensures
        match outcome {
            Ok((rest, arguments)) => rest@.len() == 0 && parsed(input@) == Some(
                texts_of(arguments@),
            ),
            Err(_) => parsed(input@) is None,
        },
{
    let chars = chars_of(input);
    let n = chars.len();
    let first = skip_spaces(&chars, 0);
    let ghost whole = parsed(input@);
    let mut arguments: Vec<String> = Vec::new();
    let mut i = first;
    assert(Seq::<Seq<char>>::empty() + seq![] =~= Seq::empty());
    loop
        invariant
            n == chars@.len(),
            chars@ == input@,
            i <= n,
            whole == parsed(input@),
            whole == match arguments_from(chars@, i as int) {
                Some(rest) => Some(texts_of(arguments@) + rest),
                None => None,
            },
        decreases n - i,
    {
        if i >= n || chars[i] == ' ' {
            return Err(ArgumentError { position: i });
        }
        let ghost before = texts_of(arguments@);
        let (text, end) = if chars[i] == '"' {
            match read_quoted(&chars, i + 1) {
                Some(found) => found,
                None => {
                    return Err(ArgumentError { position: i });
                },
            }
        } else {
            let end = skip_word(&chars, i);
            proof {
                lemma_word_end(chars@, i as int + 1);
            }
            (copy_range(&chars, i, end), end)
        };
        assert(argument_at(chars@, i as int) == Some((text@, end as int)));
        assert(end > i);
        let next = skip_spaces(&chars, end);
        arguments.push(text);
        proof {
            assert(texts_of(arguments@) =~= before.push(text@));
        }
        if next >= n {
            proof {
                reveal_strlit("");
                assert(before.push(text@) =~= before + seq![text@]);
            }
            return Ok(("", arguments));
        }
        if next == end {
            return Err(ArgumentError { position: next });
        }
        proof {
            match arguments_from(chars@, next as int) {
                Some(rest) => {
                    assert(before + (seq![text@] + rest) =~= before.push(text@) + rest);
                },
                None => {},
            }
        }
        i = next;
    }
}

} // verus!
