//! Escaping of text for Telegram's MarkdownV2 parse mode.

use crate::text::chars_of;
use vstd::prelude::*;

verus! {

/// Whether MarkdownV2 gives `c` a meaning of its own, so that a literal
/// occurrence has to be preceded by a backslash.
pub open spec fn is_reserved(c: char) -> bool {
    c == '_' || c == '*' || c == '[' || c == ']' || c == '(' || c == ')' || c == '~' || c == '`'
        || c == '>' || c == '#' || c == '+' || c == '-' || c == '=' || c == '|' || c == '{' || c
        == '}' || c == '.' || c == '!'
}

/// What one character becomes: itself, behind a backslash if it is reserved.
pub open spec fn escaped_char(c: char) -> Seq<char> {
    if is_reserved(c) {
        seq!['\\', c]
    } else {
        seq![c]
    }
}

/// The escaped form of a whole text: the escaped characters, in order.
pub open spec fn escaped(text: Seq<char>) -> Seq<char>
    decreases text.len(),
{
    if text.len() == 0 {
        Seq::empty()
    } else {
        escaped(text.drop_last()) + escaped_char(text.last())
    }
}

/// Escaping works character by character, so it distributes over concatenation.
pub proof fn lemma_escaped_concat(a: Seq<char>, b: Seq<char>)
    ensures
        escaped(a + b) == escaped(a) + escaped(b),
    decreases b.len(),
{
    if b.len() == 0 {
        assert(a + b == a);
        assert(escaped(a) + escaped(b) == escaped(a));
    } else {
        assert((a + b).drop_last() == a + b.drop_last());
        assert((a + b).last() == b.last());
        lemma_escaped_concat(a, b.drop_last());
        assert(escaped(a + b) == (escaped(a) + escaped(b.drop_last())) + escaped_char(b.last()));
        assert(escaped(a) + escaped(b) == (escaped(a) + escaped(b.drop_last())) + escaped_char(
            b.last(),
        ));
    }
}

/// Escaping never loses a character: the result has between one and two
/// characters for each character of the input.
pub proof fn lemma_escaped_len(text: Seq<char>)
    ensures
        text.len() <= escaped(text).len() <= 2 * text.len(),
    decreases text.len(),
{
    if text.len() > 0 {
        lemma_escaped_len(text.drop_last());
    }
}

/// A text without reserved characters is left as it is.
pub proof fn lemma_escaped_plain(text: Seq<char>)
    requires
        forall|i: int| 0 <= i < text.len() ==> !is_reserved(#[trigger] text[i]),
    ensures
        escaped(text) == text,
    decreases text.len(),
{
    if text.len() > 0 {
        lemma_escaped_plain(text.drop_last());
        assert(text == text.drop_last() + seq![text.last()]);
    }
}

fn needs_escape(c: char) -> (r: bool)
    ensures
        r == is_reserved(c),
{
    c == '_' || c == '*' || c == '[' || c == ']' || c == '(' || c == ')' || c == '~' || c == '`'
        || c == '>' || c == '#' || c == '+' || c == '-' || c == '=' || c == '|' || c == '{' || c
        == '}' || c == '.' || c == '!'
}

/// Puts a backslash before every character of `text` that MarkdownV2 reserves.
pub fn telegram_escape(text: &str) -> (result: String)
    ensures
        result@ == escaped(text@),
{
    let chars = chars_of(text);
    let mut result = String::new();
    let n: usize = chars.len();
    let mut i: usize = 0;
    while i < n
        invariant
            n == chars@.len(),
            chars@ == text@,
            i <= n,
            result@ == escaped(text@.take(i as int)),
        decreases n - i,
    {
        let c = chars[i];
        proof {
            let before = text@.take(i as int);
            let after = text@.take(i as int + 1);
            assert(after.drop_last() == before);
            assert(after.last() == c);
        }
        if needs_escape(c) {
            result.push('\\');
        }
        result.push(c);
        i += 1;
    }
    proof {
        assert(text@.take(n as int) == text@);
    }
    result
}

} // verus!
