//! Highlighting a word in a line with a text style.

use crate::pattern::{
    lemma_replaced_at_first, lemma_replaced_by_itself, lemma_replaced_without_occurrence,
    occurs_at, occurs_in, replace, replaced,
};
use crate::style::{add_style, reset_code, style_code, with_style};
use crate::text::{chars_of, string_of};
use vstd::prelude::*;
use vstd::string::*;

verus! {

/// `line` with every occurrence of `word`, as it is written, put between the
/// sequence that switches to the style `code` and the reset. The occurrences
/// are taken from the left and never overlap. A code above 9 is no style:
/// the word is then replaced by itself.
pub open spec fn highlighted(line: Seq<char>, word: Seq<char>, code: u8) -> Seq<char> {
    replaced(line, word, with_style(word, code))
}

/// `line` with every occurrence of `word` shown in the style `style`.
pub fn format(line: &str, word: &str, style: u8) -> (out: String)
    ensures
        out@ == highlighted(line@, word@, style),
{
    let marked = add_style(String::from_str(word), style);
    let out = replace(
        chars_of(line).as_slice(),
        chars_of(word).as_slice(),
        chars_of(marked.as_str()).as_slice(),
    );
    string_of(out.as_slice())
}

/// With a code above 9 the line comes back as it is.
pub proof fn lemma_unknown_style_keeps_line(line: Seq<char>, word: Seq<char>, code: u8)
    requires
        code > 9,
    ensures
        highlighted(line, word, code) == line,
{
    lemma_replaced_by_itself(line, word);
}

/// A line in which the word does not occur comes back as it is, whatever the
/// style.
pub proof fn lemma_absent_word_keeps_line(line: Seq<char>, word: Seq<char>, code: u8)
    requires
        word.len() > 0,
        !occurs_in(word, line),
    ensures
        highlighted(line, word, code) == line,
{
    lemma_replaced_without_occurrence(line, word, with_style(word, code));
}

/// With a code of at most 9, the first occurrence of the word is wrapped:
/// what stands before it is untouched, the word itself stands between the
/// style's sequence and the reset, and what follows is highlighted in the
/// same way. Together with the law on lines without the word, this says of
/// every occurrence that it is wrapped and of all other text that it stays.
pub proof fn lemma_first_occurrence_wrapped(line: Seq<char>, word: Seq<char>, code: u8, at: int)
    requires
        code <= 9,
        word.len() > 0,
        occurs_at(word, line, at),
        forall|j: int| 0 <= j < at ==> !occurs_at(word, line, j),
    ensures
        highlighted(line, word, code) == line.take(at) + style_code(code) + word + reset_code()
            + highlighted(line.skip(at + word.len()), word, code),
{
    lemma_replaced_at_first(line, word, with_style(word, code), at);
    let rest = highlighted(line.skip(at + word.len()), word, code);
    assert(line.take(at) + (style_code(code) + word + reset_code()) + rest =~= line.take(at)
        + style_code(code) + word + reset_code() + rest);
}

} // verus!
