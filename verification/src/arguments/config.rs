//! The --config argument, and the splitting of configuration files into arguments.

use vstd::prelude::*;

use crate::arguments::group::{spec_group_from, ComplexArgGroup};
use crate::domain::DomainTracker;
use crate::error::ArgumentError;
use crate::text::{chars_of, string_from_chars, strings_view};

verus! {

/// Represents a --config argument.
pub struct ConfigArg {
    pub paths: Vec<String>,
}

impl ConfigArg {
    /// Parses a --config argument, which takes only paths.
    pub fn parse(args: Vec<String>, domains: &mut DomainTracker) -> (res: Result<ConfigArg, ArgumentError>)
        requires
            old(domains).well_formed(),
            old(domains).next_id() + args@.len() < usize::MAX,
        ensures
            final(domains).well_formed(),
            forall|name: Seq<char>| old(domains).lookup(name) is Some ==> final(domains).lookup(name) == old(domains).lookup(name),
            match res {
                Ok(arg) => spec_group_from(strings_view(args@), Seq::empty(), Seq::empty(), true, false) matches Some(group)
                    && strings_view(arg.paths@) == group.paths,
                Err(_) => spec_group_from(strings_view(args@), Seq::empty(), Seq::empty(), true, false) is None,
            },
    {
        let none: Vec<&str> = Vec::new();
        proof {
            assert(none@ =~= Seq::<&str>::empty());
        }
        let arg_group = ComplexArgGroup::parse(args, none.as_slice(), none.as_slice(), true, false, domains)?;
        Ok(ConfigArg { paths: arg_group.into_paths() })
    }
}

/// Whether std's `char::is_whitespace` holds: whether the character has the Unicode White_Space
/// property.
pub open spec fn is_white_space(c: char) -> bool {
    c == '\t' || c == '\n' || c == '\u{0B}' || c == '\u{0C}' || c == '\r' || c == ' ' || c == '\u{85}'
        || c == '\u{A0}' || c == '\u{1680}' || ('\u{2000}' <= c <= '\u{200A}') || c == '\u{2028}'
        || c == '\u{2029}' || c == '\u{202F}' || c == '\u{205F}' || c == '\u{3000}'
}

fn white_space(c: char) -> (res: bool)
    ensures
        res == is_white_space(c),
{
    c == '\t' || c == '\n' || c == '\u{0B}' || c == '\u{0C}' || c == '\r' || c == ' ' || c == '\u{85}'
        || c == '\u{A0}' || c == '\u{1680}' || ('\u{2000}' <= c && c <= '\u{200A}') || c == '\u{2028}'
        || c == '\u{2029}' || c == '\u{202F}' || c == '\u{205F}' || c == '\u{3000}'
}

/// Reading the characters one by one: the words completed so far, and the word being read.
pub open spec fn lex_state(s: Seq<char>) -> (Seq<Seq<char>>, Seq<char>)
    decreases s.len(),
{
    if s.len() == 0 {
        (Seq::empty(), Seq::empty())
    } else {
        let (done, current) = lex_state(s.drop_last());
        let c = s.last();
        if is_white_space(c) {
            if current.len() > 0 {
                (done.push(current), Seq::empty())
            } else {
                (done, Seq::empty())
            }
        } else {
            (done, current.push(c))
        }
    }
}

/// The words of a text: the longest runs of characters without white space.
pub open spec fn spec_words(s: Seq<char>) -> Seq<Seq<char>> {
    let (done, current) = lex_state(s);
    if current.len() > 0 {
        done.push(current)
    } else {
        done
    }
}

/// A word is not empty and holds no white space.
pub open spec fn is_word(w: Seq<char>) -> bool {
    w.len() > 0 && forall|i: int| 0 <= i < w.len() ==> !is_white_space(#[trigger] w[i])
}

proof fn lemma_lex_state_words(s: Seq<char>)
    ensures
        forall|i: int| 0 <= i < lex_state(s).0.len() ==> is_word(#[trigger] lex_state(s).0[i]),
        forall|i: int| 0 <= i < lex_state(s).1.len() ==> !is_white_space(#[trigger] lex_state(s).1[i]),
    decreases s.len(),
{
    if s.len() > 0 {
        lemma_lex_state_words(s.drop_last());
        let (done, current) = lex_state(s.drop_last());
        let c = s.last();
        if !is_white_space(c) {
            let next = current.push(c);
            assert forall|i: int| 0 <= i < next.len() implies !is_white_space(#[trigger] next[i]) by {
                if i < current.len() {
                    assert(next[i] == current[i]);
                }
            }
        } else if current.len() > 0 {
            let next = done.push(current);
            assert forall|i: int| 0 <= i < next.len() implies is_word(#[trigger] next[i]) by {
                if i < done.len() {
                    assert(next[i] == done[i]);
                }
            }
        }
    }
}

/// Splits a text into the words that white space separates.
pub fn shell_lex(input: String) -> (res: Result<Vec<String>, ArgumentError>)
    ensures
        res matches Ok(words) && strings_view(words@) == spec_words(input@),
        res matches Ok(words) && forall|i: int| 0 <= i < words@.len() ==> is_word(#[trigger] words@[i]@),
{
    Ok(split_whitespace(input.as_str()))
}

/// The words of a text, which white space separates.
pub fn split_whitespace(input: &str) -> (words: Vec<String>)
    ensures
        strings_view(words@) == spec_words(input@),
        forall|i: int| 0 <= i < words@.len() ==> is_word(#[trigger] words@[i]@),
{
    let chars = chars_of(input);
    let mut words: Vec<String> = Vec::new();
    let mut current: Vec<char> = Vec::new();
    let mut i: usize = 0;
    while i < chars.len()
        invariant
            i <= chars@.len(),
            chars@ == input@,
            (strings_view(words@), current@) == lex_state(chars@.take(i as int)),
        decreases chars@.len() - i,
    {
        let c = chars[i];
        proof {
            assert(chars@.take(i + 1).drop_last() == chars@.take(i as int));
            assert(chars@.take(i + 1).last() == c);
        }
        if white_space(c) {
            if current.len() > 0 {
                let word = string_from_chars(current.as_slice());
                let ghost before = words@;
                words.push(word);
                proof {
                    assert(strings_view(words@) =~= strings_view(before).push(current@));
                }
                current = Vec::new();
            }
        } else {
            current.push(c);
        }
        i += 1;
    }
    if current.len() > 0 {
        let word = string_from_chars(current.as_slice());
        let ghost before = words@;
        words.push(word);
        proof {
            assert(strings_view(words@) =~= strings_view(before).push(current@));
        }
    }
    proof {
        assert(chars@.take(chars@.len() as int) == chars@);
        lemma_lex_state_words(input@);
        assert forall|i: int| 0 <= i < words@.len() implies is_word(#[trigger] words@[i]@) by {
            assert(strings_view(words@)[i] == words@[i]@);
            let (done, cur) = lex_state(input@);
            if i < done.len() {
                assert(spec_words(input@)[i] == done[i]);
            } else {
                assert(spec_words(input@)[i] == cur);
            }
        }
    }
    words
}

} // verus!
