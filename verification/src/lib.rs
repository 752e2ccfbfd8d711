//! Slugs for titles. A title is folded to lower case, cleared of markup,
//! entities and punctuation, and cut into words; the words, joined by
//! single hyphens, are its slug. Letters of every script stay.
//!
//! [`slugify`] gives the slug and [`sanitize_and_split`] the words.
//! What they return is defined by [`slug_of`] and [`tokens_of`], and
//! the module [`laws`] holds what is proved of every slug.

pub mod casing;
pub mod classes;
pub mod laws;
pub mod patterns;
pub mod purge;
pub mod scan;
pub mod words;

use crate::casing::{case_folded, fold_case, to_chars};
use crate::classes::{is_token_char, Letters};
use crate::laws::{lemma_slug_is_slug, lemma_tokens_are_tokens};
use crate::patterns::{replace_all, replaced, Pattern};
use crate::purge::{strip_residue, strip_soft_punct, without_residue, without_soft_punct};
use crate::words::{hyphenated, is_hyphenated, join_words, split_words, words};
use vstd::prelude::*;

verus! {

/// The text `folded`, taken as already in lower case, after the seven
/// rewriting steps, each applied to the whole result of the one before:
/// `script` and `style` elements go, then the remaining tags, then soft
/// punctuation; runs of soft dashes become a hyphen; the remaining entity
/// references go; runs of sentence marks become a hyphen; and whatever
/// is then neither a word character, a space nor a hyphen goes.
pub open spec fn sanitized(folded: Seq<char>) -> Seq<char> {
    let no_blocks = replaced(Pattern::DangerousBlock, folded);
    let no_tags = replaced(Pattern::Tag, no_blocks);
    let no_soft_punct = without_soft_punct(no_tags);
    let dashed = replaced(Pattern::SoftDashes, no_soft_punct);
    let no_entities = replaced(Pattern::Entity, dashed);
    let separated = replaced(Pattern::SentencePunct, no_entities);
    without_residue(separated)
}

/// The slug of `folded`, a text taken as already in lower case: the
/// words of the sanitized text, joined by hyphens.
pub open spec fn slug_of_folded(folded: Seq<char>) -> Seq<char> {
    hyphenated(words(sanitized(folded)))
}

/// Whether `w` can be a word of a sanitized text: it has a character,
/// and all of them are token characters.
pub open spec fn is_token(w: Seq<char>) -> bool {
    w.len() > 0 && forall|j: int| 0 <= j < w.len() ==> is_token_char(#[trigger] w[j])
}

/// Whether `t` can be a slug: token characters and hyphens, no hyphen at
/// either end and none next to another.
pub open spec fn is_slug(t: Seq<char>) -> bool {
    &&& is_hyphenated(t)
    &&& forall|j: int| 0 <= j < t.len() ==> #[trigger] t[j] == '-' || is_token_char(t[j])
}

/// The words of the title `title`: those of its lowercase form after
/// sanitizing.
pub open spec fn tokens_of(title: Seq<char>) -> Seq<Seq<char>> {
    words(sanitized(case_folded(title)))
}

/// The slug of the title `title`: its words joined by hyphens.
pub open spec fn slug_of(title: Seq<char>) -> Seq<char> {
    hyphenated(tokens_of(title))
}

/// Applies the seven rewriting steps to `folded`, a text in lower case.
pub fn sanitize(letters: &Letters, folded: &Vec<char>) -> (out: Vec<char>)
    ensures
        out@ == sanitized(folded@),
{
    let no_blocks = replace_all(Pattern::DangerousBlock, folded);
    let no_tags = replace_all(Pattern::Tag, &no_blocks);
    let no_soft_punct = strip_soft_punct(&no_tags);
    let dashed = replace_all(Pattern::SoftDashes, &no_soft_punct);
    let no_entities = replace_all(Pattern::Entity, &dashed);
    let separated = replace_all(Pattern::SentencePunct, &no_entities);
    strip_residue(letters, &separated)
}

/// Sanitizes `folded`, a text that is taken as it is, without folding
/// it to lower case, and cuts it into words.
pub fn split_folded(letters: &Letters, folded: &str) -> (tokens: Vec<String>)
    ensures
        tokens.deep_view() == words(sanitized(folded@)),
{
    let chars = to_chars(folded);
    let clean = sanitize(letters, &chars);
    split_words(&clean)
}

/// Sanitizes a title and returns its words, in lower case and in their
/// order, looking letters up in `letters`.
pub fn sanitize_and_split_with(letters: &Letters, title: &str) -> (tokens: Vec<String>)
    ensures
        tokens.deep_view() == tokens_of(title@),
        forall|n: int| 0 <= n < tokens.len() ==> is_token(#[trigger] tokens[n]@),
{
    proof {
        lemma_tokens_are_tokens(title@);
    }
    let folded = fold_case(title);
    let clean = sanitize(letters, &folded);
    let tokens = split_words(&clean);
    assert forall|n: int| 0 <= n < tokens.len() implies is_token(#[trigger] tokens[n]@) by {
        assert(tokens.deep_view().len() == tokens.len());
        assert(tokens[n]@ == tokens.deep_view()[n]);
        assert(is_token(tokens_of(title@)[n]));
    }
    tokens
}

/// Sanitizes a title and returns its words in lower case with a single
/// hyphen between them, looking letters up in `letters`.
pub fn slugify_with(letters: &Letters, title: &str) -> (slug: String)
    ensures
        slug@ == slug_of(title@),
        is_slug(slug@),
{
    proof {
        lemma_slug_is_slug(title@);
    }
    let tokens = sanitize_and_split_with(letters, title);
    join_words(&tokens)
}

/// Sanitizes a title and returns its words, in lower case and in their
/// order. Callers that shorten a slug or drop words from it start here.
///
/// Each call compiles the tables of letters anew: for many titles, make
/// one [`Letters`] and call [`sanitize_and_split_with`].
pub fn sanitize_and_split(title: &str) -> (tokens: Vec<String>)
    ensures
        tokens.deep_view() == tokens_of(title@),
        forall|n: int| 0 <= n < tokens.len() ==> is_token(#[trigger] tokens[n]@),
{
    let letters = Letters::new();
    sanitize_and_split_with(&letters, title)
}

/// Sanitizes a title and returns its words in lower case with a single
/// hyphen between them.
///
/// Each call compiles the tables of letters anew: for many titles, make
/// one [`Letters`] and call [`slugify_with`].
pub fn slugify(title: &str) -> (slug: String)
    ensures
        slug@ == slug_of(title@),
        is_slug(slug@),
{
    let letters = Letters::new();
    slugify_with(&letters, title)
}

} // verus!
