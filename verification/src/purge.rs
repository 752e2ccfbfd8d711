//! The two purges, which delete single characters by their class: soft
//! punctuation before anything is rewritten, and at the end whatever is
//! neither part of a word nor a word boundary.

use crate::classes::{is_slug_char, is_soft_punct, soft_punct, Letters};
use crate::scan::all_chars;
use vstd::prelude::*;

verus! {

/// The test that a character passes unless it is soft punctuation.
pub open spec fn firm() -> spec_fn(char) -> bool {
    |c: char| !is_soft_punct(c)
}

/// The test that a character passes if it may stand in a slug or
/// separates two words of it.
pub open spec fn lasting() -> spec_fn(char) -> bool {
    |c: char| is_slug_char(c)
}

/// The text `s` without its soft punctuation.
pub open spec fn without_soft_punct(s: Seq<char>) -> Seq<char> {
    s.filter(firm())
}

/// The text `s` without the characters that are neither a percent sign,
/// a digit, a letter, a space nor a hyphen.
pub open spec fn without_residue(s: Seq<char>) -> Seq<char> {
    s.filter(lasting())
}

/// What a purge leaves passes its test, and passes whatever test all of
/// the text passed before.
pub proof fn lemma_filter_chars(s: Seq<char>, pass: spec_fn(char) -> bool, keep: spec_fn(char) -> bool)
    requires
        all_chars(s, keep),
    ensures
        all_chars(s.filter(pass), pass),
        all_chars(s.filter(pass), keep),
    decreases s.len(),
{
    reveal(Seq::filter);
    if s.len() > 0 {
        let init = s.drop_last();
        assert forall|j: int| 0 <= j < init.len() implies keep(#[trigger] init[j]) by {
            assert(init[j] == s[j]);
        }
        lemma_filter_chars(init, pass, keep);
        assert(keep(s[s.len() - 1]));
    }
}

/// A purge changes nothing in a text all of which passes its test.
pub proof fn lemma_filter_same(s: Seq<char>, pass: spec_fn(char) -> bool)
    requires
        all_chars(s, pass),
    ensures
        s.filter(pass) == s,
    decreases s.len(),
{
    reveal(Seq::filter);
    if s.len() > 0 {
        let init = s.drop_last();
        assert forall|j: int| 0 <= j < init.len() implies pass(#[trigger] init[j]) by {
            assert(init[j] == s[j]);
        }
        lemma_filter_same(init, pass);
        assert(pass(s[s.len() - 1]));
        assert(init.push(s.last()) =~= s);
    }
}

/// Deletes every soft punctuation character of `text`.
pub fn strip_soft_punct(text: &Vec<char>) -> (out: Vec<char>)
    ensures
        out@ == without_soft_punct(text@),
{
    let mut out: Vec<char> = Vec::new();
    let mut i: usize = 0;
    proof {
        reveal(Seq::filter);
        assert(text@.take(0).filter(firm()) =~= Seq::<char>::empty());
    }
    while i < text.len()
        invariant
            i <= text.len(),
            out@ == text@.take(i as int).filter(firm()),
        decreases text.len() - i,
    {
        let c = text[i];
        proof {
            assert(text@.take(i + 1) =~= text@.take(i as int).push(c));
            text@.take(i as int).lemma_filter_push(c, firm());
        }
        if !soft_punct(c) {
            out.push(c);
        }
        i += 1;
    }
    assert(text@.take(i as int) =~= text@);
    out
}

/// Deletes every character of `text` that is neither a percent sign, a
/// digit, a letter, a space nor a hyphen.
pub fn strip_residue(letters: &Letters, text: &Vec<char>) -> (out: Vec<char>)
    ensures
        out@ == without_residue(text@),
{
    let mut out: Vec<char> = Vec::new();
    let mut i: usize = 0;
    proof {
        reveal(Seq::filter);
        assert(text@.take(0).filter(lasting()) =~= Seq::<char>::empty());
    }
    while i < text.len()
        invariant
            i <= text.len(),
            out@ == text@.take(i as int).filter(lasting()),
        decreases text.len() - i,
    {
        let c = text[i];
        proof {
            assert(text@.take(i + 1) =~= text@.take(i as int).push(c));
            text@.take(i as int).lemma_filter_push(c, lasting());
        }
        if letters.slug_char(c) {
            out.push(c);
        }
        i += 1;
    }
    assert(text@.take(i as int) =~= text@);
    out
}

} // verus!
