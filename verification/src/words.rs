//! Cutting a text into words at spaces and hyphens, and joining words
//! with hyphens.

use crate::classes::{boundary, is_boundary};
use crate::scan::all_chars;
use vstd::prelude::*;

verus! {

/// `String::push` appends the character to the end of the string.
/// Trusted, as the standard library documents it.
pub assume_specification[ String::push ](s: &mut String, c: char)
    ensures
        final(s)@ == old(s)@.push(c),
;

/// Where the word that starts at `i` ends, one past its last character:
/// the first boundary from `i` on, or the end of the text. `i` where a
/// boundary stands at `i`.
pub open spec fn word_end(s: Seq<char>, i: int) -> int
    decreases s.len() - i,
{
    if 0 <= i < s.len() && !is_boundary(s[i]) {
        word_end(s, i + 1)
    } else {
        i
    }
}

/// The words of `s` from `i` on, in their order: the maximal stretches
/// without a space or a hyphen.
pub open spec fn words_from(s: Seq<char>, i: int) -> Seq<Seq<char>>
    decreases s.len() - i,
{
    if i < 0 || i >= s.len() {
        Seq::empty()
    } else {
        let e = word_end(s, i);
        if i < e <= s.len() {
            seq![s.subrange(i, e)] + words_from(s, e)
        } else {
            words_from(s, i + 1)
        }
    }
}

/// The words of `s`.
pub open spec fn words(s: Seq<char>) -> Seq<Seq<char>> {
    words_from(s, 0)
}

/// The words `ws` in a row, a hyphen between each two neighbours.
pub open spec fn hyphenated(ws: Seq<Seq<char>>) -> Seq<char>
    decreases ws.len(),
{
    if ws.len() == 0 {
        Seq::empty()
    } else if ws.len() == 1 {
        ws[0]
    } else {
        ws[0] + seq!['-'] + hyphenated(ws.drop_first())
    }
}

/// Whether each of `ws` has a character, and only characters that pass
/// the test `keep`.
pub open spec fn all_words(ws: Seq<Seq<char>>, keep: spec_fn(char) -> bool) -> bool {
    forall|n: int| 0 <= n < ws.len() ==> (#[trigger] ws[n]).len() > 0 && all_chars(ws[n], keep)
}

/// The test that a character passes unless it is a space or a hyphen.
pub open spec fn inner() -> spec_fn(char) -> bool {
    |c: char| !is_boundary(c)
}

/// Whether `t` has the shape of words joined by hyphens: no space, no
/// hyphen at either end, and no hyphen next to another.
pub open spec fn is_hyphenated(t: Seq<char>) -> bool {
    &&& forall|j: int| 0 <= j < t.len() ==> #[trigger] t[j] != ' '
    &&& t.len() > 0 ==> t[0] != '-' && t[t.len() - 1] != '-'
    &&& forall|j: int| 0 <= j < t.len() - 1 ==> !(#[trigger] t[j] == '-' && t[j + 1] == '-')
}

/// A word runs from its start to the first boundary behind it, or to the
/// end of the text.
pub proof fn lemma_word_end(s: Seq<char>, i: int)
    requires
        0 <= i <= s.len(),
    ensures
        i <= word_end(s, i) <= s.len(),
        forall|k: int| i <= k < word_end(s, i) ==> !is_boundary(#[trigger] s[k]),
        word_end(s, i) < s.len() ==> is_boundary(s[word_end(s, i)]),
    decreases s.len() - i,
{
    if i < s.len() && !is_boundary(s[i]) {
        lemma_word_end(s, i + 1);
    }
}

/// Each word of a text has a character, holds no boundary, and holds
/// only characters of the text: whatever test all of the text passes,
/// all of each word passes.
pub proof fn lemma_words_chars(s: Seq<char>, i: int, keep: spec_fn(char) -> bool)
    requires
        0 <= i <= s.len(),
        all_chars(s, keep),
    ensures
        all_words(words_from(s, i), keep),
        all_words(words_from(s, i), inner()),
    decreases s.len() - i,
{
    if i < s.len() {
        let e = word_end(s, i);
        lemma_word_end(s, i);
        if i < e {
            lemma_words_chars(s, e, keep);
            let w = s.subrange(i, e);
            let rest = words_from(s, e);
            let ws = words_from(s, i);
            assert(ws =~= seq![w] + rest);
            assert forall|n: int| 0 <= n < ws.len() implies (#[trigger] ws[n]).len() > 0
                && all_chars(ws[n], keep) && all_chars(ws[n], inner()) by {
                if n == 0 {
                    assert(ws[0] == w);
                    assert forall|j: int| 0 <= j < w.len() implies keep(#[trigger] w[j]) && inner()(
                        w[j],
                    ) by {
                        assert(w[j] == s[i + j]);
                    }
                } else {
                    assert(ws[n] == rest[n - 1]);
                }
            }
        } else {
            lemma_words_chars(s, i + 1, keep);
        }
    }
}

/// Words without a hyphen or a space in them, joined, have the shape
/// that `is_hyphenated` describes; the result is empty only where there
/// is no word; and each of its characters is a hyphen or passes whatever
/// test all of each word passes.
pub proof fn lemma_hyphenated_shape(ws: Seq<Seq<char>>, keep: spec_fn(char) -> bool)
    requires
        all_words(ws, inner()),
        all_words(ws, keep),
    ensures
        is_hyphenated(hyphenated(ws)),
        ws.len() > 0 ==> hyphenated(ws).len() > 0,
        forall|j: int|
            0 <= j < hyphenated(ws).len() ==> #[trigger] hyphenated(ws)[j] == '-' || keep(
                hyphenated(ws)[j],
            ),
    decreases ws.len(),
{
    let h = hyphenated(ws);
    if ws.len() == 0 {
    } else if ws.len() == 1 {
        let w = ws[0];
        assert(all_chars(w, inner()) && all_chars(w, keep));
        assert forall|j: int| 0 <= j < h.len() implies #[trigger] h[j] != ' ' && h[j] != '-'
            && keep(h[j]) by {
            assert(inner()(w[j]));
        }
    } else {
        let w = ws[0];
        let rest = ws.drop_first();
        let tail = hyphenated(rest);
        assert forall|n: int| 0 <= n < rest.len() implies (#[trigger] rest[n]).len() > 0
            && all_chars(rest[n], inner()) && all_chars(rest[n], keep) by {
            assert(rest[n] == ws[n + 1]);
        }
        lemma_hyphenated_shape(rest, keep);
        assert(all_chars(w, inner()) && all_chars(w, keep));
        assert(h =~= w + seq!['-'] + tail);
        assert forall|j: int| 0 <= j < h.len() implies #[trigger] h[j] != ' ' && (h[j] == '-'
            || keep(h[j])) && (h[j] == '-' ==> j >= w.len() && (j == w.len() || tail[j - w.len()
            - 1] == '-')) by {
            if j < w.len() {
                assert(h[j] == w[j]);
                assert(inner()(w[j]));
            } else if j > w.len() {
                assert(h[j] == tail[j - w.len() - 1]);
            }
        }
        assert forall|j: int| 0 <= j < h.len() - 1 implies !(#[trigger] h[j] == '-' && h[j + 1]
            == '-') by {
            if h[j] == '-' && h[j + 1] == '-' {
                if j == w.len() {
                    assert(tail[0] == '-');
                } else {
                    assert(tail[j - w.len() - 1] == '-');
                    assert(tail[(j - w.len() - 1) + 1] == '-');
                }
            }
        }
        assert(h[h.len() - 1] == tail[tail.len() - 1]);
    }
}

/// In a text of the shape that `is_hyphenated` describes, the words from
/// the start of one of them on, joined again, are the text from there
/// on.
pub proof fn lemma_join_of_split_from(t: Seq<char>, i: int)
    requires
        is_hyphenated(t),
        0 <= i < t.len(),
        t[i] != '-',
    ensures
        words_from(t, i).len() > 0,
        hyphenated(words_from(t, i)) == t.subrange(i, t.len() as int),
    decreases t.len() - i,
{
    let e = word_end(t, i);
    lemma_word_end(t, i);
    assert(t[i] != ' ');
    assert(i < e);
    let w = t.subrange(i, e);
    if e == t.len() {
        assert(words_from(t, e).len() == 0);
        assert(words_from(t, i) =~= seq![w]);
    } else {
        assert(t[e] != ' ');
        assert(t[e] == '-');
        assert(e + 1 < t.len());
        assert(word_end(t, e) == e);
        lemma_join_of_split_from(t, e + 1);
        let rest = words_from(t, e + 1);
        let ws = words_from(t, i);
        assert(words_from(t, e) == rest);
        assert(ws =~= seq![w] + rest);
        assert(ws.drop_first() =~= rest);
        assert(ws[0] == w);
        assert(hyphenated(ws) == w + seq!['-'] + hyphenated(rest));
        assert(w + seq!['-'] + t.subrange(e + 1, t.len() as int) =~= t.subrange(
            i,
            t.len() as int,
        ));
    }
}

/// A text of the shape that `is_hyphenated` describes is its own words
/// joined again.
pub proof fn lemma_join_of_split(t: Seq<char>)
    requires
        is_hyphenated(t),
    ensures
        hyphenated(words(t)) == t,
{
    if t.len() > 0 {
        lemma_join_of_split_from(t, 0);
        assert(t.subrange(0, t.len() as int) =~= t);
    }
}

/// One more word at the end adds a hyphen and the word, or the word
/// alone where it is the first.
pub proof fn lemma_hyphenated_push(ws: Seq<Seq<char>>, w: Seq<char>)
    ensures
        hyphenated(ws.push(w)) == if ws.len() == 0 {
            w
        } else {
            hyphenated(ws) + seq!['-'] + w
        },
    decreases ws.len(),
{
    if ws.len() == 0 {
    } else {
        assert(ws.push(w).drop_first() =~= ws.drop_first().push(w));
        lemma_hyphenated_push(ws.drop_first(), w);
        if ws.len() == 1 {
            assert(ws.drop_first().len() == 0);
            assert(hyphenated(ws.push(w)) =~= hyphenated(ws) + seq!['-'] + w);
        } else {
            assert(hyphenated(ws.push(w)) =~= hyphenated(ws) + seq!['-'] + w);
        }
    }
}

/// Cuts `text` at its spaces and hyphens and returns the pieces that are
/// not empty, in their order.
pub fn split_words(text: &Vec<char>) -> (out: Vec<String>)
    ensures
        out.deep_view() == words(text@),
{
    let mut out: Vec<String> = Vec::new();
    let mut i: usize = 0;
    assert(out.deep_view() + words_from(text@, 0) =~= words(text@));
    while i < text.len()
        invariant
            i <= text.len(),
            out.deep_view() + words_from(text@, i as int) == words(text@),
        decreases text.len() - i,
    {
        if boundary(text[i]) {
            i += 1;
        } else {
            let mut word = String::new();
            let mut j: usize = i;
            assert(word@ =~= text@.subrange(i as int, j as int));
            while j < text.len() && !boundary(text[j])
                invariant
                    i <= j <= text.len(),
                    word@ == text@.subrange(i as int, j as int),
                    word_end(text@, j as int) == word_end(text@, i as int),
                decreases text.len() - j,
            {
                word.push(text[j]);
                assert(word@ =~= text@.subrange(i as int, j + 1));
                j += 1;
            }
            let ghost before = out.deep_view();
            out.push(word);
            assert(out.deep_view() =~= before + seq![text@.subrange(i as int, j as int)]);
            assert(out.deep_view() + words_from(text@, j as int) =~= before + words_from(
                text@,
                i as int,
            ));
            i = j;
        }
    }
    assert(out.deep_view() + words_from(text@, i as int) =~= out.deep_view());
    out
}

/// Joins `words` with a hyphen between each two neighbours.
pub fn join_words(words: &Vec<String>) -> (out: String)
    ensures
        out@ == hyphenated(words.deep_view()),
{
    let mut out = String::new();
    let mut i: usize = 0;
    assert(words.deep_view().take(0) =~= Seq::<Seq<char>>::empty());
    while i < words.len()
        invariant
            i <= words.len(),
            out@ == hyphenated(words.deep_view().take(i as int)),
        decreases words.len() - i,
    {
        let ghost done = words.deep_view().take(i as int);
        if i > 0 {
            out.push('-');
        }
        out.append(words[i].as_str());
        proof {
            assert(words.deep_view().take(i + 1) =~= done.push(words[i as int]@));
            lemma_hyphenated_push(done, words[i as int]@);
            assert(out@ =~= hyphenated(done.push(words[i as int]@)));
        }
        i += 1;
    }
    assert(words.deep_view().take(i as int) =~= words.deep_view());
    out
}

} // verus!
