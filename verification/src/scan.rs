//! Searching a text, given as a sequence of characters, from a position
//! onward: for a fixed string at a position, for the next occurrence of a
//! character, and for the next occurrence of a string. A search can
//! build on what an earlier one found, so that a text read from left to
//! right is searched once.

use vstd::prelude::*;

verus! {

/// Whether every character of `s` passes the test `keep`.
pub open spec fn all_chars(s: Seq<char>, keep: spec_fn(char) -> bool) -> bool {
    forall|j: int| 0 <= j < s.len() ==> keep(#[trigger] s[j])
}

/// Whether `pat` stands in `s` at index `i`, whole.
pub open spec fn has_at(s: Seq<char>, i: int, pat: Seq<char>) -> bool {
    &&& 0 <= i
    &&& i + pat.len() <= s.len()
    &&& forall|k: int| 0 <= k < pat.len() ==> s[i + k] == #[trigger] pat[k]
}

/// The index of the first `c` in `s` at or after `from`, or `s.len()`
/// where there is none.
pub open spec fn find_char(s: Seq<char>, from: int, c: char) -> int
    decreases s.len() - from,
{
    if from < 0 || from >= s.len() {
        s.len() as int
    } else if s[from] == c {
        from
    } else {
        find_char(s, from + 1, c)
    }
}

/// The index of the first occurrence of `pat` in `s` that starts at or
/// after `from`, or `s.len()` where there is none.
pub open spec fn find_seq(s: Seq<char>, from: int, pat: Seq<char>) -> int
    decreases s.len() - from,
{
    if from < 0 || from >= s.len() {
        s.len() as int
    } else if has_at(s, from, pat) {
        from
    } else {
        find_seq(s, from + 1, pat)
    }
}

/// `find_char` returns the least index from `from` on that holds `c`.
pub proof fn lemma_find_char(s: Seq<char>, from: int, c: char)
    requires
        0 <= from <= s.len(),
    ensures
        from <= find_char(s, from, c) <= s.len(),
        find_char(s, from, c) < s.len() ==> s[find_char(s, from, c)] == c,
        forall|k: int| from <= k < find_char(s, from, c) ==> s[k] != c,
    decreases s.len() - from,
{
    if from < s.len() && s[from] != c {
        lemma_find_char(s, from + 1, c);
    }
}

/// An index that holds `c`, with no `c` between `from` and it, is what
/// `find_char` returns.
pub proof fn lemma_find_char_is(s: Seq<char>, from: int, c: char, at: int)
    requires
        0 <= from <= at < s.len(),
        s[at] == c,
        forall|k: int| from <= k < at ==> s[k] != c,
    ensures
        find_char(s, from, c) == at,
    decreases at - from,
{
    if from < at {
        lemma_find_char_is(s, from + 1, c, at);
    }
}

/// `find_seq` returns the least index from `from` on at which `pat`
/// stands.
pub proof fn lemma_find_seq(s: Seq<char>, from: int, pat: Seq<char>)
    requires
        0 <= from <= s.len(),
    ensures
        from <= find_seq(s, from, pat) <= s.len(),
        find_seq(s, from, pat) < s.len() ==> has_at(s, find_seq(s, from, pat), pat),
        forall|k: int| from <= k < find_seq(s, from, pat) ==> !has_at(s, k, pat),
    decreases s.len() - from,
{
    if from < s.len() && !has_at(s, from, pat) {
        lemma_find_seq(s, from + 1, pat);
    }
}

/// An index at which `pat` stands, with no occurrence between `from`
/// and it, is what `find_seq` returns.
pub proof fn lemma_find_seq_is(s: Seq<char>, from: int, pat: Seq<char>, at: int)
    requires
        0 <= from <= at < s.len(),
        has_at(s, at, pat),
        forall|k: int| from <= k < at ==> !has_at(s, k, pat),
    ensures
        find_seq(s, from, pat) == at,
    decreases at - from,
{
    if from < at {
        lemma_find_seq_is(s, from + 1, pat, at);
    }
}

/// A search that starts between the start of an earlier one and what
/// that one found finds the same.
pub proof fn lemma_find_char_again(s: Seq<char>, from: int, c: char, later: int)
    requires
        0 <= from <= later <= find_char(s, from, c),
    ensures
        find_char(s, later, c) == find_char(s, from, c),
    decreases later - from,
{
    if from < later {
        lemma_find_char_again(s, from + 1, c, later);
    }
}

/// A search that starts between the start of an earlier one and what
/// that one found finds the same.
pub proof fn lemma_find_seq_again(s: Seq<char>, from: int, pat: Seq<char>, later: int)
    requires
        0 <= from <= later <= find_seq(s, from, pat),
    ensures
        find_seq(s, later, pat) == find_seq(s, from, pat),
    decreases later - from,
{
    if from < later {
        lemma_find_seq_again(s, from + 1, pat, later);
    }
}

/// What stands at a position does not depend on what stands before the
/// text.
pub proof fn lemma_has_at_behind(pre: Seq<char>, s: Seq<char>, i: int, pat: Seq<char>)
    requires
        0 <= i,
    ensures
        has_at(pre + s, pre.len() + i, pat) == has_at(s, i, pat),
{
    let t = pre + s;
    let n = pre.len() as int;
    if i + pat.len() <= s.len() {
        if has_at(s, i, pat) {
            assert forall|k: int| 0 <= k < pat.len() implies t[n + i + k] == #[trigger] pat[k] by {
                assert(t[n + i + k] == s[i + k]);
            }
        }
        if has_at(t, n + i, pat) {
            assert forall|k: int| 0 <= k < pat.len() implies s[i + k] == #[trigger] pat[k] by {
                assert(t[n + i + k] == s[i + k]);
            }
        }
    }
}

/// Where the next `c` stands does not depend on what stands before the
/// text, but for the shift.
pub proof fn lemma_find_char_behind(pre: Seq<char>, s: Seq<char>, i: int, c: char)
    requires
        0 <= i <= s.len(),
    ensures
        find_char(pre + s, pre.len() + i, c) == pre.len() + find_char(s, i, c),
    decreases s.len() - i,
{
    if i < s.len() {
        assert((pre + s)[pre.len() + i] == s[i]);
        if s[i] != c {
            lemma_find_char_behind(pre, s, i + 1, c);
        }
    }
}

/// Where the next occurrence of `pat` starts does not depend on what
/// stands before the text, but for the shift.
pub proof fn lemma_find_seq_behind(pre: Seq<char>, s: Seq<char>, i: int, pat: Seq<char>)
    requires
        0 <= i <= s.len(),
    ensures
        find_seq(pre + s, pre.len() + i, pat) == pre.len() + find_seq(s, i, pat),
    decreases s.len() - i,
{
    if i < s.len() {
        lemma_has_at_behind(pre, s, i, pat);
        if !has_at(s, i, pat) {
            lemma_find_seq_behind(pre, s, i + 1, pat);
        }
    }
}

/// Executable form of [`has_at`].
pub fn matches_at(text: &Vec<char>, i: usize, pat: &str) -> (b: bool)
    ensures
        b == has_at(text@, i as int, pat@),
{
    let n = pat.unicode_len();
    if i > text.len() || n > text.len() - i {
        return false;
    }
    let mut k: usize = 0;
    while k < n
        invariant
            k <= n,
            n == pat@.len(),
            i + n <= text.len(),
            forall|j: int| 0 <= j < k ==> text@[i + j] == #[trigger] pat@[j],
        decreases n - k,
    {
        if text[i + k] != pat.get_char(k) {
            assert(text@[i + k] != pat@[k as int]);
            return false;
        }
        k += 1;
    }
    true
}

/// Executable form of [`find_char`].
pub fn index_of_char(text: &Vec<char>, from: usize, c: char) -> (at: usize)
    ensures
        at == find_char(text@, from as int, c),
        from <= text.len() ==> from <= at <= text.len(),
{
    let mut j: usize = from;
    while j < text.len()
        invariant
            from <= j,
            find_char(text@, j as int, c) == find_char(text@, from as int, c),
            from <= text.len() ==> j <= text.len(),
        decreases text.len() - j,
    {
        if text[j] == c {
            return j;
        }
        j += 1;
    }
    text.len()
}

/// Executable form of [`find_seq`].
pub fn index_of_seq(text: &Vec<char>, from: usize, pat: &str) -> (at: usize)
    ensures
        at == find_seq(text@, from as int, pat@),
        from <= text.len() ==> from <= at <= text.len(),
{
    let mut j: usize = from;
    while j < text.len()
        invariant
            from <= j,
            find_seq(text@, j as int, pat@) == find_seq(text@, from as int, pat@),
            from <= text.len() ==> j <= text.len(),
        decreases text.len() - j,
    {
        if matches_at(text, j, pat) {
            return j;
        }
        j += 1;
    }
    text.len()
}

/// What an earlier search found: the first hit from `from` on stands at
/// `at`. Where `from` lies behind `at`, nothing is remembered.
#[derive(Clone, Copy, Debug)]
pub(crate) struct Found {
    pub(crate) from: usize,
    pub(crate) at: usize,
}

impl Found {
    /// Whether what is remembered is true of the search for `c` in `s`.
    pub(crate) open spec fn of_char(self, s: Seq<char>, c: char) -> bool {
        self.from <= self.at ==> self.at == find_char(s, self.from as int, c)
    }

    /// Whether what is remembered is true of the search for `pat` in
    /// `s`.
    pub(crate) open spec fn of_seq(self, s: Seq<char>, pat: Seq<char>) -> bool {
        self.from <= self.at ==> self.at == find_seq(s, self.from as int, pat)
    }

    /// A memory that holds nothing, and is true of every search.
    pub(crate) fn nothing() -> (found: Found)
        ensures
            found.from > found.at,
    {
        Found { from: 1, at: 0 }
    }
}

/// Finds the first `c` at or after `from` as [`index_of_char`] does, and
/// reads nothing again where `known` has the answer. Returns the index
/// and what is known now.
pub(crate) fn index_of_char_after(text: &Vec<char>, from: usize, c: char, known: Found) -> (r: (
    usize,
    Found,
))
    requires
        known.of_char(text@, c),
    ensures
        r.0 == find_char(text@, from as int, c),
        r.1.of_char(text@, c),
        from <= text.len() ==> from <= r.0 <= text.len(),
{
    if known.from <= from && from <= known.at {
        proof {
            lemma_find_char_again(text@, known.from as int, c, from as int);
            lemma_find_char(text@, from as int, c);
        }
        (known.at, known)
    } else {
        let at = index_of_char(text, from, c);
        (at, Found { from, at })
    }
}

/// Finds the first occurrence of `pat` at or after `from` as
/// [`index_of_seq`] does, and reads nothing again where `known` has the
/// answer. Returns the index and what is known now.
pub(crate) fn index_of_seq_after(text: &Vec<char>, from: usize, pat: &str, known: Found) -> (r: (
    usize,
    Found,
))
    requires
        known.of_seq(text@, pat@),
    ensures
        r.0 == find_seq(text@, from as int, pat@),
        r.1.of_seq(text@, pat@),
        from <= text.len() ==> from <= r.0 <= text.len(),
{
    if known.from <= from && from <= known.at {
        proof {
            lemma_find_seq_again(text@, known.from as int, pat@, from as int);
            lemma_find_seq(text@, from as int, pat@);
        }
        (known.at, known)
    } else {
        let at = index_of_seq(text, from, pat);
        (at, Found { from, at })
    }
}

} // verus!
