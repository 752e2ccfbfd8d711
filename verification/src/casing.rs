//! Folding a text to lower case. A text all in ASCII is folded on the
//! spot; one that reaches beyond ASCII is handed to the standard
//! library, which follows the Unicode case mappings.

use vstd::prelude::*;
use vstd::utf8::is_ascii_chars;

verus! {

/// What `str::to_lowercase` returns for the text `s`: its lowercase
/// equivalent by the Unicode case mappings. The mapping is the standard
/// library's; this library names its result and depends on nothing else
/// about it.
pub uninterp spec fn lowercase(s: Seq<char>) -> Seq<char>;

/// `str::to_lowercase` returns the lowercase equivalent of the text.
/// Trusted: the result is given the name [`lowercase`], and nothing else
/// is claimed of it.
pub assume_specification[ str::to_lowercase ](s: &str) -> (folded: String)
    ensures
        folded@ == lowercase(s@),
;

/// Whether `c` is one of the capital letters `A` to `Z`.
pub open spec fn is_ascii_capital(c: char) -> bool {
    'A' as u32 <= c as u32 <= 'Z' as u32
}

/// The small letter for a capital letter of ASCII, and `c` itself for
/// every other character.
pub open spec fn ascii_lowered(c: char) -> char {
    if is_ascii_capital(c) {
        ((c as u32) + 32) as char
    } else {
        c
    }
}

/// The capital letter for a small letter of ASCII, and `c` itself for
/// every other character.
pub open spec fn ascii_raised(c: char) -> char {
    if 'a' as u32 <= c as u32 <= 'z' as u32 {
        ((c as u32) - 32) as char
    } else {
        c
    }
}

/// The text `s` with each capital letter of ASCII made small.
pub open spec fn all_lowered(s: Seq<char>) -> Seq<char> {
    Seq::new(s.len(), |i: int| ascii_lowered(s[i]))
}

/// The text `s` with each small letter of ASCII made capital.
pub open spec fn all_raised(s: Seq<char>) -> Seq<char> {
    Seq::new(s.len(), |i: int| ascii_raised(s[i]))
}

/// The text `s` folded to lower case: letter by letter where all of it
/// is ASCII, and by the Unicode case mappings where it is not.
pub open spec fn case_folded(s: Seq<char>) -> Seq<char> {
    if is_ascii_chars(s) {
        all_lowered(s)
    } else {
        lowercase(s)
    }
}

/// The characters of `text`, one by one.
pub fn to_chars(text: &str) -> (out: Vec<char>)
    ensures
        out@ == text@,
{
    let mut out: Vec<char> = Vec::new();
    for c in it: text.chars()
        invariant
            it.seq() == text@,
            out@ == it.seq().take(it.index()),
    {
        out.push(c);
        assert(out@ =~= it.seq().take(it.index() + 1));
    }
    assert(out@ =~= text@);
    out
}

/// Executable form of [`ascii_lowered`].
pub fn lower_ascii(c: char) -> (low: char)
    ensures
        low == ascii_lowered(c),
{
    let code = c as u32;
    if 'A' as u32 <= code && code <= 'Z' as u32 {
        ((code + 32) as u8) as char
    } else {
        c
    }
}

/// Folds `text` to lower case and returns the characters of the result.
pub fn fold_case(text: &str) -> (out: Vec<char>)
    ensures
        out@ == case_folded(text@),
{
    if text.is_ascii() {
        let mut out = to_chars(text);
        let mut i: usize = 0;
        while i < out.len()
            invariant
                i <= out.len(),
                out.len() == text@.len(),
                forall|k: int| 0 <= k < i ==> out@[k] == ascii_lowered(text@[k]),
                forall|k: int| i <= k < out.len() ==> out@[k] == text@[k],
            decreases out.len() - i,
        {
            let low = lower_ascii(out[i]);
            out.set(i, low);
            i += 1;
        }
        assert(out@ =~= all_lowered(text@));
        out
    } else {
        let lowered = text.to_lowercase();
        to_chars(lowered.as_str())
    }
}

} // verus!
