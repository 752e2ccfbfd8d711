//! The character classes that the sanitizer tells apart.

use regex::Regex;
use vstd::prelude::*;

verus! {

/// Whether `c` is soft punctuation, which is deleted wherever it stands:
/// the soft hyphen, the inverted exclamation and question marks, angle
/// and curly quotation marks, the bullet, the copyright, registered,
/// degree, ellipsis and trademark signs, and the acute, grave, macron
/// and caron accent marks.
pub open spec fn is_soft_punct(c: char) -> bool {
    ||| c == '\u{00ad}'
    ||| c == '\u{00a1}' || c == '\u{00bf}'
    ||| c == '\u{00ab}' || c == '\u{00bb}' || c == '\u{2039}' || c == '\u{203a}'
    ||| c == '\u{2018}' || c == '\u{2019}' || c == '\u{201a}' || c == '\u{201b}'
    ||| c == '\u{201c}' || c == '\u{201d}' || c == '\u{201e}' || c == '\u{201f}'
    ||| c == '\u{2022}'
    ||| c == '\u{00a9}' || c == '\u{00ae}' || c == '\u{00b0}' || c == '\u{2026}'
    ||| c == '\u{2122}'
    ||| c == '\u{00b4}' || c == '\u{02ca}' || c == '\u{0301}' || c == '\u{0341}'
    ||| c == '\u{0300}' || c == '\u{0304}' || c == '\u{030c}'
}

/// Whether `c` is one of the single characters that count as a soft
/// dash: the no-break space, the en dash, the em dash and the hyphen
/// itself.
pub open spec fn is_dash_char(c: char) -> bool {
    c == '\u{00a0}' || c == '\u{2013}' || c == '\u{2014}' || c == '-'
}

/// Whether `c` is a sentence mark, which separates words as a hyphen
/// does: `.`, `?`, `!`, `;`, `:`, `_`, `@`, carriage return, line feed.
pub open spec fn is_sentence_punct(c: char) -> bool {
    ||| c == '.' || c == '?' || c == '!' || c == ';' || c == ':'
    ||| c == '_' || c == '@' || c == '\r' || c == '\n'
}

/// Whether `c` is one of the 128 ASCII characters.
pub open spec fn is_ascii(c: char) -> bool {
    (c as u32) < 0x80
}

/// Whether `c` is one of the letters `a` to `z` and `A` to `Z`.
pub open spec fn is_ascii_letter(c: char) -> bool {
    ('a' as u32 <= c as u32 <= 'z' as u32) || ('A' as u32 <= c as u32 <= 'Z' as u32)
}

/// Whether `c` is one of the digits `0` to `9`.
pub open spec fn is_digit(c: char) -> bool {
    '0' as u32 <= c as u32 <= '9' as u32
}

/// Whether `c` has the Unicode property Alphabetic, in the tables of the
/// `regex` crate.
pub uninterp spec fn alphabetic(c: char) -> bool;

/// Whether `c` is a letter. Within ASCII these are `a` to `z` and `A` to
/// `Z`; beyond ASCII, the characters with the Unicode property
/// Alphabetic.
pub open spec fn is_letter(c: char) -> bool {
    if is_ascii(c) {
        is_ascii_letter(c)
    } else {
        alphabetic(c)
    }
}

/// Whether `c` separates words: a space or a hyphen.
pub open spec fn is_boundary(c: char) -> bool {
    c == ' ' || c == '-'
}

/// Whether `c` may stand in a word: a percent sign, a digit or a letter.
pub open spec fn is_word_char(c: char) -> bool {
    c == '%' || is_digit(c) || is_letter(c)
}

/// Whether `c` may stand in a word of a sanitized text: a word
/// character that is neither soft punctuation nor a dash character.
pub open spec fn is_token_char(c: char) -> bool {
    is_word_char(c) && !is_soft_punct(c) && !is_dash_char(c)
}

/// Whether `c` outlives the last purge: a word character or a word
/// boundary.
pub open spec fn is_slug_char(c: char) -> bool {
    is_word_char(c) || is_boundary(c)
}

/// Executable form of [`is_soft_punct`].
pub fn soft_punct(c: char) -> (b: bool)
    ensures
        b == is_soft_punct(c),
{
    c == '\u{00ad}' || c == '\u{00a1}' || c == '\u{00bf}' || c == '\u{00ab}' || c == '\u{00bb}'
        || c == '\u{2039}' || c == '\u{203a}' || c == '\u{2018}' || c == '\u{2019}' || c
        == '\u{201a}' || c == '\u{201b}' || c == '\u{201c}' || c == '\u{201d}' || c == '\u{201e}'
        || c == '\u{201f}' || c == '\u{2022}' || c == '\u{00a9}' || c == '\u{00ae}' || c
        == '\u{00b0}' || c == '\u{2026}' || c == '\u{2122}' || c == '\u{00b4}' || c == '\u{02ca}'
        || c == '\u{0301}' || c == '\u{0341}' || c == '\u{0300}' || c == '\u{0304}' || c
        == '\u{030c}'
}

/// Executable form of [`is_dash_char`].
pub fn dash_char(c: char) -> (b: bool)
    ensures
        b == is_dash_char(c),
{
    c == '\u{00a0}' || c == '\u{2013}' || c == '\u{2014}' || c == '-'
}

/// Executable form of [`is_sentence_punct`].
pub fn sentence_punct(c: char) -> (b: bool)
    ensures
        b == is_sentence_punct(c),
{
    c == '.' || c == '?' || c == '!' || c == ';' || c == ':' || c == '_' || c == '@' || c == '\r'
        || c == '\n'
}

/// The type `regex::Regex`, a compiled regular expression. Nothing is
/// known of what a value of it holds but what [`members`] names.
#[verifier::external_type_specification]
#[verifier::external_body]
pub struct ExRegex(Regex);

/// The characters that a compiled expression holds when it is taken as
/// a set of characters: `c` is one of them if `Regex::is_match` finds a
/// match in the text that holds `c` and nothing else.
pub uninterp spec fn members(class: Regex) -> Set<char>;

/// Calls `Regex::new` on the class `\p{Alphabetic}`. Trusted: the class
/// is well formed, so that the compiler returns it, and the characters
/// that the compiled class holds are those that [`alphabetic`] names.
#[verifier::external_body]
fn compile_alphabetic() -> (class: Regex)
    ensures
        forall|c: char| #[trigger] members(class).contains(c) == alphabetic(c),
{
    Regex::new(r"\p{Alphabetic}").unwrap()
}

/// Calls `Regex::is_match` on the text that holds `c` alone. Trusted:
/// the answer tells whether `c` is one of the characters that the
/// compiled expression holds, which is what [`members`] names.
#[verifier::external_body]
fn finds_alone(class: &Regex, c: char) -> (b: bool)
    ensures
        b == members(*class).contains(c),
{
    let mut buf = [0u8; 4];
    class.is_match(c.encode_utf8(&mut buf))
}

/// The Unicode tables of letters, ready for lookup: the class
/// `\p{Alphabetic}` of the `regex` crate, compiled. Compiling takes far
/// longer than a lookup, so one value serves for many texts.
pub struct Letters {
    class: Regex,
}

impl View for Letters {
    type V = Set<char>;

    /// The characters that are found in the tables.
    closed spec fn view(&self) -> Set<char> {
        members(self.class)
    }
}

impl Letters {
    /// Every value holds the whole class and nothing else: a character
    /// is found in the tables if and only if it has the property
    /// Alphabetic.
    #[verifier::type_invariant]
    spec fn complete(self) -> bool {
        forall|c: char| #[trigger] members(self.class).contains(c) == alphabetic(c)
    }

    /// Compiles the tables. The characters found in them are those with
    /// the property Alphabetic.
    pub fn new() -> (letters: Letters)
        ensures
            forall|c: char| #[trigger] letters@.contains(c) == alphabetic(c),
    {
        Letters { class: compile_alphabetic() }
    }

    /// Looks `c` up in the tables.
    fn holds(&self, c: char) -> (b: bool)
        ensures
            b == self@.contains(c),
            b == alphabetic(c),
    {
        proof {
            use_type_invariant(self);
        }
        finds_alone(&self.class, c)
    }

    /// Executable form of [`is_letter`]. ASCII is decided on the spot;
    /// only a character beyond it is looked up in the tables.
    pub fn letter(&self, c: char) -> (b: bool)
        ensures
            b == is_letter(c),
    {
        let code = c as u32;
        if code < 0x80 {
            ('a' as u32 <= code && code <= 'z' as u32) || ('A' as u32 <= code && code <= 'Z' as u32)
        } else {
            self.holds(c)
        }
    }

    /// Executable form of [`is_word_char`].
    pub fn word_char(&self, c: char) -> (b: bool)
        ensures
            b == is_word_char(c),
    {
        let code = c as u32;
        c == '%' || ('0' as u32 <= code && code <= '9' as u32) || self.letter(c)
    }

    /// Executable form of [`is_slug_char`].
    pub fn slug_char(&self, c: char) -> (b: bool)
        ensures
            b == is_slug_char(c),
    {
        boundary(c) || self.word_char(c)
    }
}

/// Executable form of [`is_boundary`].
pub fn boundary(c: char) -> (b: bool)
    ensures
        b == is_boundary(c),
{
    c == ' ' || c == '-'
}

} // verus!
