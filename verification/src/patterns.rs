//! The patterns that the sanitizer rewrites, and the rewriting itself:
//! a text is read from left to right, and each match of a pattern, taken
//! at the first position where one starts, gives way to a replacement.

use crate::classes::{dash_char, is_dash_char, is_sentence_punct, sentence_punct};
use crate::scan::{
    all_chars, find_char, find_seq, has_at, index_of_char_after, index_of_seq_after,
    lemma_find_char, lemma_find_char_behind, lemma_find_char_is, lemma_find_seq,
    lemma_find_seq_behind, lemma_find_seq_is, lemma_has_at_behind, matches_at, Found,
};
use vstd::prelude::*;

verus! {

/// A shape of text that is deleted or turned into a hyphen.
#[derive(Clone, Copy, Debug)]
pub enum Pattern {
    /// A `script` or `style` element: the opening tag with whatever
    /// attributes it has, the content, and the first closing tag after
    /// it.
    DangerousBlock,
    /// `<`, any characters but `>`, and `>`.
    Tag,
    /// One or more soft dashes in a row: hyphens, no-break spaces, en
    /// and em dashes, and the entities that spell them.
    SoftDashes,
    /// An entity reference: `&`, one or more characters other than `;`,
    /// and `;`.
    Entity,
    /// One or more sentence marks in a row.
    SentencePunct,
}

/// Where the element that `open` starts at `i` ends, one past its closing
/// tag `close`: `open` stands at `i`, the opening tag runs to the next
/// `>`, and the content to the first `close` after that. `i` where no
/// such element starts at `i`.
pub open spec fn element_end(s: Seq<char>, i: int, open: Seq<char>, close: Seq<char>) -> int {
    if has_at(s, i, open) {
        let gt = find_char(s, i + open.len(), '>');
        if gt < s.len() {
            let at = find_seq(s, gt + 1, close);
            if at < s.len() {
                at + close.len()
            } else {
                i
            }
        } else {
            i
        }
    } else {
        i
    }
}

/// Where the `script` or `style` element that starts at `i` ends, or
/// `i`.
pub open spec fn block_end(s: Seq<char>, i: int) -> int {
    let e = element_end(s, i, "<script"@, "</script>"@);
    if e > i {
        e
    } else {
        element_end(s, i, "<style"@, "</style>"@)
    }
}

/// Where the tag that starts at `i` ends, or `i`.
pub open spec fn tag_end(s: Seq<char>, i: int) -> int {
    if 0 <= i < s.len() && s[i] == '<' {
        let gt = find_char(s, i + 1, '>');
        if gt < s.len() {
            gt + 1
        } else {
            i
        }
    } else {
        i
    }
}

/// Where the soft dash that starts at `i` ends, or `i`: one of the dash
/// characters, or one of six entity spellings.
pub open spec fn dash_item_end(s: Seq<char>, i: int) -> int {
    if 0 <= i < s.len() && is_dash_char(s[i]) {
        i + 1
    } else if has_at(s, i, "&nbsp;"@) {
        i + "&nbsp;"@.len()
    } else if has_at(s, i, "&#160;"@) {
        i + "&#160;"@.len()
    } else if has_at(s, i, "&ndash;"@) {
        i + "&ndash;"@.len()
    } else if has_at(s, i, "&8211;"@) {
        i + "&8211;"@.len()
    } else if has_at(s, i, "&mdash;"@) {
        i + "&mdash;"@.len()
    } else if has_at(s, i, "&#8212;"@) {
        i + "&#8212;"@.len()
    } else {
        i
    }
}

/// Where the run of soft dashes that starts at `i` ends, or `i`.
pub open spec fn dash_run_end(s: Seq<char>, i: int) -> int
    decreases s.len() - i,
{
    let e = dash_item_end(s, i);
    if i < e <= s.len() {
        dash_run_end(s, e)
    } else {
        i
    }
}

/// Where the entity reference that starts at `i` ends, or `i`.
pub open spec fn entity_end(s: Seq<char>, i: int) -> int {
    if 0 <= i && i + 1 < s.len() && s[i] == '&' && s[i + 1] != ';' {
        let semi = find_char(s, i + 2, ';');
        if semi < s.len() {
            semi + 1
        } else {
            i
        }
    } else {
        i
    }
}

/// Where the run of sentence marks that starts at `i` ends, or `i`.
pub open spec fn sentence_run_end(s: Seq<char>, i: int) -> int
    decreases s.len() - i,
{
    if 0 <= i < s.len() && is_sentence_punct(s[i]) {
        sentence_run_end(s, i + 1)
    } else {
        i
    }
}

impl Pattern {
    /// Where the match of this pattern that starts at `i` ends, one past
    /// its last character; `i` where no match starts at `i`.
    pub open spec fn match_end(self, s: Seq<char>, i: int) -> int {
        match self {
            Pattern::DangerousBlock => block_end(s, i),
            Pattern::Tag => tag_end(s, i),
            Pattern::SoftDashes => dash_run_end(s, i),
            Pattern::Entity => entity_end(s, i),
            Pattern::SentencePunct => sentence_run_end(s, i),
        }
    }

    /// Whether a match of this pattern starts at `i`.
    pub open spec fn starts_at(self, s: Seq<char>, i: int) -> bool {
        i < self.match_end(s, i) <= s.len()
    }

    /// What takes the place of a match: a hyphen for soft dashes and
    /// sentence marks, nothing for the rest.
    pub open spec fn replacement(self) -> Seq<char> {
        match self {
            Pattern::SoftDashes | Pattern::SentencePunct => seq!['-'],
            _ => Seq::empty(),
        }
    }
}

/// The text `s` from `i` on with each match of `p` replaced: where a
/// match starts at `i` the replacement stands for it and reading goes on
/// behind the match; elsewhere the character at `i` stays.
pub open spec fn replaced_from(p: Pattern, s: Seq<char>, i: int) -> Seq<char>
    decreases s.len() - i,
{
    if i < 0 || i >= s.len() {
        Seq::empty()
    } else {
        if p.starts_at(s, i) {
            p.replacement() + replaced_from(p, s, p.match_end(s, i))
        } else {
            seq![s[i]] + replaced_from(p, s, i + 1)
        }
    }
}

/// The text `s` with each match of `p` replaced.
pub open spec fn replaced(p: Pattern, s: Seq<char>) -> Seq<char> {
    replaced_from(p, s, 0)
}

/// A match ends no earlier than it starts and no later than the text.
pub proof fn lemma_match_end_bounds(p: Pattern, s: Seq<char>, i: int)
    requires
        0 <= i <= s.len(),
    ensures
        i <= p.match_end(s, i) <= s.len(),
    decreases s.len() - i,
{
    match p {
        Pattern::DangerousBlock => {
            lemma_element_end_bounds(s, i, "<script"@, "</script>"@);
            lemma_element_end_bounds(s, i, "<style"@, "</style>"@);
        },
        Pattern::Tag => {
            if i < s.len() {
                lemma_find_char(s, i + 1, '>');
            }
        },
        Pattern::SoftDashes => {
            let e = dash_item_end(s, i);
            if i < e <= s.len() {
                lemma_match_end_bounds(p, s, e);
            }
        },
        Pattern::Entity => {
            if i + 1 < s.len() {
                lemma_find_char(s, i + 2, ';');
            }
        },
        Pattern::SentencePunct => {
            if i < s.len() && is_sentence_punct(s[i]) {
                lemma_match_end_bounds(p, s, i + 1);
            }
        },
    }
}

/// An element ends no earlier than it starts and no later than the text.
pub proof fn lemma_element_end_bounds(s: Seq<char>, i: int, open: Seq<char>, close: Seq<char>)
    requires
        0 <= i <= s.len(),
    ensures
        i <= element_end(s, i, open, close) <= s.len(),
{
    if has_at(s, i, open) {
        lemma_find_char(s, i + open.len(), '>');
        let gt = find_char(s, i + open.len(), '>');
        if gt < s.len() {
            lemma_find_seq(s, gt + 1, close);
        }
    }
}

/// A soft dash starts with a dash character or with `&`; at a dash
/// character it is that character alone.
pub proof fn lemma_dash_item(s: Seq<char>, i: int)
    ensures
        dash_item_end(s, i) != i ==> 0 <= i < s.len() && (is_dash_char(s[i]) || s[i] == '&'),
        0 <= i < s.len() && is_dash_char(s[i]) ==> dash_item_end(s, i) == i + 1,
        i <= dash_item_end(s, i),
{
    reveal_strlit("&nbsp;");
    reveal_strlit("&#160;");
    reveal_strlit("&ndash;");
    reveal_strlit("&8211;");
    reveal_strlit("&mdash;");
    reveal_strlit("&#8212;");
    if dash_item_end(s, i) != i && !(0 <= i < s.len() && is_dash_char(s[i])) {
        assert("&nbsp;"@[0] == '&');
        assert("&#160;"@[0] == '&');
        assert("&ndash;"@[0] == '&');
        assert("&8211;"@[0] == '&');
        assert("&mdash;"@[0] == '&');
        assert("&#8212;"@[0] == '&');
        assert(s[i + 0] == '&');
    }
}

/// A run of soft dashes starts at every dash character.
pub proof fn lemma_dash_char_starts_run(s: Seq<char>, i: int)
    requires
        0 <= i < s.len(),
        is_dash_char(s[i]),
    ensures
        Pattern::SoftDashes.starts_at(s, i),
{
    lemma_dash_item(s, i);
    lemma_match_end_bounds(Pattern::SoftDashes, s, i + 1);
}

/// Each character of a rewritten text is one of the replacement or one
/// of the text at which no match starts: whatever test all of those
/// pass, all of the result passes.
pub proof fn lemma_replaced_chars(p: Pattern, s: Seq<char>, i: int, keep: spec_fn(char) -> bool)
    requires
        0 <= i <= s.len(),
        all_chars(p.replacement(), keep),
        forall|k: int| i <= k < s.len() && !p.starts_at(s, k) ==> keep(#[trigger] s[k]),
    ensures
        all_chars(replaced_from(p, s, i), keep),
    decreases s.len() - i,
{
    if i < s.len() {
        let out = replaced_from(p, s, i);
        if p.starts_at(s, i) {
            let e = p.match_end(s, i);
            lemma_replaced_chars(p, s, e, keep);
            let rest = replaced_from(p, s, e);
            let rep = p.replacement();
            assert forall|j: int| 0 <= j < out.len() implies keep(#[trigger] out[j]) by {
                if j < rep.len() {
                    assert(out[j] == rep[j]);
                } else {
                    assert(out[j] == rest[j - rep.len()]);
                }
            }
        } else {
            lemma_replaced_chars(p, s, i + 1, keep);
            let rest = replaced_from(p, s, i + 1);
            assert forall|j: int| 0 <= j < out.len() implies keep(#[trigger] out[j]) by {
                if j == 0 {
                    assert(out[0] == s[i]);
                } else {
                    assert(out[j] == rest[j - 1]);
                }
            }
        }
    }
}

/// Rewriting changes nothing in a text in which every match is the
/// replacement already.
pub proof fn lemma_replaced_same(p: Pattern, s: Seq<char>, i: int)
    requires
        0 <= i <= s.len(),
        forall|k: int|
            i <= k < s.len() && #[trigger] p.starts_at(s, k) ==> s.subrange(k, p.match_end(s, k))
                == p.replacement(),
    ensures
        replaced_from(p, s, i) == s.subrange(i, s.len() as int),
    decreases s.len() - i,
{
    if i < s.len() {
        if p.starts_at(s, i) {
            let e = p.match_end(s, i);
            lemma_replaced_same(p, s, e);
            assert(s.subrange(i, e) + s.subrange(e, s.len() as int) =~= s.subrange(
                i,
                s.len() as int,
            ));
        } else {
            lemma_replaced_same(p, s, i + 1);
            assert(seq![s[i]] + s.subrange(i + 1, s.len() as int) =~= s.subrange(
                i,
                s.len() as int,
            ));
        }
    } else {
        assert(s.subrange(i, s.len() as int) =~= Seq::<char>::empty());
    }
}

/// Where an element ends does not depend on what stands before the
/// text, but for the shift.
pub proof fn lemma_element_end_behind(
    pre: Seq<char>,
    s: Seq<char>,
    i: int,
    open: Seq<char>,
    close: Seq<char>,
)
    requires
        0 <= i <= s.len(),
    ensures
        element_end(pre + s, pre.len() + i, open, close) == pre.len() + element_end(
            s,
            i,
            open,
            close,
        ),
{
    lemma_has_at_behind(pre, s, i, open);
    if has_at(s, i, open) {
        lemma_find_char_behind(pre, s, i + open.len(), '>');
        lemma_find_char(s, i + open.len(), '>');
        let gt = find_char(s, i + open.len(), '>');
        if gt < s.len() {
            lemma_find_seq_behind(pre, s, gt + 1, close);
        }
    }
}

/// What is left of a text behind a position, once its `script` and
/// `style` elements are gone, does not depend on what stands before the
/// text.
pub proof fn lemma_blocks_behind(pre: Seq<char>, s: Seq<char>, i: int)
    requires
        0 <= i <= s.len(),
    ensures
        replaced_from(Pattern::DangerousBlock, pre + s, pre.len() + i) == replaced_from(
            Pattern::DangerousBlock,
            s,
            i,
        ),
    decreases s.len() - i,
{
    let p = Pattern::DangerousBlock;
    if i < s.len() {
        lemma_element_end_behind(pre, s, i, "<script"@, "</script>"@);
        lemma_element_end_behind(pre, s, i, "<style"@, "</style>"@);
        lemma_match_end_bounds(p, s, i);
        assert((pre + s)[pre.len() + i] == s[i]);
        if p.starts_at(s, i) {
            lemma_blocks_behind(pre, s, p.match_end(s, i));
        } else {
            lemma_blocks_behind(pre, s, i + 1);
        }
    }
}

/// Whether one of the two opening tags, of a `script` or of a `style`
/// element, starts at `k`.
pub open spec fn opens_block(s: Seq<char>, k: int) -> bool {
    has_at(s, k, "<script"@) || has_at(s, k, "<style"@)
}

/// No opening tag starts where no `<` stands.
pub proof fn lemma_no_bracket_no_block(s: Seq<char>, k: int)
    requires
        0 <= k < s.len(),
        s[k] != '<',
    ensures
        !opens_block(s, k),
{
    reveal_strlit("<script");
    reveal_strlit("<style");
    assert("<script"@[0] == '<');
    assert("<style"@[0] == '<');
    assert(s[k + 0] != '<');
}

/// A stretch in which no opening tag starts holds no `script` or `style`
/// element and stays as it is.
pub proof fn lemma_blocks_skip_plain(s: Seq<char>, i: int, to: int)
    requires
        0 <= i <= to <= s.len(),
        forall|k: int| i <= k < to ==> !opens_block(s, k),
    ensures
        replaced_from(Pattern::DangerousBlock, s, i) == s.subrange(i, to) + replaced_from(
            Pattern::DangerousBlock,
            s,
            to,
        ),
    decreases to - i,
{
    let p = Pattern::DangerousBlock;
    if i < to {
        assert(!opens_block(s, i));
        assert(!p.starts_at(s, i));
        lemma_blocks_skip_plain(s, i + 1, to);
        assert(seq![s[i]] + (s.subrange(i + 1, to) + replaced_from(p, s, to)) =~= s.subrange(i, to)
            + replaced_from(p, s, to));
    } else {
        assert(s.subrange(i, to) + replaced_from(p, s, to) =~= replaced_from(p, s, to));
    }
}

/// An element whose opening tag holds no `>` but the last, and whose
/// content holds no closing tag, ends with the closing tag that follows
/// the content.
pub proof fn lemma_element_spans(
    before: Seq<char>,
    open: Seq<char>,
    attributes: Seq<char>,
    content: Seq<char>,
    close: Seq<char>,
    after: Seq<char>,
)
    requires
        open.len() > 0,
        close.len() > 0,
        forall|j: int| 0 <= j < attributes.len() ==> attributes[j] != '>',
        forall|k: int| 0 <= k < content.len() ==> !has_at(content + close, k, close),
    ensures
        element_end(
            before + open + attributes + seq!['>'] + content + close + after,
            before.len() as int,
            open,
            close,
        ) == before.len() + open.len() + attributes.len() + 1 + content.len() + close.len(),
{
    let s = before + open + attributes + seq!['>'] + content + close + after;
    let at = before.len() as int;
    let gt = at + open.len() + attributes.len();
    let end = gt + 1 + content.len();
    assert forall|k: int| 0 <= k < open.len() implies s[at + k] == #[trigger] open[k] by {}
    assert(has_at(s, at, open));
    assert(s[gt] == '>');
    assert forall|k: int| at + open.len() <= k < gt implies s[k] != '>' by {
        assert(s[k] == attributes[k - at - open.len()]);
    }
    lemma_find_char_is(s, at + open.len(), '>', gt);
    assert forall|k: int| 0 <= k < close.len() implies s[end + k] == #[trigger] close[k] by {}
    assert(has_at(s, end, close));
    assert forall|k: int| gt + 1 <= k < end implies !has_at(s, k, close) by {
        if has_at(s, k, close) {
            let inner = content + close;
            let m = k - gt - 1;
            assert forall|j: int| 0 <= j < close.len() implies inner[m + j] == #[trigger] close[j] by {
                assert(s[k + j] == close[j]);
                assert(s[k + j] == inner[m + j]);
            }
            assert(has_at(inner, m, close));
        }
    }
    lemma_find_seq_is(s, gt + 1, close, end);
}

/// What the searches of a reading have found so far: for the `>` that
/// ends a tag, for the `;` that ends an entity, and for the closing tags
/// of the two elements.
#[derive(Clone, Copy, Debug)]
pub(crate) struct Searches {
    pub(crate) gt: Found,
    pub(crate) semicolon: Found,
    pub(crate) script_close: Found,
    pub(crate) style_close: Found,
}

impl Searches {
    /// Whether all that is remembered is true of the text `s`.
    pub(crate) open spec fn of(self, s: Seq<char>) -> bool {
        &&& self.gt.of_char(s, '>')
        &&& self.semicolon.of_char(s, ';')
        &&& self.script_close.of_seq(s, "</script>"@)
        &&& self.style_close.of_seq(s, "</style>"@)
    }

    /// Searches that have found nothing yet, true of every text.
    pub(crate) fn new() -> (known: Searches)
        ensures
            forall|s: Seq<char>| known.of(s),
    {
        Searches {
            gt: Found::nothing(),
            semicolon: Found::nothing(),
            script_close: Found::nothing(),
            style_close: Found::nothing(),
        }
    }
}

/// Executable form of [`element_end`]. Takes what is known of the
/// searches for `>` and for `close`, and returns with the end what is
/// known of them now.
fn element_end_at(
    text: &Vec<char>,
    i: usize,
    open: &str,
    close: &str,
    gt_known: Found,
    close_known: Found,
) -> (r: (usize, Found, Found))
    requires
        i <= text.len(),
        gt_known.of_char(text@, '>'),
        close_known.of_seq(text@, close@),
    ensures
        r.0 == element_end(text@, i as int, open@, close@),
        i <= r.0 <= text.len(),
        r.1.of_char(text@, '>'),
        r.2.of_seq(text@, close@),
{
    proof {
        lemma_element_end_bounds(text@, i as int, open@, close@);
    }
    if !matches_at(text, i, open) {
        return (i, gt_known, close_known);
    }
    let (gt, gt_now) = index_of_char_after(text, i + open.unicode_len(), '>', gt_known);
    if gt >= text.len() {
        return (i, gt_now, close_known);
    }
    let (at, close_now) = index_of_seq_after(text, gt + 1, close, close_known);
    if at >= text.len() {
        return (i, gt_now, close_now);
    }
    (at + close.unicode_len(), gt_now, close_now)
}

/// Executable form of [`dash_item_end`].
fn dash_item_end_at(text: &Vec<char>, i: usize) -> (e: usize)
    requires
        i <= text.len(),
    ensures
        e == dash_item_end(text@, i as int),
        i <= e,
{
    if i < text.len() && dash_char(text[i]) {
        i + 1
    } else if matches_at(text, i, "&nbsp;") {
        i + "&nbsp;".unicode_len()
    } else if matches_at(text, i, "&#160;") {
        i + "&#160;".unicode_len()
    } else if matches_at(text, i, "&ndash;") {
        i + "&ndash;".unicode_len()
    } else if matches_at(text, i, "&8211;") {
        i + "&8211;".unicode_len()
    } else if matches_at(text, i, "&mdash;") {
        i + "&mdash;".unicode_len()
    } else if matches_at(text, i, "&#8212;") {
        i + "&#8212;".unicode_len()
    } else {
        i
    }
}

impl Pattern {
    /// Finds where the match of this pattern that starts at `i` ends.
    /// Returns `i` where none starts there, and for an `i` beyond the
    /// text.
    pub fn find_end(self, text: &Vec<char>, i: usize) -> (e: usize)
        ensures
            e == self.match_end(text@, i as int),
            i <= e,
            e <= text.len() || e == i,
    {
        let (e, _) = self.find_end_after(text, i, Searches::new());
        e
    }

    /// Finds where the match of this pattern that starts at `i` ends, as
    /// [`Pattern::find_end`] does, and reads nothing again where `known`
    /// has the answer. Returns the end and what is known now.
    pub(crate) fn find_end_after(self, text: &Vec<char>, i: usize, known: Searches) -> (r: (
        usize,
        Searches,
    ))
        requires
            known.of(text@),
        ensures
            r.0 == self.match_end(text@, i as int),
            i <= r.0,
            r.0 <= text.len() || r.0 == i,
            r.1.of(text@),
    {
        if i >= text.len() {
            proof {
                reveal_strlit("<script");
                reveal_strlit("<style");
                reveal_strlit("&nbsp;");
                reveal_strlit("&#160;");
                reveal_strlit("&ndash;");
                reveal_strlit("&8211;");
                reveal_strlit("&mdash;");
                reveal_strlit("&#8212;");
            }
            return (i, known);
        }
        proof {
            lemma_match_end_bounds(self, text@, i as int);
        }
        match self {
            Pattern::DangerousBlock => {
                let (e, gt, script_close) = element_end_at(
                    text,
                    i,
                    "<script",
                    "</script>",
                    known.gt,
                    known.script_close,
                );
                if e > i {
                    (e, Searches { gt, script_close, ..known })
                } else {
                    let (e, gt, style_close) = element_end_at(
                        text,
                        i,
                        "<style",
                        "</style>",
                        gt,
                        known.style_close,
                    );
                    (e, Searches { gt, script_close, style_close, ..known })
                }
            },
            Pattern::Tag => {
                if text[i] != '<' {
                    return (i, known);
                }
                let (gt, gt_now) = index_of_char_after(text, i + 1, '>', known.gt);
                let now = Searches { gt: gt_now, ..known };
                if gt < text.len() {
                    (gt + 1, now)
                } else {
                    (i, now)
                }
            },
            Pattern::SoftDashes => {
                let mut j: usize = i;
                loop
                    invariant
                        i <= j <= text.len(),
                        dash_run_end(text@, j as int) == dash_run_end(text@, i as int),
                    ensures
                        j == dash_run_end(text@, i as int),
                    decreases text.len() - j,
                {
                    let e = dash_item_end_at(text, j);
                    if e > j && e <= text.len() {
                        j = e;
                    } else {
                        break ;
                    }
                }
                (j, known)
            },
            Pattern::Entity => {
                if text[i] != '&' || i + 1 >= text.len() || text[i + 1] == ';' {
                    return (i, known);
                }
                let (semi, semi_now) = index_of_char_after(text, i + 2, ';', known.semicolon);
                let now = Searches { semicolon: semi_now, ..known };
                if semi < text.len() {
                    (semi + 1, now)
                } else {
                    (i, now)
                }
            },
            Pattern::SentencePunct => {
                let mut j: usize = i;
                while j < text.len() && sentence_punct(text[j])
                    invariant
                        i <= j <= text.len(),
                        sentence_run_end(text@, j as int) == sentence_run_end(text@, i as int),
                    decreases text.len() - j,
                {
                    j += 1;
                }
                (j, known)
            },
        }
    }

    /// Appends the replacement of this pattern to `out`.
    pub fn push_replacement(self, out: &mut Vec<char>)
        ensures
            final(out)@ == old(out)@ + self.replacement(),
    {
        match self {
            Pattern::SoftDashes | Pattern::SentencePunct => {
                out.push('-');
                assert(out@ =~= old(out)@ + seq!['-']);
            },
            _ => {
                assert(out@ =~= old(out)@ + Seq::<char>::empty());
            },
        }
    }
}

/// Replaces each match of `pattern` in `text`, reading from left to
/// right. What one search for the end of a match has found serves the
/// searches after it, so that the text is read a fixed number of times
/// however many openings it holds that nothing closes.
pub fn replace_all(pattern: Pattern, text: &Vec<char>) -> (out: Vec<char>)
    ensures
        out@ == replaced(pattern, text@),
{
    let mut out: Vec<char> = Vec::new();
    let mut i: usize = 0;
    let mut known = Searches::new();
    assert(out@ + replaced_from(pattern, text@, 0) =~= replaced(pattern, text@));
    while i < text.len()
        invariant
            i <= text.len(),
            known.of(text@),
            out@ + replaced_from(pattern, text@, i as int) == replaced(pattern, text@),
        decreases text.len() - i,
    {
        let ghost before = out@;
        let (e, now) = pattern.find_end_after(text, i, known);
        known = now;
        if e > i {
            pattern.push_replacement(&mut out);
            assert(out@ + replaced_from(pattern, text@, e as int) =~= before + replaced_from(
                pattern,
                text@,
                i as int,
            ));
            i = e;
        } else {
            out.push(text[i]);
            assert(out@ + replaced_from(pattern, text@, i + 1) =~= before + replaced_from(
                pattern,
                text@,
                i as int,
            ));
            i += 1;
        }
    }
    assert(out@ + replaced_from(pattern, text@, i as int) =~= out@);
    out
}

} // verus!
