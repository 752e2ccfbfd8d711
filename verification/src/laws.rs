//! What holds of every slug and of every list of words that the
//! sanitizer gives, stated over the functions that define them and
//! proved.

use crate::casing::{all_lowered, all_raised, case_folded, is_ascii_capital};
use vstd::utf8::is_ascii_chars;
use crate::classes::{is_boundary, is_dash_char, is_digit, is_token_char, is_word_char};
use crate::patterns::{
    dash_run_end, lemma_blocks_behind, lemma_blocks_skip_plain, lemma_dash_char_starts_run,
    lemma_dash_item, lemma_element_spans, lemma_no_bracket_no_block, lemma_replaced_chars,
    lemma_replaced_same, opens_block, replaced, replaced_from, Pattern,
};
use crate::purge::{
    firm, lasting, lemma_filter_chars, lemma_filter_same, without_residue, without_soft_punct,
};
use crate::scan::{all_chars, has_at};
use crate::words::{
    all_words, inner, lemma_hyphenated_shape, lemma_join_of_split, lemma_words_chars,
    words,
};
use crate::{is_slug, is_token, sanitized, slug_of, slug_of_folded, tokens_of};
use vstd::prelude::*;

verus! {

/// The test that a character passes if it is a hyphen or stands in
/// `source`.
pub open spec fn hyphen_or_from(source: Seq<char>) -> spec_fn(char) -> bool {
    |c: char| c == '-' || source.contains(c)
}

/// The test that a character passes unless it is a dash character other
/// than the hyphen.
pub open spec fn undashed() -> spec_fn(char) -> bool {
    |c: char| c == '-' || !is_dash_char(c)
}

/// The test that a character passes if it is a word boundary or a token
/// character.
pub open spec fn settled() -> spec_fn(char) -> bool {
    |c: char| is_boundary(c) || is_token_char(c)
}

/// The test that a character passes if it is a token character.
pub open spec fn token_chars() -> spec_fn(char) -> bool {
    |c: char| is_token_char(c)
}

/// A test that the hyphen passes, and all of a text, all of the
/// rewritten text passes too.
proof fn lemma_step_keeps(p: Pattern, s: Seq<char>, keep: spec_fn(char) -> bool)
    requires
        all_chars(s, keep),
        keep('-'),
    ensures
        all_chars(replaced(p, s), keep),
{
    assert forall|j: int| 0 <= j < p.replacement().len() implies keep(
        #[trigger] p.replacement()[j],
    ) by {
        assert(p.replacement()[j] == '-');
    }
    lemma_replaced_chars(p, s, 0, keep);
}

/// Each character of a sanitized text is a hyphen or a character of the
/// text that was sanitized, and is a word boundary or a token character.
pub proof fn lemma_sanitized_chars(folded: Seq<char>)
    ensures
        all_chars(sanitized(folded), hyphen_or_from(folded)),
        all_chars(sanitized(folded), settled()),
{
    let origin = hyphen_or_from(folded);
    let no_blocks = replaced(Pattern::DangerousBlock, folded);
    let no_tags = replaced(Pattern::Tag, no_blocks);
    let no_soft_punct = without_soft_punct(no_tags);
    let dashed = replaced(Pattern::SoftDashes, no_soft_punct);
    let no_entities = replaced(Pattern::Entity, dashed);
    let separated = replaced(Pattern::SentencePunct, no_entities);
    let clean = without_residue(separated);

    assert(all_chars(folded, origin));
    lemma_step_keeps(Pattern::DangerousBlock, folded, origin);
    lemma_step_keeps(Pattern::Tag, no_blocks, origin);
    lemma_filter_chars(no_tags, firm(), origin);
    lemma_step_keeps(Pattern::SoftDashes, no_soft_punct, origin);
    lemma_step_keeps(Pattern::Entity, dashed, origin);
    lemma_step_keeps(Pattern::SentencePunct, no_entities, origin);
    lemma_filter_chars(separated, lasting(), origin);

    lemma_step_keeps(Pattern::SoftDashes, no_soft_punct, firm());
    lemma_step_keeps(Pattern::Entity, dashed, firm());
    lemma_step_keeps(Pattern::SentencePunct, no_entities, firm());
    lemma_filter_chars(separated, lasting(), firm());

    assert forall|k: int|
        0 <= k < no_soft_punct.len() && !Pattern::SoftDashes.starts_at(
            no_soft_punct,
            k,
        ) implies undashed()(#[trigger] no_soft_punct[k]) by {
        if is_dash_char(no_soft_punct[k]) {
            lemma_dash_char_starts_run(no_soft_punct, k);
        }
    }
    assert(all_chars(Pattern::SoftDashes.replacement(), undashed()));
    lemma_replaced_chars(Pattern::SoftDashes, no_soft_punct, 0, undashed());
    lemma_step_keeps(Pattern::Entity, dashed, undashed());
    lemma_step_keeps(Pattern::SentencePunct, no_entities, undashed());
    lemma_filter_chars(separated, lasting(), undashed());

    assert forall|j: int| 0 <= j < clean.len() implies settled()(#[trigger] clean[j]) by {
        assert(firm()(clean[j]));
        assert(undashed()(clean[j]));
        assert(lasting()(clean[j]));
    }
}

/// Each word of a sanitized text is a token, and holds only characters
/// of the text that was sanitized.
pub proof fn lemma_words_of_sanitized(folded: Seq<char>)
    ensures
        forall|n: int|
            0 <= n < words(sanitized(folded)).len() ==> is_token(
                #[trigger] words(sanitized(folded))[n],
            ),
        forall|n: int|
            0 <= n < words(sanitized(folded)).len() ==> all_chars(
                #[trigger] words(sanitized(folded))[n],
                hyphen_or_from(folded),
            ),
        all_words(words(sanitized(folded)), token_chars()),
        all_words(words(sanitized(folded)), inner()),
{
    let clean = sanitized(folded);
    let ws = words(clean);
    lemma_sanitized_chars(folded);
    lemma_words_chars(clean, 0, settled());
    lemma_words_chars(clean, 0, hyphen_or_from(folded));
    assert forall|n: int| 0 <= n < ws.len() implies is_token(#[trigger] ws[n]) && all_chars(
        ws[n],
        token_chars(),
    ) by {
        let w = ws[n];
        assert(all_chars(w, settled()) && all_chars(w, inner()));
        assert forall|j: int| 0 <= j < w.len() implies is_token_char(#[trigger] w[j]) by {
            assert(settled()(w[j]) && inner()(w[j]));
        }
    }
}

/// The words of every title are tokens: none is empty, and each holds
/// only word characters that are neither soft punctuation nor dashes.
/// Each of their characters stands in the lowercase form of the title.
pub proof fn lemma_tokens_are_tokens(title: Seq<char>)
    ensures
        forall|n: int| 0 <= n < tokens_of(title).len() ==> is_token(#[trigger] tokens_of(title)[n]),
        forall|n: int, j: int|
            0 <= n < tokens_of(title).len() && 0 <= j < tokens_of(title)[n].len() ==> case_folded(
                title,
            ).contains(#[trigger] tokens_of(title)[n][j]),
{
    let low = case_folded(title);
    lemma_words_of_sanitized(low);
    assert forall|n: int, j: int|
        0 <= n < tokens_of(title).len() && 0 <= j < tokens_of(title)[n].len() implies low.contains(
        #[trigger] tokens_of(title)[n][j],
    ) by {
        let w = tokens_of(title)[n];
        assert(is_token(w));
        assert(all_chars(w, hyphen_or_from(low)));
        assert(hyphen_or_from(low)(w[j]));
        assert(is_token_char(w[j]));
    }
}

/// The slug of every text in lower case is a slug: token characters and
/// hyphens, no hyphen at either end and none next to another. Each of
/// its characters but the hyphens stands in the text, and it is empty
/// only where the text has no word.
pub proof fn lemma_slug_of_folded(folded: Seq<char>)
    ensures
        is_slug(slug_of_folded(folded)),
        forall|j: int|
            0 <= j < slug_of_folded(folded).len() ==> #[trigger] slug_of_folded(folded)[j] == '-'
                || folded.contains(slug_of_folded(folded)[j]),
        words(sanitized(folded)).len() > 0 ==> slug_of_folded(folded).len() > 0,
{
    let ws = words(sanitized(folded));
    lemma_words_of_sanitized(folded);
    lemma_hyphenated_shape(ws, token_chars());
    assert(all_words(ws, hyphen_or_from(folded)));
    lemma_hyphenated_shape(ws, hyphen_or_from(folded));
}

/// Rewriting changes nothing in a slug.
proof fn lemma_slug_resists(p: Pattern, t: Seq<char>)
    requires
        is_slug(t),
    ensures
        replaced(p, t) == t,
{
    reveal_strlit("<script");
    reveal_strlit("<style");
    assert forall|k: int| 0 <= k < t.len() && #[trigger] p.starts_at(t, k) implies t.subrange(
        k,
        p.match_end(t, k),
    ) == p.replacement() by {
        assert(t[k] == '-' || is_token_char(t[k]));
        match p {
            Pattern::DangerousBlock => {
                assert("<script"@[0] == '<');
                assert("<style"@[0] == '<');
                assert(t[k + 0] != '<');
                assert(false);
            },
            Pattern::Tag => {
                assert(false);
            },
            Pattern::Entity => {
                assert(false);
            },
            Pattern::SentencePunct => {
                assert(false);
            },
            Pattern::SoftDashes => {
                lemma_dash_item(t, k);
                lemma_dash_item(t, k + 1);
                if k + 1 < t.len() {
                    assert(t[k + 1] == '-' || is_token_char(t[k + 1]));
                }
                assert(dash_run_end(t, k + 1) == k + 1);
                assert(t.subrange(k, k + 1) =~= seq!['-']);
            },
        }
    }
    lemma_replaced_same(p, t, 0);
    assert(t.subrange(0, t.len() as int) =~= t);
}

/// A slug is a fixed point of everything behind the folding to lower
/// case: sanitizing leaves it as it is, and its words joined again are
/// the slug.
pub proof fn lemma_slug_fixed(t: Seq<char>)
    requires
        is_slug(t),
    ensures
        sanitized(t) == t,
        slug_of_folded(t) == t,
{
    lemma_slug_resists(Pattern::DangerousBlock, t);
    lemma_slug_resists(Pattern::Tag, t);
    assert(all_chars(t, firm()));
    lemma_filter_same(t, firm());
    lemma_slug_resists(Pattern::SoftDashes, t);
    lemma_slug_resists(Pattern::Entity, t);
    lemma_slug_resists(Pattern::SentencePunct, t);
    assert(all_chars(t, lasting()));
    lemma_filter_same(t, lasting());
    lemma_join_of_split(t);
}

/// Behind the folding to lower case, making a slug of a slug changes
/// nothing.
pub proof fn lemma_idempotent_when_folded(folded: Seq<char>)
    ensures
        slug_of_folded(slug_of_folded(folded)) == slug_of_folded(folded),
{
    lemma_slug_of_folded(folded);
    lemma_slug_fixed(slug_of_folded(folded));
}

/// Making a slug of a slug changes nothing, where folding the slug to
/// lower case changes nothing.
pub proof fn lemma_idempotent(title: Seq<char>)
    requires
        case_folded(slug_of(title)) == slug_of(title),
    ensures
        slug_of(slug_of(title)) == slug_of(title),
{
    lemma_idempotent_when_folded(case_folded(title));
}

/// A text all in ASCII, folded, is all in ASCII, as long as it was, and
/// holds no capital letter of ASCII.
pub proof fn lemma_folded_ascii(title: Seq<char>)
    requires
        is_ascii_chars(title),
    ensures
        is_ascii_chars(case_folded(title)),
        case_folded(title).len() == title.len(),
        forall|i: int|
            0 <= i < title.len() ==> !is_ascii_capital(#[trigger] case_folded(title)[i]),
{
    let low = case_folded(title);
    assert forall|i: int| 0 <= i < low.len() implies '\0' <= #[trigger] low[i] <= '\u{7f}'
        && !is_ascii_capital(low[i]) by {
        assert('\0' <= title[i] <= '\u{7f}');
    }
}

/// The slug of a title all in ASCII holds small letters of ASCII,
/// digits, percent signs and hyphens only.
pub proof fn lemma_slug_in_ascii(title: Seq<char>)
    requires
        is_ascii_chars(title),
    ensures
        is_ascii_chars(slug_of(title)),
        forall|j: int|
            0 <= j < slug_of(title).len() ==> {
                let c = #[trigger] slug_of(title)[j];
                c == '-' || c == '%' || is_digit(c) || ('a' as u32 <= c as u32 <= 'z' as u32)
            },
{
    let low = case_folded(title);
    let slug = slug_of(title);
    lemma_folded_ascii(title);
    lemma_slug_of_folded(low);
    assert forall|j: int| 0 <= j < slug.len() implies '\0' <= #[trigger] slug[j] <= '\u{7f}'
        && !is_ascii_capital(slug[j]) by {
        if slug[j] != '-' {
            assert(low.contains(slug[j]));
            let i = choose|i: int| 0 <= i < low.len() && low[i] == slug[j];
            assert('\0' <= low[i] <= '\u{7f}');
            assert(!is_ascii_capital(low[i]));
        }
    }
    assert forall|j: int| 0 <= j < slug.len() implies {
        let c = #[trigger] slug[j];
        c == '-' || c == '%' || is_digit(c) || ('a' as u32 <= c as u32 <= 'z' as u32)
    } by {
        assert(slug[j] == '-' || is_token_char(slug[j]));
        assert('\0' <= slug[j] <= '\u{7f}');
        assert(!is_ascii_capital(slug[j]));
    }
}

/// Of a title all in ASCII, making a slug of the slug changes nothing.
pub proof fn lemma_idempotent_in_ascii(title: Seq<char>)
    requires
        is_ascii_chars(title),
    ensures
        slug_of(slug_of(title)) == slug_of(title),
{
    let slug = slug_of(title);
    lemma_slug_in_ascii(title);
    assert forall|j: int| 0 <= j < slug.len() implies !is_ascii_capital(#[trigger] slug[j]) by {
        let c = slug[j];
        assert(c == '-' || c == '%' || is_digit(c) || ('a' as u32 <= c as u32 <= 'z' as u32));
    }
    assert(case_folded(slug) =~= slug);
    lemma_idempotent(title);
}

/// Two titles with one lowercase form have the same words and the same
/// slug: the case of a title's letters leaves no trace.
pub proof fn lemma_case_leaves_no_trace(a: Seq<char>, b: Seq<char>)
    requires
        case_folded(a) == case_folded(b),
    ensures
        tokens_of(a) == tokens_of(b),
        slug_of(a) == slug_of(b),
{
}

/// A title all in ASCII has the words and the slug of the same title in
/// capital letters, and of the same title in small letters.
pub proof fn lemma_case_leaves_no_trace_in_ascii(title: Seq<char>)
    requires
        is_ascii_chars(title),
    ensures
        tokens_of(all_raised(title)) == tokens_of(title),
        slug_of(all_raised(title)) == slug_of(title),
        tokens_of(all_lowered(title)) == tokens_of(title),
        slug_of(all_lowered(title)) == slug_of(title),
{
    let up = all_raised(title);
    let low = all_lowered(title);
    assert forall|i: int| 0 <= i < title.len() implies '\0' <= #[trigger] up[i] <= '\u{7f}' && '\0'
        <= #[trigger] low[i] <= '\u{7f}' by {
        assert('\0' <= title[i] <= '\u{7f}');
    }
    assert(is_ascii_chars(up));
    assert(is_ascii_chars(low));
    assert(case_folded(up) =~= case_folded(title));
    assert(case_folded(low) =~= case_folded(title));
}

/// The empty title has no words, and its slug is empty.
pub proof fn lemma_empty_title()
    ensures
        tokens_of(Seq::<char>::empty()).len() == 0,
        slug_of(Seq::<char>::empty()).len() == 0,
{
    let title = Seq::<char>::empty();
    assert(is_ascii_chars(title));
    assert(case_folded(title) =~= title);
    lemma_no_word_chars_no_words(title);
}

/// The slug of every title is a slug: no hyphen at either end, none next
/// to another, and between the hyphens token characters only, each of
/// which stands in the lowercase form of the title.
pub proof fn lemma_slug_is_slug(title: Seq<char>)
    ensures
        is_slug(slug_of(title)),
        forall|j: int|
            0 <= j < slug_of(title).len() ==> #[trigger] slug_of(title)[j] == '-' || case_folded(
                title,
            ).contains(slug_of(title)[j]),
        tokens_of(title).len() > 0 ==> slug_of(title).len() > 0,
{
    lemma_slug_of_folded(case_folded(title));
}

/// The text that holds, between `before` and `after`, an element with
/// the opening tag `open`, the attributes `attributes`, the content
/// `content` and the closing tag `close`.
pub open spec fn with_element(
    before: Seq<char>,
    open: Seq<char>,
    attributes: Seq<char>,
    content: Seq<char>,
    close: Seq<char>,
    after: Seq<char>,
) -> Seq<char> {
    before + open + attributes + seq!['>'] + content + close + after
}

/// An element found where the reading stands is deleted whole: from its
/// start on, the first step gives what it gives for the text behind the
/// element alone.
proof fn lemma_element_is_dropped(
    before: Seq<char>,
    open: Seq<char>,
    attributes: Seq<char>,
    content: Seq<char>,
    close: Seq<char>,
    after: Seq<char>,
)
    requires
        before.len() < Pattern::DangerousBlock.match_end(
            with_element(before, open, attributes, content, close, after),
            before.len() as int,
        ),
        Pattern::DangerousBlock.match_end(
            with_element(before, open, attributes, content, close, after),
            before.len() as int,
        ) == before.len() + open.len() + attributes.len() + 1 + content.len() + close.len(),
    ensures
        replaced_from(
            Pattern::DangerousBlock,
            with_element(before, open, attributes, content, close, after),
            before.len() as int,
        ) == replaced(Pattern::DangerousBlock, after),
{
    let p = Pattern::DangerousBlock;
    let s = with_element(before, open, attributes, content, close, after);
    let element = before + open + attributes + seq!['>'] + content + close;
    assert(p.starts_at(s, before.len() as int));
    lemma_blocks_behind(element, after, 0);
    assert(replaced_from(p, s, before.len() as int) =~= replaced(p, after));
}

/// Whether an opening tag, of a `script` or of a `style` element, starts
/// in `s` before the index `n`.
pub open spec fn block_opens_before(s: Seq<char>, n: int) -> bool {
    exists|k: int| 0 <= k < n && opens_block(s, k)
}

/// No opening tag starts in a stretch without `<`, whatever follows the
/// stretch.
pub proof fn lemma_no_bracket_no_block_before(before: Seq<char>, rest: Seq<char>)
    requires
        forall|k: int| 0 <= k < before.len() ==> before[k] != '<',
    ensures
        !block_opens_before(before + rest, before.len() as int),
{
    let s = before + rest;
    assert forall|k: int| 0 <= k < before.len() implies !opens_block(s, k) by {
        assert(s[k] == before[k]);
        lemma_no_bracket_no_block(s, k);
    }
}

/// Where no opening tag starts before an element that is deleted whole,
/// neither in the text nor in the text without the element, the text is
/// sanitized as if the element were not there.
proof fn lemma_element_leaves_no_trace(
    before: Seq<char>,
    open: Seq<char>,
    attributes: Seq<char>,
    content: Seq<char>,
    close: Seq<char>,
    after: Seq<char>,
)
    requires
        !block_opens_before(
            with_element(before, open, attributes, content, close, after),
            before.len() as int,
        ),
        !block_opens_before(before + after, before.len() as int),
        replaced_from(
            Pattern::DangerousBlock,
            with_element(before, open, attributes, content, close, after),
            before.len() as int,
        ) == replaced(Pattern::DangerousBlock, after),
    ensures
        sanitized(with_element(before, open, attributes, content, close, after)) == sanitized(
            before + after,
        ),
        slug_of_folded(with_element(before, open, attributes, content, close, after))
            == slug_of_folded(before + after),
{
    let p = Pattern::DangerousBlock;
    let s = with_element(before, open, attributes, content, close, after);
    let n = before.len() as int;
    lemma_blocks_skip_plain(s, 0, n);
    assert(s.subrange(0, n) =~= before);
    assert(replaced(p, s) =~= before + replaced(p, after));

    let t = before + after;
    lemma_blocks_skip_plain(t, 0, n);
    assert(t.subrange(0, n) =~= before);
    lemma_blocks_behind(before, after, 0);
    assert(replaced(p, s) == replaced(p, t));
}

/// A `script` element found where the reading stands is deleted whole,
/// whatever stands before it: where its opening tag holds no `>` but
/// the last and its content holds no closing tag, the first step gives,
/// from the start of the element on, what it gives for the text behind
/// the element alone.
pub proof fn lemma_script_is_dropped(
    before: Seq<char>,
    attributes: Seq<char>,
    content: Seq<char>,
    after: Seq<char>,
)
    requires
        forall|j: int| 0 <= j < attributes.len() ==> attributes[j] != '>',
        forall|k: int|
            0 <= k < content.len() ==> !has_at(content + "</script>"@, k, "</script>"@),
    ensures
        replaced_from(
            Pattern::DangerousBlock,
            with_element(before, "<script"@, attributes, content, "</script>"@, after),
            before.len() as int,
        ) == replaced(Pattern::DangerousBlock, after),
{
    reveal_strlit("<script");
    reveal_strlit("</script>");
    lemma_element_spans(before, "<script"@, attributes, content, "</script>"@, after);
    lemma_element_is_dropped(before, "<script"@, attributes, content, "</script>"@, after);
}

/// A `style` element found where the reading stands is deleted whole,
/// whatever stands before it: where its opening tag holds no `>` but
/// the last and its content holds no closing tag, the first step gives,
/// from the start of the element on, what it gives for the text behind
/// the element alone.
pub proof fn lemma_style_is_dropped(
    before: Seq<char>,
    attributes: Seq<char>,
    content: Seq<char>,
    after: Seq<char>,
)
    requires
        forall|j: int| 0 <= j < attributes.len() ==> attributes[j] != '>',
        forall|k: int| 0 <= k < content.len() ==> !has_at(content + "</style>"@, k, "</style>"@),
    ensures
        replaced_from(
            Pattern::DangerousBlock,
            with_element(before, "<style"@, attributes, content, "</style>"@, after),
            before.len() as int,
        ) == replaced(Pattern::DangerousBlock, after),
{
    reveal_strlit("<script");
    reveal_strlit("<style");
    reveal_strlit("</style>");
    let s = with_element(before, "<style"@, attributes, content, "</style>"@, after);
    lemma_element_spans(before, "<style"@, attributes, content, "</style>"@, after);
    assert(s[before.len() as int + 2] == 't');
    assert("<script"@[2] == 'c');
    assert(!has_at(s, before.len() as int, "<script"@));
    lemma_element_is_dropped(before, "<style"@, attributes, content, "</style>"@, after);
}

/// A `script` element leaves no trace: where its opening tag holds no
/// `>` but the last, its content holds no closing tag, and no opening
/// tag of a `script` or `style` element starts before it, in the text or
/// in the text without the element, the text is sanitized as if the
/// element were not there, so that nothing of the content is among the
/// words. A `before` without `<` is such a text, whatever follows it.
pub proof fn lemma_script_leaves_no_trace(
    before: Seq<char>,
    attributes: Seq<char>,
    content: Seq<char>,
    after: Seq<char>,
)
    requires
        !block_opens_before(
            with_element(before, "<script"@, attributes, content, "</script>"@, after),
            before.len() as int,
        ),
        !block_opens_before(before + after, before.len() as int),
        forall|j: int| 0 <= j < attributes.len() ==> attributes[j] != '>',
        forall|k: int|
            0 <= k < content.len() ==> !has_at(content + "</script>"@, k, "</script>"@),
    ensures
        sanitized(
            with_element(before, "<script"@, attributes, content, "</script>"@, after),
        ) == sanitized(before + after),
        slug_of_folded(
            with_element(before, "<script"@, attributes, content, "</script>"@, after),
        ) == slug_of_folded(before + after),
{
    lemma_script_is_dropped(before, attributes, content, after);
    lemma_element_leaves_no_trace(before, "<script"@, attributes, content, "</script>"@, after);
}

/// A `style` element leaves no trace: where its opening tag holds no
/// `>` but the last, its content holds no closing tag, and no opening
/// tag of a `script` or `style` element starts before it, in the text or
/// in the text without the element, the text is sanitized as if the
/// element were not there, so that nothing of the content is among the
/// words. A `before` without `<` is such a text, whatever follows it.
pub proof fn lemma_style_leaves_no_trace(
    before: Seq<char>,
    attributes: Seq<char>,
    content: Seq<char>,
    after: Seq<char>,
)
    requires
        !block_opens_before(
            with_element(before, "<style"@, attributes, content, "</style>"@, after),
            before.len() as int,
        ),
        !block_opens_before(before + after, before.len() as int),
        forall|j: int| 0 <= j < attributes.len() ==> attributes[j] != '>',
        forall|k: int| 0 <= k < content.len() ==> !has_at(content + "</style>"@, k, "</style>"@),
    ensures
        sanitized(with_element(before, "<style"@, attributes, content, "</style>"@, after))
            == sanitized(before + after),
        slug_of_folded(with_element(before, "<style"@, attributes, content, "</style>"@, after))
            == slug_of_folded(before + after),
{
    lemma_style_is_dropped(before, attributes, content, after);
    lemma_element_leaves_no_trace(before, "<style"@, attributes, content, "</style>"@, after);
}

/// A text without a word character has no words, and its slug is empty.
pub proof fn lemma_no_word_chars_no_words(folded: Seq<char>)
    requires
        forall|i: int| 0 <= i < folded.len() ==> !is_word_char(#[trigger] folded[i]),
    ensures
        words(sanitized(folded)).len() == 0,
        slug_of_folded(folded).len() == 0,
{
    let ws = words(sanitized(folded));
    lemma_words_of_sanitized(folded);
    if ws.len() > 0 {
        let w = ws[0];
        assert(is_token(w));
        assert(is_token_char(w[0]));
        assert(all_chars(w, hyphen_or_from(folded)));
        assert(hyphen_or_from(folded)(w[0]));
        assert(folded.contains(w[0]));
        let i = choose|i: int| 0 <= i < folded.len() && folded[i] == w[0];
        assert(!is_word_char(folded[i]));
        assert(false);
    }
}

} // verus!
