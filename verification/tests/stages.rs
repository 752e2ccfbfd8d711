use wpslugify::casing::{fold_case, lower_ascii, to_chars};
use wpslugify::classes::{boundary, dash_char, sentence_punct, soft_punct, Letters};
use wpslugify::patterns::{replace_all, Pattern};
use wpslugify::purge::{strip_residue, strip_soft_punct};
use wpslugify::sanitize;
use wpslugify::scan::{index_of_char, index_of_seq, matches_at};
use wpslugify::words::{join_words, split_words};

fn chars(s: &str) -> Vec<char> {
    s.chars().collect()
}

fn text(v: Vec<char>) -> String {
    v.into_iter().collect()
}

fn rewritten(p: Pattern, s: &str) -> String {
    text(replace_all(p, &chars(s)))
}

fn end(p: Pattern, s: &str, i: usize) -> usize {
    p.find_end(&chars(s), i)
}

#[test]
fn text_is_read_character_by_character() {
    assert_eq!(to_chars(""), Vec::<char>::new());
    assert_eq!(to_chars("aé中"), vec!['a', 'é', '中']);
}

#[test]
fn folding_gives_lower_case() {
    assert_eq!(fold_case("ÀB c"), vec!['à', 'b', ' ', 'c']);
    assert_eq!(fold_case(""), Vec::<char>::new());
    assert_eq!(fold_case("ΑΣ"), vec!['α', 'ς']);
    assert_eq!(fold_case("AZ az @[`{ 09"), chars("az az @[`{ 09"));
    assert_eq!(fold_case("MiXeD"), chars("mixed"));
    assert_eq!(fold_case("\u{0130}A"), chars("i\u{0307}a"));
}

#[test]
fn ascii_capitals_are_made_small() {
    assert_eq!(lower_ascii('A'), 'a');
    assert_eq!(lower_ascii('Z'), 'z');
    assert_eq!(lower_ascii('@'), '@');
    assert_eq!(lower_ascii('['), '[');
    assert_eq!(lower_ascii('a'), 'a');
    assert_eq!(lower_ascii('É'), 'É');
    let mut code = 0u32;
    while code < 0x110000 {
        if let Some(c) = char::from_u32(code) {
            assert_eq!(lower_ascii(c), c.to_ascii_lowercase());
        }
        code += if code < 0x400 { 1 } else { 97 };
    }
}

#[test]
fn ascii_is_folded_as_every_text_is() {
    let mut state: u64 = 29;
    for _ in 0..3000 {
        let mut title = String::new();
        state = state.wrapping_mul(6364136223846793005).wrapping_add(1442695040888963407);
        let length = (state >> 33) % 12;
        for _ in 0..length {
            state = state.wrapping_mul(6364136223846793005).wrapping_add(1442695040888963407);
            title.push(char::from_u32(((state >> 33) % 128) as u32).unwrap());
        }
        let expected: Vec<char> = title.to_lowercase().chars().collect();
        assert_eq!(fold_case(&title), expected);
    }
}

#[test]
fn string_is_matched_at_a_position() {
    let t = chars("hello world");
    assert!(matches_at(&t, 0, "hello"));
    assert!(matches_at(&t, 6, "world"));
    assert!(!matches_at(&t, 1, "hello"));
    assert!(!matches_at(&t, 7, "world"));
    assert!(!matches_at(&t, 8, "rld!"));
    assert!(matches_at(&t, 11, ""));
    assert!(!matches_at(&t, 12, ""));
    assert!(!matches_at(&t, 100, "h"));
}

#[test]
fn character_is_found_from_a_position_on() {
    let t = chars("a>b>c");
    assert_eq!(index_of_char(&t, 0, '>'), 1);
    assert_eq!(index_of_char(&t, 1, '>'), 1);
    assert_eq!(index_of_char(&t, 2, '>'), 3);
    assert_eq!(index_of_char(&t, 4, '>'), 5);
    assert_eq!(index_of_char(&t, 5, '>'), 5);
    assert_eq!(index_of_char(&t, 9, '>'), 5);
    assert_eq!(index_of_char(&t, 0, 'x'), 5);
}

#[test]
fn string_is_found_from_a_position_on() {
    let t = chars("ab--ab--");
    assert_eq!(index_of_seq(&t, 0, "ab"), 0);
    assert_eq!(index_of_seq(&t, 1, "ab"), 4);
    assert_eq!(index_of_seq(&t, 5, "ab"), 8);
    assert_eq!(index_of_seq(&t, 0, "--a"), 2);
    assert_eq!(index_of_seq(&t, 0, "abc"), 8);
    assert_eq!(index_of_seq(&t, 20, "ab"), 8);
}

#[test]
fn soft_punctuation_is_a_fixed_set() {
    let members = [
        '\u{00ad}', '\u{00a1}', '\u{00bf}', '\u{00ab}', '\u{00bb}', '\u{2039}', '\u{203a}',
        '\u{2018}', '\u{2019}', '\u{201a}', '\u{201b}', '\u{201c}', '\u{201d}', '\u{201e}',
        '\u{201f}', '\u{2022}', '\u{00a9}', '\u{00ae}', '\u{00b0}', '\u{2026}', '\u{2122}',
        '\u{00b4}', '\u{02ca}', '\u{0301}', '\u{0341}', '\u{0300}', '\u{0304}', '\u{030c}',
    ];
    for c in members.iter() {
        assert!(soft_punct(*c));
    }
    let mut count = 0;
    for code in 0u32..0x3000 {
        if let Some(c) = char::from_u32(code) {
            if soft_punct(c) {
                count += 1;
            }
        }
    }
    assert_eq!(count, 28);
}

#[test]
fn dash_characters_are_four() {
    for c in ['\u{00a0}', '\u{2013}', '\u{2014}', '-'].iter() {
        assert!(dash_char(*c));
    }
    for c in ['\u{2012}', '\u{2015}', '_', ' ', '\u{00ad}', '~'].iter() {
        assert!(!dash_char(*c));
    }
}

#[test]
fn sentence_marks_are_nine() {
    for c in ['.', '?', '!', ';', ':', '_', '@', '\r', '\n'].iter() {
        assert!(sentence_punct(*c));
    }
    let mut count = 0;
    for code in 0u32..0x3000 {
        if let Some(c) = char::from_u32(code) {
            if sentence_punct(c) {
                count += 1;
            }
        }
    }
    assert_eq!(count, 9);
}

#[test]
fn ascii_letters_are_letters() {
    let letters = Letters::new();
    for code in 0u32..0x80 {
        let c = char::from_u32(code).unwrap();
        assert_eq!(letters.letter(c), c.is_ascii_alphabetic());
    }
}

#[test]
fn letters_beyond_ascii_follow_the_unicode_tables() {
    let letters = Letters::new();
    for c in ['é', 'ß', 'ж', '中', 'ا', 'क', '\u{00aa}', '\u{02ca}', 'Σ'].iter() {
        assert!(letters.letter(*c));
    }
    for c in ['\u{00a0}', '\u{2014}', '€', '\u{0661}', '\u{00b2}', '\u{0301}', '\u{2603}', '«']
        .iter()
    {
        assert!(!letters.letter(*c));
    }
}

#[test]
fn word_characters_are_letters_digits_and_percent() {
    let letters = Letters::new();
    for c in ['a', 'Z', '0', '9', '%', 'é', '中'].iter() {
        assert!(letters.word_char(*c));
        assert!(letters.slug_char(*c));
        assert!(!boundary(*c));
    }
    for c in [' ', '-'].iter() {
        assert!(!letters.word_char(*c));
        assert!(letters.slug_char(*c));
        assert!(boundary(*c));
    }
    for c in ['<', '>', '&', ';', '.', '_', '/', '\'', '$', '\n', '\t', '\u{0661}', '€'].iter() {
        assert!(!letters.word_char(*c));
        assert!(!letters.slug_char(*c));
        assert!(!boundary(*c));
    }
}

#[test]
fn block_runs_to_its_closing_tag() {
    assert_eq!(end(Pattern::DangerousBlock, "<script>x</script>y", 0), 18);
    assert_eq!(end(Pattern::DangerousBlock, "<style>x</style>y", 0), 16);
    assert_eq!(end(Pattern::DangerousBlock, "<script src='a'>x</script>", 0), 26);
    assert_eq!(end(Pattern::DangerousBlock, "<scripty>x</script>", 0), 19);
    assert_eq!(end(Pattern::DangerousBlock, "<script>x</script></script>", 0), 18);
    assert_eq!(end(Pattern::DangerousBlock, "a<script></script>", 1), 18);
}

#[test]
fn block_needs_both_tags() {
    assert_eq!(end(Pattern::DangerousBlock, "<script>x", 0), 0);
    assert_eq!(end(Pattern::DangerousBlock, "<script x</script>", 0), 0);
    assert_eq!(end(Pattern::DangerousBlock, "<script>x</style>", 0), 0);
    assert_eq!(end(Pattern::DangerousBlock, "<style>x</script>", 0), 0);
    assert_eq!(end(Pattern::DangerousBlock, "<scrip>x</script>", 0), 0);
    assert_eq!(end(Pattern::DangerousBlock, "a<script>x</script>", 0), 0);
    assert_eq!(end(Pattern::DangerousBlock, "<script>x</script>", 1), 1);
    assert_eq!(end(Pattern::DangerousBlock, "<script>x</script>", 18), 18);
    assert_eq!(end(Pattern::DangerousBlock, "<script>x</script>", 99), 99);
}

#[test]
fn tag_runs_to_the_next_closing_bracket() {
    assert_eq!(end(Pattern::Tag, "a<b>c", 1), 4);
    assert_eq!(end(Pattern::Tag, "<>", 0), 2);
    assert_eq!(end(Pattern::Tag, "<a<b>", 0), 5);
    assert_eq!(end(Pattern::Tag, "<a\nb>", 0), 5);
    assert_eq!(end(Pattern::Tag, "a<b>c", 0), 0);
    assert_eq!(end(Pattern::Tag, "a<b", 1), 1);
    assert_eq!(end(Pattern::Tag, "a>b<", 3), 3);
    assert_eq!(end(Pattern::Tag, "<b>", 7), 7);
}

#[test]
fn soft_dashes_run_together() {
    assert_eq!(end(Pattern::SoftDashes, "--&nbsp;-x", 0), 9);
    assert_eq!(end(Pattern::SoftDashes, "-x", 0), 1);
    assert_eq!(end(Pattern::SoftDashes, "&mdash;", 0), 7);
    assert_eq!(end(Pattern::SoftDashes, "&#8212;&8211;&ndash;&#160;", 0), 26);
    assert_eq!(end(Pattern::SoftDashes, "\u{00a0}\u{2013}\u{2014}", 0), 3);
    assert_eq!(end(Pattern::SoftDashes, "x-", 0), 0);
    assert_eq!(end(Pattern::SoftDashes, "&nbsp", 0), 0);
    assert_eq!(end(Pattern::SoftDashes, "&amp;", 0), 0);
    assert_eq!(end(Pattern::SoftDashes, "-&nbsp", 0), 1);
    assert_eq!(end(Pattern::SoftDashes, "-", 1), 1);
    assert_eq!(end(Pattern::SoftDashes, "-", 5), 5);
}

#[test]
fn entity_runs_to_the_next_semicolon() {
    assert_eq!(end(Pattern::Entity, "&amp;", 0), 5);
    assert_eq!(end(Pattern::Entity, "&a;b;", 0), 3);
    assert_eq!(end(Pattern::Entity, "& b;", 0), 4);
    assert_eq!(end(Pattern::Entity, "&&;", 0), 3);
    assert_eq!(end(Pattern::Entity, "&a\nb;", 0), 5);
    assert_eq!(end(Pattern::Entity, "&;", 0), 0);
    assert_eq!(end(Pattern::Entity, "&;a;", 0), 0);
    assert_eq!(end(Pattern::Entity, "&amp", 0), 0);
    assert_eq!(end(Pattern::Entity, "&", 0), 0);
    assert_eq!(end(Pattern::Entity, "a&b;", 0), 0);
    assert_eq!(end(Pattern::Entity, "&b;", 3), 3);
    assert_eq!(end(Pattern::Entity, "&b;", 9), 9);
}

#[test]
fn sentence_marks_run_together() {
    assert_eq!(end(Pattern::SentencePunct, ".?!x", 0), 3);
    assert_eq!(end(Pattern::SentencePunct, "x.", 1), 2);
    assert_eq!(end(Pattern::SentencePunct, "\r\n", 0), 2);
    assert_eq!(end(Pattern::SentencePunct, "x.", 0), 0);
    assert_eq!(end(Pattern::SentencePunct, ".", 1), 1);
    assert_eq!(end(Pattern::SentencePunct, ".", 4), 4);
}

#[test]
fn blocks_are_deleted() {
    assert_eq!(rewritten(Pattern::DangerousBlock, "a<script>b</script>c"), "ac");
    assert_eq!(rewritten(Pattern::DangerousBlock, "a<style>b</style>c<em>d</em>"), "ac<em>d</em>");
    assert_eq!(rewritten(Pattern::DangerousBlock, "<script>a</script><style>b</style>"), "");
    assert_eq!(rewritten(Pattern::DangerousBlock, "<script>a"), "<script>a");
    assert_eq!(rewritten(Pattern::DangerousBlock, "<script><script>a</script>b</script>"), "b</script>");
    assert_eq!(rewritten(Pattern::DangerousBlock, ""), "");
}

#[test]
fn tags_are_deleted() {
    assert_eq!(rewritten(Pattern::Tag, "a<b>c</b>d"), "acd");
    assert_eq!(rewritten(Pattern::Tag, "a<b"), "a<b");
    assert_eq!(rewritten(Pattern::Tag, "a>b"), "a>b");
    assert_eq!(rewritten(Pattern::Tag, "<<>>"), ">");
    assert_eq!(rewritten(Pattern::Tag, "<a><b"), "<b");
}

#[test]
fn runs_of_soft_dashes_become_a_hyphen() {
    assert_eq!(rewritten(Pattern::SoftDashes, "a--b"), "a-b");
    assert_eq!(rewritten(Pattern::SoftDashes, "a-b"), "a-b");
    assert_eq!(rewritten(Pattern::SoftDashes, "a&nbsp;&nbsp;b"), "a-b");
    assert_eq!(rewritten(Pattern::SoftDashes, "a - b"), "a - b");
    assert_eq!(rewritten(Pattern::SoftDashes, "\u{2014}a\u{2013}"), "-a-");
    assert_eq!(rewritten(Pattern::SoftDashes, "&amp;&nbsp"), "&amp;&nbsp");
}

#[test]
fn entities_are_deleted() {
    assert_eq!(rewritten(Pattern::Entity, "a&amp;b"), "ab");
    assert_eq!(rewritten(Pattern::Entity, "a&b"), "a&b");
    assert_eq!(rewritten(Pattern::Entity, "a&;b"), "a&;b");
    assert_eq!(rewritten(Pattern::Entity, "&a;&b;c;"), "c;");
    assert_eq!(rewritten(Pattern::Entity, "x & y; z"), "x  z");
}

#[test]
fn runs_of_sentence_marks_become_a_hyphen() {
    assert_eq!(rewritten(Pattern::SentencePunct, "a.b"), "a-b");
    assert_eq!(rewritten(Pattern::SentencePunct, "a...b?!"), "a-b-");
    assert_eq!(rewritten(Pattern::SentencePunct, "a. b"), "a- b");
    assert_eq!(rewritten(Pattern::SentencePunct, "a-b"), "a-b");
    assert_eq!(rewritten(Pattern::SentencePunct, "_"), "-");
}

#[test]
fn soft_punctuation_is_purged() {
    assert_eq!(text(strip_soft_punct(&chars("\u{201c}a\u{00ad}b\u{201d}"))), "ab");
    assert_eq!(text(strip_soft_punct(&chars("plain - text."))), "plain - text.");
    assert_eq!(text(strip_soft_punct(&chars("\u{00a9}\u{00ae}"))), "");
    assert_eq!(text(strip_soft_punct(&chars(""))), "");
}

#[test]
fn residue_is_purged() {
    let letters = Letters::new();
    assert_eq!(text(strip_residue(&letters, &chars("a, b & c!"))), "a b  c");
    assert_eq!(text(strip_residue(&letters, &chars("50% - ok"))), "50% - ok");
    assert_eq!(text(strip_residue(&letters, &chars("é€中\u{0661}"))), "é中");
    assert_eq!(text(strip_residue(&letters, &chars("<>&;"))), "");
    assert_eq!(text(strip_residue(&letters, &chars("ABC xyz"))), "ABC xyz");
}

#[test]
fn steps_come_in_their_order() {
    let letters = Letters::new();
    assert_eq!(text(sanitize(&letters, &chars("a <b>c</b>. d"))), "a c- d");
    assert_eq!(text(sanitize(&letters, &chars("x&nbsp;-&mdash;y"))), "x-y");
    assert_eq!(text(sanitize(&letters, &chars("<script>&nbsp;</script>"))), "");
    assert_eq!(text(sanitize(&letters, &chars("&\u{00ad}nbsp;"))), "-");
    assert_eq!(text(sanitize(&letters, &chars("&<b>amp;x"))), "x");
    assert_eq!(text(sanitize(&letters, &chars("<\u{00ad}b>"))), "");
    assert_eq!(text(sanitize(&letters, &chars("a.-.b"))), "a---b");
    assert_eq!(text(sanitize(&letters, &chars(""))), "");
}

#[test]
fn text_is_cut_at_spaces_and_hyphens() {
    let words = split_words(&chars("  one-two  three- "));
    assert_eq!(words, vec!["one".to_string(), "two".to_string(), "three".to_string()]);
    assert_eq!(split_words(&chars("")), Vec::<String>::new());
    assert_eq!(split_words(&chars(" - - ")), Vec::<String>::new());
    assert_eq!(split_words(&chars("single")), vec!["single".to_string()]);
    assert_eq!(split_words(&chars("a.b c")), vec!["a.b".to_string(), "c".to_string()]);
}

#[test]
fn words_are_joined_by_hyphens() {
    let words = vec!["one".to_string(), "two".to_string(), "three".to_string()];
    assert_eq!(join_words(&words), "one-two-three");
    assert_eq!(join_words(&vec!["one".to_string()]), "one");
    assert_eq!(join_words(&Vec::<String>::new()), "");
    assert_eq!(join_words(&vec!["".to_string(), "".to_string()]), "-");
}
