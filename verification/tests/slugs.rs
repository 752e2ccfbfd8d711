use wpslugify::classes::Letters;
use wpslugify::{sanitize_and_split, sanitize_and_split_with, slugify, slugify_with, split_folded};

fn owned(words: &[&str]) -> Vec<String> {
    words.iter().map(|w| w.to_string()).collect()
}

#[test]
fn basic_checks() {
    let samples: [(&str, &str); 10] = [
        ("This is a test.", "this-is-a-test"),
        ("This is a <script>alert('!')</script> test", "this-is-a-test"),
        ("this is a <em>test</em>", "this-is-a-test"),
        ("        this    is --- a       <em>test</em>        ", "this-is-a-test"),
        ("Excellent!!!1!1", "excellent-1-1"),
        ("make\nit   work?", "make-it-work"),
        ("Töxic Tësticle Färm?", "töxic-tësticle-färm"),
        ("  ----You--and--_-_me", "you-and-me"),
        ("Boys & Girls & Those Elsewhere", "boys-girls-those-elsewhere"),
        ("user@example.com", "user-example-com"),
    ];
    for sample in samples.iter() {
        assert_eq!(slugify(sample.0), sample.1);
    }
}

#[test]
fn sentence_becomes_slug() {
    assert_eq!(slugify("This is a test."), "this-is-a-test");
}

#[test]
fn script_element_is_dropped_with_its_content() {
    assert_eq!(slugify("This is a <script>alert('!')</script> test"), "this-is-a-test");
}

#[test]
fn repeated_marks_give_one_hyphen() {
    assert_eq!(slugify("Excellent!!!1!1"), "excellent-1-1");
}

#[test]
fn address_is_cut_at_its_marks() {
    assert_eq!(slugify("user@example.com"), "user-example-com");
}

#[test]
fn hyphens_and_underscores_collapse() {
    assert_eq!(slugify("  ----You--and--_-_me"), "you-and-me");
}

#[test]
fn letters_beyond_ascii_stay() {
    assert_eq!(slugify("Töxic Tësticle Färm?"), "töxic-tësticle-färm");
    assert_eq!(slugify("Ünïcödé"), "ünïcödé");
    assert_eq!(slugify("中文 标题"), "中文-标题");
    assert_eq!(slugify("Ελληνικά ΚΕΦΑΛΑΙΑ"), "ελληνικά-κεφαλαια");
}

#[test]
fn words_come_in_order() {
    assert_eq!(sanitize_and_split("This is a test."), owned(&["this", "is", "a", "test"]));
    assert_eq!(sanitize_and_split("Hello, World!"), owned(&["hello", "world"]));
    assert_eq!(sanitize_and_split("one--two  three"), owned(&["one", "two", "three"]));
}

#[test]
fn nothing_gives_nothing() {
    assert_eq!(slugify(""), "");
    assert_eq!(sanitize_and_split(""), Vec::<String>::new());
}

#[test]
fn punctuation_alone_gives_nothing() {
    assert_eq!(slugify("!!!"), "");
    assert_eq!(slugify("?!.;:_@"), "");
    assert_eq!(slugify("   "), "");
    assert_eq!(slugify("---"), "");
    assert_eq!(slugify("\u{2014}\u{2013}\u{00a0}"), "");
    assert_eq!(slugify("(*&^$#)"), "");
    assert_eq!(sanitize_and_split("... --- !!!"), Vec::<String>::new());
}

#[test]
fn markup_alone_gives_nothing() {
    assert_eq!(slugify("<p></p>"), "");
    assert_eq!(slugify("<script>alert(1)</script>"), "");
    assert_eq!(slugify("<style>p { color: red }</style><br/>"), "");
    assert_eq!(sanitize_and_split("<a href=\"x\"></a>"), Vec::<String>::new());
}

#[test]
fn upper_case_is_folded() {
    assert_eq!(slugify("ABC"), "abc");
    assert_eq!(slugify("ÀÉÎ"), "àéî");
    assert_eq!(slugify("MiXeD CaSe"), "mixed-case");
    assert_eq!(sanitize_and_split("LOUD"), owned(&["loud"]));
}

#[test]
fn upper_case_tags_are_tags() {
    assert_eq!(slugify("a <SCRIPT>alert(1)</SCRIPT> b"), "a-b");
    assert_eq!(slugify("a <Style>p{}</sTyle> b"), "a-b");
    assert_eq!(slugify("<EM>loud</EM>"), "loud");
}

#[test]
fn script_content_may_hold_angle_brackets() {
    assert_eq!(slugify("before <script>alert('<')</script> after"), "before-after");
    assert_eq!(slugify("a<script>if (1 > 0) { x(\"<b>\"); }</script>b"), "ab");
}

#[test]
fn script_content_may_hold_line_breaks() {
    assert_eq!(slugify("a <script>\nalert(1);\n</script> b"), "a-b");
    assert_eq!(slugify("a <style>\np { color: red }\n</style> b"), "a-b");
}

#[test]
fn opening_tag_may_hold_attributes() {
    assert_eq!(slugify("x <script type=\"text/javascript\">y()</script> z"), "x-z");
    assert_eq!(slugify("x <style media=\"print\">p{}</style> z"), "x-z");
}

#[test]
fn block_ends_at_the_first_closing_tag() {
    assert_eq!(slugify("<script>a</script>b</script>"), "b");
    assert_eq!(slugify("<script>a</script> b <script>c</script> d"), "b-d");
}

#[test]
fn unclosed_script_loses_only_its_tag() {
    assert_eq!(slugify("<script>alert(1)"), "alert1");
    assert_eq!(slugify("<style>p"), "p");
}

#[test]
fn script_closed_by_style_is_no_block() {
    assert_eq!(slugify("<script>a</style>"), "a");
}

#[test]
fn tags_go_and_their_text_stays() {
    assert_eq!(slugify("this is a <em>test</em>"), "this-is-a-test");
    assert_eq!(slugify("<b>bold</b><i>italic</i>"), "bolditalic");
    assert_eq!(slugify("a<br/>b"), "ab");
    assert_eq!(slugify("1 < 2 > 3"), "1-3");
}

#[test]
fn lone_angle_brackets_go_alone() {
    assert_eq!(slugify("a < b"), "a-b");
    assert_eq!(slugify("a > b"), "a-b");
    assert_eq!(slugify("a <b"), "a-b");
}

#[test]
fn soft_punctuation_leaves_no_gap() {
    assert_eq!(slugify("co\u{00ad}operate"), "cooperate");
    assert_eq!(slugify("e\u{0301}cole"), "ecole");
    assert_eq!(slugify("\u{201c}quoted\u{201d}"), "quoted");
    assert_eq!(slugify("it\u{2019}s"), "its");
    assert_eq!(slugify("\u{00a9}2020"), "2020");
    assert_eq!(slugify("wait\u{2026}what"), "waitwhat");
    assert_eq!(slugify("\u{00bf}que\u{0301}?"), "que");
    assert_eq!(slugify("brand\u{2122} name\u{00ae}"), "brand-name");
}

#[test]
fn soft_dashes_give_one_hyphen() {
    assert_eq!(slugify("a\u{2014}b"), "a-b");
    assert_eq!(slugify("a\u{2013}b"), "a-b");
    assert_eq!(slugify("a\u{00a0}b"), "a-b");
    assert_eq!(slugify("a&nbsp;b"), "a-b");
    assert_eq!(slugify("a&#160;b"), "a-b");
    assert_eq!(slugify("a&ndash;b"), "a-b");
    assert_eq!(slugify("a&8211;b"), "a-b");
    assert_eq!(slugify("a&mdash;b"), "a-b");
    assert_eq!(slugify("a&#8212;b"), "a-b");
    assert_eq!(slugify("a&nbsp;&mdash;-\u{2014}&#160;b"), "a-b");
    assert_eq!(slugify("A&NBSP;B"), "a-b");
}

#[test]
fn other_entities_leave_no_gap() {
    assert_eq!(slugify("AT&amp;T"), "att");
    assert_eq!(slugify("a&#8211;b"), "ab");
    assert_eq!(slugify("fish &amp; chips"), "fish-chips");
    assert_eq!(slugify("a & b; c"), "a-c");
    assert_eq!(slugify("caf&eacute;"), "caf");
}

#[test]
fn ampersand_without_semicolon_goes_alone() {
    assert_eq!(slugify("Boys & Girls"), "boys-girls");
    assert_eq!(slugify("R&D"), "rd");
}

#[test]
fn entity_needs_a_character_before_its_semicolon() {
    assert_eq!(slugify("a&;b"), "a-b");
    assert_eq!(slugify("a&;;b"), "a-b");
}

#[test]
fn entity_may_run_over_a_line_break() {
    assert_eq!(slugify("a&x\ny;b"), "ab");
}

#[test]
fn sentence_marks_separate_words() {
    assert_eq!(slugify("a.b?c!d;e:f_g@h"), "a-b-c-d-e-f-g-h");
    assert_eq!(slugify("line one\r\nline two"), "line-one-line-two");
    assert_eq!(slugify("snake_case_name"), "snake-case-name");
    assert_eq!(slugify("make\nit   work?"), "make-it-work");
}

#[test]
fn percent_sign_stays() {
    assert_eq!(slugify("100% sure"), "100%-sure");
    assert_eq!(slugify("%"), "%");
    assert_eq!(sanitize_and_split("50%-off"), owned(&["50%", "off"]));
}

#[test]
fn other_signs_leave_no_gap() {
    assert_eq!(slugify("a+b=c"), "abc");
    assert_eq!(slugify("don't"), "dont");
    assert_eq!(slugify("(parenthesis)"), "parenthesis");
    assert_eq!(slugify("a,b"), "ab");
    assert_eq!(slugify("a/b\\c"), "abc");
    assert_eq!(slugify("tab\there"), "tabhere");
    assert_eq!(slugify("price: $5"), "price-5");
    assert_eq!(slugify("a\u{20ac}b"), "ab");
}

#[test]
fn digits_beyond_ascii_go() {
    assert_eq!(slugify("x\u{0661}\u{0662}y"), "xy");
    assert_eq!(slugify("x\u{00b2}"), "x");
}

#[test]
fn letters_are_found_in_the_unicode_tables() {
    assert_eq!(slugify("\u{00aa}"), "\u{00aa}");
    assert_eq!(slugify("\u{00b5}m"), "\u{00b5}m");
    assert_eq!(slugify("na\u{00ef}ve"), "na\u{00ef}ve");
    assert_eq!(slugify("\u{1f600} smile"), "smile");
    assert_eq!(slugify("\u{2603}"), "");
    assert_eq!(slugify("привет мир"), "привет-мир");
    assert_eq!(slugify("\u{05e9}\u{05dc}\u{05d5}\u{05dd}"), "\u{05e9}\u{05dc}\u{05d5}\u{05dd}");
}

#[test]
fn dotted_capital_i_loses_its_dot() {
    assert_eq!(slugify("\u{0130}stanbul"), "istanbul");
}

#[test]
fn folded_text_is_taken_as_it_is() {
    let letters = Letters::new();
    assert_eq!(split_folded(&letters, "this is a test."), owned(&["this", "is", "a", "test"]));
    assert_eq!(split_folded(&letters, "Kept As Is"), owned(&["Kept", "As", "Is"]));
    assert_eq!(split_folded(&letters, "<SCRIPT>x</SCRIPT>"), owned(&["x"]));
    assert_eq!(split_folded(&letters, "a&NBSP;b"), owned(&["ab"]));
}

#[test]
fn one_table_serves_many_titles() {
    let letters = Letters::new();
    assert_eq!(slugify_with(&letters, "This is a test."), "this-is-a-test");
    assert_eq!(slugify_with(&letters, "Töxic Tësticle Färm?"), "töxic-tësticle-färm");
    assert_eq!(slugify_with(&letters, ""), "");
    assert_eq!(sanitize_and_split_with(&letters, "Excellent!!!1!1"), owned(&["excellent", "1", "1"]));
    assert_eq!(sanitize_and_split_with(&letters, "a\u{20ac}é"), owned(&["aé"]));
    for title in ["user@example.com", "  ----You--and--_-_me", "中文 标题"].iter() {
        assert_eq!(slugify_with(&letters, title), slugify(title));
        assert_eq!(sanitize_and_split_with(&letters, title), sanitize_and_split(title));
    }
}

#[test]
fn long_title_beyond_ascii_is_no_burden() {
    let letters = Letters::new();
    let title: String = std::iter::repeat("ÉTÉ 中文 ").take(2000).collect();
    let words = sanitize_and_split_with(&letters, &title);
    assert_eq!(words.len(), 4000);
    assert_eq!(words[0], "été");
    assert_eq!(words[3999], "中文");
}

#[test]
fn openings_that_nothing_closes_are_no_burden() {
    let brackets: String = std::iter::repeat('<').take(200_000).collect();
    assert_eq!(slugify(&brackets), "");
    let scripts: String = std::iter::repeat("<script>a ").take(20_000).collect();
    assert_eq!(sanitize_and_split(&scripts).len(), 20_000);
    let styles: String = std::iter::repeat("<script><style>b ").take(10_000).collect();
    assert_eq!(sanitize_and_split(&styles).len(), 10_000);
    let entities: String = std::iter::repeat("&a ").take(50_000).collect();
    assert_eq!(sanitize_and_split(&entities).len(), 50_000);
    let half_open: String = std::iter::repeat("<script x ").take(20_000).collect();
    assert_eq!(sanitize_and_split(&half_open).len(), 40_000);
}
