use define3::markup::{clean, find_markup, standard_markup, strip_each, strip_markup, MarkupRule};
use define3::text::chars_of;
use regex::Regex;

fn text_of(chars: Vec<char>) -> String {
    chars.into_iter().collect()
}

fn strip_with(rule: usize, text: &str) -> String {
    text_of(strip_markup(&standard_markup()[rule], &chars_of(text)))
}

#[test]
fn link_with_label_gives_label() {
    assert_eq!(clean("[[cat|Cats]]"), "Cats");
}

#[test]
fn link_without_label_gives_target() {
    assert_eq!(clean("[[cat]]"), "cat");
}

#[test]
fn bold_loses_its_quotes() {
    assert_eq!(clean("'''bold'''"), "bold");
}

#[test]
fn comment_is_removed() {
    assert_eq!(clean("<!-- note -->"), "");
}

#[test]
fn italic_loses_its_quotes() {
    assert_eq!(clean("''italic''"), "italic");
    assert_eq!(clean("'''''both'''''"), "both");
}

#[test]
fn markup_within_a_sentence() {
    assert_eq!(
        clean("A [[feline|cat]] is ''not'' a [[dog]].<!-- really --> '''Never.'''"),
        "A cat is not a dog. Never."
    );
}

#[test]
fn clean_text_stays() {
    for text in ["", "plain", "a [b] c", "it's", "x < y"] {
        assert_eq!(clean(text), text);
        assert_eq!(clean(&clean(text)), text);
    }
}

#[test]
fn cleaning_twice_changes_nothing_more() {
    for text in [
        "[[cat|Cats]]",
        "[[cat]]",
        "'''bold'''",
        "<!-- note -->",
        "A [[feline|cat]] is ''not'' a [[dog]].",
        "[[a|'''b''']]",
    ] {
        let once = clean(text);
        assert_eq!(clean(&once), once);
    }
}

#[test]
fn stripping_can_uncover_markup() {
    assert_eq!(clean("[[[[a]]]]"), "[[a]]");
    assert_eq!(clean("[[a]]"), "a");
    assert_eq!(clean("<!<!---->--x-->"), "<!--x-->");
}

#[test]
fn unfinished_markup_is_text() {
    for text in [
        "[[cat",
        "cat]]",
        "[[cat]",
        "[cat]]",
        "'''bold",
        "bold'''",
        "''italic",
        "<!-- note",
        "note -->",
        "<!-->",
        "'",
        "''",
        "'''",
        "[[",
        "]]",
    ] {
        assert_eq!(clean(text), text, "{text}");
    }
}

#[test]
fn label_begins_behind_the_first_bar() {
    assert_eq!(strip_with(0, "[[a|b|c]]"), "b|c");
    assert_eq!(strip_with(0, "[[a]b|c]]"), "[[a]b|c]]");
    assert_eq!(strip_with(0, "[[|c]]"), "c");
    assert_eq!(strip_with(0, "[[a|]]"), "");
    assert_eq!(strip_with(0, "[[a|b] c]]"), "b] c");
}

#[test]
fn quotes_do_not_reach_over_quotes() {
    assert_eq!(strip_with(3, "'''a'b'''"), "'''a'b'''");
    assert_eq!(strip_with(3, "''''a'''"), "'a");
    assert_eq!(strip_with(3, "''''''"), "");
    assert_eq!(strip_with(4, "'''a''b'''"), "'ab'''");
    assert_eq!(strip_with(4, "''''"), "");
}

#[test]
fn each_rule_alone() {
    let text = "[[a|b]] [[c]] <!--d--> '''e''' ''f''";
    assert_eq!(strip_with(0, text), "b [[c]] <!--d--> '''e''' ''f''");
    assert_eq!(strip_with(1, text), "a|b c <!--d--> '''e''' ''f''");
    assert_eq!(strip_with(2, text), "[[a|b]] [[c]]  '''e''' ''f''");
    assert_eq!(strip_with(3, text), "[[a|b]] [[c]] <!--d--> e ''f''");
    assert_eq!(strip_with(4, text), "[[a|b]] [[c]] <!--d--> 'e' f");
}

#[test]
fn pieces_do_not_overlap() {
    assert_eq!(strip_with(1, "[[a]][[b]]"), "ab");
    assert_eq!(strip_with(1, "[[a]]]]"), "a]]");
    assert_eq!(strip_with(2, "<!--a--><!--b-->c"), "c");
    assert_eq!(strip_with(2, "<!--a<!--b-->c-->"), "c-->");
}

#[test]
fn comment_spans_lines() {
    assert_eq!(clean("a<!-- one\ntwo -->b"), "ab");
}

#[test]
fn link_text_stays_on_its_line() {
    assert_eq!(clean("[[a\nb]]"), "[[a\nb]]");
    assert_eq!(clean("[[a|b\nc]]"), "[[a|b\nc]]");
    assert_eq!(clean("[[a\nb|c]]"), "c");
    assert_eq!(clean("[[a|b\nc|d]]"), "d");
    assert_eq!(clean("[[a\n[[b]]"), "[[a\nb");
}

#[test]
fn quoted_text_spans_lines() {
    assert_eq!(clean("'''a\nb''' ''c\nd''"), "a\nb c\nd");
}

#[test]
fn wide_characters_are_kept() {
    assert_eq!(clean("[[猫|ねこ]] と '''犬'''"), "ねこ と 犬");
}

#[test]
fn where_a_piece_of_markup_stands() {
    let rules = standard_markup();
    let found = find_markup(&rules[0], &chars_of("x[[ab|cd]]y"), 1).unwrap();
    assert_eq!((found.from, found.to, found.end), (6, 8, 10));
    assert!(find_markup(&rules[0], &chars_of("x[[ab|cd]]y"), 0).is_none());
    assert!(find_markup(&rules[0], &chars_of("x[[ab|cd]]y"), 2).is_none());
    assert!(find_markup(&rules[0], &chars_of("x[[ab|cd]]y"), 40).is_none());
}

#[test]
fn rule_without_opening_mark_finds_nothing() {
    let rule = MarkupRule { open: vec![], lead: None, plain: None, close: vec!['x'], keep: true };
    assert_eq!(text_of(strip_markup(&rule, &chars_of("axbxc"))), "axbxc");
}

#[test]
fn rules_are_applied_in_order() {
    let rules = vec![
        MarkupRule { open: vec!['('], lead: None, plain: None, close: vec![')'], keep: true },
        MarkupRule { open: vec!['<'], lead: None, plain: None, close: vec!['>'], keep: false },
    ];
    assert_eq!(text_of(strip_each(&rules, chars_of("(<a>)b<c(d)>"))), "b");
    assert_eq!(text_of(strip_each(&Vec::new(), chars_of("(a)"))), "(a)");
}

const PATTERNS: [(&str, &str); 5] = [
    (r"\[\[[^\]]*?\|(?P<text>.*?)\]\]", "$text"),
    (r"\[\[(?P<text>.*?)\]\]", "$text"),
    (r"<!--(?s:.)*?-->", ""),
    (r"'''(?P<text>[^']*?)'''", "$text"),
    (r"''(?P<text>[^']*?)''", "$text"),
];

fn patterns() -> Vec<(Regex, &'static str)> {
    PATTERNS.iter().map(|(pattern, with)| (Regex::new(pattern).unwrap(), *with)).collect()
}

fn clean_with(patterns: &Vec<(Regex, &'static str)>, text: &str) -> String {
    let mut current = String::from(text);
    for (pattern, with) in patterns {
        current = pattern.replace_all(&current, *with).into_owned();
    }
    current
}

fn clean_with_patterns(text: &str) -> String {
    clean_with(&patterns(), text)
}

fn agrees_on_all_texts(alphabet: &[char], longest: usize) {
    let patterns = patterns();
    let rules = standard_markup();
    let mut texts: Vec<String> = vec![String::new()];
    for _ in 0..longest {
        let mut longer = Vec::new();
        for text in &texts {
            for c in alphabet {
                let mut next = text.clone();
                next.push(*c);
                longer.push(next);
            }
        }
        for text in &longer {
            let cleaned = text_of(strip_each(&rules, chars_of(text)));
            assert_eq!(cleaned, clean_with(&patterns, text), "{text:?}");
        }
        texts = longer;
    }
}

#[test]
fn cleaner_agrees_with_patterns_on_all_short_links() {
    agrees_on_all_texts(&['[', ']', '|', 'a', '\n'], 6);
}

#[test]
fn cleaner_agrees_with_patterns_on_all_short_quotes() {
    agrees_on_all_texts(&['\'', 'a', '\n'], 8);
}

#[test]
fn cleaner_agrees_with_patterns_on_all_short_comments() {
    agrees_on_all_texts(&['<', '!', '-', '>'], 8);
}

#[test]
fn cleaner_agrees_with_patterns_on_all_short_mixtures() {
    agrees_on_all_texts(&['[', ']', '|', '\'', '<', '!', '-', '>'], 5);
}

#[test]
fn cleaner_agrees_with_patterns() {
    for text in [
        "",
        "plain",
        "[[cat|Cats]]",
        "[[cat]]",
        "'''bold'''",
        "<!-- note -->",
        "''italic''",
        "'''''both'''''",
        "A [[feline|cat]] is ''not'' a [[dog]].<!-- really --> '''Never.'''",
        "[[[[a]]]]",
        "[[a|b|c]]",
        "[[a]b|c]]",
        "[[a|b] c]]",
        "[[a|[[b]]]]",
        "[[a]] [[b|c]] [[d",
        "''''a'''",
        "'''a''b'''",
        "''''''",
        "'''a'b'''",
        "<!<!---->--x-->",
        "<!--a<!--b-->c-->",
        "<!-->",
        "[[猫|ねこ]] と '''犬'''",
        "'' ''' '' '''",
        "]] [[ ]] [[",
        "[[|]]",
        "[[a\nb]]",
        "[[a|b\nc]]",
        "[[a\nb|c]]",
        "[[a|b\nc|d]]",
        "[[a|b\nc|d\ne|f]] [[g]]",
        "[[a\n[[b]]",
        "'''a\nb''' ''c\nd''",
        "a<!-- one\ntwo -->b\n[[c|d]]\n",
        "[[a|b]c|d]]",
        "[[a||b]]",
        "[[a|b|]]",
    ] {
        assert_eq!(clean(text), clean_with_patterns(text), "{text}");
    }
}
