use define3::text::{
    chars_of, index_of, push_range, same_chars, slice_of, split_fields, split_lines, starts_at,
    string_of,
};
use define3::vocabulary::Vocabulary;

fn strings(parts: Vec<Vec<char>>) -> Vec<String> {
    parts.into_iter().map(|p| p.into_iter().collect()).collect()
}

#[test]
fn characters_not_bytes() {
    assert_eq!(chars_of("a猫é"), vec!['a', '猫', 'é']);
    assert_eq!(chars_of(""), Vec::<char>::new());
    let chars = chars_of("=猫ねこ=");
    assert_eq!(string_of(&chars, 1, 4), "猫ねこ");
    assert_eq!(string_of(&chars, 2, 2), "");
    assert_eq!(slice_of(&chars, 0, 2), vec!['=', '猫']);
    let mut out = vec!['x'];
    push_range(&mut out, &chars, 3, 5);
    assert_eq!(out, vec!['x', 'こ', '=']);
}

#[test]
fn lines_as_they_end() {
    assert_eq!(strings(split_lines(&chars_of(""))), Vec::<String>::new());
    assert_eq!(strings(split_lines(&chars_of("a"))), vec!["a"]);
    assert_eq!(strings(split_lines(&chars_of("a\n"))), vec!["a"]);
    assert_eq!(strings(split_lines(&chars_of("a\nb"))), vec!["a", "b"]);
    assert_eq!(strings(split_lines(&chars_of("a\r\nb\r\n"))), vec!["a", "b"]);
    assert_eq!(strings(split_lines(&chars_of("\n"))), vec![""]);
    assert_eq!(strings(split_lines(&chars_of("a\n\n\nb"))), vec!["a", "", "", "b"]);
    assert_eq!(strings(split_lines(&chars_of("a\rb\n"))), vec!["a\rb"]);
    assert_eq!(strings(split_lines(&chars_of("a\r\r\nb\r"))), vec!["a\r", "b\r"]);
    assert_eq!(strings(split_lines(&chars_of("\r\n"))), vec![""]);
}

#[test]
fn lines_as_the_standard_library_has_them() {
    for text in ["", "a", "a\n", "a\nb", "a\r\nb\r\n", "\n", "a\n\n\nb", "a\rb\n", "a\r\r\nb\r", "\r\n", "\r", "\n\r"] {
        let expected: Vec<&str> = text.lines().collect();
        assert_eq!(strings(split_lines(&chars_of(text))), expected, "{text:?}");
    }
}

#[test]
fn fields_between_separators() {
    assert_eq!(strings(split_fields(&chars_of(""), '|')), vec![""]);
    assert_eq!(strings(split_fields(&chars_of("a"), '|')), vec!["a"]);
    assert_eq!(strings(split_fields(&chars_of("a|b"), '|')), vec!["a", "b"]);
    assert_eq!(strings(split_fields(&chars_of("|"), '|')), vec!["", ""]);
    assert_eq!(strings(split_fields(&chars_of("a||b|"), '|')), vec!["a", "", "b", ""]);
    assert_eq!(strings(split_fields(&chars_of("猫|ねこ"), '|')), vec!["猫", "ねこ"]);
}

#[test]
fn searches() {
    let text = chars_of("abcabc");
    assert_eq!(index_of(&text, 0, 'c'), 2);
    assert_eq!(index_of(&text, 2, 'c'), 2);
    assert_eq!(index_of(&text, 3, 'c'), 5);
    assert_eq!(index_of(&text, 6, 'c'), 6);
    assert_eq!(index_of(&text, 0, 'x'), 6);
    assert!(starts_at(&text, 1, &chars_of("bca")));
    assert!(!starts_at(&text, 1, &chars_of("bcb")));
    assert!(starts_at(&text, 3, &chars_of("abc")));
    assert!(!starts_at(&text, 4, &chars_of("abc")));
    assert!(starts_at(&text, 6, &chars_of("")));
    assert!(!starts_at(&text, 7, &chars_of("")));
    assert!(!starts_at(&text, usize::MAX, &chars_of("a")));
    assert!(same_chars(&text, &chars_of("abcabc")));
    assert!(!same_chars(&text, &chars_of("abcab")));
    assert!(!same_chars(&text, &chars_of("abcabd")));
}

#[test]
fn vocabulary_holds_what_was_put_in() {
    let mut words = Vocabulary::new();
    assert!(!words.contains("Noun"));
    words.insert("Noun");
    words.insert("Proper noun");
    words.insert("Noun");
    assert!(words.contains("Noun"));
    assert!(words.contains("Proper noun"));
    assert!(!words.contains("noun"));
    assert!(!words.contains("Proper"));
    assert!(!words.contains(""));
    let listed = Vocabulary::from_words(&["Verb", "", "Verb"]);
    assert!(listed.contains("Verb"));
    assert!(listed.contains(""));
    assert!(!listed.contains("Noun"));
    assert!(!Vocabulary::from_words(&[]).contains(""));
}
