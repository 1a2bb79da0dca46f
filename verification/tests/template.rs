use define3::template::{
    expand_invocation, expand_pass, expand_templates, find_invocation_end, standard_rules,
    TemplateRule, PASS_LIMIT,
};
use define3::text::chars_of;
use regex::{Captures, Regex};

fn expand(text: &str) -> (String, bool) {
    let outcome = expand_templates(text, &standard_rules(), PASS_LIMIT);
    (outcome.text, outcome.resolved)
}

fn pass(text: &str) -> String {
    expand_pass(&standard_rules(), &chars_of(text)).into_iter().collect()
}

#[test]
fn qualifier_is_put_in_brackets() {
    assert_eq!(expand("{{qualifier|rare}}"), (String::from("(rare)"), true));
}

#[test]
fn mention_gives_its_word() {
    assert_eq!(expand("{{m|en|cat}}"), (String::from("cat"), true));
    assert_eq!(expand("{{l|en|cat}}"), (String::from("cat"), true));
}

#[test]
fn inner_invocation_is_resolved_first() {
    assert_eq!(pass("{{ja-def|{{l|ja|猫}}}}"), "{{ja-def|猫}}");
    assert_eq!(pass("{{ja-def|猫}}"), "猫:");
    assert_eq!(expand("{{ja-def|{{l|ja|猫}}}}"), (String::from("猫:"), true));
}

#[test]
fn unknown_template_is_left_as_it_is() {
    assert_eq!(pass("a {{wibble|x|y}} b"), "a {{wibble|x|y}} b");
    assert_eq!(
        expand_templates("a {{wibble|x|y}} b", &standard_rules(), 1).text,
        "a {{wibble|x|y}} b"
    );
    assert!(expand_templates("a {{wibble|x|y}} b", &standard_rules(), 1).resolved);
    assert_eq!(expand("{{}}"), (String::from("{{}}"), true));
}

#[test]
fn every_standard_rule() {
    assert_eq!(expand("a{{,}} b"), (String::from("a, b"), true));
    assert_eq!(expand("{{ngd|used to x}}"), (String::from("used to x"), true));
    assert_eq!(expand("{{unsupported|#}}"), (String::from("#"), true));
    assert_eq!(expand("{{non-gloss definition|a cry}}"), (String::from("a cry"), true));
    assert_eq!(
        expand("{{alternative form of|colour}}"),
        (String::from("Alternative form of colour"), true)
    );
    assert_eq!(
        expand("{{ja-romanization of|ねこ}}"),
        (String::from("Rōmaji transcription of ねこ"), true)
    );
    assert_eq!(expand("{{sumti|1}}"), (String::from("x1"), true));
    assert_eq!(expand("{{ja-def|猫}}"), (String::from("猫:"), true));
    assert_eq!(expand("{{lb|en|slang}}"), (String::from("(slang)"), true));
}

#[test]
fn rule_without_its_argument_does_not_apply() {
    assert_eq!(expand("{{qualifier}}"), (String::from("{{qualifier}}"), true));
    assert_eq!(expand("{{m|en}}"), (String::from("{{m|en}}"), true));
    assert_eq!(expand("{{qualifier|}}"), (String::from("()"), true));
}

#[test]
fn further_arguments_are_ignored() {
    assert_eq!(expand("{{m|en|cat|t=feline}}"), (String::from("cat"), true));
}

#[test]
fn stray_braces_are_text() {
    assert_eq!(expand("{"), (String::from("{"), true));
    assert_eq!(expand("{{"), (String::from("{{"), true));
    assert_eq!(expand("}}"), (String::from("}}"), true));
    assert_eq!(expand("{{qualifier|rare}"), (String::from("{{qualifier|rare}"), true));
    assert_eq!(expand("{qualifier|rare}}"), (String::from("{qualifier|rare}}"), true));
    assert_eq!(expand("{{{qualifier|rare}}"), (String::from("{(rare)"), true));
    assert_eq!(expand("{{qualifier|rare}}}"), (String::from("(rare)}"), true));
    assert_eq!(expand("{{qualifier|a{b}}"), (String::from("(a{b)"), true));
    assert_eq!(expand("{{qualifier|a}b}}"), (String::from("(a}b)"), true));
}

#[test]
fn several_invocations_in_one_pass() {
    assert_eq!(
        pass("{{qualifier|rare}} a {{m|en|cat}}, {{wibble}} {{lb|en|dated}}"),
        "(rare) a cat, {{wibble}} (dated)"
    );
}

#[test]
fn invocation_spans_lines() {
    assert_eq!(expand("{{qualifier|a\nb}}"), (String::from("(a\nb)"), true));
}

#[test]
fn limit_stops_the_passes() {
    let nested = "{{qualifier|{{qualifier|{{qualifier|x}}}}}}";
    let none = expand_templates(nested, &standard_rules(), 0);
    assert_eq!((none.text.as_str(), none.resolved), (nested, false));
    let one = expand_templates(nested, &standard_rules(), 1);
    assert_eq!((one.text.as_str(), one.resolved), ("{{qualifier|{{qualifier|(x)}}}}", false));
    let three = expand_templates(nested, &standard_rules(), 3);
    assert_eq!((three.text.as_str(), three.resolved), ("(((x)))", false));
    let four = expand_templates(nested, &standard_rules(), 4);
    assert_eq!((four.text.as_str(), four.resolved), ("(((x)))", true));
}

#[test]
fn table_is_searched_in_order() {
    let rules = vec![
        TemplateRule::new("t", "first ", Some(1), ""),
        TemplateRule::new("t", "second ", Some(1), ""),
        TemplateRule::new("u", "", None, "!"),
    ];
    assert_eq!(expand_templates("{{t|x}}{{u|y}}", &rules, PASS_LIMIT).text, "first x!");
    assert_eq!(expand_templates("{{t|x}}", &Vec::new(), PASS_LIMIT).text, "{{t|x}}");
}

#[test]
fn expansion_of_a_body() {
    let rules = standard_rules();
    assert_eq!(expand_invocation(&rules, &chars_of("lb|en|slang")), Some(chars_of("(slang)")));
    assert_eq!(expand_invocation(&rules, &chars_of("wibble|en")), None);
    assert_eq!(expand_invocation(&rules, &chars_of("")), None);
}

#[test]
fn end_of_an_invocation() {
    assert_eq!(find_invocation_end(&chars_of("{{a}}"), 0), Some(5));
    assert_eq!(find_invocation_end(&chars_of("{{a}}"), 1), None);
    assert_eq!(find_invocation_end(&chars_of("{{{a}}"), 0), None);
    assert_eq!(find_invocation_end(&chars_of("{{{a}}"), 1), Some(6));
    assert_eq!(find_invocation_end(&chars_of("{{a{{b}}"), 0), None);
    assert_eq!(find_invocation_end(&chars_of("{{a"), 0), None);
    assert_eq!(find_invocation_end(&chars_of("{{a}}"), 9), None);
}

fn pattern() -> Regex {
    Regex::new(r"\{\{(?P<text>(?s:[^\{])*?)\}\}").unwrap()
}

fn pass_with(pattern: &Regex, text: &str) -> String {
    pattern
        .replace_all(text, |caps: &Captures| {
            let fields: Vec<&str> = caps[1].split('|').collect();
            let first = fields.get(1);
            let second = fields.get(2);
            let output = match fields[0] {
                "," => Some(String::from(",")),
                "ngd" | "unsupported" | "non-gloss definition" => first.map(|a| String::from(*a)),
                "alternative form of" => first.map(|a| format!("Alternative form of {a}")),
                "ja-romanization of" => first.map(|a| format!("R\u{14d}maji transcription of {a}")),
                "sumti" => first.map(|a| format!("x{a}")),
                "ja-def" => first.map(|a| format!("{a}:")),
                "qualifier" => first.map(|a| format!("({a})")),
                "lb" => second.map(|a| format!("({a})")),
                "m" | "l" => second.map(|a| String::from(*a)),
                _ => None,
            };
            output.unwrap_or(String::from(&caps[0]))
        })
        .into_owned()
}

fn pass_with_pattern(text: &str) -> String {
    pass_with(&pattern(), text)
}

/// Whether an invocation of `text` holds a single `{` in its body.
fn has_brace_in_a_body(text: &Vec<char>) -> bool {
    let mut i = 0;
    while i < text.len() {
        match find_invocation_end(text, i) {
            Some(end) => {
                if text[i + 2..end - 2].contains(&'{') {
                    return true;
                }
                i = end;
            },
            None => i += 1,
        }
    }
    false
}

#[test]
fn pass_agrees_with_pattern_on_all_short_texts_without_a_brace_in_a_body() {
    let pattern = pattern();
    let rules = standard_rules();
    let alphabet = ['{', '}', '|', 'm', ','];
    let mut texts: Vec<String> = vec![String::new()];
    let mut compared = 0;
    for _ in 0..7 {
        let mut longer = Vec::new();
        for text in &texts {
            for c in alphabet {
                let mut next = text.clone();
                next.push(c);
                longer.push(next);
            }
        }
        for text in &longer {
            let chars = chars_of(text);
            if !has_brace_in_a_body(&chars) {
                let made: String = expand_pass(&rules, &chars).into_iter().collect();
                assert_eq!(made, pass_with(&pattern, text), "{text:?}");
                compared += 1;
            }
        }
        texts = longer;
    }
    assert!(compared > 90000);
}

#[test]
fn brace_in_a_body_is_text() {
    assert_eq!(pass("{{m|,|a{b}}"), "a{b");
    assert_eq!(pass_with_pattern("{{m|,|a{b}}"), "{{m|,|a{b}}");
    assert_eq!(pass("{{m|,|{}}"), "{");
    assert_eq!(pass("{{,{}}"), "{{,{}}");
    assert_eq!(pass("{{,|{}}"), ",");
}

#[test]
fn pass_agrees_with_pattern() {
    for text in [
        "",
        "plain",
        "{{qualifier|rare}}",
        "{{m|en|cat}}",
        "{{ja-def|{{l|ja|猫}}}}",
        "{{ja-def|猫}}",
        "a{{,}} b {{wibble|x}} {{lb|en|slang}} {{sumti|2}}",
        "{{alternative form of|colour}} {{ja-romanization of|ねこ}}",
        "{{ngd|a}}{{unsupported|b}}{{non-gloss definition|c}}",
        "{{{qualifier|rare}}",
        "{{qualifier|rare}}}",
        "{{qualifier|a}b}}",
        "{{qualifier|a\nb}}",
        "{{qualifier|{{qualifier|{{qualifier|x}}}}}}",
        "{{}} {{ }} {{|}} {{m|en|}}",
        "{{ {{ }} }} }} {{",
        "{ { } } {{qualifier|x}}",
        "{{m|en|cat|t=feline}}",
    ] {
        assert_eq!(pass(text), pass_with_pattern(text), "{text}");
    }
}
