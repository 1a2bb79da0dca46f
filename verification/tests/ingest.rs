use define3::ingest::{classify_page, stored_source, template_source, words_of};
use define3::vocabulary::Vocabulary;
use define3::{Page, PageContent};

fn page(title: &str, content: &str) -> Page {
    Page { title: String::from(title), content: String::from(content) }
}

fn languages() -> Vocabulary {
    Vocabulary::from_words(&["English"])
}

fn parts() -> Vocabulary {
    Vocabulary::from_words(&["Noun"])
}

const CAT: &str = "==English==\n===Noun===\n# a furry animal\n# a [[feline]]";

#[test]
fn page_of_a_word() {
    match classify_page(page("cat", CAT), &languages(), &parts()) {
        PageContent::Word(word) => {
            assert_eq!(word.name, "cat");
            assert_eq!(word.meanings.len(), 2);
            assert_eq!(word.meanings[0].definition, "a furry animal");
            assert_eq!(word.meanings[1].definition, "a [[feline]]");
        },
        other => panic!("{other:?}"),
    }
}

#[test]
fn page_of_a_template() {
    match classify_page(page("Template:m", "{{{1}}}"), &languages(), &parts()) {
        PageContent::Template(template) => {
            assert_eq!(template.name, "Template:m");
            assert_eq!(template.content, "{{{1}}}");
        },
        other => panic!("{other:?}"),
    }
    assert!(matches!(
        classify_page(page("Template", ""), &languages(), &parts()),
        PageContent::Template(_)
    ));
}

#[test]
fn page_of_a_module() {
    match classify_page(page("Module:links", "return {}"), &languages(), &parts()) {
        PageContent::Module(module) => {
            assert_eq!(module.name, "Module:links");
            assert_eq!(module.src, "return {}");
        },
        other => panic!("{other:?}"),
    }
}

#[test]
fn namespace_ends_at_the_first_colon() {
    for title in ["Templates:x", "template:x", "x:Template", " Template:x", ":Template", "Wiktionary:x"] {
        assert!(
            matches!(classify_page(page(title, ""), &languages(), &parts()), PageContent::Word(_)),
            "{title}"
        );
    }
    assert!(matches!(
        classify_page(page("Module:a:b", ""), &languages(), &parts()),
        PageContent::Module(_)
    ));
}

#[test]
fn one_word_for_each_page_of_a_word() {
    let pages = vec![
        page("cat", CAT),
        page("Template:m", "x"),
        page("dog", "==English==\n===Noun===\n# a loyal animal"),
        page("Module:links", "x"),
        page("eel", ""),
    ];
    let words = words_of(&pages, &languages(), &parts());
    let names: Vec<(&str, usize)> = words.iter().map(|w| (w.name.as_str(), w.meanings.len())).collect();
    assert_eq!(names, vec![("cat", 2), ("dog", 1), ("eel", 0)]);
    assert_eq!(words_of(&Vec::new(), &languages(), &parts()).len(), 0);
}

#[test]
fn source_of_a_template() {
    assert_eq!(template_source("plain"), "plain");
    assert_eq!(template_source("a<noinclude>doc</noinclude>b"), "ab");
    assert_eq!(template_source("a<!-- c -->b"), "ab");
    assert_eq!(template_source("x<includeonly>a</includeonly>y<includeonly>b</includeonly>"), "a");
    assert_eq!(
        template_source("<noinclude>doc\n</noinclude><includeonly>{{{1}}}<!-- c --></includeonly>"),
        "{{{1}}}"
    );
    assert_eq!(template_source("<includeonly>a"), "<includeonly>a");
    assert_eq!(template_source("<noinclude>a"), "<noinclude>a");
    assert_eq!(template_source("<noinclude><!-- </noinclude> -->x"), " -->x");
}

#[test]
fn stored_sources() {
    match stored_source(&page("Template:m", "<noinclude>doc</noinclude>{{{1}}}")) {
        Some(PageContent::Template(template)) => {
            assert_eq!(template.name, "m");
            assert_eq!(template.content, "{{{1}}}");
        },
        other => panic!("{other:?}"),
    }
    match stored_source(&page("Module:links", "<!-- kept -->return {}")) {
        Some(PageContent::Module(module)) => {
            assert_eq!(module.name, "links");
            assert_eq!(module.src, "<!-- kept -->return {}");
        },
        other => panic!("{other:?}"),
    }
    assert!(stored_source(&page("cat", CAT)).is_none());
    assert!(stored_source(&page("Template", "x")).is_none());
    assert!(stored_source(&page("Template:", "x")).is_some());
}
