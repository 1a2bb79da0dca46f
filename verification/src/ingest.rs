//! Ingestion: what a page of the dump holds. A page in the namespace of the
//! templates or of the modules holds a source text; any other page is the
//! page of a word.

use crate::markup::{
    find_markup, first_match, markup_views, strip_all, strip_each, MarkupModel, MarkupRule,
};
use crate::parse_wikitext::{meanings_of, parse_wikitext};
use crate::parse_xml::{dump_of, lemma_page_without_title_is_skipped, scan, Place};
use crate::text::{chars_of, find_char, has_at, index_of, same_chars, slice_of, starts_at, string_of};
use crate::vocabulary::Vocabulary;
use crate::{
    page_views, word_views, ContentModel, Module, Page, PageContent, PageModel, SourceModel,
    Template, Word, WordModel,
};
use vstd::prelude::*;

verus! {

/// The namespace of a title: what stands before its first colon, or all of it
/// where it has none.
pub open spec fn namespace_of(title: Seq<char>) -> Seq<char> {
    title.subrange(0, find_char(title, 0, ':'))
}

/// Whether a page with this title is the page of a word: its namespace is
/// neither that of the templates nor that of the modules.
pub open spec fn is_word_title(title: Seq<char>) -> bool {
    namespace_of(title) != "Template"@ && namespace_of(title) != "Module"@
}

/// What a page holds.
pub open spec fn classify_spec(
    page: PageModel,
    languages: Set<Seq<char>>,
    parts_of_speech: Set<Seq<char>>,
) -> ContentModel {
    if namespace_of(page.title) == "Template"@ {
        ContentModel::Template(SourceModel { name: page.title, text: page.content })
    } else if namespace_of(page.title) == "Module"@ {
        ContentModel::Module(SourceModel { name: page.title, text: page.content })
    } else {
        ContentModel::Word(
            WordModel {
                name: page.title,
                meanings: meanings_of(page.content, languages, parts_of_speech),
            },
        )
    }
}

/// Says what a page holds; the page of a word is parsed for its meanings.
pub fn classify_page(page: Page, languages: &Vocabulary, parts_of_speech: &Vocabulary) -> (content:
    PageContent)
    ensures
        content@ == classify_spec(page@, languages@, parts_of_speech@),
{
    let title = chars_of(page.title.as_str());
    let colon = index_of(&title, 0, ':');
    let namespace = slice_of(&title, 0, colon);
    if same_chars(&namespace, &chars_of("Template")) {
        PageContent::Template(Template { name: page.title, content: page.content })
    } else if same_chars(&namespace, &chars_of("Module")) {
        PageContent::Module(Module { name: page.title, src: page.content })
    } else {
        let meanings = parse_wikitext(page.content, languages, parts_of_speech);
        PageContent::Word(Word { name: page.title, meanings })
    }
}

/// The words of `pages`: one for each page of a word, in the order of the
/// pages.
pub open spec fn words_in(
    pages: Seq<PageModel>,
    languages: Set<Seq<char>>,
    parts_of_speech: Set<Seq<char>>,
) -> Seq<WordModel>
    decreases pages.len(),
{
    if pages.len() == 0 {
        Seq::empty()
    } else {
        let earlier = words_in(pages.drop_last(), languages, parts_of_speech);
        match classify_spec(pages.last(), languages, parts_of_speech) {
            ContentModel::Word(word) => earlier.push(word),
            _ => earlier,
        }
    }
}

/// Extracts the words of `pages`.
pub fn words_of(pages: &Vec<Page>, languages: &Vocabulary, parts_of_speech: &Vocabulary) -> (words:
    Vec<Word>)
    ensures
        word_views(words@) == words_in(page_views(pages@), languages@, parts_of_speech@),
{
    let mut words: Vec<Word> = Vec::new();
    let ghost all = page_views(pages@);
    let mut i: usize = 0;
    while i < pages.len()
        invariant
            i <= pages.len(),
            all == page_views(pages@),
            word_views(words@) == words_in(all.take(i as int), languages@, parts_of_speech@),
        decreases pages.len() - i,
    {
        proof {
            assert(all.take(i + 1).drop_last() =~= all.take(i as int));
        }
        let page = Page { title: pages[i].title.clone(), content: pages[i].content.clone() };
        match classify_page(page, languages, parts_of_speech) {
            PageContent::Word(word) => {
                words.push(word);
            },
            _ => {},
        }
        i += 1;
    }
    assert(all.take(pages@.len() as int) =~= all);
    words
}

/// Where every page is the page of a word, there is one word for each page,
/// in the order of the pages: it has the page's title for its name, and the
/// meanings of the page's markup.
pub proof fn lemma_one_word_for_each_page(
    pages: Seq<PageModel>,
    languages: Set<Seq<char>>,
    parts_of_speech: Set<Seq<char>>,
)
    requires
        forall|i: int| 0 <= i < pages.len() ==> is_word_title((#[trigger] pages[i]).title),
    ensures
        words_in(pages, languages, parts_of_speech).len() == pages.len(),
        forall|i: int|
            0 <= i < pages.len() ==> (#[trigger] words_in(pages, languages, parts_of_speech)[i])
                == (WordModel {
                name: pages[i].title,
                meanings: meanings_of(pages[i].content, languages, parts_of_speech),
            }),
    decreases pages.len(),
{
    if pages.len() > 0 {
        let earlier = pages.drop_last();
        lemma_one_word_for_each_page(earlier, languages, parts_of_speech);
    }
}

/// The rule that drops what a template's page shows of itself but does not
/// hand to the pages that use it.
pub open spec fn noinclude_rule() -> MarkupModel {
    MarkupModel {
        open: "<noinclude>"@,
        lead: None,
        plain: None,
        close: "</noinclude>"@,
        keep: false,
    }
}

/// The rule that drops comments.
pub open spec fn comment_rule() -> MarkupModel {
    MarkupModel { open: "<!--"@, lead: None, plain: None, close: "-->"@, keep: false }
}

/// The rule that finds what a template hands to the pages that use it.
pub open spec fn includeonly_rule() -> MarkupModel {
    MarkupModel {
        open: "<includeonly>"@,
        lead: None,
        plain: None,
        close: "</includeonly>"@,
        keep: true,
    }
}

/// The source of a template, taken from the markup of its page: what is only
/// shown on the page itself goes, then the comments; of what is left, the
/// first stretch that is marked as handed on is the source, or all of it
/// where none is marked.
pub open spec fn template_source_spec(content: Seq<char>) -> Seq<char> {
    let stripped = strip_all(seq![noinclude_rule(), comment_rule()], content);
    match first_match(includeonly_rule(), stripped, 0) {
        Some(found) => stripped.subrange(found.from, found.to),
        None => stripped,
    }
}

fn plain_rule(open: &str, close: &str, keep: bool) -> (rule: MarkupRule)
    ensures
        rule@ == (MarkupModel { open: open@, lead: None, plain: None, close: close@, keep }),
{
    MarkupRule { open: chars_of(open), lead: None, plain: None, close: chars_of(close), keep }
}

/// Computes [`template_source_spec`].
pub fn template_source(content: &str) -> (source: String)
    ensures
        source@ == template_source_spec(content@),
{
    let mut rules: Vec<MarkupRule> = Vec::new();
    rules.push(plain_rule("<noinclude>", "</noinclude>", false));
    rules.push(plain_rule("<!--", "-->", false));
    assert(markup_views(rules@) =~= seq![noinclude_rule(), comment_rule()]);
    let stripped = strip_each(&rules, chars_of(content));
    let handed_on = plain_rule("<includeonly>", "</includeonly>", true);
    let mut i: usize = 0;
    while i < stripped.len()
        invariant
            i <= stripped.len(),
            handed_on@ == includeonly_rule(),
            stripped@ == strip_all(seq![noinclude_rule(), comment_rule()], content@),
            first_match(includeonly_rule(), stripped@, 0) == first_match(
                includeonly_rule(),
                stripped@,
                i as int,
            ),
        decreases stripped.len() - i,
    {
        match find_markup(&handed_on, &stripped, i) {
            Some(found) => {
                proof {
                    crate::markup::lemma_match_at(handed_on@, stripped@, i as int);
                }
                return string_of(&stripped, found.from, found.to);
            },
            None => {},
        }
        i += 1;
    }
    string_of(&stripped, 0, stripped.len())
}

/// What is stored of a page in the namespace of the templates or of the
/// modules: the title without the namespace is the name; a template's source
/// is taken from the markup, a module's source is the markup. Any other page
/// stores nothing here.
pub open spec fn stored_source_spec(page: PageModel) -> Option<ContentModel> {
    if has_at(page.title, 0, "Template:"@) {
        Some(
            ContentModel::Template(
                SourceModel {
                    name: page.title.subrange("Template:"@.len() as int, page.title.len() as int),
                    text: template_source_spec(page.content),
                },
            ),
        )
    } else if has_at(page.title, 0, "Module:"@) {
        Some(
            ContentModel::Module(
                SourceModel {
                    name: page.title.subrange("Module:"@.len() as int, page.title.len() as int),
                    text: page.content,
                },
            ),
        )
    } else {
        None
    }
}

/// Computes [`stored_source_spec`].
pub fn stored_source(page: &Page) -> (stored: Option<PageContent>)
    ensures
        (match stored {
            Some(content) => stored_source_spec(page@) == Some(content@),
            None => stored_source_spec(page@) is None,
        }),
{
    let title = chars_of(page.title.as_str());
    let template = chars_of("Template:");
    let module = chars_of("Module:");
    if starts_at(&title, 0, &template) {
        Some(
            PageContent::Template(
                Template {
                    name: string_of(&title, template.len(), title.len()),
                    content: template_source(page.content.as_str()),
                },
            ),
        )
    } else if starts_at(&title, 0, &module) {
        Some(
            PageContent::Module(
                Module {
                    name: string_of(&title, module.len(), title.len()),
                    src: page.content.clone(),
                },
            ),
        )
    } else {
        None
    }
}

/// A dump of N page elements of the plain form, of which one has no title
/// and the others have the title of a word and a text, gives exactly N - 1
/// words: those of the others, in the order of the dump.
pub proof fn lemma_words_of_dump_with_gap(
    parts: Seq<(Option<Seq<char>>, Option<Seq<char>>)>,
    gap: int,
    languages: Set<Seq<char>>,
    parts_of_speech: Set<Seq<char>>,
)
    requires
        0 <= gap < parts.len(),
        parts[gap].0 is None,
        forall|i: int|
            0 <= i < parts.len() && i != gap ==> (#[trigger] parts[i]).0 is Some && parts[i].1
                is Some && is_word_title(parts[i].0->0),
    ensures
        ({
            let words = words_in(scan(dump_of(parts)).pages, languages, parts_of_speech);
            &&& scan(dump_of(parts)).scanner.place == Place::Finished
            &&& words.len() == parts.len() - 1
            &&& forall|i: int|
                0 <= i < parts.len() - 1 ==> (#[trigger] words[i]).name == parts[if i < gap {
                    i
                } else {
                    i + 1
                }].0->0
        }),
{
    lemma_page_without_title_is_skipped(parts, gap);
    let pages = scan(dump_of(parts)).pages;
    lemma_one_word_for_each_page(pages, languages, parts_of_speech);
}

} // verus!
