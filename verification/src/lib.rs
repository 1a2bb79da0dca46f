//! Extraction of dictionary entries from wiki markup, and their rendering.
//!
//! A page of wiki markup is read line by line: headings open and close
//! sections, and a definition line is kept when it stands in a section whose
//! headings name a known language and a known part of speech. A stored
//! definition is rendered by expanding the templates it invokes and stripping
//! what markup is left.
//!
//! - [`parse_wikitext`]: the stack of open sections and the parser of a page.
//! - [`template`]: the template expander.
//! - [`markup`]: the markup cleaner.
//! - [`parse_xml`]: the scanner that finds the pages in the events of a dump.
//! - [`ingest`]: what a page holds, and the words of a sequence of pages.
//! - [`render`]: the grouping of stored meanings and their layout for display.
//! - [`vocabulary`] and [`text`]: sets of words, and sequences of characters.

use vstd::prelude::*;

pub mod ingest;
pub mod markup;
pub mod parse_wikitext;
pub mod parse_xml;
pub mod render;
pub mod template;
pub mod text;
pub mod vocabulary;

verus! {

/// One sense of a word: the language and part of speech whose sections hold
/// it, and the definition as it stands in the markup.
#[derive(Debug)]
pub struct Meaning {
    pub language: String,
    pub part_of_speech: String,
    pub definition: String,
}

/// The mathematical value of a [`Meaning`].
pub struct MeaningModel {
    pub language: Seq<char>,
    pub part_of_speech: Seq<char>,
    pub definition: Seq<char>,
}

impl View for Meaning {
    type V = MeaningModel;

    open spec fn view(&self) -> MeaningModel {
        MeaningModel {
            language: self.language@,
            part_of_speech: self.part_of_speech@,
            definition: self.definition@,
        }
    }
}

/// The views of the meanings of `v`.
pub open spec fn meaning_views(v: Seq<Meaning>) -> Seq<MeaningModel> {
    Seq::new(v.len(), |i: int| v[i]@)
}

/// A page of the dump: its title and the markup of its latest revision.
#[derive(Debug)]
pub struct Page {
    pub title: String,
    pub content: String,
}

/// The mathematical value of a [`Page`].
pub struct PageModel {
    pub title: Seq<char>,
    pub content: Seq<char>,
}

impl View for Page {
    type V = PageModel;

    open spec fn view(&self) -> PageModel {
        PageModel { title: self.title@, content: self.content@ }
    }
}

/// The views of the pages of `v`.
pub open spec fn page_views(v: Seq<Page>) -> Seq<PageModel> {
    Seq::new(v.len(), |i: int| v[i]@)
}

/// A word: the title of its page and the meanings that the page holds, in
/// the order of its lines.
#[derive(Debug)]
pub struct Word {
    pub name: String,
    pub meanings: Vec<Meaning>,
}

/// The mathematical value of a [`Word`].
pub struct WordModel {
    pub name: Seq<char>,
    pub meanings: Seq<MeaningModel>,
}

impl View for Word {
    type V = WordModel;

    open spec fn view(&self) -> WordModel {
        WordModel { name: self.name@, meanings: meaning_views(self.meanings@) }
    }
}

/// The views of the words of `v`.
pub open spec fn word_views(v: Seq<Word>) -> Seq<WordModel> {
    Seq::new(v.len(), |i: int| v[i]@)
}

/// A template: its name and its source.
#[derive(Debug)]
pub struct Template {
    pub name: String,
    pub content: String,
}

/// A module: its name and its source.
#[derive(Debug)]
pub struct Module {
    pub name: String,
    pub src: String,
}

/// The mathematical value of a [`Template`] or a [`Module`]: a name and a
/// source text.
pub struct SourceModel {
    pub name: Seq<char>,
    pub text: Seq<char>,
}

impl View for Template {
    type V = SourceModel;

    open spec fn view(&self) -> SourceModel {
        SourceModel { name: self.name@, text: self.content@ }
    }
}

impl View for Module {
    type V = SourceModel;

    open spec fn view(&self) -> SourceModel {
        SourceModel { name: self.name@, text: self.src@ }
    }
}

/// What a page holds.
#[derive(Debug)]
pub enum PageContent {
    Word(Word),
    Template(Template),
    Module(Module),
}

/// The mathematical value of a [`PageContent`].
pub enum ContentModel {
    Word(WordModel),
    Template(SourceModel),
    Module(SourceModel),
}

impl View for PageContent {
    type V = ContentModel;

    open spec fn view(&self) -> ContentModel {
        match self {
            PageContent::Word(word) => ContentModel::Word(word@),
            PageContent::Template(template) => ContentModel::Template(template@),
            PageContent::Module(module) => ContentModel::Module(module@),
        }
    }
}

} // verus!
