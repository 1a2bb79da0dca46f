//! The pages of a dump. The dump is a stream of events: tags that open and
//! close elements, and text. The scanner takes one event at a time and says
//! after each what the reader has to do: it emits a page when a page element
//! closes that held a title and a text.

use crate::text::{chars_of, optional_view, same_chars};
use crate::{page_views, Page, PageModel};
use vstd::prelude::*;

verus! {

/// The elements that the scanner tells apart.
#[derive(Clone, Copy, Debug, PartialEq, Eq, Structural)]
pub enum Tag {
    Page,
    Title,
    Revision,
    Text,
    Other,
}

/// The tag with the given name.
pub open spec fn tag_of_spec(name: Seq<char>) -> Tag {
    if name == "page"@ {
        Tag::Page
    } else if name == "title"@ {
        Tag::Title
    } else if name == "revision"@ {
        Tag::Revision
    } else if name == "text"@ {
        Tag::Text
    } else {
        Tag::Other
    }
}

/// Computes [`tag_of_spec`].
pub fn tag_of(name: &str) -> (tag: Tag)
    ensures
        tag == tag_of_spec(name@),
{
    let chars = chars_of(name);
    if same_chars(&chars, &chars_of("page")) {
        Tag::Page
    } else if same_chars(&chars, &chars_of("title")) {
        Tag::Title
    } else if same_chars(&chars, &chars_of("revision")) {
        Tag::Revision
    } else if same_chars(&chars, &chars_of("text")) {
        Tag::Text
    } else {
        Tag::Other
    }
}

/// An event of the stream.
#[derive(Debug)]
pub enum XmlEvent {
    /// The start tag of an element.
    Start(Tag),
    /// The end tag of an element.
    End(Tag),
    /// Character data, with its escapes resolved.
    Text(String),
    /// The end of the stream.
    Eof,
    /// The stream could not be read.
    Failure,
    /// Anything else: a comment, a declaration, an element without content.
    Other,
}

/// The mathematical value of an [`XmlEvent`].
pub enum EventModel {
    Start(Tag),
    End(Tag),
    Text(Seq<char>),
    Eof,
    Failure,
    Other,
}

impl View for XmlEvent {
    type V = EventModel;

    open spec fn view(&self) -> EventModel {
        match self {
            XmlEvent::Start(tag) => EventModel::Start(*tag),
            XmlEvent::End(tag) => EventModel::End(*tag),
            XmlEvent::Text(text) => EventModel::Text(text@),
            XmlEvent::Eof => EventModel::Eof,
            XmlEvent::Failure => EventModel::Failure,
            XmlEvent::Other => EventModel::Other,
        }
    }
}

/// The views of the events of `v`.
pub open spec fn event_views(v: Seq<XmlEvent>) -> Seq<EventModel> {
    Seq::new(v.len(), |i: int| v[i]@)
}

/// Where in the stream the scanner stands.
#[derive(Clone, Copy, Debug, PartialEq, Eq, Structural)]
pub enum Place {
    /// Between two pages.
    Outside,
    /// In a page element.
    InPage,
    /// Behind the start tag of a title: the next event may be its text.
    AtTitle,
    /// In a revision element.
    InRevision,
    /// Behind the start tag of a revision's text: the next event may be it.
    AtText,
    /// Behind the end of the stream, which came between two pages.
    Finished,
    /// Behind a failure, or behind an end that came within a page.
    Failed,
}

/// What the reader has to do after an event.
#[derive(Debug)]
pub enum ScanAction {
    /// Read the next event.
    Continue,
    /// Take this page, and read the next event.
    Emit(Page),
    /// A page element closed without a title or without a text: read the next
    /// event.
    Skip,
    /// Stop: the stream has ended.
    Finish,
    /// Stop: the stream is broken or cut short. The pages emitted so far
    /// stand.
    Fail,
}

/// The mathematical value of a [`ScanAction`].
pub enum ActionModel {
    Continue,
    Emit(PageModel),
    Skip,
    Finish,
    Fail,
}

impl View for ScanAction {
    type V = ActionModel;

    open spec fn view(&self) -> ActionModel {
        match self {
            ScanAction::Continue => ActionModel::Continue,
            ScanAction::Emit(page) => ActionModel::Emit(page@),
            ScanAction::Skip => ActionModel::Skip,
            ScanAction::Finish => ActionModel::Finish,
            ScanAction::Fail => ActionModel::Fail,
        }
    }
}

/// The scanner: where it stands, and what it has found of the page it is in.
pub struct PageScanner {
    place: Place,
    title: Option<String>,
    content: Option<String>,
}

/// The mathematical value of a [`PageScanner`].
pub struct ScannerModel {
    pub place: Place,
    pub title: Option<Seq<char>>,
    pub content: Option<Seq<char>>,
}

impl View for PageScanner {
    type V = ScannerModel;

    closed spec fn view(&self) -> ScannerModel {
        ScannerModel {
            place: self.place,
            title: optional_view(self.title),
            content: optional_view(self.content),
        }
    }
}

/// The scanner before the first event.
pub open spec fn initial_scanner() -> ScannerModel {
    ScannerModel { place: Place::Outside, title: None, content: None }
}

/// The page that a page element gives: one with the title and the text that
/// were found in it, if both were.
pub open spec fn page_of(title: Option<Seq<char>>, content: Option<Seq<char>>) -> Option<PageModel> {
    match (title, content) {
        (Some(title), Some(content)) => Some(PageModel { title, content }),
        _ => None,
    }
}

/// The scanner `s` at another place.
pub open spec fn moved(s: ScannerModel, place: Place) -> ScannerModel {
    ScannerModel { place, title: s.title, content: s.content }
}

/// The scanner after an event, and what the reader has to do.
///
/// Between pages, the start of a page element enters it and the end of the
/// stream finishes the scan. In a page, a title and a revision are looked
/// into, and the end of the page gives the page or skips it. The event behind
/// the start of a title, if it is text, is the title; any other event there is
/// passed over. A revision begins without text; the event behind the start of
/// a text element in it, if it is text, is the revision's text, and the text
/// of the last revision is the content of the page. A failure stops the scan
/// wherever it comes, and so does the end of the stream within a page.
pub open spec fn step_spec(s: ScannerModel, event: EventModel) -> (ScannerModel, ActionModel) {
    match s.place {
        Place::Finished => (s, ActionModel::Finish),
        Place::Failed => (s, ActionModel::Fail),
        Place::Outside => match event {
            EventModel::Start(Tag::Page) => (
                ScannerModel { place: Place::InPage, title: None, content: None },
                ActionModel::Continue,
            ),
            EventModel::Eof => (moved(s, Place::Finished), ActionModel::Finish),
            EventModel::Failure => (moved(s, Place::Failed), ActionModel::Fail),
            _ => (s, ActionModel::Continue),
        },
        Place::InPage => match event {
            EventModel::Start(Tag::Title) => (moved(s, Place::AtTitle), ActionModel::Continue),
            EventModel::Start(Tag::Revision) => (
                ScannerModel { place: Place::InRevision, title: s.title, content: None },
                ActionModel::Continue,
            ),
            EventModel::End(Tag::Page) => (
                ScannerModel { place: Place::Outside, title: None, content: None },
                match page_of(s.title, s.content) {
                    Some(page) => ActionModel::Emit(page),
                    None => ActionModel::Skip,
                },
            ),
            EventModel::Eof => (moved(s, Place::Failed), ActionModel::Fail),
            EventModel::Failure => (moved(s, Place::Failed), ActionModel::Fail),
            _ => (s, ActionModel::Continue),
        },
        Place::AtTitle => match event {
            EventModel::Text(text) => (
                ScannerModel { place: Place::InPage, title: Some(text), content: s.content },
                ActionModel::Continue,
            ),
            EventModel::Eof => (moved(s, Place::Failed), ActionModel::Fail),
            EventModel::Failure => (moved(s, Place::Failed), ActionModel::Fail),
            _ => (moved(s, Place::InPage), ActionModel::Continue),
        },
        Place::InRevision => match event {
            EventModel::Start(Tag::Text) => (moved(s, Place::AtText), ActionModel::Continue),
            EventModel::End(Tag::Revision) => (moved(s, Place::InPage), ActionModel::Continue),
            EventModel::Eof => (moved(s, Place::Failed), ActionModel::Fail),
            EventModel::Failure => (moved(s, Place::Failed), ActionModel::Fail),
            _ => (s, ActionModel::Continue),
        },
        Place::AtText => match event {
            EventModel::Text(text) => (
                ScannerModel { place: Place::InRevision, title: s.title, content: Some(text) },
                ActionModel::Continue,
            ),
            EventModel::Eof => (moved(s, Place::Failed), ActionModel::Fail),
            EventModel::Failure => (moved(s, Place::Failed), ActionModel::Fail),
            _ => (moved(s, Place::InRevision), ActionModel::Continue),
        },
    }
}

/// Assembles the page of a page element from what was found in it: `None`
/// where the title or the text is missing.
pub fn parse_page(title: Option<String>, content: Option<String>) -> (page: Option<Page>)
    ensures
        (match page {
            Some(p) => page_of(optional_view(title), optional_view(content)) == Some(p@),
            None => page_of(optional_view(title), optional_view(content)) is None,
        }),
{
    match (title, content) {
        (Some(title), Some(content)) => Some(Page { title, content }),
        _ => None,
    }
}

impl PageScanner {
    /// The scanner before the first event.
    pub fn new() -> (scanner: PageScanner)
        ensures
            scanner@ == initial_scanner(),
    {
        PageScanner { place: Place::Outside, title: None, content: None }
    }

    /// Where the scanner stands.
    pub fn place(&self) -> (place: Place)
        ensures
            place == self@.place,
    {
        self.place
    }

    /// Takes an event.
    pub fn step(&mut self, event: XmlEvent) -> (action: ScanAction)
        ensures
            (final(self)@, action@) == step_spec(old(self)@, event@),
    {
        match self.place {
            Place::Finished => ScanAction::Finish,
            Place::Failed => ScanAction::Fail,
            Place::Outside => match event {
                XmlEvent::Start(Tag::Page) => {
                    self.place = Place::InPage;
                    self.title = None;
                    self.content = None;
                    ScanAction::Continue
                },
                XmlEvent::Eof => {
                    self.place = Place::Finished;
                    ScanAction::Finish
                },
                XmlEvent::Failure => {
                    self.place = Place::Failed;
                    ScanAction::Fail
                },
                _ => ScanAction::Continue,
            },
            Place::InPage => match event {
                XmlEvent::Start(Tag::Title) => {
                    self.place = Place::AtTitle;
                    ScanAction::Continue
                },
                XmlEvent::Start(Tag::Revision) => {
                    self.place = Place::InRevision;
                    self.content = None;
                    ScanAction::Continue
                },
                XmlEvent::End(Tag::Page) => {
                    self.place = Place::Outside;
                    let title = self.title.take();
                    let content = self.content.take();
                    match parse_page(title, content) {
                        Some(page) => ScanAction::Emit(page),
                        None => ScanAction::Skip,
                    }
                },
                XmlEvent::Eof => {
                    self.place = Place::Failed;
                    ScanAction::Fail
                },
                XmlEvent::Failure => {
                    self.place = Place::Failed;
                    ScanAction::Fail
                },
                _ => ScanAction::Continue,
            },
            Place::AtTitle => match event {
                XmlEvent::Text(text) => {
                    self.place = Place::InPage;
                    self.title = Some(text);
                    ScanAction::Continue
                },
                XmlEvent::Eof => {
                    self.place = Place::Failed;
                    ScanAction::Fail
                },
                XmlEvent::Failure => {
                    self.place = Place::Failed;
                    ScanAction::Fail
                },
                _ => {
                    self.place = Place::InPage;
                    ScanAction::Continue
                },
            },
            Place::InRevision => match event {
                XmlEvent::Start(Tag::Text) => {
                    self.place = Place::AtText;
                    ScanAction::Continue
                },
                XmlEvent::End(Tag::Revision) => {
                    self.place = Place::InPage;
                    ScanAction::Continue
                },
                XmlEvent::Eof => {
                    self.place = Place::Failed;
                    ScanAction::Fail
                },
                XmlEvent::Failure => {
                    self.place = Place::Failed;
                    ScanAction::Fail
                },
                _ => ScanAction::Continue,
            },
            Place::AtText => match event {
                XmlEvent::Text(text) => {
                    self.place = Place::InRevision;
                    self.content = Some(text);
                    ScanAction::Continue
                },
                XmlEvent::Eof => {
                    self.place = Place::Failed;
                    ScanAction::Fail
                },
                XmlEvent::Failure => {
                    self.place = Place::Failed;
                    ScanAction::Fail
                },
                _ => {
                    self.place = Place::InRevision;
                    ScanAction::Continue
                },
            },
        }
    }
}

/// A scan under way: the scanner, and the pages emitted so far.
pub struct RunModel {
    pub scanner: ScannerModel,
    pub pages: Seq<PageModel>,
}

/// The scan before the first event.
pub open spec fn initial_run() -> RunModel {
    RunModel { scanner: initial_scanner(), pages: Seq::empty() }
}

/// The scan after one more event.
pub open spec fn advance(run: RunModel, event: EventModel) -> RunModel {
    let (scanner, action) = step_spec(run.scanner, event);
    RunModel {
        scanner,
        pages: match action {
            ActionModel::Emit(page) => run.pages.push(page),
            _ => run.pages,
        },
    }
}

/// The scan `run` after the events of `events`, in order.
pub open spec fn scan_on(run: RunModel, events: Seq<EventModel>) -> RunModel
    decreases events.len(),
{
    if events.len() == 0 {
        run
    } else {
        advance(scan_on(run, events.drop_last()), events.last())
    }
}

/// The scan of a whole stream: of `events` and the end that follows them.
pub open spec fn scan(events: Seq<EventModel>) -> RunModel {
    scan_on(initial_run(), events.push(EventModel::Eof))
}

/// The pages of a stream and how its scan ended.
pub struct PageRun {
    /// The pages, in the order of the stream.
    pub pages: Vec<Page>,
    /// Whether the stream was read to its end, and ended between two pages.
    pub complete: bool,
}

fn copy_event(event: &XmlEvent) -> (copy: XmlEvent)
    ensures
        copy@ == event@,
{
    match event {
        XmlEvent::Start(tag) => XmlEvent::Start(*tag),
        XmlEvent::End(tag) => XmlEvent::End(*tag),
        XmlEvent::Text(text) => XmlEvent::Text(text.clone()),
        XmlEvent::Eof => XmlEvent::Eof,
        XmlEvent::Failure => XmlEvent::Failure,
        XmlEvent::Other => XmlEvent::Other,
    }
}

/// Scans a recorded stream: the scanner takes the events in order, and the
/// end of the stream behind them.
pub fn for_pages(events: &Vec<XmlEvent>) -> (run: PageRun)
    ensures
        page_views(run.pages@) == scan(event_views(events@)).pages,
        run.complete == (scan(event_views(events@)).scanner.place == Place::Finished),
{
    let mut scanner = PageScanner::new();
    let mut pages: Vec<Page> = Vec::new();
    let ghost all = event_views(events@);
    let mut i: usize = 0;
    assert(page_views(pages@) =~= Seq::<PageModel>::empty());
    while i < events.len()
        invariant
            i <= events.len(),
            all == event_views(events@),
            (RunModel { scanner: scanner@, pages: page_views(pages@) }) == scan_on(
                initial_run(),
                all.take(i as int),
            ),
        decreases events.len() - i,
    {
        proof {
            assert(all.take(i + 1).drop_last() =~= all.take(i as int));
        }
        let ghost earlier = page_views(pages@);
        match scanner.step(copy_event(&events[i])) {
            ScanAction::Emit(page) => {
                pages.push(page);
                assert(page_views(pages@) =~= earlier.push(page@));
            },
            _ => {},
        }
        i += 1;
    }
    proof {
        assert(all.take(events@.len() as int) =~= all);
        assert(all.push(EventModel::Eof).drop_last() =~= all);
    }
    match scanner.step(XmlEvent::Eof) {
        ScanAction::Emit(page) => {
            pages.push(page);
        },
        _ => {},
    }
    let complete = scanner.place() == Place::Finished;
    PageRun { pages, complete }
}

/// Scanning one stretch of events after another is scanning the two as one.
pub proof fn lemma_scan_on_concat(run: RunModel, a: Seq<EventModel>, b: Seq<EventModel>)
    ensures
        scan_on(run, a + b) == scan_on(scan_on(run, a), b),
    decreases b.len(),
{
    if b.len() > 0 {
        assert((a + b).drop_last() =~= a + b.drop_last());
        lemma_scan_on_concat(run, a, b.drop_last());
    }
}

/// The events of a title element that holds `title`; none for `None`.
pub open spec fn title_element(title: Option<Seq<char>>) -> Seq<EventModel> {
    match title {
        Some(t) => seq![
            EventModel::Start(Tag::Title),
            EventModel::Text(t),
            EventModel::End(Tag::Title),
        ],
        None => Seq::empty(),
    }
}

/// The events of a revision element with the text `content`; none for `None`.
pub open spec fn revision_element(content: Option<Seq<char>>) -> Seq<EventModel> {
    match content {
        Some(c) => seq![
            EventModel::Start(Tag::Revision),
            EventModel::Start(Tag::Text),
            EventModel::Text(c),
            EventModel::End(Tag::Text),
            EventModel::End(Tag::Revision),
        ],
        None => Seq::empty(),
    }
}

/// The events of a page element of the plain form: a title, then a revision
/// with its text, each of which may be missing.
pub open spec fn page_element(title: Option<Seq<char>>, content: Option<Seq<char>>) -> Seq<
    EventModel,
> {
    seq![EventModel::Start(Tag::Page)] + title_element(title) + revision_element(content)
        + seq![EventModel::End(Tag::Page)]
}

/// The events of a dump made of page elements of the plain form, one for
/// each pair of `parts`.
pub open spec fn dump_of(parts: Seq<(Option<Seq<char>>, Option<Seq<char>>)>) -> Seq<EventModel>
    decreases parts.len(),
{
    if parts.len() == 0 {
        Seq::empty()
    } else {
        dump_of(parts.drop_last()) + page_element(parts.last().0, parts.last().1)
    }
}

/// The pages of the pairs that have both a title and a text, in order.
pub open spec fn pages_in(parts: Seq<(Option<Seq<char>>, Option<Seq<char>>)>) -> Seq<PageModel>
    decreases parts.len(),
{
    if parts.len() == 0 {
        Seq::empty()
    } else {
        match page_of(parts.last().0, parts.last().1) {
            Some(page) => pages_in(parts.drop_last()).push(page),
            None => pages_in(parts.drop_last()),
        }
    }
}

proof fn lemma_scan_one(run: RunModel, event: EventModel)
    ensures
        scan_on(run, seq![event]) == advance(run, event),
{
    let none = seq![event].drop_last();
    assert(scan_on(run, none) == run);
}

proof fn lemma_scan_title(run: RunModel, title: Option<Seq<char>>)
    requires
        run.scanner.place == Place::InPage,
    ensures
        scan_on(run, title_element(title)) == (RunModel {
            scanner: ScannerModel {
                place: Place::InPage,
                title: match title {
                    Some(t) => Some(t),
                    None => run.scanner.title,
                },
                content: run.scanner.content,
            },
            pages: run.pages,
        }),
{
    if let Some(t) = title {
        let a = EventModel::Start(Tag::Title);
        let b = EventModel::Text(t);
        let c = EventModel::End(Tag::Title);
        assert(seq![a, b, c] =~= seq![a] + seq![b] + seq![c]);
        lemma_scan_on_concat(run, seq![a] + seq![b], seq![c]);
        lemma_scan_on_concat(run, seq![a], seq![b]);
        lemma_scan_one(run, a);
        lemma_scan_one(advance(run, a), b);
        lemma_scan_one(advance(advance(run, a), b), c);
    }
}

proof fn lemma_scan_revision(run: RunModel, content: Option<Seq<char>>)
    requires
        run.scanner.place == Place::InPage,
    ensures
        scan_on(run, revision_element(content)) == (RunModel {
            scanner: ScannerModel {
                place: Place::InPage,
                title: run.scanner.title,
                content: match content {
                    Some(c) => Some(c),
                    None => run.scanner.content,
                },
            },
            pages: run.pages,
        }),
{
    if let Some(t) = content {
        let a = EventModel::Start(Tag::Revision);
        let b = EventModel::Start(Tag::Text);
        let c = EventModel::Text(t);
        let d = EventModel::End(Tag::Text);
        let e = EventModel::End(Tag::Revision);
        assert(seq![a, b, c, d, e] =~= seq![a] + seq![b] + seq![c] + seq![d] + seq![e]);
        lemma_scan_on_concat(run, seq![a] + seq![b] + seq![c] + seq![d], seq![e]);
        lemma_scan_on_concat(run, seq![a] + seq![b] + seq![c], seq![d]);
        lemma_scan_on_concat(run, seq![a] + seq![b], seq![c]);
        lemma_scan_on_concat(run, seq![a], seq![b]);
        let r1 = advance(run, a);
        let r2 = advance(r1, b);
        let r3 = advance(r2, c);
        let r4 = advance(r3, d);
        lemma_scan_one(run, a);
        lemma_scan_one(r1, b);
        lemma_scan_one(r2, c);
        lemma_scan_one(r3, d);
        lemma_scan_one(r4, e);
    }
}

/// Between two pages, a page element of the plain form gives its page if it
/// has a title and a text, and leaves the scanner between two pages.
pub proof fn lemma_scan_page_element(
    run: RunModel,
    title: Option<Seq<char>>,
    content: Option<Seq<char>>,
)
    requires
        run.scanner.place == Place::Outside,
    ensures
        scan_on(run, page_element(title, content)) == (RunModel {
            scanner: initial_scanner(),
            pages: match page_of(title, content) {
                Some(page) => run.pages.push(page),
                None => run.pages,
            },
        }),
{
    let open = seq![EventModel::Start(Tag::Page)];
    let close = seq![EventModel::End(Tag::Page)];
    lemma_scan_on_concat(run, open + title_element(title) + revision_element(content), close);
    lemma_scan_on_concat(run, open + title_element(title), revision_element(content));
    lemma_scan_on_concat(run, open, title_element(title));
    lemma_scan_one(run, EventModel::Start(Tag::Page));
    let r1 = advance(run, EventModel::Start(Tag::Page));
    lemma_scan_title(r1, title);
    let r2 = scan_on(r1, title_element(title));
    lemma_scan_revision(r2, content);
    let r3 = scan_on(r2, revision_element(content));
    lemma_scan_one(r3, EventModel::End(Tag::Page));
}

proof fn lemma_scan_dump(parts: Seq<(Option<Seq<char>>, Option<Seq<char>>)>)
    ensures
        scan_on(initial_run(), dump_of(parts)) == (RunModel {
            scanner: initial_scanner(),
            pages: pages_in(parts),
        }),
    decreases parts.len(),
{
    if parts.len() > 0 {
        lemma_scan_dump(parts.drop_last());
        lemma_scan_on_concat(
            initial_run(),
            dump_of(parts.drop_last()),
            page_element(parts.last().0, parts.last().1),
        );
        lemma_scan_page_element(
            scan_on(initial_run(), dump_of(parts.drop_last())),
            parts.last().0,
            parts.last().1,
        );
    }
}

/// The scan of a dump made of page elements of the plain form gives the page
/// of each element that has a title and a text, in the order of the dump, and
/// is complete: an element without a title or without a text is passed over
/// and does not stop the scan.
pub proof fn lemma_dump_pages(parts: Seq<(Option<Seq<char>>, Option<Seq<char>>)>)
    ensures
        scan(dump_of(parts)).pages == pages_in(parts),
        scan(dump_of(parts)).scanner.place == Place::Finished,
{
    let events = dump_of(parts);
    lemma_scan_dump(parts);
    assert(events.push(EventModel::Eof) =~= events + seq![EventModel::Eof]);
    lemma_scan_on_concat(initial_run(), events, seq![EventModel::Eof]);
    lemma_scan_one(scan_on(initial_run(), events), EventModel::Eof);
}

/// The page of a pair that has a title and a text.
pub open spec fn whole_page(part: (Option<Seq<char>>, Option<Seq<char>>)) -> PageModel {
    PageModel { title: part.0->0, content: part.1->0 }
}

proof fn lemma_pages_in_whole(parts: Seq<(Option<Seq<char>>, Option<Seq<char>>)>)
    requires
        forall|i: int| 0 <= i < parts.len() ==> (#[trigger] parts[i]).0 is Some && parts[i].1 is Some,
    ensures
        pages_in(parts) == Seq::new(parts.len(), |i: int| whole_page(parts[i])),
    decreases parts.len(),
{
    if parts.len() > 0 {
        let earlier = parts.drop_last();
        lemma_pages_in_whole(earlier);
    }
}

proof fn lemma_pages_in_but_one(parts: Seq<(Option<Seq<char>>, Option<Seq<char>>)>, gap: int)
    requires
        0 <= gap < parts.len(),
        parts[gap].0 is None,
        forall|i: int|
            0 <= i < parts.len() && i != gap ==> (#[trigger] parts[i]).0 is Some && parts[i].1
                is Some,
    ensures
        pages_in(parts) == Seq::new(
            (parts.len() - 1) as nat,
            |i: int|
                if i < gap {
                    whole_page(parts[i])
                } else {
                    whole_page(parts[i + 1])
                },
        ),
    decreases parts.len(),
{
    let earlier = parts.drop_last();
    if gap == parts.len() - 1 {
        lemma_pages_in_whole(earlier);
    } else {
        lemma_pages_in_but_one(earlier, gap);
    }
}

/// A dump of N page elements of the plain form, of which one has no title and
/// the others have a title and a text, gives exactly the N - 1 pages of the
/// others, in the order of the dump, and its scan is complete.
pub proof fn lemma_page_without_title_is_skipped(
    parts: Seq<(Option<Seq<char>>, Option<Seq<char>>)>,
    gap: int,
)
    requires
        0 <= gap < parts.len(),
        parts[gap].0 is None,
        forall|i: int|
            0 <= i < parts.len() && i != gap ==> (#[trigger] parts[i]).0 is Some && parts[i].1
                is Some,
    ensures
        scan(dump_of(parts)).pages.len() == parts.len() - 1,
        forall|i: int| 0 <= i < gap ==> scan(dump_of(parts)).pages[i] == whole_page(parts[i]),
        forall|i: int|
            gap <= i < parts.len() - 1 ==> scan(dump_of(parts)).pages[i] == whole_page(parts[i + 1]),
        scan(dump_of(parts)).scanner.place == Place::Finished,
{
    lemma_dump_pages(parts);
    lemma_pages_in_but_one(parts, gap);
}

} // verus!
