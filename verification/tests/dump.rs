use define3::parse_xml::{
    for_pages, parse_page, tag_of, PageScanner, Place, ScanAction, Tag, XmlEvent,
};

fn text(s: &str) -> XmlEvent {
    XmlEvent::Text(String::from(s))
}

fn page(title: Option<&str>, content: Option<&str>) -> Vec<XmlEvent> {
    let mut events = vec![XmlEvent::Start(Tag::Page)];
    if let Some(t) = title {
        events.extend([XmlEvent::Start(Tag::Title), text(t), XmlEvent::End(Tag::Title)]);
    }
    events.push(XmlEvent::Start(Tag::Other));
    events.push(text("0"));
    events.push(XmlEvent::End(Tag::Other));
    if let Some(c) = content {
        events.extend([
            XmlEvent::Start(Tag::Revision),
            XmlEvent::Start(Tag::Other),
            text("17"),
            XmlEvent::End(Tag::Other),
            XmlEvent::Start(Tag::Text),
            text(c),
            XmlEvent::End(Tag::Text),
            XmlEvent::End(Tag::Revision),
        ]);
    }
    events.push(XmlEvent::End(Tag::Page));
    events
}

fn titles(events: &Vec<XmlEvent>) -> (Vec<(String, String)>, bool) {
    let run = for_pages(events);
    (run.pages.into_iter().map(|p| (p.title, p.content)).collect(), run.complete)
}

fn pair(a: &str, b: &str) -> (String, String) {
    (String::from(a), String::from(b))
}

#[test]
fn tags_by_name() {
    assert_eq!(tag_of("page"), Tag::Page);
    assert_eq!(tag_of("title"), Tag::Title);
    assert_eq!(tag_of("revision"), Tag::Revision);
    assert_eq!(tag_of("text"), Tag::Text);
    assert_eq!(tag_of("Page"), Tag::Other);
    assert_eq!(tag_of("pages"), Tag::Other);
    assert_eq!(tag_of(""), Tag::Other);
    assert_eq!(tag_of("id"), Tag::Other);
}

#[test]
fn page_needs_title_and_text() {
    let both = parse_page(Some(String::from("cat")), Some(String::from("=English="))).unwrap();
    assert_eq!((both.title.as_str(), both.content.as_str()), ("cat", "=English="));
    assert!(parse_page(None, Some(String::from("x"))).is_none());
    assert!(parse_page(Some(String::from("x")), None).is_none());
    assert!(parse_page(None, None).is_none());
}

#[test]
fn pages_in_the_order_of_the_stream() {
    let mut events = vec![XmlEvent::Other, XmlEvent::Start(Tag::Other)];
    events.extend(page(Some("cat"), Some("a")));
    events.extend(page(Some("dog"), Some("b")));
    events.push(XmlEvent::End(Tag::Other));
    assert_eq!(titles(&events), (vec![pair("cat", "a"), pair("dog", "b")], true));
}

#[test]
fn page_without_title_is_skipped() {
    let mut events = Vec::new();
    events.extend(page(Some("cat"), Some("a")));
    events.extend(page(None, Some("lost")));
    events.extend(page(Some("dog"), Some("b")));
    events.extend(page(Some("eel"), Some("c")));
    assert_eq!(
        titles(&events),
        (vec![pair("cat", "a"), pair("dog", "b"), pair("eel", "c")], true)
    );
}

#[test]
fn page_without_text_is_skipped() {
    let mut events = Vec::new();
    events.extend(page(Some("cat"), None));
    events.extend(page(Some("dog"), Some("b")));
    assert_eq!(titles(&events), (vec![pair("dog", "b")], true));
}

#[test]
fn title_of_one_page_does_not_reach_the_next() {
    let mut events = Vec::new();
    events.extend(page(Some("cat"), None));
    events.extend(page(None, Some("b")));
    assert_eq!(titles(&events), (vec![], true));
}

#[test]
fn empty_stream_is_complete() {
    assert_eq!(titles(&Vec::new()), (vec![], true));
}

#[test]
fn stream_cut_within_a_page_keeps_earlier_pages() {
    let mut events = page(Some("cat"), Some("a"));
    let mut cut = page(Some("dog"), Some("b"));
    cut.truncate(6);
    events.extend(cut);
    assert_eq!(titles(&events), (vec![pair("cat", "a")], false));
}

#[test]
fn failure_stops_the_scan() {
    let mut events = page(Some("cat"), Some("a"));
    events.push(XmlEvent::Failure);
    events.extend(page(Some("dog"), Some("b")));
    assert_eq!(titles(&events), (vec![pair("cat", "a")], false));
}

#[test]
fn nothing_is_read_behind_the_end() {
    let mut events = page(Some("cat"), Some("a"));
    events.push(XmlEvent::Eof);
    events.extend(page(Some("dog"), Some("b")));
    assert_eq!(titles(&events), (vec![pair("cat", "a")], true));
}

#[test]
fn last_revision_gives_the_text() {
    let events = vec![
        XmlEvent::Start(Tag::Page),
        XmlEvent::Start(Tag::Title),
        text("cat"),
        XmlEvent::End(Tag::Title),
        XmlEvent::Start(Tag::Revision),
        XmlEvent::Start(Tag::Text),
        text("old"),
        XmlEvent::End(Tag::Text),
        XmlEvent::End(Tag::Revision),
        XmlEvent::Start(Tag::Revision),
        XmlEvent::Start(Tag::Text),
        text("new"),
        XmlEvent::End(Tag::Text),
        XmlEvent::End(Tag::Revision),
        XmlEvent::End(Tag::Page),
    ];
    assert_eq!(titles(&events), (vec![pair("cat", "new")], true));
}

#[test]
fn revision_without_text_leaves_the_page_without() {
    let events = vec![
        XmlEvent::Start(Tag::Page),
        XmlEvent::Start(Tag::Title),
        text("cat"),
        XmlEvent::End(Tag::Title),
        XmlEvent::Start(Tag::Revision),
        XmlEvent::Start(Tag::Text),
        text("old"),
        XmlEvent::End(Tag::Text),
        XmlEvent::End(Tag::Revision),
        XmlEvent::Start(Tag::Revision),
        XmlEvent::Start(Tag::Text),
        XmlEvent::End(Tag::Text),
        XmlEvent::End(Tag::Revision),
        XmlEvent::End(Tag::Page),
    ];
    assert_eq!(titles(&events), (vec![], true));
}

#[test]
fn text_outside_title_and_revision_is_passed_over() {
    let events = vec![
        text("stray"),
        XmlEvent::Start(Tag::Page),
        text("stray"),
        XmlEvent::Start(Tag::Text),
        text("not a revision"),
        XmlEvent::End(Tag::Text),
        XmlEvent::Start(Tag::Title),
        text("cat"),
        XmlEvent::End(Tag::Title),
        XmlEvent::Start(Tag::Revision),
        XmlEvent::Start(Tag::Title),
        text("not a title"),
        XmlEvent::End(Tag::Title),
        XmlEvent::Start(Tag::Text),
        text("a"),
        XmlEvent::End(Tag::Text),
        XmlEvent::End(Tag::Revision),
        XmlEvent::End(Tag::Page),
    ];
    assert_eq!(titles(&events), (vec![pair("cat", "a")], true));
}

#[test]
fn scanner_step_by_step() {
    let mut scanner = PageScanner::new();
    assert_eq!(scanner.place(), Place::Outside);
    assert!(matches!(scanner.step(XmlEvent::Start(Tag::Page)), ScanAction::Continue));
    assert_eq!(scanner.place(), Place::InPage);
    assert!(matches!(scanner.step(XmlEvent::Start(Tag::Title)), ScanAction::Continue));
    assert_eq!(scanner.place(), Place::AtTitle);
    assert!(matches!(scanner.step(text("cat")), ScanAction::Continue));
    assert_eq!(scanner.place(), Place::InPage);
    assert!(matches!(scanner.step(XmlEvent::Start(Tag::Revision)), ScanAction::Continue));
    assert_eq!(scanner.place(), Place::InRevision);
    assert!(matches!(scanner.step(XmlEvent::End(Tag::Page)), ScanAction::Continue));
    assert_eq!(scanner.place(), Place::InRevision);
    assert!(matches!(scanner.step(XmlEvent::Start(Tag::Text)), ScanAction::Continue));
    assert_eq!(scanner.place(), Place::AtText);
    assert!(matches!(scanner.step(text("a")), ScanAction::Continue));
    assert!(matches!(scanner.step(XmlEvent::End(Tag::Revision)), ScanAction::Continue));
    match scanner.step(XmlEvent::End(Tag::Page)) {
        ScanAction::Emit(page) => assert_eq!((page.title.as_str(), page.content.as_str()), ("cat", "a")),
        other => panic!("{other:?}"),
    }
    assert_eq!(scanner.place(), Place::Outside);
    assert!(matches!(scanner.step(XmlEvent::Start(Tag::Page)), ScanAction::Continue));
    assert!(matches!(scanner.step(XmlEvent::End(Tag::Page)), ScanAction::Skip));
    assert!(matches!(scanner.step(XmlEvent::Eof), ScanAction::Finish));
    assert_eq!(scanner.place(), Place::Finished);
    assert!(matches!(scanner.step(XmlEvent::Start(Tag::Page)), ScanAction::Finish));
}

#[test]
fn end_behind_a_start_tag_is_a_failure() {
    for opening in [Tag::Title, Tag::Revision] {
        let mut scanner = PageScanner::new();
        scanner.step(XmlEvent::Start(Tag::Page));
        scanner.step(XmlEvent::Start(opening));
        assert!(matches!(scanner.step(XmlEvent::Eof), ScanAction::Fail));
        assert_eq!(scanner.place(), Place::Failed);
        assert!(matches!(scanner.step(XmlEvent::Eof), ScanAction::Fail));
    }
    let mut scanner = PageScanner::new();
    scanner.step(XmlEvent::Start(Tag::Page));
    scanner.step(XmlEvent::Start(Tag::Revision));
    scanner.step(XmlEvent::Start(Tag::Text));
    assert!(matches!(scanner.step(XmlEvent::Failure), ScanAction::Fail));
}
