use default_extractor::dates::NaiveDate;
use default_extractor::dates::NaiveDateWithOptionalTime;
use default_extractor::dom::build_dom;
use default_extractor::dom::DomChild;
use default_extractor::dom::DomNode;
use default_extractor::dom::DomToken;
use default_extractor::extractors::largest_element_with_single_date::element_to_one_event;
use default_extractor::extractors::largest_element_with_single_date::extract_text;
use default_extractor::extractors::largest_element_with_single_date::LargestElementWithSingleDateExtractor;
use default_extractor::extractors::smallest_div_with_date::SmallestDivWithDateExtractor;
use default_extractor::extractors::EventExtractor;
use default_extractor::html::parse_document;
use default_extractor::models::Event;

fn text_node(s: &str) -> DomChild {
    DomChild::Text(String::from(s))
}

fn elem(tag: &str, children: Vec<DomChild>) -> DomNode {
    DomNode { tag: String::from(tag), children }
}

fn doc(children: Vec<DomChild>) -> DomNode {
    elem("", children)
}

#[test]
fn no_entry_element_yields_nothing() {
    // Scenario: a document with no main, body or html element.
    let tree = doc(vec![DomChild::Elem(elem("div", vec![text_node(
        "Concert Night 12.03. Tickets available now",
    )]))]);
    let from = NaiveDate::from_ymd(2022, 1, 1);
    let events = LargestElementWithSingleDateExtractor::events_from_dom(&tree, &from);
    assert_eq!(events.len(), 0);
}

#[test]
fn single_div_yields_one_event() {
    // Scenario: a body with one div whose text carries one date.
    let tree = doc(vec![DomChild::Elem(elem("body", vec![DomChild::Elem(elem("div", vec![
        text_node("Concert  Night \t 12.03.  Tickets   available now"),
    ]))]))]);
    let from = NaiveDate::from_ymd(2022, 1, 1);
    let events = LargestElementWithSingleDateExtractor::events_from_dom(&tree, &from);
    assert_eq!(events.len(), 1);
    assert_eq!(events[0].text, "Concert Night 12.03. Tickets available now");
    assert_eq!(events[0].date, NaiveDate { year: 2022, month: 3, day: 12 });
}

#[test]
fn sibling_events_stay_separate() {
    // Scenario: two sibling divs, each one event; the parent returns
    // both in document order and never merges them, though its own
    // concatenated text carries exactly one date under grammar
    // priority.
    let tree = doc(vec![DomChild::Elem(elem("body", vec![DomChild::Elem(elem("div", vec![
        DomChild::Elem(elem("div", vec![text_node("Morning concert 12.03. in the park")])),
        DomChild::Elem(elem("div", vec![text_node("Evening recital 13. M\u{e4}rz at the hall")])),
    ]))]))]);
    let from = NaiveDate::from_ymd(2022, 1, 1);
    let events = LargestElementWithSingleDateExtractor::events_from_dom(&tree, &from);
    assert_eq!(events.len(), 2);
    assert_eq!(events[0].text, "Morning concert 12.03. in the park");
    assert_eq!(events[0].date, NaiveDate { year: 2022, month: 3, day: 12 });
    assert_eq!(events[1].text, "Evening recital 13. M\u{e4}rz at the hall");
    assert_eq!(events[1].date, NaiveDate { year: 2022, month: 3, day: 13 });
}

#[test]
fn invalid_date_yields_no_event() {
    // Scenario: a pattern-shaped but impossible calendar date.
    let node = elem("div", vec![text_node("31.02. Eventtext that is long enough")]);
    assert!(element_to_one_event(&node, 2022).is_none());
    let tree = doc(vec![DomChild::Elem(elem("body", vec![DomChild::Elem(node)]))]);
    let from = NaiveDate::from_ymd(2022, 1, 1);
    let events = LargestElementWithSingleDateExtractor::events_from_dom(&tree, &from);
    assert_eq!(events.len(), 0);
}

#[test]
fn short_text_yields_no_event() {
    // The leaf threshold: 15 characters is not enough, 16 is.
    let short = elem("body", vec![text_node("Show 12.03. abc")]);
    let from = NaiveDate::from_ymd(2022, 1, 1);
    let tree = doc(vec![DomChild::Elem(short)]);
    assert_eq!(LargestElementWithSingleDateExtractor::events_from_dom(&tree, &from).len(), 0);

    let long = elem("body", vec![text_node("Show 12.03. abcd")]);
    let tree2 = doc(vec![DomChild::Elem(long)]);
    let events = LargestElementWithSingleDateExtractor::events_from_dom(&tree2, &from);
    assert_eq!(events.len(), 1);
    assert_eq!(events[0].text.chars().count(), 16);
}

#[test]
fn two_dates_refuse_synthesis() {
    let node = elem("div", vec![text_node("A 12.03. B 14.04. something long here")]);
    assert!(element_to_one_event(&node, 2022).is_none());
}

#[test]
fn larger_element_wins_over_single_child() {
    // One child event, and the parent's fuller text still carries
    // exactly one date: the broader synthesis replaces the child's.
    let tree = doc(vec![DomChild::Elem(elem("body", vec![DomChild::Elem(elem("div", vec![
        text_node("Great ensemble plays tonight "),
        DomChild::Elem(elem("div", vec![text_node("Tickets from 12.03. at the box office")])),
    ]))]))]);
    let from = NaiveDate::from_ymd(2022, 1, 1);
    let events = LargestElementWithSingleDateExtractor::events_from_dom(&tree, &from);
    assert_eq!(events.len(), 1);
    assert_eq!(
        events[0].text,
        "Great ensemble plays tonight Tickets from 12.03. at the box office"
    );
}

#[test]
fn date_filter_drops_earlier_events() {
    let tree = doc(vec![DomChild::Elem(elem("body", vec![text_node(
        "Concert Night 12.03. Tickets available now",
    )]))]);
    let before = NaiveDate::from_ymd(2022, 6, 1);
    assert_eq!(LargestElementWithSingleDateExtractor::events_from_dom(&tree, &before).len(), 0);
    let on = NaiveDate::from_ymd(2022, 3, 12);
    assert_eq!(LargestElementWithSingleDateExtractor::events_from_dom(&tree, &on).len(), 1);
}

#[test]
fn extraction_is_deterministic() {
    let tree = doc(vec![DomChild::Elem(elem("body", vec![DomChild::Elem(elem("div", vec![
        DomChild::Elem(elem("div", vec![text_node("Morning concert 12.03. in the park")])),
        DomChild::Elem(elem("div", vec![text_node("Evening recital 14.04. at the hall")])),
    ]))]))]);
    let from = NaiveDate::from_ymd(2022, 1, 1);
    let a = LargestElementWithSingleDateExtractor::events_from_dom(&tree, &from);
    let b = LargestElementWithSingleDateExtractor::events_from_dom(&tree, &from);
    assert_eq!(a.len(), b.len());
    for (x, y) in a.iter().zip(b.iter()) {
        assert_eq!(x.text, y.text);
        assert_eq!(x.date, y.date);
    }
}

#[test]
fn main_preferred_over_body() {
    let tree = doc(vec![DomChild::Elem(elem("body", vec![
        text_node("Body show 14.04. somewhere else here"),
        DomChild::Elem(elem("main", vec![text_node("Main stage 12.03. tickets availabl")])),
    ]))]);
    let from = NaiveDate::from_ymd(2022, 1, 1);
    let events = LargestElementWithSingleDateExtractor::events_from_dom(&tree, &from);
    assert_eq!(events.len(), 1);
    assert_eq!(events[0].date, NaiveDate { year: 2022, month: 3, day: 12 });
}

#[test]
fn untraversable_children_are_not_recursed_into() {
    // A table is no traversable container: its text still counts
    // toward the body's full text, but no event is sought inside it.
    let tree = doc(vec![DomChild::Elem(elem("body", vec![DomChild::Elem(elem("table", vec![
        text_node("Tabled show 12.03. in the annex"),
    ]))]))]);
    let from = NaiveDate::from_ymd(2022, 1, 1);
    let events = LargestElementWithSingleDateExtractor::events_from_dom(&tree, &from);
    assert_eq!(events.len(), 1);
    assert_eq!(events[0].text, "Tabled show 12.03. in the annex");
}

#[test]
fn list_items_are_traversable() {
    let tree = doc(vec![DomChild::Elem(elem("body", vec![DomChild::Elem(elem("ul", vec![
        DomChild::Elem(elem("li", vec![text_node("First show 12.03. in the big hall")])),
        DomChild::Elem(elem("li", vec![text_node("Second show 14.04. in the small hall")])),
    ]))]))]);
    let from = NaiveDate::from_ymd(2022, 1, 1);
    let events = LargestElementWithSingleDateExtractor::events_from_dom(&tree, &from);
    assert_eq!(events.len(), 2);
    assert_eq!(events[0].text, "First show 12.03. in the big hall");
    assert_eq!(events[1].text, "Second show 14.04. in the small hall");
}

#[test]
fn extract_text_normalizes_descendant_text() {
    let node = elem("div", vec![
        text_node("  a \n"),
        DomChild::Elem(elem("span", vec![text_node("b\t")])),
        text_node(" c "),
    ]);
    assert_eq!(extract_text(&node), "a b c");
}

#[test]
fn smallest_extractor_strips_the_date() {
    let tree = doc(vec![DomChild::Elem(elem("body", vec![DomChild::Elem(elem("div", vec![
        text_node("Concert Night 12.03. Tickets available now"),
    ]))]))]);
    let events = SmallestDivWithDateExtractor::events_from_dom(&tree, 2022);
    assert_eq!(events.len(), 1);
    assert_eq!(events[0].text, "Concert Night Tickets available now");
    assert_eq!(
        events[0].time,
        NaiveDateWithOptionalTime::NaiveDate(NaiveDate { year: 2022, month: 3, day: 12 })
    );
    assert!(events[0].end_time.is_none());
}

#[test]
fn smallest_extractor_keeps_single_child_event() {
    // No re-synthesis at the parent: the child's narrower event stands.
    let tree = doc(vec![DomChild::Elem(elem("body", vec![DomChild::Elem(elem("div", vec![
        text_node("Great ensemble plays tonight "),
        DomChild::Elem(elem("div", vec![text_node("Tickets from 12.03. at the box office")])),
    ]))]))]);
    let events = SmallestDivWithDateExtractor::events_from_dom(&tree, 2022);
    assert_eq!(events.len(), 1);
    assert_eq!(events[0].text, "Tickets from at the box office");
}

#[test]
fn build_dom_assembles_token_stream() {
    let tokens = vec![
        DomToken::Open(String::from("div")),
        DomToken::Text(String::from("a")),
        DomToken::Open(String::from("span")),
        DomToken::Text(String::from("b")),
        DomToken::Close,
        DomToken::Text(String::from("c")),
        DomToken::Close,
    ];
    let root = build_dom(&tokens);
    assert_eq!(root.tag, "");
    assert_eq!(root.children.len(), 1);
    match &root.children[0] {
        DomChild::Elem(div) => {
            assert_eq!(div.tag, "div");
            assert_eq!(div.children.len(), 3);
            assert!(matches!(&div.children[0], DomChild::Text(s) if s == "a"));
            match &div.children[1] {
                DomChild::Elem(span) => {
                    assert_eq!(span.tag, "span");
                    assert_eq!(span.children.len(), 1);
                },
                _ => panic!("expected an element"),
            }
            assert!(matches!(&div.children[2], DomChild::Text(s) if s == "c"));
        },
        _ => panic!("expected an element"),
    }
}

#[test]
fn build_dom_closes_unclosed_elements() {
    let tokens = vec![
        DomToken::Open(String::from("div")),
        DomToken::Text(String::from("x")),
    ];
    let root = build_dom(&tokens);
    assert_eq!(root.children.len(), 1);
    assert!(matches!(&root.children[0], DomChild::Elem(d) if d.tag == "div"));
}

#[test]
fn parse_document_builds_the_page_tree() {
    let root = parse_document("<html><body><div>x</div></body></html>");
    let html = root.find_tagged("html").expect("html element");
    assert_eq!(html.tag, "html");
    let div = root.find_tagged("div").expect("div element");
    assert!(matches!(&div.children[0], DomChild::Text(s) if s == "x"));
}

#[test]
fn html_to_events_extracts_from_raw_html() {
    let html = "<html><body><div>Concert   Night\n 12.03. Tickets    available   now</div>\
                </body></html>";
    let from = NaiveDate::from_ymd(2022, 1, 1);
    let events: Vec<Event> = LargestElementWithSingleDateExtractor::html_to_events(html, &from);
    assert_eq!(events.len(), 1);
    assert_eq!(events[0].text, "Concert Night 12.03. Tickets available now");
    assert_eq!(events[0].date, NaiveDate { year: 2022, month: 3, day: 12 });
}

#[test]
fn html_without_containers_synthesizes_at_body() {
    let html = "<html><body>Some show on 12.03. at our venue</body></html>";
    let from = NaiveDate::from_ymd(2022, 1, 1);
    let events = LargestElementWithSingleDateExtractor::html_to_events(html, &from);
    assert_eq!(events.len(), 1);
    assert_eq!(events[0].text, "Some show on 12.03. at our venue");
}

#[test]
fn code_to_events_extracts_from_raw_html() {
    let html = "<html><body><div>Concert Night 12.03. Tickets available now</div></body></html>";
    let events = SmallestDivWithDateExtractor::code_to_events(html, 2022);
    assert_eq!(events.len(), 1);
    assert_eq!(events[0].text, "Concert Night Tickets available now");
}

#[test]
fn events_and_topics_carry_their_fields() {
    let e = default_extractor::models::Event::new(
        "A reasonably long text",
        NaiveDate::from_ymd(2022, 3, 12),
    );
    assert_eq!(e.text, "A reasonably long text");
    assert_eq!(e.date, NaiveDate { year: 2022, month: 3, day: 12 });

    let t = default_extractor::models::Topic {
        id: 7,
        name: String::from("Essen"),
        urls: vec![String::from("https://example.test/veranstaltungen")],
    };
    assert_eq!(t.id, 7);
    assert_eq!(t.urls.len(), 1);
}
