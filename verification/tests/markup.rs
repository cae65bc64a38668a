use tiled::markup::{next_child, skip_to_close, Found};
use tiled::{read_events, Attribute, Event};

fn open(name: &str, attributes: &[(&str, &str)]) -> Event {
    Event::Open {
        name: name.to_string(),
        attributes: attributes
            .iter()
            .map(|(n, v)| Attribute { name: n.to_string(), value: v.to_string() })
            .collect(),
    }
}

fn close(name: &str) -> Event {
    Event::Close { name: name.to_string() }
}

#[test]
fn a_document_becomes_its_events() {
    let events = read_events(b"<a x=\"1\" y=\"two\"><b/>text<!-- c --> <c></c></a>");
    assert_eq!(
        events,
        vec![
            Event::Other,
            open("a", &[("x", "1"), ("y", "two")]),
            open("b", &[]),
            close("b"),
            Event::Text("text ".to_string()),
            open("c", &[]),
            close("c"),
            close("a"),
            Event::End,
        ]
    );
}

#[test]
fn names_are_local_names() {
    let events = read_events(b"<p:a xmlns:p=\"urn:x\" p:k=\"v\"></p:a>");
    assert_eq!(events[1], open("a", &[("k", "v")]));
    assert_eq!(events[2], close("a"));
}

#[test]
fn entities_are_resolved_in_text_and_attributes() {
    let events = read_events(b"<a k=\"&lt;&amp;&#65;\">x &gt; y</a>");
    assert_eq!(events[1], open("a", &[("k", "<&A")]));
    assert_eq!(events[2], Event::Text("x > y".to_string()));
}

#[test]
fn a_broken_document_ends_in_a_fault() {
    let events = read_events(b"<a><b></a>");
    assert_eq!(events.len(), 4);
    assert!(matches!(events[3], Event::Fault(_)));
    assert!(events[..3].iter().all(|e| !matches!(e, Event::Fault(_) | Event::End)));
    let events = read_events(b"<a>");
    assert!(matches!(events.last(), Some(Event::Fault(_))));
    let events = read_events(b"");
    assert!(!events.is_empty());
    assert!(matches!(events.last(), Some(Event::Fault(_))));
    let events = read_events(b"<a/>trailing");
    assert!(matches!(events.last(), Some(Event::Fault(_))));
}

#[test]
fn the_dispatcher_stops_at_the_children_it_was_told_of() {
    let events = vec![
        open("x", &[]),
        Event::Text("t".to_string()),
        close("x"),
        open("b", &[("k", "v")]),
        close("b"),
        close("other"),
        close("a"),
        Event::End,
    ];
    match next_child(&events, 0, "a", &["c", "b"]) {
        Found::Child { tag, at, attributes } => {
            assert_eq!((tag, at), (1, 3));
            assert_eq!(attributes.len(), 1);
        }
        _ => panic!(),
    }
    match next_child(&events, 4, "a", &["c", "b"]) {
        Found::Closed { next } => assert_eq!(next, 7),
        _ => panic!(),
    }
    assert!(matches!(next_child(&events, 7, "a", &["c", "b"]), Found::Ended));
    assert!(matches!(next_child(&events, 8, "a", &["c", "b"]), Found::Ended));
    assert!(matches!(next_child(&events, 100, "a", &["c", "b"]), Found::Ended));
    match next_child(&events, 0, "x", &[]) {
        Found::Closed { next } => assert_eq!(next, 3),
        _ => panic!(),
    }
    match next_child(&events, 0, "a", &["x", "x"]) {
        Found::Child { tag, at, .. } => assert_eq!((tag, at), (0, 0)),
        _ => panic!(),
    }
}

#[test]
fn the_dispatcher_reports_a_fault_where_it_meets_one() {
    let events = read_events(b"<a><b></a>");
    assert!(matches!(next_child(&events, 0, "a", &[]), Found::Broken { .. }));
    assert!(skip_to_close(&events, 0, "a").is_err());
    let events = read_events(b"<a><b/></a>");
    assert_eq!(skip_to_close(&events, 2, "a").unwrap(), 5);
    assert_eq!(skip_to_close(&events, 2, "b").unwrap(), 4);
    match skip_to_close(&events, 2, "c") {
        Err(tiled::TiledError::PrematureEnd(m)) => {
            assert_eq!(m, "Document ended before we expected.")
        }
        other => panic!("{:?}", other),
    }
}
