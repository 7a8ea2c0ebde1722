use xml_tree::{
    build, padding, BuildError, Builder, Document, Event, Name, Namespace, Node, Phase, XmlVersion, ROOT,
};

fn start(name: &str) -> Event {
    Event::StartElement { name: Name::local(name), attributes: Vec::new(), namespace: Namespace::empty() }
}

fn end(name: &str) -> Event {
    Event::EndElement { name: Name::local(name) }
}

fn chars(s: &str) -> Event {
    Event::Characters(s.to_string())
}

fn name_of(doc: &Document, id: usize) -> String {
    doc.element(id).unwrap().name.local_name.clone()
}

/// `<root>ab<x>in</x>cd<y/></root>`
fn sample() -> Vec<Event> {
    vec![
        Event::StartDocument { version: None, encoding: None },
        start("root"),
        chars("ab"),
        start("x"),
        chars("in"),
        end("x"),
        chars("cd"),
        start("y"),
        end("y"),
        end("root"),
        Event::Other,
    ]
}

#[test]
fn children_follow_event_order_at_every_level() {
    let doc = build(sample()).unwrap();
    let root = doc.root();
    let kids = root.iter().to_vec();
    assert_eq!(kids.len(), 4);
    assert!(matches!(doc.node(kids[0]), Some(Node::Text(t)) if t.content == "ab"));
    assert_eq!(name_of(&doc, kids[1]), "x");
    assert!(matches!(doc.node(kids[2]), Some(Node::Text(t)) if t.content == "cd"));
    assert_eq!(name_of(&doc, kids[3]), "y");
    let x = doc.element(kids[1]).unwrap();
    assert_eq!(x.len(), 1);
    assert_eq!(x.text(&doc), "in");
    assert_eq!(doc.element(kids[3]).unwrap().len(), 0);
    assert_eq!(doc.len(), 6);
}

#[test]
fn find_ignores_text_nested_and_other_names() {
    let events = vec![
        start("root"),
        start("item"),
        start("item"),
        end("item"),
        end("item"),
        chars("item"),
        start("other"),
        end("other"),
        start("item"),
        end("item"),
        end("root"),
    ];
    let doc = build(events).unwrap();
    let found = doc.root().find(&doc, "item");
    assert_eq!(found.len(), 2);
    assert!(found[0] < found[1]);
    for id in found.iter() {
        assert_eq!(name_of(&doc, *id), "item");
        assert_eq!(doc.element(*id).unwrap().parent, Some(ROOT));
    }
    assert_eq!(doc.root().find(&doc, "missing").len(), 0);
}

#[test]
fn text_is_not_recursive() {
    let doc = build(sample()).unwrap();
    assert_eq!(doc.root().text(&doc), "abcd");
}

#[test]
fn element_and_text_counts_add_up() {
    let doc = build(sample()).unwrap();
    let root = doc.root();
    let mut elements = 0;
    let mut it = root.iter_elements(&doc);
    while it.next().is_some() {
        elements += 1;
    }
    assert!(it.next().is_none());
    let mut texts = Vec::new();
    let mut tt = root.iter_text(&doc);
    while let Some(s) = tt.next() {
        texts.push(s);
    }
    assert_eq!(elements, 2);
    assert_eq!(texts, vec!["ab".to_string(), "cd".to_string()]);
    assert_eq!(elements + texts.len(), root.len());
}

#[test]
fn get_parent_resolves_to_container() {
    let doc = build(sample()).unwrap();
    let root = doc.root();
    assert!(root.get_parent(&doc).is_none());
    assert!(doc.node(ROOT).unwrap().get_parent(&doc).is_none());
    let kids = root.iter().to_vec();
    let x = kids[1];
    let x_elem = doc.element(x).unwrap();
    let inner = x_elem.iter()[0];
    let parent = doc.node(inner).unwrap().get_parent(&doc).unwrap();
    assert_eq!(parent.name.local_name, "x");
    assert_eq!(doc.node(inner).unwrap().parent_id(), Some(x));
    let text_parent = doc.node(kids[0]).unwrap().get_parent(&doc).unwrap();
    assert_eq!(text_parent.name.local_name, "root");
}

#[test]
fn no_events_give_undefined_root() {
    assert!(matches!(build(Vec::new()), Err(BuildError::UndefinedRoot)));
}

#[test]
fn rootless_events_give_undefined_root() {
    let events = vec![
        Event::StartDocument { version: Some(XmlVersion::Version10), encoding: None },
        Event::Other,
        Event::Other,
    ];
    let err = build(events).unwrap_err();
    assert!(matches!(err, BuildError::UndefinedRoot));
    assert_eq!(err.message(), "Undefined root element.");
}

#[test]
fn end_before_any_start_is_unreachable() {
    let err = build(vec![end("a")]).unwrap_err();
    assert!(matches!(err, BuildError::Unreachable));
    assert_eq!(err.message(), "Inconsistent event sequence.");
}

#[test]
fn text_before_any_start_is_unreachable() {
    assert!(matches!(build(vec![chars("x"), start("a"), end("a")]), Err(BuildError::Unreachable)));
}

#[test]
fn declaration_is_reflected() {
    let mut events = vec![Event::StartDocument {
        version: Some(XmlVersion::Version10),
        encoding: Some("UTF-8".to_string()),
    }];
    events.push(start("root"));
    events.push(end("root"));
    let doc = build(events).unwrap();
    assert_eq!(doc.version, Some(XmlVersion::Version10));
    assert_eq!(doc.encoding, Some("UTF-8".to_string()));
    assert_eq!(doc.header(), "<?xml version=\"1.0\" encoding=\"UTF-8\"?>");
    assert_eq!(XmlVersion::Version11.as_str(), "1.1");
}

#[test]
fn header_with_only_encoding_and_without_declaration() {
    let mut events = vec![Event::StartDocument { version: None, encoding: Some("latin1".to_string()) }];
    events.push(start("r"));
    events.push(end("r"));
    assert_eq!(build(events).unwrap().header(), "<?xml encoding=\"latin1\"?>");
    assert_eq!(build(vec![start("r"), end("r")]).unwrap().header(), "");
}

#[test]
fn events_after_root_closes_are_ignored() {
    let mut events = sample();
    events.push(start("late"));
    events.push(chars("zz"));
    events.push(Event::StartDocument { version: Some(XmlVersion::Version11), encoding: None });
    let doc = build(events).unwrap();
    assert_eq!(doc.len(), 6);
    assert_eq!(doc.version, None);
    assert_eq!(doc.to_compact_string(), "<root>ab<x>in</x>cd<y></y></root>");
}

#[test]
fn error_event_aborts_even_after_root() {
    let bad = xml::EventReader::new("<a></b>".as_bytes())
        .into_iter()
        .find_map(|e| e.err())
        .unwrap();
    let mut events = sample();
    events.push(Event::Error(bad.clone()));
    match build(events) {
        Err(BuildError::ParserError(e)) => assert_eq!(e, bad),
        _ => panic!("expected the parser error"),
    }
    assert!(matches!(BuildError::from(bad), BuildError::ParserError(_)));
}

#[test]
fn unclosed_root_still_builds() {
    let doc = build(vec![start("r"), chars("t")]).unwrap();
    assert_eq!(doc.root().text(&doc), "t");
}

#[test]
fn pretty_form_is_exact() {
    let doc = build(sample()).unwrap();
    let mut out = String::new();
    doc.root().format_pretty(&doc, &mut out, 0, 2);
    assert_eq!(out, "<root>\n  ab\n  <x>\n    in\n  </x>\n  cd\n  <y>\n  </y>\n</root>\n");
    assert_eq!(doc.to_pretty_string(), format!("\n{}", out));
    let mut deeper = String::new();
    doc.element(doc.root().iter()[1]).unwrap().format_pretty(&doc, &mut deeper, 1, 3);
    assert_eq!(deeper, "   <x>\n      in\n   </x>\n");
}

#[test]
fn compact_form_is_exact() {
    let doc = build(sample()).unwrap();
    let mut out = String::new();
    doc.root().format_compact(&doc, &mut out);
    assert_eq!(out, "<root>ab<x>in</x>cd<y></y></root>");
    let mut node_out = String::new();
    doc.node(doc.root().iter()[0]).unwrap().format_compact(&doc, &mut node_out);
    assert_eq!(node_out, "ab");
    let mut node_pretty = String::new();
    doc.node(doc.root().iter()[0]).unwrap().format_pretty(&doc, &mut node_pretty, 2, 1);
    assert_eq!(node_pretty, "  ab\n");
}

#[test]
fn rebuilding_from_rendered_shape_is_the_same() {
    let doc = build(sample()).unwrap();
    let first = doc.to_pretty_string();
    // the events the pretty form lays out, attributes aside
    let again = vec![
        start("root"),
        chars("ab"),
        start("x"),
        chars("in"),
        end("x"),
        chars("cd"),
        start("y"),
        end("y"),
        end("root"),
    ];
    let doc2 = build(again).unwrap();
    assert_eq!(doc2.to_pretty_string(), first);
    assert_eq!(doc2.to_compact_string(), doc.to_compact_string());
}

#[test]
fn builder_steps_one_event_at_a_time() {
    let mut b = Builder::new();
    assert_eq!(b.phase(), Phase::Seeking);
    b.step(start("r")).unwrap();
    assert_eq!(b.phase(), Phase::Building(ROOT));
    b.step(start("c")).unwrap();
    assert_eq!(b.phase(), Phase::Building(1));
    b.step(end("c")).unwrap();
    b.step(end("r")).unwrap();
    assert_eq!(b.phase(), Phase::Done);
    let doc = b.finish().unwrap();
    assert_eq!(doc.to_compact_string(), "<r><c></c></r>");
}

#[test]
fn padding_is_indent_times_inc_spaces() {
    assert_eq!(padding(3, 2), "      ");
    assert_eq!(padding(0, 4), "");
    assert_eq!(padding(5, 0), "");
}

#[test]
fn element_and_text_constructors() {
    let e = xml_tree::Element::new(
        4,
        Name::local("n"),
        vec![xml_tree::Attribute { name: Name::local("k"), value: "v".to_string() }],
        Namespace::empty(),
    );
    assert_eq!(e.parent, Some(4));
    assert_eq!(e.len(), 0);
    let mut r = xml_tree::Element::new_root(Name::local("r"), Vec::new(), Namespace::empty());
    r.add_child(1);
    r.add_child(2);
    assert_eq!(r.iter(), &[1, 2]);
    assert_eq!(r.parent, None);
    let t = xml_tree::Text::new(0, "abc".to_string());
    let mut out = String::new();
    t.format_pretty(&mut out, 1, 2);
    assert_eq!(out, "  abc\n");
}

#[test]
fn message_with_forwards_the_inner_text() {
    let bad = xml::EventReader::new("<a></b>".as_bytes())
        .into_iter()
        .find_map(|e| e.err())
        .unwrap();
    let err = BuildError::ParserError(bad.clone());
    assert_eq!(err.message_with("inner text".to_string()), "inner text");
    assert_eq!(err.message(), bad.to_string());
    assert!(err.message().starts_with("1:"));
    assert_eq!(BuildError::UndefinedRoot.message_with("x".to_string()), "Undefined root element.");
    assert_eq!(BuildError::Unreachable.message_with("x".to_string()), "Inconsistent event sequence.");
}

#[test]
fn ignored_events_and_cdata_inside_root_change_nothing() {
    let plain = build(sample()).unwrap().to_compact_string();
    let events = vec![
        start("root"),
        Event::Other,
        Event::CData("ab".to_string()),
        start("x"),
        chars("in"),
        Event::Other,
        end("x"),
        chars("cd"),
        start("y"),
        end("y"),
        end("root"),
    ];
    assert_eq!(build(events).unwrap().to_compact_string(), plain);
}

#[test]
fn element_after_stray_text_is_unreachable_not_undefined_root() {
    let err = build(vec![chars("x"), start("a")]).unwrap_err();
    assert!(matches!(err, BuildError::Unreachable));
}
