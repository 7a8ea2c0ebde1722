use xml::reader::XmlEvent;
use xml_tree::{build, Attribute, BuildError, Document, Event, Name, Namespace, XmlVersion, ROOT};

fn name_of(n: xml::name::OwnedName) -> Name {
    Name { local_name: n.local_name, namespace: n.namespace, prefix: n.prefix }
}

fn convert(e: xml::reader::Result<XmlEvent>) -> Event {
    match e {
        Err(err) => Event::Error(err),
        Ok(XmlEvent::StartDocument { version, encoding, .. }) => Event::StartDocument {
            version: Some(match version {
                xml::common::XmlVersion::Version10 => XmlVersion::Version10,
                xml::common::XmlVersion::Version11 => XmlVersion::Version11,
            }),
            encoding: Some(encoding),
        },
        Ok(XmlEvent::StartElement { name, attributes, namespace }) => Event::StartElement {
            name: name_of(name),
            attributes: attributes
                .into_iter()
                .map(|a| Attribute { name: name_of(a.name), value: a.value })
                .collect(),
            namespace: Namespace { mappings: namespace.0.into_iter().collect() },
        },
        Ok(XmlEvent::EndElement { name }) => Event::EndElement { name: name_of(name) },
        Ok(XmlEvent::Characters(s)) => Event::Characters(s),
        Ok(XmlEvent::CData(s)) => Event::CData(s),
        Ok(_) => Event::Other,
    }
}

fn events_of(text: &str) -> Vec<Event> {
    xml::EventReader::new(text.as_bytes()).into_iter().map(convert).collect()
}

fn xml_to_doc(text: &str) -> Document {
    match build(events_of(text)) {
        Ok(doc) => doc,
        Err(err) => panic!("Error: {}", err.message()),
    }
}

fn count_elements(doc: &Document) -> usize {
    let mut it = doc.root().iter_elements(doc);
    let mut n = 0;
    while it.next().is_some() {
        n += 1;
    }
    n
}

fn collect_text(doc: &Document) -> Vec<String> {
    let mut it = doc.root().iter_text(doc);
    let mut v = Vec::new();
    while let Some(s) = it.next() {
        v.push(s);
    }
    v
}

#[test]
fn dom_test_find() {
    let xml = "<root><item>aa</item><item>bb</item><item>cc</item><notitem></notitem></root>";
    let doc = xml_to_doc(xml);
    let root = doc.root();

    let elems = root.find(&doc, "item");
    assert_eq!(elems.len(), 3);
}

#[test]
fn dom_test_text_simple() {
    let xml = "<root>abc</root>";
    let doc = xml_to_doc(xml);

    assert_eq!(doc.root().text(&doc), "abc");
}

#[test]
fn dom_test_test_complex() {
    let xml = "<root>abc<sep></sep>def</root>";
    let doc = xml_to_doc(xml);

    assert_eq!(doc.root().text(&doc), "abcdef");
}

#[test]
fn dom_test_iter_elements() {
    let xml = "<root>abc<sep></sep>def<oy></oy></root>";
    let doc = xml_to_doc(xml);

    assert_eq!(doc.root().len(), 4);
    assert_eq!(count_elements(&doc), 2);
}

#[test]
fn dom_test_iter_text() {
    let xml = "<root>abc<sep></sep>def<oy></oy></root>";
    let doc = xml_to_doc(xml);

    assert_eq!(doc.root().len(), 4);
    assert_eq!(collect_text(&doc).len(), 2);
}

#[test]
fn dom_test_version_encoding() {
    let xml = "<?xml version=\"1.0\" encoding=\"UTF-8\"?><root><item></item></root>";
    let doc = xml_to_doc(xml);

    assert!(doc.version == Some(XmlVersion::Version10));
    assert_eq!(doc.encoding, Some("UTF-8".to_string()));
}

#[test]
fn mod_test_find() {
    let xml = "<root><item>aa</item><item>bb</item><item>cc</item><notitem></notitem></root>";
    let doc = xml_to_doc(xml);
    let root = doc.root();

    let elems = root.find(&doc, "item");
    assert_eq!(elems.len(), 3);
}

#[test]
fn mod_test_text_simple() {
    let xml = "<root>abc</root>";
    let doc = xml_to_doc(xml);

    assert_eq!(doc.root().text(&doc), "abc");
}

#[test]
fn mod_test_test_complex() {
    let xml = "<root>abc<sep></sep>def</root>";
    let doc = xml_to_doc(xml);

    assert_eq!(doc.root().text(&doc), "abcdef");
}

#[test]
fn mod_test_iter_elements() {
    let xml = "<root>abc<sep></sep>def<oy></oy></root>";
    let doc = xml_to_doc(xml);

    assert_eq!(doc.root().len(), 4);
    assert_eq!(count_elements(&doc), 2);
}

#[test]
fn mod_test_iter_text() {
    let xml = "<root>abc<sep></sep>def<oy></oy></root>";
    let doc = xml_to_doc(xml);

    assert_eq!(doc.root().len(), 4);
    assert_eq!(collect_text(&doc).len(), 2);
}

#[test]
fn mod_test_version_encoding() {
    let xml = "<?xml version=\"1.0\" encoding=\"UTF-8\"?><root><item></item></root>";
    let doc = xml_to_doc(xml);

    assert!(doc.version == Some(XmlVersion::Version10));
    assert_eq!(doc.encoding, Some("UTF-8".to_string()));
}

#[test]
fn test_get_parent() {
    let xml = "<root><item></item><item></item></root>";
    let doc = xml_to_doc(xml);
    let root = doc.root();

    for child in root.find(&doc, "item").iter() {
        assert!(doc.element(*child).unwrap().get_parent(&doc).is_some());
    }
}

#[test]
fn parsed_children_keep_document_order() {
    let doc = xml_to_doc("<r><a>x</a>mid<b><c/></b></r>");
    let root = doc.root();
    let kids = root.iter();
    assert_eq!(kids.len(), 3);
    assert_eq!(doc.element(kids[0]).unwrap().name.local_name, "a");
    assert!(doc.element(kids[1]).is_none());
    assert_eq!(doc.node(kids[1]).map(|n| matches!(n, xml_tree::Node::Text(_))), Some(true));
    assert_eq!(doc.element(kids[2]).unwrap().name.local_name, "b");
}

#[test]
fn parsed_cdata_counts_as_text() {
    let doc = xml_to_doc("<root>ab<![CDATA[<x>]]>cd</root>");
    assert_eq!(doc.root().text(&doc), "ab<x>cd");
}

#[test]
fn malformed_input_gives_parser_error() {
    let result = build(events_of("<root><a></root>"));
    match result {
        Err(BuildError::ParserError(err)) => {
            let msg = BuildError::ParserError(err.clone()).message();
            assert_eq!(msg, err.to_string());
            assert!(!msg.is_empty());
        }
        other => panic!("expected a parser error, got {:?}", other.map(|_| ())),
    }
}

#[test]
fn parsed_attributes_are_kept_in_order() {
    let doc = xml_to_doc("<root b=\"2\" a=\"1\"><x/></root>");
    let root = doc.root();
    assert_eq!(root.attributes.len(), 2);
    assert_eq!(root.attributes[0].name.local_name, "b");
    assert_eq!(root.attributes[0].value, "2");
    assert_eq!(root.attributes[1].name.local_name, "a");
    assert_eq!(root.parent, None);
    assert_eq!(ROOT, 0);
}
