use treexml::{AssembleError, Assembler, Attribute, Document, Element, ElementBuilder, Event, XmlVersion};

fn start(name: &str, attrs: Vec<(&str, &str)>) -> Event {
    Event::ElementStart {
        prefix: None,
        name: name.to_owned(),
        attributes: attrs
            .into_iter()
            .map(|(k, v)| Attribute { prefix: None, local_name: k.to_owned(), value: v.to_owned() })
            .collect(),
    }
}

fn end(name: &str) -> Event {
    Event::ElementEnd { prefix: None, name: name.to_owned() }
}

fn fruit_events() -> Vec<Event> {
    vec![
        start("fruit", vec![("type", "apple")]),
        Event::Text("worm".to_owned()),
        end("fruit"),
    ]
}

fn document(mut body: Vec<Event>) -> Vec<Event> {
    let mut evs = vec![Event::DocumentStart { version: XmlVersion::Version11, encoding: "UTF-8".to_owned() }];
    evs.append(&mut body);
    evs.push(Event::DocumentEnd);
    evs
}

fn assert_fruit(fruit: &Element) {
    assert_eq!(fruit.name, "fruit");
    assert_eq!(fruit.prefix, None);
    assert_eq!(fruit.attributes, vec![("type".to_owned(), "apple".to_owned())]);
    assert_eq!(fruit.text, Some("worm".to_owned()));
    assert_eq!(fruit.cdata, None);
    assert!(fruit.children.is_empty());
}

#[test]
fn attribute_fidelity() {
    let doc = Document::assemble(&document(fruit_events())).unwrap();
    assert_eq!(doc.version, XmlVersion::Version11);
    assert_fruit(doc.root.as_ref().unwrap());
}

#[test]
fn nesting_fidelity() {
    let mut body = vec![start("table", vec![])];
    body.append(&mut fruit_events());
    body.push(start("vegetable", vec![]));
    body.push(end("vegetable"));
    body.push(end("table"));
    let doc = Document::assemble(&document(body)).unwrap();
    let table = doc.root.unwrap();
    assert_eq!(table.name, "table");
    assert_eq!(table.children.len(), 2);
    assert_fruit(&table.children[0]);
    let veg = &table.children[1];
    assert_eq!(veg.name, "vegetable");
    assert!(veg.attributes.is_empty());
    assert_eq!(veg.text, None);
    assert_eq!(veg.cdata, None);
    assert!(veg.children.is_empty());
}

#[test]
fn text_runs_concatenate_and_noise_is_dropped() {
    let body = vec![
        start("a", vec![]),
        Event::Text("x".to_owned()),
        Event::Comment("note".to_owned()),
        Event::Whitespace("  ".to_owned()),
        Event::Text("y".to_owned()),
        Event::CData("<b/>".to_owned()),
        Event::CData("c".to_owned()),
        end("a"),
    ];
    let doc = Document::assemble(&document(body)).unwrap();
    let a = doc.root.unwrap();
    assert_eq!(a.text, Some("xy".to_owned()));
    assert_eq!(a.cdata, Some("<b/>c".to_owned()));
    assert_eq!(a.to_string(), "<a>xy<![CDATA[<b/>c]]></a>");
}

#[test]
fn duplicate_and_prefixed_attributes() {
    let body = vec![
        Event::ElementStart {
            prefix: Some("xsl".to_owned()),
            name: "for-each".to_owned(),
            attributes: vec![
                Attribute { prefix: None, local_name: "k".to_owned(), value: "1".to_owned() },
                Attribute { prefix: Some("p".to_owned()), local_name: "k".to_owned(), value: "2".to_owned() },
                Attribute { prefix: None, local_name: "k".to_owned(), value: "3".to_owned() },
            ],
        },
        Event::ElementEnd { prefix: Some("xsl".to_owned()), name: "for-each".to_owned() },
    ];
    let doc = Document::assemble(&document(body)).unwrap();
    let e = doc.root.unwrap();
    assert_eq!(e.prefix, Some("xsl".to_owned()));
    assert_eq!(
        e.attributes,
        vec![("k".to_owned(), "3".to_owned()), ("p:k".to_owned(), "2".to_owned())]
    );
    assert_eq!(e.to_string(), "<xsl:for-each k=\"3\" p:k=\"2\" />");
}

#[test]
fn mismatched_end_is_an_error() {
    let body = vec![start("a", vec![]), end("b")];
    assert_eq!(Document::assemble(&document(body)).unwrap_err(), AssembleError::MismatchedEnd);
}

#[test]
fn missing_document_end_is_an_error() {
    let evs = vec![start("a", vec![]), end("a")];
    assert_eq!(Document::assemble(&evs).unwrap_err(), AssembleError::UnexpectedEnd);
}

#[test]
fn assembler_steps_one_event_at_a_time() {
    let mut state = Assembler::new();
    for ev in document(fruit_events()).iter() {
        assert!(!state.finished);
        state = state.step(ev).unwrap();
    }
    assert!(state.finished);
    assert_fruit(state.doc.root.as_ref().unwrap());
}

#[test]
fn empty_document_defaults() {
    let doc = Document::new();
    assert_eq!(doc.version, XmlVersion::Version10);
    assert_eq!(doc.encoding, "UTF-8");
    assert!(doc.root.is_none());
    assert_eq!(doc.to_string(), "<?xml version=\"1.0\" encoding=\"UTF-8\"?>");
    let d = Document { version: XmlVersion::Version11, ..Document::default() };
    assert_eq!(d.to_string_with(true, "  ", false), "<?xml version=\"1.1\" encoding=\"UTF-8\"?>");
}

#[test]
fn self_closing_in_both_modes() {
    let mut e = Element::new("empty");
    e.attributes.push(("a".to_owned(), "b".to_owned()));
    assert_eq!(e.to_string_with("  ", true), "<empty a=\"b\" />");
    assert_eq!(e.to_string_with("", false), "<empty a=\"b\" />");
}

#[test]
fn escaping_of_text_and_attributes() {
    let mut e = Element::new("r");
    e.text = Some("a<b&c>d".to_owned());
    e.attributes.push(("q".to_owned(), "x\"y<z&".to_owned()));
    assert_eq!(e.to_string(), "<r q=\"x&quot;y&lt;z&amp;\">a&lt;b&amp;c>d</r>");
}

#[test]
fn condensed_with_declaration_and_custom_indent() {
    let mut root = Element::new("root");
    let mut mid = Element::new("mid");
    mid.children.push(Element::new("leaf"));
    root.children.push(mid);
    let doc = Document { root: Some(root), ..Document::default() };
    assert_eq!(
        doc.to_string_with(true, "", false),
        "<?xml version=\"1.0\" encoding=\"UTF-8\"?><root><mid><leaf /></mid></root>"
    );
    assert_eq!(
        doc.to_string_with(false, "\t", true),
        "<root>\n\t<mid>\n\t\t<leaf />\n\t</mid>\n</root>"
    );
    let mut bytes = b"pre:".to_vec();
    doc.root.as_ref().unwrap().write_with(&mut bytes, "", false).unwrap();
    assert_eq!(String::from_utf8(bytes).unwrap(), "pre:<root><mid><leaf /></mid></root>");
}

#[test]
fn serializing_twice_gives_the_same_text() {
    let mut root = Element::new("root");
    root.text = Some("t<".to_owned());
    root.children.push(Element::new("c"));
    let doc = Document { root: Some(root), ..Document::default() };
    assert_eq!(doc.to_string(), doc.to_string());
    assert_eq!(doc.to_string(), "<?xml version=\"1.0\" encoding=\"UTF-8\"?>\n<root>t&lt;\n  <c />\n</root>");
}

#[test]
fn builder_matches_field_assignment() {
    let built = ElementBuilder::new("child").attr("class", "foo").text("bar").element();
    let mut direct = Element::new("child");
    direct.attributes.push(("class".to_owned(), "foo".to_owned()));
    direct.text = Some("bar".to_owned());
    assert_eq!(built.to_string(), direct.to_string());
    assert_eq!(built.to_string(), "<child class=\"foo\">bar</child>");
}

#[test]
fn builder_overwrites_attribute_and_sets_prefix_and_cdata() {
    let e = ElementBuilder::new("n").attr("k", "1").attr("j", "2").attr("k", "3").prefix("p").cdata("z").element();
    assert_eq!(e.attributes, vec![("k".to_owned(), "3".to_owned()), ("j".to_owned(), "2".to_owned())]);
    assert_eq!(e.to_string(), "<p:n k=\"3\" j=\"2\"><![CDATA[z]]></p:n>");
}

#[test]
fn round_trip_through_events() {
    let mut root = Element::new("root");
    let mut child = Element::new("child");
    child.text = Some("a<b".to_owned());
    root.children.push(child);
    root.children.push(Element::new("other"));
    let body = vec![
        start("root", vec![]),
        start("child", vec![]),
        Event::Text("a<b".to_owned()),
        end("child"),
        start("other", vec![]),
        end("other"),
        end("root"),
    ];
    let doc = Document::assemble(&document(body)).unwrap();
    assert_eq!(doc.root.unwrap(), root);
}

#[test]
fn find_and_filter_children() {
    let mut root = Element::new("root");
    for name in ["a", "b", "a", "c"] {
        root.children.push(Element::new(name));
    }
    root.children[2].text = Some("second".to_owned());
    let first_a = root.find_child(|e| e.name == "a").unwrap();
    assert_eq!(first_a.text, None);
    assert!(root.find_child(|e| e.name == "z").is_none());
    let names: Vec<&str> = root.filter_children(|e| e.name != "a").iter().map(|e| e.name.as_str()).collect();
    assert_eq!(names, vec!["b", "c"]);
    root.find_child_mut(|e| e.name == "c").unwrap().text = Some("changed".to_owned());
    assert_eq!(root.children[3].text, Some("changed".to_owned()));
    let positions = root.filter_children_mut(|e| e.name == "a");
    assert_eq!(positions, vec![0, 2]);
}
