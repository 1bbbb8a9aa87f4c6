use behaviortree_rs::error::ParseError;
use behaviortree_rs::xml::{tokenize, XmlEvent};

#[test]
fn tokenize_reads_tags_attributes_and_stops_after_the_first_element() {
    let ev = tokenize(r#"<root a="1" b="two"><!-- c --><leaf/></root><after/>"#).unwrap();
    assert_eq!(ev.len(), 4);
    assert!(matches!(&ev[0], XmlEvent::Start(t) if t.name == "root"
        && t.attributes == vec![("a".to_string(), "1".to_string()), ("b".to_string(), "two".to_string())]));
    assert!(matches!(&ev[1], XmlEvent::Comment));
    assert!(matches!(&ev[2], XmlEvent::Empty(t) if t.name == "leaf" && t.attributes.is_empty()));
    assert!(matches!(&ev[3], XmlEvent::End(n) if n == "root"));
}

#[test]
fn tokenize_reports_a_mismatched_end_tag() {
    assert!(matches!(tokenize("<a></b>"), Err(ParseError::XMLError(_))));
}

#[test]
fn tokenize_of_empty_text_gives_no_events() {
    assert!(matches!(tokenize(""), Ok(ev) if ev.is_empty()));
}
