//! Registry behaviour, alias allocation, rendering rules, case
//! conversion and the plain-value conversions, on concrete values.

use flexml::attribute::XMLAttribute;
use flexml::casing::{conv_case, XMLCase};
use flexml::data::XML;
use flexml::into_xml::IntoXML;
use flexml::namespace::XMLNamespaces;
use flexml::node::XMLNode;
use flexml::XMLError;

#[test]
fn distinct_uris_get_distinct_aliases() {
    let mut reg = XMLNamespaces::new();
    let a = reg.insert("Alpha", "urn:a");
    let b = reg.insert("Beta", "urn:b");
    let c = reg.insert("Gamma", "urn:c");
    assert_ne!(a, b);
    assert_ne!(a, c);
    assert_ne!(b, c);
}

#[test]
fn same_uri_shares_alias() {
    let mut reg = XMLNamespaces::new();
    reg.insert("Alpha", "urn:a");
    reg.insert("Beta", "urn:a");
    let alpha = reg.get("Alpha").expect("Alpha registered");
    let beta = reg.get("Beta").expect("Beta registered");
    assert_eq!(alpha.alias, beta.alias);
    assert_eq!("a0", alpha.alias);
}

#[test]
fn reregistered_name_keeps_alias_updates_uri() {
    let mut reg = XMLNamespaces::new();
    let first = reg.insert("Alpha", "urn:a");
    let second = reg.insert("Alpha", "urn:b");
    assert_eq!(first, second);
    let alpha = reg.get("Alpha").expect("Alpha registered");
    assert_eq!("a0", alpha.alias);
    assert_eq!("urn:b", alpha.uri);
}

#[test]
fn alias_allocation_takes_smallest_free_suffix() {
    let mut reg = XMLNamespaces::new();
    assert_eq!("a0", reg.insert("Alpha", "urn:a"));
    assert_eq!("g0", reg.insert("Gamma", "urn:b"));
    assert_eq!("a1", reg.insert("Alphabet", "urn:c"));
}

#[test]
fn alias_base_is_lowercased() {
    let mut reg = XMLNamespaces::new();
    assert_eq!("n0", reg.insert("Namespace1", "urn:one"));
    assert_eq!("n1", reg.insert("Namespace2", "urn:two"));
}

#[test]
fn lookup_of_unregistered_name_is_none() {
    let mut reg = XMLNamespaces::new();
    reg.insert("Alpha", "urn:a");
    assert!(reg.get("Beta").is_none());
    assert!(!reg.contains("Beta"));
    assert!(reg.contains("Alpha"));
}

#[test]
fn snapshot_holds_registration_order() {
    let mut reg = XMLNamespaces::new();
    reg.insert("Alpha", "urn:a");
    reg.insert("Beta", "urn:b");
    let entries = reg.hashmap();
    assert_eq!(2, entries.len());
    assert_eq!("Alpha", entries[0].name);
    assert_eq!("Beta", entries[1].name);
}

#[test]
fn childless_element_self_closes() {
    let reg = XMLNamespaces::new();
    assert_eq!("<name/>", XMLNode::new("name").render(&reg));
}

#[test]
fn declaration_hoists_to_root_only() {
    let mut reg = XMLNamespaces::new();
    assert_eq!("a0", reg.insert("Alpha", "urn:a"));
    let child = XMLNode::new("child")
        .namespace("Alpha", &reg)
        .expect("Alpha registered");
    let root = XMLNode::new("root").node(child);
    assert_eq!(
        r#"<root xmlns:a0="urn:a"><a0:child/></root>"#,
        root.render(&reg)
    );
}

#[test]
fn render_is_idempotent() {
    let mut reg = XMLNamespaces::new();
    reg.insert("Alpha", "urn:a");
    let root = XMLNode::new("root")
        .namespace("Alpha", &reg)
        .expect("Alpha registered")
        .attribute(XMLAttribute::new("k", "v"))
        .text("body");
    let first = root.render(&reg);
    let second = root.render(&reg);
    assert_eq!(first, second);
}

#[test]
fn attribute_overwrite_renders_once() {
    let reg = XMLNamespaces::new();
    let mut n = XMLNode::new("n");
    n.add_attribute(XMLAttribute::new("x", "1"));
    n.add_attribute(XMLAttribute::new("x", "2"));
    assert_eq!(r#"<n x="2"/>"#, n.render(&reg));
}

#[test]
fn binding_unregistered_namespace_fails_and_leaves_tag_unqualified() {
    let reg = XMLNamespaces::new();
    let mut n = XMLNode::new("n");
    let err = n.set_namespace("Missing", &reg).unwrap_err();
    assert_eq!(XMLError::NamespaceNotFound("Missing".to_string()), err);
    assert_eq!("<n/>", n.render(&reg));
}

#[test]
fn binding_namespace_on_text_fails() {
    let mut reg = XMLNamespaces::new();
    reg.insert("Alpha", "urn:a");
    let mut t = XML::Text("words".to_string());
    assert_eq!(
        XMLError::NamespaceOnText,
        t.set_namespace("Alpha", &reg).unwrap_err()
    );
    let mut c = XML::new_untagged();
    assert_eq!(
        XMLError::NamespaceOnText,
        c.set_namespace("Alpha", &reg).unwrap_err()
    );
}

#[test]
fn fragment_siblings_each_hoist_their_declarations() {
    let mut reg = XMLNamespaces::new();
    reg.insert("Alpha", "urn:a");
    let a = XML::new("a").namespace("Alpha", &reg).expect("registered");
    let b = XML::new("b").namespace("Alpha", &reg).expect("registered");
    let frag = XML::new_untagged().datum(a).datum(b);
    assert_eq!(
        r#"<a0:a xmlns:a0="urn:a"/><a0:b xmlns:a0="urn:a"/>"#,
        frag.render(&reg)
    );
}

#[test]
fn sub_fmt_never_declares() {
    let mut reg = XMLNamespaces::new();
    reg.insert("Alpha", "urn:a");
    let n = XMLNode::new("n").namespace("Alpha", &reg).expect("registered");
    assert_eq!("<a0:n/>", n.sub_fmt(&reg));
}

#[test]
fn namespaces_listed_in_first_seen_order() {
    let mut reg = XMLNamespaces::new();
    reg.insert("Alpha", "urn:a");
    reg.insert("Beta", "urn:b");
    let inner = XMLNode::new("inner")
        .namespace("Beta", &reg)
        .expect("registered");
    let also_alpha = XMLNode::new("also")
        .namespace("Alpha", &reg)
        .expect("registered");
    let root = XMLNode::new("root")
        .namespace("Alpha", &reg)
        .expect("registered")
        .node(inner)
        .node(also_alpha);
    let found = root.namespaces(&reg);
    assert_eq!(2, found.len());
    assert_eq!("Alpha", found[0].name);
    assert_eq!("Beta", found[1].name);
}

#[test]
fn attribute_namespace_prefix_renders() {
    let mut reg = XMLNamespaces::new();
    reg.insert("Alpha", "urn:a");
    let n = XMLNode::new("n").attribute(
        XMLAttribute::new("k", "v")
            .namespace("Alpha", &reg)
            .expect("registered"),
    );
    assert_eq!(r#"<n a0:k="v"/>"#, n.render(&reg));
}

#[test]
fn text_node_grows_into_fragment_on_added_child() {
    let reg = XMLNamespaces::new();
    let mut t = XML::Text("lead ".to_string());
    t.add_datum(XML::new("tail"));
    assert_eq!("lead <tail/>", t.render(&reg));
}

#[test]
fn renaming_text_wraps_it_in_an_element() {
    let reg = XMLNamespaces::new();
    let mut t = XML::Text("body".to_string());
    t.set_name("wrap");
    assert_eq!("<wrap>body</wrap>", t.render(&reg));
}

#[test]
fn container_attribute_reaches_element_children_only() {
    let reg = XMLNamespaces::new();
    let mut frag = XML::new_untagged()
        .datum(XML::new("a"))
        .text("mid")
        .datum(XML::new("b"));
    frag.add_attribute("k", "v");
    assert_eq!(r#"<a k="v"/>mid<b k="v"/>"#, frag.render(&reg));
}

#[test]
fn empty_node_renders_nothing() {
    let reg = XMLNamespaces::new();
    assert_eq!("", XML::Empty.render(&reg));
    let root = XML::new("root").datum(XML::Empty);
    assert_eq!("<root></root>", root.render(&reg));
}

#[test]
fn case_conversions_match_their_schemes() {
    assert_eq!("test-string", conv_case("TestString", XMLCase::KebabCase));
    assert_eq!(
        "testString",
        conv_case("TestString", XMLCase::LowerCamelCase)
    );
    assert_eq!(
        "TEST-STRING",
        conv_case("TestString", XMLCase::ShoutyKebabCase)
    );
    assert_eq!(
        "TEST_STRING",
        conv_case("TestString", XMLCase::ShoutySnakeCase)
    );
    assert_eq!("test_string", conv_case("TestString", XMLCase::SnakeCase));
    assert_eq!("Test-String", conv_case("test_string", XMLCase::TrainCase));
    assert_eq!(
        "TestString",
        conv_case("test_string", XMLCase::UpperCamelCase)
    );
}

#[test]
fn case_applies_to_element_names() {
    let reg = XMLNamespaces::new();
    let n = XMLNode::new("SomeLongName").case(XMLCase::SnakeCase);
    assert_eq!("<some_long_name/>", n.render(&reg));
}

#[test]
fn numbers_render_in_decimal() {
    let reg = XMLNamespaces::new();
    let n = XML::new("n")
        .datum(0u8)
        .datum(42u64)
        .datum(-17i32)
        .datum(170141183460469231731687303715884105727i128)
        .datum(i64::MIN);
    assert_eq!(
        "<n>042-17170141183460469231731687303715884105727-9223372036854775808</n>",
        n.render(&reg)
    );
}

#[test]
fn error_messages_name_the_failure() {
    let e = XMLError::NamespaceNotFound("Missing".to_string());
    assert_eq!(
        "XMLError::NamespaceNotFound - Namespace \"Missing\" not defined",
        e.message()
    );
    assert_eq!(
        "XMLError::NamespaceOnText \"Cannot set namespace on text node.\"",
        XMLError::NamespaceOnText.message()
    );
    assert_eq!(
        "XMLError::Other \"lock poisoned\"",
        XMLError::Other("lock poisoned".to_string()).message()
    );
}

#[test]
fn missing_optional_values_are_absorbed() {
    let reg = XMLNamespaces::new();
    let n = XML::new("n").datum(Some(5u8)).datum(None::<u8>);
    assert_eq!("<n>5</n>", n.render(&reg));
}

#[test]
fn booleans_and_strings_render_verbatim() {
    let reg = XMLNamespaces::new();
    let n = XML::new("n").datum(false).datum("yes".to_string());
    assert_eq!("<n>falseyes</n>", n.render(&reg));
}
