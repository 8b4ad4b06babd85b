//! The serialization scenarios a code-generation layer produces: each
//! test builds by hand the tree that layer would drive the builder API
//! to produce for an application type, and checks the rendered text.

use flexml::attribute::XMLAttribute;
use flexml::casing::{conv_case, XMLCase};
use flexml::data::XML;
use flexml::into_xml::IntoXML;
use flexml::namespace::XMLNamespaces;
use flexml::node::XMLNode;

struct ComplexStructRoot {
    data1: Vec<ComplexNode>,
    data2: ComplexNode,
    attrib1: String,
    attrib2: &'static str,
    unserialized_member: String,
}

impl ComplexStructRoot {
    fn to_xml(&self, reg: &XMLNamespaces) -> XMLNode {
        let mut root = XMLNode::new("root")
            .attribute(XMLAttribute::new("Attrib1", &self.attrib1))
            .attribute(
                XMLAttribute::new(
                    conv_case("attrib2", XMLCase::UpperCamelCase).as_str(),
                    self.attrib2,
                )
                .namespace("Namespace1", reg)
                .expect("Failed to set namespace"),
            )
            .namespace("Namespace1", reg)
            .expect("Failed to set namespace");
        let data1: Vec<XML> = self
            .data1
            .iter()
            .map(|d| d.to_xml().case(XMLCase::LowerCamelCase))
            .collect();
        root.add_data(data1.as_slice());
        root.add_datum(
            self.data2
                .to_xml()
                .namespace("Namespace1", reg)
                .expect("Failed to set namespace"),
        );
        root
    }
}

struct ComplexNode {
    data1: String,
    data2: Vec<ComplexNode>,
}

impl ComplexNode {
    fn to_xml(&self) -> XML {
        let data2: Vec<XML> = self.data2.iter().map(|d| d.prepend_foo()).collect();
        XML::new("Node")
            .datum(self.data1.clone())
            .data(data2.as_slice())
    }

    fn prepend_foo(&self) -> XML {
        let data2: Vec<XML> = self.data2.iter().map(|d| d.to_xml()).collect();
        XML::new("Node")
            .text("foo ")
            .text(&self.data1)
            .data(data2.as_slice())
    }
}

#[test]
fn test_complex_struct() {
    let mut reg = XMLNamespaces::new();
    reg.insert("Namespace1", "https://namespace1.com/namespace");
    reg.insert("Namespace2", "https://namespace2.com/namespace");

    let test_structure = ComplexStructRoot {
        data1: vec![ComplexNode {
            data1: "First node, first datapoint".to_string(),
            data2: vec![],
        }],
        data2: ComplexNode {
            data1: String::from("String mixed with "),
            data2: vec![ComplexNode {
                data1: "Second node, sub-datapoint".to_string(),
                data2: vec![],
            }],
        },
        attrib1: "Attribute_value".to_string(),
        attrib2: "Attribute_value_2",
        unserialized_member: "Unserialized".to_string(),
    };

    println!("{}", test_structure.unserialized_member);

    assert_eq!(
        r#"<n0:root Attrib1="Attribute_value" n0:Attrib2="Attribute_value_2" xmlns:n0="https://namespace1.com/namespace"><node>First node, first datapoint</node><n0:Node>String mixed with <Node>foo Second node, sub-datapoint</Node></n0:Node></n0:root>"#,
        test_structure.to_xml(&reg).render(&reg)
    )
}

#[test]
fn test_unit_struct() {
    let reg = XMLNamespaces::new();
    let test_struct = XML::new("Root").datum(XML::new("Node"));

    assert_eq!("<Root><Node/></Root>", test_struct.render(&reg));
}

#[test]
fn test_unit_struct_unit_repr() {
    let reg = XMLNamespaces::new();
    let test_struct = XML::new("Root").datum(XML::new("Node").datum(true));

    assert_eq!("<Root><Node>true</Node></Root>", test_struct.render(&reg));
}

#[test]
fn test_unit_struct_namespace() {
    let mut reg = XMLNamespaces::new();
    reg.insert("Namespace1", "https://namespace1.com/namespace");

    let node = XML::new("Node")
        .namespace("Namespace1", &reg)
        .expect("Failed to set namespace");
    let test_struct = XML::new("Root").datum(node);

    assert_eq!(
        "<Root xmlns:n0=\"https://namespace1.com/namespace\"><n0:Node/></Root>",
        test_struct.render(&reg)
    );
}

fn tagged_options_node_a(data: &str) -> XML {
    XML::new("NodeA").datum(data.to_string())
}

fn tagged_enum_root(inner: XML) -> XML {
    // The nested enum is untagged: its value splices in directly.
    XML::new("Root").datum(XML::new_untagged().datum(inner))
}

#[test]
fn test_enum_tagged() {
    let mut reg = XMLNamespaces::new();
    reg.insert("options_namespace", "https://options_namespace.com/namespace");

    let test_struct =
        tagged_enum_root(XML::new("TaggedNode").datum(tagged_options_node_a("String")));
    assert_eq!(
        "<Root><TaggedNode><NodeA>String</NodeA></TaggedNode></Root>",
        test_struct.render(&reg)
    );
}

#[test]
fn test_enum_primitive() {
    let mut reg = XMLNamespaces::new();
    reg.insert("options_namespace", "https://options_namespace.com/namespace");

    let test_struct = tagged_enum_root(XML::new("Primitive").datum(16u16));
    assert_eq!(
        "<Root><Primitive>16</Primitive></Root>",
        test_struct.render(&reg)
    );
}

#[test]
fn test_enum_named_node() {
    let mut reg = XMLNamespaces::new();
    reg.insert("options_namespace", "https://options_namespace.com/namespace");

    let tag = XML::new(conv_case("tag", XMLCase::UpperCamelCase).as_str())
        .datum(tagged_options_node_a("String"));
    let test_struct = tagged_enum_root(XML::new("NamedNode").datum(tag));
    assert_eq!(
        "<Root><NamedNode><Tag><NodeA>String</NodeA></Tag></NamedNode></Root>",
        test_struct.render(&reg)
    );
}

#[test]
fn test_enum_named_primitive() {
    let mut reg = XMLNamespaces::new();
    reg.insert("options_namespace", "https://options_namespace.com/namespace");

    let test_struct =
        tagged_enum_root(XML::new("NamedPrimitive").datum(XML::new("tag").datum(16u16)));
    assert_eq!(
        "<Root><NamedPrimitive><tag>16</tag></NamedPrimitive></Root>",
        test_struct.render(&reg)
    );
}

#[test]
fn test_enum_two_named_fields() {
    let mut reg = XMLNamespaces::new();
    reg.insert("options_namespace", "https://options_namespace.com/namespace");

    let tag_a = XML::new(conv_case("tag_a", XMLCase::UpperCamelCase).as_str())
        .datum(tagged_options_node_a("String"));
    let tag_b = XML::new(conv_case("tag_b", XMLCase::UpperCamelCase).as_str()).datum(16u16);
    let test_struct = tagged_enum_root(XML::new("TwoNamed").datum(tag_a).datum(tag_b));
    assert_eq!(
        "<Root><TwoNamed><TagA><NodeA>String</NodeA></TagA><TagB>16</TagB></TwoNamed></Root>",
        test_struct.render(&reg)
    );
}

#[test]
fn test_enum_namespaced_subnode() {
    let mut reg = XMLNamespaces::new();
    reg.insert("options_namespace", "https://options_namespace.com/namespace");

    let node_a = tagged_options_node_a("String")
        .namespace("options_namespace", &reg)
        .expect("Failed to set node namespace.");
    let node_b = XML::new("NodeB").datum(XML::new("Data").datum(64u64));
    let test_struct =
        tagged_enum_root(XML::new("OneNamespacedSub").datum(node_a).datum(node_b));

    assert_eq!(
        r#"<Root xmlns:o0="https://options_namespace.com/namespace"><OneNamespacedSub><o0:NodeA>String</o0:NodeA><NodeB><Data>64</Data></NodeB></OneNamespacedSub></Root>"#,
        test_struct.render(&reg)
    )
}

#[test]
fn test_enum_unit() {
    let reg = XMLNamespaces::new();
    let test_value = XML::new("BoolUnit").datum(true);
    assert_eq!("<BoolUnit>true</BoolUnit>", test_value.render(&reg));
}

#[test]
fn test_untagged_enum_primitive() {
    let mut reg = XMLNamespaces::new();
    reg.insert("options_namespace", "https://options_namespace.com/namespace");

    let test_struct = tagged_enum_root(XML::new_untagged().datum(64u64));

    assert_eq!("<Root>64</Root>", test_struct.render(&reg))
}

#[test]
fn test_untagged_enum_node() {
    let mut reg = XMLNamespaces::new();
    reg.insert("options_namespace", "https://options_namespace.com/namespace");

    let test_struct =
        tagged_enum_root(XML::new_untagged().datum(tagged_options_node_a("String")));

    assert_eq!(
        "<Root><NodeA>String</NodeA></Root>",
        test_struct.render(&reg)
    )
}

#[test]
fn test_named_tagged_enum_primitive() {
    let reg = XMLNamespaces::new();
    let test_value = XML::new(conv_case("NamedEnum", XMLCase::UpperCamelCase).as_str())
        .datum(XML::new_untagged().datum(16u16));

    assert_eq!("<NamedEnum>16</NamedEnum>", test_value.render(&reg))
}

#[test]
fn test_named_tagged_enum_with() {
    let reg = XMLNamespaces::new();
    let repeated: Vec<XML> = (0..2u8).map(|i| i.to_xml()).collect();
    let test_value = XML::new(conv_case("NamedEnum", XMLCase::UpperCamelCase).as_str())
        .datum(XML::new_untagged().data(repeated.as_slice()));

    assert_eq!("<NamedEnum>01</NamedEnum>", test_value.render(&reg))
}
