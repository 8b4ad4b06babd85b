//! Conversion of plain values into tree nodes: the interface the
//! tree-builder takes its children through, implemented here for the
//! tree types themselves, strings, booleans and integers, and open for
//! callers to implement on their own types.

use vstd::prelude::*;

use crate::data::{clone_xml, XmlView, XML};
use crate::node::{clone_node, NodeView, XMLNode};
use crate::strings::{dec_int, dec_nat, i128_to_dec, i64_to_dec, u128_to_dec, u64_to_dec};

verus! {

/// A value that can stand as a tree node. `to_xml_spec` is the node it
/// stands for; `to_xml` produces exactly that node.
pub trait IntoXML {
    spec fn to_xml_spec(&self) -> XmlView;

    fn to_xml(&self) -> (r: XML)
        ensures
            r@ == self.to_xml_spec(),
    ;
}

/// A value that can stand as an element. `to_node_spec` is the element
/// it stands for; `to_xml` produces exactly that element.
pub trait IntoXMLNode {
    spec fn to_node_spec(&self) -> NodeView;

    fn to_xml(&self) -> (r: XMLNode)
        ensures
            r@ == self.to_node_spec(),
    ;
}

/// The nodes a sequence of values stands for.
pub open spec fn xml_specs_of<T: IntoXML>(s: Seq<T>) -> Seq<XmlView> {
    s.map_values(|t: T| t.to_xml_spec())
}

impl<T: IntoXML> IntoXML for Option<T> {
    open spec fn to_xml_spec(&self) -> XmlView {
        match self {
            Some(v) => v.to_xml_spec(),
            None => XmlView::Empty,
        }
    }

    fn to_xml(&self) -> (r: XML) {
        match self {
            Some(v) => v.to_xml(),
            None => XML::Empty,
        }
    }
}

impl IntoXML for &str {
    open spec fn to_xml_spec(&self) -> XmlView {
        XmlView::Text((*self)@)
    }

    fn to_xml(&self) -> (r: XML) {
        XML::Text((*self).to_owned())
    }
}

impl IntoXML for XML {
    open spec fn to_xml_spec(&self) -> XmlView {
        self@
    }

    fn to_xml(&self) -> (r: XML) {
        clone_xml(self)
    }
}

impl IntoXML for XMLNode {
    open spec fn to_xml_spec(&self) -> XmlView {
        XmlView::Node(self@)
    }

    fn to_xml(&self) -> (r: XML) {
        XML::Node(clone_node(self))
    }
}

impl IntoXML for String {
    open spec fn to_xml_spec(&self) -> XmlView {
        XmlView::Text(self@)
    }

    fn to_xml(&self) -> (r: XML) {
        XML::Text(self.clone())
    }
}

impl IntoXML for bool {
    open spec fn to_xml_spec(&self) -> XmlView {
        XmlView::Text(if *self { "true"@ } else { "false"@ })
    }

    fn to_xml(&self) -> (r: XML) {
        if *self {
            XML::Text("true".to_owned())
        } else {
            XML::Text("false".to_owned())
        }
    }
}

impl IntoXML for u8 {
    open spec fn to_xml_spec(&self) -> XmlView {
        XmlView::Text(dec_nat(*self as nat))
    }

    fn to_xml(&self) -> (r: XML) {
        XML::Text(u64_to_dec(*self as u64))
    }
}

impl IntoXML for u16 {
    open spec fn to_xml_spec(&self) -> XmlView {
        XmlView::Text(dec_nat(*self as nat))
    }

    fn to_xml(&self) -> (r: XML) {
        XML::Text(u64_to_dec(*self as u64))
    }
}

impl IntoXML for u32 {
    open spec fn to_xml_spec(&self) -> XmlView {
        XmlView::Text(dec_nat(*self as nat))
    }

    fn to_xml(&self) -> (r: XML) {
        XML::Text(u64_to_dec(*self as u64))
    }
}

impl IntoXML for u64 {
    open spec fn to_xml_spec(&self) -> XmlView {
        XmlView::Text(dec_nat(*self as nat))
    }

    fn to_xml(&self) -> (r: XML) {
        XML::Text(u64_to_dec(*self))
    }
}

impl IntoXML for u128 {
    open spec fn to_xml_spec(&self) -> XmlView {
        XmlView::Text(dec_nat(*self as nat))
    }

    fn to_xml(&self) -> (r: XML) {
        XML::Text(u128_to_dec(*self))
    }
}

impl IntoXML for i8 {
    open spec fn to_xml_spec(&self) -> XmlView {
        XmlView::Text(dec_int(*self as int))
    }

    fn to_xml(&self) -> (r: XML) {
        XML::Text(i64_to_dec(*self as i64))
    }
}

impl IntoXML for i16 {
    open spec fn to_xml_spec(&self) -> XmlView {
        XmlView::Text(dec_int(*self as int))
    }

    fn to_xml(&self) -> (r: XML) {
        XML::Text(i64_to_dec(*self as i64))
    }
}

impl IntoXML for i32 {
    open spec fn to_xml_spec(&self) -> XmlView {
        XmlView::Text(dec_int(*self as int))
    }

    fn to_xml(&self) -> (r: XML) {
        XML::Text(i64_to_dec(*self as i64))
    }
}

impl IntoXML for i64 {
    open spec fn to_xml_spec(&self) -> XmlView {
        XmlView::Text(dec_int(*self as int))
    }

    fn to_xml(&self) -> (r: XML) {
        XML::Text(i64_to_dec(*self))
    }
}

impl IntoXML for i128 {
    open spec fn to_xml_spec(&self) -> XmlView {
        XmlView::Text(dec_int(*self as int))
    }

    fn to_xml(&self) -> (r: XML) {
        XML::Text(i128_to_dec(*self))
    }
}

} // verus!
