//! The document tree: an acyclic, ordered, owned tree of four node
//! kinds. `Container` is an untagged grouping that splices its
//! children where a single node is expected; `Empty` renders nothing
//! and absorbs missing values.

use vstd::prelude::*;

use crate::attribute::{upsert_attr, AttrView, XMLAttribute};
use crate::casing::{conv_case_spec, XMLCase};
use crate::into_xml::{xml_specs_of, IntoXML};
use crate::namespace::{entries_view, has_name, XMLNamespace, XMLNamespaces};
use crate::node::{node_view, NodeView, XMLNode};
use crate::render::{
    collect_ns_seq, collect_ns_xml, dedup_acc, dedup_first, lemma_dedup_acc_concat, names_view,
    render_seq_root, render_xml, resolve_all, sub_render_seq, sub_render_xml, xml_namespaces,
};
use crate::XMLError;
use vstd::string::StringExecFns;

verus! {

broadcast use vstd::seq::axiom_seq_index_decreases, vstd::seq::axiom_seq_subrange_decreases,
    vstd::std_specs::vec::group_vec_axioms;

/// A tree node.
#[derive(Debug)]
pub enum XML {
    Container(Vec<XML>),
    Node(XMLNode),
    Text(String),
    Empty,
}

/// The mathematical value of a tree node.
pub enum XmlView {
    Container(Seq<XmlView>),
    Node(NodeView),
    Text(Seq<char>),
    Empty,
}

/// The mathematical value of a tree node.
pub open spec fn xml_view(x: XML) -> XmlView
    decreases x,
{
    match x {
        XML::Container(v) => XmlView::Container(xml_views(v@)),
        XML::Node(n) => XmlView::Node(node_view(n)),
        XML::Text(s) => XmlView::Text(s@),
        XML::Empty => XmlView::Empty,
    }
}

/// The mathematical values of a sequence of tree nodes.
pub open spec fn xml_views(s: Seq<XML>) -> Seq<XmlView>
    decreases s,
{
    if s.len() == 0 {
        Seq::empty()
    } else {
        xml_views(s.drop_last()).push(xml_view(s.last()))
    }
}

impl View for XML {
    type V = XmlView;

    open spec fn view(&self) -> XmlView {
        xml_view(*self)
    }
}

pub proof fn lemma_xml_views_index(s: Seq<XML>)
    ensures
        xml_views(s).len() == s.len(),
        forall|k: int| 0 <= k < s.len() ==> xml_views(s)[k] == xml_view(s[k]),
    decreases s.len(),
{
    if s.len() != 0 {
        lemma_xml_views_index(s.drop_last());
        assert(forall|k: int|
            0 <= k < s.len() - 1 ==> s.drop_last()[k] == s[k]);
    }
}

pub proof fn lemma_xml_views_push(s: Seq<XML>, x: XML)
    ensures
        xml_views(s.push(x)) == xml_views(s).push(xml_view(x)),
{
    assert(s.push(x).drop_last() =~= s);
    assert(s.push(x).last() == x);
}

/// Sequences whose elements have equal views have equal view
/// sequences.
pub proof fn lemma_xml_views_pointwise(s1: Seq<XML>, s2: Seq<XML>)
    requires
        s1.len() == s2.len(),
        forall|k: int| 0 <= k < s1.len() ==> xml_view(s1[k]) == xml_view(s2[k]),
    ensures
        xml_views(s1) == xml_views(s2),
{
    lemma_xml_views_index(s1);
    lemma_xml_views_index(s2);
    assert(xml_views(s1) =~= xml_views(s2));
}

/// A deep copy with the same mathematical value.
#[verifier::loop_isolation(false)]
pub fn clone_xml(x: &XML) -> (r: XML)
    ensures
        r@ == x@,
    decreases x,
{
    match x {
        XML::Container(v) => {
            let mut out: Vec<XML> = Vec::new();
            let mut i: usize = 0;
            while i < v.len()
                invariant
                    i <= v.len(),
                    out@.len() == i,
                    forall|k: int| 0 <= k < i ==> xml_view(out@[k]) == xml_view(v@[k]),
                decreases v.len() - i,
            {
                let c = clone_xml(&v[i]);
                out.push(c);
                i += 1;
            }
            proof {
                lemma_xml_views_pointwise(out@, v@);
            }
            XML::Container(out)
        },
        XML::Node(n) => XML::Node(crate::node::clone_node(n)),
        XML::Text(s) => XML::Text(s.clone()),
        XML::Empty => XML::Empty,
    }
}

impl Clone for XML {
    fn clone(&self) -> (r: Self)
        ensures
            r@ == self@,
    {
        clone_xml(self)
    }
}

/// What renaming does to one node: an element takes the name; an
/// untagged grouping renames each of its children; text is wrapped in
/// a fresh element of that name so the content is kept; nothing
/// happens to an empty node.
pub open spec fn xml_set_name_spec(x: XmlView, name: Seq<char>) -> XmlView
    decreases x,
{
    match x {
        XmlView::Node(n) => XmlView::Node(NodeView { name: name, ..n }),
        XmlView::Container(cs) => XmlView::Container(seq_set_name_spec(cs, name)),
        XmlView::Text(s) => XmlView::Node(
            NodeView {
                name: name,
                namespace: None,
                attributes: Seq::empty(),
                data: seq![XmlView::Text(s)],
            },
        ),
        XmlView::Empty => XmlView::Empty,
    }
}

pub open spec fn seq_set_name_spec(cs: Seq<XmlView>, name: Seq<char>) -> Seq<XmlView>
    decreases cs,
{
    if cs.len() == 0 {
        Seq::empty()
    } else {
        seq_set_name_spec(cs.drop_last(), name).push(xml_set_name_spec(cs.last(), name))
    }
}

pub proof fn lemma_seq_set_name_index(cs: Seq<XmlView>, name: Seq<char>)
    ensures
        seq_set_name_spec(cs, name).len() == cs.len(),
        forall|k: int|
            0 <= k < cs.len() ==> seq_set_name_spec(cs, name)[k] == xml_set_name_spec(
                cs[k],
                name,
            ),
    decreases cs.len(),
{
    if cs.len() != 0 {
        lemma_seq_set_name_index(cs.drop_last(), name);
        assert(forall|k: int| 0 <= k < cs.len() - 1 ==> cs.drop_last()[k] == cs[k]);
    }
}

/// What a case rewrite does to one node: an element's name is
/// rewritten; an untagged grouping rewrites each of its children; text
/// and empty nodes are unchanged.
pub open spec fn xml_set_case_spec(x: XmlView, case: XMLCase) -> XmlView
    decreases x,
{
    match x {
        XmlView::Node(n) => XmlView::Node(NodeView { name: conv_case_spec(n.name, case), ..n }),
        XmlView::Container(cs) => XmlView::Container(seq_set_case_spec(cs, case)),
        XmlView::Text(s) => XmlView::Text(s),
        XmlView::Empty => XmlView::Empty,
    }
}

pub open spec fn seq_set_case_spec(cs: Seq<XmlView>, case: XMLCase) -> Seq<XmlView>
    decreases cs,
{
    if cs.len() == 0 {
        Seq::empty()
    } else {
        seq_set_case_spec(cs.drop_last(), case).push(xml_set_case_spec(cs.last(), case))
    }
}

pub proof fn lemma_seq_set_case_index(cs: Seq<XmlView>, case: XMLCase)
    ensures
        seq_set_case_spec(cs, case).len() == cs.len(),
        forall|k: int|
            0 <= k < cs.len() ==> seq_set_case_spec(cs, case)[k] == xml_set_case_spec(
                cs[k],
                case,
            ),
    decreases cs.len(),
{
    if cs.len() != 0 {
        lemma_seq_set_case_index(cs.drop_last(), case);
        assert(forall|k: int| 0 <= k < cs.len() - 1 ==> cs.drop_last()[k] == cs[k]);
    }
}

/// What inserting an attribute does to one node: an element takes it
/// into its attribute list (last write wins); an untagged grouping
/// hands it to each child that is itself an element, and no deeper;
/// text and empty nodes are unchanged.
pub open spec fn xml_add_attr_spec(x: XmlView, a: AttrView) -> XmlView {
    match x {
        XmlView::Node(n) => XmlView::Node(NodeView { attributes: upsert_attr(n.attributes, a), ..n }),
        XmlView::Container(cs) => XmlView::Container(seq_add_attr_spec(cs, a)),
        XmlView::Text(s) => XmlView::Text(s),
        XmlView::Empty => XmlView::Empty,
    }
}

pub open spec fn elem_add_attr_spec(x: XmlView, a: AttrView) -> XmlView {
    match x {
        XmlView::Node(n) => XmlView::Node(NodeView { attributes: upsert_attr(n.attributes, a), ..n }),
        _ => x,
    }
}

pub open spec fn seq_add_attr_spec(cs: Seq<XmlView>, a: AttrView) -> Seq<XmlView> {
    cs.map_values(|x: XmlView| elem_add_attr_spec(x, a))
}

/// What appending one child does to one node: an element or an
/// untagged grouping appends it; text turns into a two-element
/// grouping holding the original text and the new child, so content
/// is kept; an empty node absorbs it.
pub open spec fn xml_add_datum_spec(x: XmlView, d: XmlView) -> XmlView {
    match x {
        XmlView::Node(n) => XmlView::Node(NodeView { data: n.data.push(d), ..n }),
        XmlView::Container(cs) => XmlView::Container(cs.push(d)),
        XmlView::Text(s) => XmlView::Container(seq![XmlView::Text(s), d]),
        XmlView::Empty => XmlView::Empty,
    }
}

/// What appending a sequence of children does to one node.
pub open spec fn xml_add_data_spec(x: XmlView, ds: Seq<XmlView>) -> XmlView {
    match x {
        XmlView::Node(n) => XmlView::Node(NodeView { data: n.data + ds, ..n }),
        XmlView::Container(cs) => XmlView::Container(cs + ds),
        XmlView::Text(s) => XmlView::Container(seq![XmlView::Text(s)] + ds),
        XmlView::Empty => XmlView::Empty,
    }
}

impl XML {
    /// A new element node with the given name.
    pub fn new(name: &str) -> (r: Self)
        ensures
            r@ == XmlView::Node(
                NodeView {
                    name: name@,
                    namespace: None,
                    attributes: Seq::empty(),
                    data: Seq::empty(),
                },
            ),
    {
        XML::Node(XMLNode::new(name))
    }

    /// A new untagged grouping with no children.
    pub fn new_untagged() -> (r: Self)
        ensures
            r@ == XmlView::Container(Seq::empty()),
    {
        let r = XML::Container(Vec::new());
        proof {
            assert(xml_views(Seq::<XML>::empty()) =~= Seq::<XmlView>::empty());
        }
        r
    }

    /// Inserts or overwrites an attribute, as `xml_add_attr_spec`
    /// states: on an element directly, through an untagged grouping
    /// onto each element child; a duplicate key is not an error, the
    /// new value wins.
    #[verifier::loop_isolation(false)]
    pub fn add_attribute(&mut self, attribute_name: &str, attribute_value: &str)
        ensures
            final(self)@ == xml_add_attr_spec(
                old(self)@,
                AttrView { key: attribute_name@, value: attribute_value@, namespace: None },
            ),
    {
        let ghost a = AttrView { key: attribute_name@, value: attribute_value@, namespace: None };
        match self {
            XML::Node(node) => {
                node.add_attribute(XMLAttribute::new(attribute_name, attribute_value));
            },
            XML::Container(nodes) => {
                let ghost c0 = nodes@;
                let mut i: usize = 0;
                while i < nodes.len()
                    invariant
                        i <= nodes.len(),
                        nodes@.len() == c0.len(),
                        forall|k: int|
                            0 <= k < i ==> xml_view(nodes@[k]) == elem_add_attr_spec(
                                xml_view(c0[k]),
                                a,
                            ),
                        forall|k: int| i <= k < c0.len() ==> nodes@[k] == c0[k],
                    decreases nodes.len() - i,
                {
                    let ghost before = nodes@;
                    let mut tmp = XML::Empty;
                    core::mem::swap(&mut nodes[i], &mut tmp);
                    tmp = elem_add_attr(tmp, attribute_name, attribute_value);
                    core::mem::swap(&mut nodes[i], &mut tmp);
                    proof {
                        assert(forall|k: int|
                            0 <= k < c0.len() && k != i ==> nodes@[k] == before[k]);
                        assert(xml_view(nodes@[i as int]) == elem_add_attr_spec(
                            xml_view(c0[i as int]),
                            a,
                        ));
                    }
                    i += 1;
                }
                proof {
                    lemma_xml_views_index(nodes@);
                    lemma_xml_views_index(c0);
                    assert(xml_views(nodes@) =~= seq_add_attr_spec(xml_views(c0), a));
                }
            },
            _ => {},
        }
    }

    /// Chaining form of `add_attribute`.
    pub fn attribute(self, attribute_name: &str, attribute_value: &str) -> (r: Self)
        ensures
            r@ == xml_add_attr_spec(
                self@,
                AttrView { key: attribute_name@, value: attribute_value@, namespace: None },
            ),
    {
        let mut x = self;
        x.add_attribute(attribute_name, attribute_value);
        x
    }

    /// Renames this node, as `xml_set_name_spec` states.
    pub fn set_name(&mut self, name: &str)
        ensures
            final(self)@ == xml_set_name_spec(old(self)@, name@),
    {
        let r = set_name_xml(self, name);
        *self = r;
    }

    /// Chaining form of `set_name`.
    pub fn name(self, name: &str) -> (r: Self)
        ensures
            r@ == xml_set_name_spec(self@, name@),
    {
        let mut x = self;
        x.set_name(name);
        x
    }

    /// Rewrites names with the chosen case strategy, as
    /// `xml_set_case_spec` states.
    pub fn set_case(&mut self, case: XMLCase)
        ensures
            final(self)@ == xml_set_case_spec(old(self)@, case),
    {
        let r = set_case_xml(self, case);
        *self = r;
    }

    /// Chaining form of `set_case`.
    pub fn case(self, case: XMLCase) -> (r: Self)
        ensures
            r@ == xml_set_case_spec(self@, case),
    {
        let mut x = self;
        x.set_case(case);
        x
    }

    /// Binds an element to a registered namespace name. Binding text
    /// or an untagged grouping is invalid; binding an empty node does
    /// nothing. An unregistered name is reported and the node is left
    /// unchanged.
    pub fn set_namespace(&mut self, namespace: &str, registry: &XMLNamespaces) -> (r: Result<
        (),
        XMLError,
    >)
        ensures
            match r {
                Ok(_) => match old(self)@ {
                    XmlView::Node(n) => has_name(registry@, namespace@) && final(self)@
                        == XmlView::Node(NodeView { namespace: Some(namespace@), ..n }),
                    XmlView::Empty => final(self)@ == old(self)@,
                    _ => false,
                },
                Err(e) => final(self)@ == old(self)@ && match old(self)@ {
                    XmlView::Node(_) => !has_name(registry@, namespace@) && (e matches
                        XMLError::NamespaceNotFound(n) && n@ == namespace@),
                    XmlView::Container(_) => e is NamespaceOnText,
                    XmlView::Text(_) => e is NamespaceOnText,
                    XmlView::Empty => false,
                },
            },
    {
        match self {
            XML::Node(node) => node.set_namespace(namespace, registry),
            XML::Container(_) => Err(XMLError::NamespaceOnText),
            XML::Text(_) => Err(XMLError::NamespaceOnText),
            XML::Empty => Ok(()),
        }
    }

    /// Chaining form of `set_namespace`.
    pub fn namespace(self, namespace: &str, registry: &XMLNamespaces) -> (r: Result<
        Self,
        XMLError,
    >)
        ensures
            match r {
                Ok(x) => match self@ {
                    XmlView::Node(n) => has_name(registry@, namespace@) && x@ == XmlView::Node(
                        NodeView { namespace: Some(namespace@), ..n },
                    ),
                    XmlView::Empty => x@ == self@,
                    _ => false,
                },
                Err(e) => match self@ {
                    XmlView::Node(_) => !has_name(registry@, namespace@) && (e matches
                        XMLError::NamespaceNotFound(n) && n@ == namespace@),
                    XmlView::Container(_) => e is NamespaceOnText,
                    XmlView::Text(_) => e is NamespaceOnText,
                    XmlView::Empty => false,
                },
            },
    {
        let mut x = self;
        match x.set_namespace(namespace, registry) {
            Ok(_) => Ok(x),
            Err(e) => Err(e),
        }
    }

    /// Appends the node a value stands for, as `xml_add_datum_spec`
    /// states.
    pub fn add_datum<T: IntoXML>(&mut self, datum: T)
        ensures
            final(self)@ == xml_add_datum_spec(old(self)@, datum.to_xml_spec()),
    {
        match self {
            XML::Node(node) => node.add_datum(datum),
            XML::Container(nodes) => {
                let ghost c0 = nodes@;
                let x = datum.to_xml();
                nodes.push(x);
                proof {
                    lemma_xml_views_push(c0, x);
                }
            },
            XML::Text(s) => {
                let t = s.clone();
                let mut v: Vec<XML> = Vec::new();
                let first = XML::Text(t);
                let second = datum.to_xml();
                proof {
                    assert(xml_views(Seq::<XML>::empty()) =~= Seq::<XmlView>::empty());
                }
                let ghost v0 = v@;
                v.push(first);
                proof {
                    lemma_xml_views_push(v0, first);
                }
                let ghost v1 = v@;
                v.push(second);
                proof {
                    lemma_xml_views_push(v1, second);
                    assert(xml_views(v@) =~= seq![
                        XmlView::Text(old(self)@->Text_0),
                        datum.to_xml_spec(),
                    ]);
                }
                *self = XML::Container(v);
            },
            XML::Empty => {},
        }
    }

    /// Chaining form of `add_datum`.
    pub fn datum<T: IntoXML>(self, datum: T) -> (r: Self)
        ensures
            r@ == xml_add_datum_spec(self@, datum.to_xml_spec()),
    {
        let mut x = self;
        x.add_datum(datum);
        x
    }

    /// Appends the nodes a slice of values stands for, in order, as
    /// `xml_add_data_spec` states.
    pub fn add_data<T: IntoXML>(&mut self, data: &[T])
        ensures
            final(self)@ == xml_add_data_spec(old(self)@, xml_specs_of(data@)),
    {
        match self {
            XML::Node(node) => node.add_data(data),
            XML::Container(nodes) => {
                let ghost c0 = nodes@;
                let mut i: usize = 0;
                while i < data.len()
                    invariant
                        i <= data.len(),
                        nodes@.len() == c0.len() + i,
                        forall|k: int| 0 <= k < c0.len() ==> nodes@[k] == c0[k],
                        forall|k: int|
                            0 <= k < i ==> xml_view(nodes@[c0.len() + k]) == data@[k].to_xml_spec(),
                    decreases data.len() - i,
                {
                    let x = data[i].to_xml();
                    nodes.push(x);
                    i += 1;
                }
                proof {
                    lemma_xml_views_index(nodes@);
                    lemma_xml_views_index(c0);
                    assert(xml_views(nodes@) =~= xml_views(c0) + xml_specs_of(data@));
                }
            },
            XML::Text(s) => {
                let t = s.clone();
                let mut v: Vec<XML> = Vec::new();
                let first = XML::Text(t);
                proof {
                    assert(xml_views(Seq::<XML>::empty()) =~= Seq::<XmlView>::empty());
                }
                let ghost v0 = v@;
                v.push(first);
                proof {
                    lemma_xml_views_push(v0, first);
                }
                let ghost c0 = v@;
                let mut i: usize = 0;
                while i < data.len()
                    invariant
                        i <= data.len(),
                        v@.len() == c0.len() + i,
                        forall|k: int| 0 <= k < c0.len() ==> v@[k] == c0[k],
                        forall|k: int|
                            0 <= k < i ==> xml_view(v@[c0.len() + k]) == data@[k].to_xml_spec(),
                    decreases data.len() - i,
                {
                    let x = data[i].to_xml();
                    v.push(x);
                    i += 1;
                }
                proof {
                    lemma_xml_views_index(v@);
                    lemma_xml_views_index(c0);
                    assert(xml_views(v@) =~= seq![XmlView::Text(old(self)@->Text_0)]
                        + xml_specs_of(data@));
                }
                *self = XML::Container(v);
            },
            XML::Empty => {},
        }
    }

    /// Chaining form of `add_data`.
    pub fn data<T: IntoXML>(self, data: &[T]) -> (r: Self)
        ensures
            r@ == xml_add_data_spec(self@, xml_specs_of(data@)),
    {
        let mut x = self;
        x.add_data(data);
        x
    }

    /// Appends one node, as `xml_add_datum_spec` states.
    pub fn add_node(&mut self, node: XML)
        ensures
            final(self)@ == xml_add_datum_spec(old(self)@, node@),
    {
        self.add_datum(node);
    }

    /// Chaining form of `add_node`.
    pub fn node(self, node: XML) -> (r: Self)
        ensures
            r@ == xml_add_datum_spec(self@, node@),
    {
        let mut x = self;
        x.add_node(node);
        x
    }

    /// Appends copies of a slice of nodes, in order, as
    /// `xml_add_data_spec` states.
    pub fn add_nodes(&mut self, nodes: &[XML])
        ensures
            final(self)@ == xml_add_data_spec(old(self)@, xml_specs_of(nodes@)),
    {
        self.add_data(nodes);
    }

    /// Chaining form of `add_nodes`.
    pub fn nodes(self, nodes: &[XML]) -> (r: Self)
        ensures
            r@ == xml_add_data_spec(self@, xml_specs_of(nodes@)),
    {
        let mut x = self;
        x.add_nodes(nodes);
        x
    }

    /// The distinct namespaces bound anywhere in this tree, resolved
    /// against the registry, in first-seen order; names the registry
    /// does not know are skipped.
    pub fn namespaces(&self, registry: &XMLNamespaces) -> (r: Vec<XMLNamespace>)
        ensures
            entries_view(r@) == xml_namespaces(self@, registry@),
    {
        let mut seen: Vec<String> = Vec::new();
        proof {
            assert(names_view(seen@) =~= Seq::<Seq<char>>::empty());
        }
        collect_xml(self, &mut seen);
        proof {
            assert(Seq::<Seq<char>>::empty() + dedup_acc(
                collect_ns_xml(self@),
                Seq::empty(),
            ) =~= dedup_first(collect_ns_xml(self@)));
        }
        resolve_all(registry, &seen)
    }

    /// Appends this tree as rendered on a descent: text verbatim, an
    /// untagged grouping as its children concatenated, nothing for an
    /// empty node.
    #[verifier::loop_isolation(false)]
    pub(crate) fn sub_fmt_into(&self, registry: &XMLNamespaces, out: &mut String)
        ensures
            final(out)@ == old(out)@ + sub_render_xml(self@, registry@),
        decreases self,
    {
        let ghost out0 = out@;
        match self {
            XML::Text(s) => {
                out.append(s.as_str());
            },
            XML::Node(n) => {
                n.sub_fmt_into(registry, out);
            },
            XML::Container(v) => {
                let ghost views = xml_views(v@);
                proof {
                    lemma_xml_views_index(v@);
                    assert(views.take(0) =~= Seq::<XmlView>::empty());
                    assert(out@ =~= out0 + sub_render_seq(views.take(0), registry@));
                }
                let mut i: usize = 0;
                while i < v.len()
                    invariant
                        i <= v.len(),
                        out@ == out0 + sub_render_seq(views.take(i as int), registry@),
                    decreases v.len() - i,
                {
                    v[i].sub_fmt_into(registry, out);
                    proof {
                        assert(views.take(i as int + 1).drop_last() =~= views.take(i as int));
                        assert(views.take(i as int + 1).last() == views[i as int]);
                        assert(out@ =~= out0 + sub_render_seq(views.take(i as int + 1), registry@));
                    }
                    i += 1;
                }
                proof {
                    assert(views.take(views.len() as int) =~= views);
                }
            },
            XML::Empty => {
                proof {
                    assert(out@ =~= out0 + sub_render_xml(self@, registry@));
                }
            },
        }
    }

    /// This tree as rendered on a descent, exactly as
    /// `sub_render_xml` states.
    pub fn sub_fmt(&self, registry: &XMLNamespaces) -> (r: String)
        ensures
            r@ == sub_render_xml(self@, registry@),
    {
        let mut out = String::new();
        self.sub_fmt_into(registry, &mut out);
        proof {
            assert(Seq::<char>::empty() + sub_render_xml(self@, registry@) =~= sub_render_xml(
                self@,
                registry@,
            ));
        }
        out
    }

    /// This tree as the root of a render call, exactly as
    /// `render_xml` states: an element hoists its namespace
    /// declarations; each direct child of a root-level untagged
    /// grouping is a root of its own render call. Rendering never
    /// fails and does not change the tree or the registry.
    #[verifier::loop_isolation(false)]
    pub fn render(&self, registry: &XMLNamespaces) -> (r: String)
        ensures
            r@ == render_xml(self@, registry@),
        decreases self,
    {
        match self {
            XML::Text(s) => s.clone(),
            XML::Node(n) => n.render(registry),
            XML::Container(v) => {
                let mut out = String::new();
                let ghost views = xml_views(v@);
                proof {
                    lemma_xml_views_index(v@);
                    assert(views.take(0) =~= Seq::<XmlView>::empty());
                    assert(out@ =~= render_seq_root(views.take(0), registry@));
                }
                let mut i: usize = 0;
                while i < v.len()
                    invariant
                        i <= v.len(),
                        out@ == render_seq_root(views.take(i as int), registry@),
                    decreases v.len() - i,
                {
                    let piece = v[i].render(registry);
                    out.append(piece.as_str());
                    proof {
                        assert(views.take(i as int + 1).drop_last() =~= views.take(i as int));
                        assert(views.take(i as int + 1).last() == views[i as int]);
                        assert(out@ =~= render_seq_root(views.take(i as int + 1), registry@));
                    }
                    i += 1;
                }
                proof {
                    assert(views.take(views.len() as int) =~= views);
                }
                out
            },
            XML::Empty => {
                let out = String::new();
                proof {
                    assert(out@ =~= render_xml(self@, registry@));
                }
                out
            },
        }
    }

    /// Appends a text leaf, as `xml_add_datum_spec` states.
    pub fn add_text(&mut self, text: &str)
        ensures
            final(self)@ == xml_add_datum_spec(old(self)@, XmlView::Text(text@)),
    {
        self.add_datum(XML::Text(text.to_owned()));
    }

    /// Chaining form of `add_text`.
    pub fn text(self, text: &str) -> (r: Self)
        ensures
            r@ == xml_add_datum_spec(self@, XmlView::Text(text@)),
    {
        let mut x = self;
        x.add_text(text);
        x
    }
}

/// Walks a tree in pre-order, appending each namespace name not yet
/// seen to `seen`.
#[verifier::loop_isolation(false)]
pub(crate) fn collect_xml(x: &XML, seen: &mut Vec<String>)
    ensures
        names_view(final(seen)@) == names_view(old(seen)@) + dedup_acc(
            collect_ns_xml(x@),
            names_view(old(seen)@),
        ),
    decreases x,
{
    let ghost seen0 = names_view(seen@);
    match x {
        XML::Node(n) => {
            crate::node::collect_node(n, seen);
        },
        XML::Container(v) => {
            let ghost views = xml_views(v@);
            proof {
                lemma_xml_views_index(v@);
                assert(views.take(0) =~= Seq::<XmlView>::empty());
                assert(seen0 + dedup_acc(collect_ns_seq(views.take(0)), seen0) =~= seen0);
            }
            let mut i: usize = 0;
            while i < v.len()
                invariant
                    i <= v.len(),
                    names_view(seen@) == seen0 + dedup_acc(
                        collect_ns_seq(views.take(i as int)),
                        seen0,
                    ),
                decreases v.len() - i,
            {
                let ghost p = collect_ns_seq(views.take(i as int));
                let ghost c = collect_ns_xml(views[i as int]);
                collect_xml(&v[i], seen);
                proof {
                    lemma_dedup_acc_concat(p, c, seen0);
                    assert(views.take(i as int + 1).drop_last() =~= views.take(i as int));
                    assert(views.take(i as int + 1).last() == views[i as int]);
                    assert(collect_ns_seq(views.take(i as int + 1)) == p + c);
                    assert(seen0 + (dedup_acc(p, seen0) + dedup_acc(c, seen0 + dedup_acc(
                        p,
                        seen0,
                    ))) =~= (seen0 + dedup_acc(p, seen0)) + dedup_acc(
                        c,
                        seen0 + dedup_acc(p, seen0),
                    ));
                }
                i += 1;
            }
            proof {
                assert(views.take(v@.len() as int) =~= views);
            }
        },
        XML::Text(_) => {
            proof {
                assert(names_view(seen@) =~= seen0 + dedup_acc(collect_ns_xml(x@), seen0));
            }
        },
        XML::Empty => {
            proof {
                assert(names_view(seen@) =~= seen0 + dedup_acc(collect_ns_xml(x@), seen0));
            }
        },
    }
}

/// Inserts the attribute when the node is an element; leaves any other
/// node unchanged.
fn elem_add_attr(x: XML, attribute_name: &str, attribute_value: &str) -> (r: XML)
    ensures
        r@ == elem_add_attr_spec(
            x@,
            AttrView { key: attribute_name@, value: attribute_value@, namespace: None },
        ),
{
    match x {
        XML::Node(mut n) => {
            n.add_attribute(XMLAttribute::new(attribute_name, attribute_value));
            XML::Node(n)
        },
        other => other,
    }
}

/// The renamed copy of a node, as `xml_set_name_spec` states.
#[verifier::loop_isolation(false)]
fn set_name_xml(x: &XML, name: &str) -> (r: XML)
    ensures
        r@ == xml_set_name_spec(x@, name@),
    decreases x,
{
    match x {
        XML::Node(n) => {
            let mut c = crate::node::clone_node(n);
            c.set_name(name);
            XML::Node(c)
        },
        XML::Container(v) => {
            let mut out: Vec<XML> = Vec::new();
            let mut i: usize = 0;
            while i < v.len()
                invariant
                    i <= v.len(),
                    out@.len() == i,
                    forall|k: int|
                        0 <= k < i ==> xml_view(out@[k]) == xml_set_name_spec(
                            xml_view(v@[k]),
                            name@,
                        ),
                decreases v.len() - i,
            {
                let c = set_name_xml(&v[i], name);
                out.push(c);
                i += 1;
            }
            proof {
                lemma_xml_views_index(out@);
                lemma_xml_views_index(v@);
                lemma_seq_set_name_index(xml_views(v@), name@);
                assert(xml_views(out@) =~= seq_set_name_spec(xml_views(v@), name@));
            }
            XML::Container(out)
        },
        XML::Text(s) => {
            let mut n = XMLNode::new(name);
            n.add_text(s.as_str());
            proof {
                assert(Seq::<XmlView>::empty().push(XmlView::Text(s@)) =~= seq![
                    XmlView::Text(s@),
                ]);
            }
            XML::Node(n)
        },
        XML::Empty => XML::Empty,
    }
}

/// The case-rewritten copy of a node, as `xml_set_case_spec` states.
#[verifier::loop_isolation(false)]
fn set_case_xml(x: &XML, case: XMLCase) -> (r: XML)
    ensures
        r@ == xml_set_case_spec(x@, case),
    decreases x,
{
    match x {
        XML::Node(n) => {
            let mut c = crate::node::clone_node(n);
            c.set_case(case);
            XML::Node(c)
        },
        XML::Container(v) => {
            let mut out: Vec<XML> = Vec::new();
            let mut i: usize = 0;
            while i < v.len()
                invariant
                    i <= v.len(),
                    out@.len() == i,
                    forall|k: int|
                        0 <= k < i ==> xml_view(out@[k]) == xml_set_case_spec(
                            xml_view(v@[k]),
                            case,
                        ),
                decreases v.len() - i,
            {
                let c = set_case_xml(&v[i], case);
                out.push(c);
                i += 1;
            }
            proof {
                lemma_xml_views_index(out@);
                lemma_xml_views_index(v@);
                lemma_seq_set_case_index(xml_views(v@), case);
                assert(xml_views(out@) =~= seq_set_case_spec(xml_views(v@), case));
            }
            XML::Container(out)
        },
        XML::Text(s) => XML::Text(s.clone()),
        XML::Empty => XML::Empty,
    }
}

} // verus!
