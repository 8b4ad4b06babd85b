//! An element: a name, an optional namespace binding (stored as the
//! registered namespace name, resolved at render time), an ordered
//! attribute list, and an ordered list of children.

use vstd::prelude::*;

use crate::attribute::{
    attrs_view, attrs_wf, find_key, lemma_find_key, lemma_find_key_at, lemma_upsert_attr_wf,
    upsert_attr, AttrView, XMLAttribute,
};
use crate::casing::{conv_case, conv_case_spec, XMLCase};
use crate::data::{lemma_xml_views_push, xml_view, xml_views, XmlView, XML};
use crate::into_xml::{xml_specs_of, IntoXML};
use crate::namespace::{entries_view, has_name, NsView, XMLNamespace, XMLNamespaces};
use crate::render::{
    collect_ns_node, collect_ns_seq, collect_ns_xml, decls_of, dedup_acc, dedup_first,
    lemma_dedup_acc_concat, names_view, node_namespaces, render_attrs, render_node, resolve_all,
    sub_render_node, sub_render_seq, tag_of,
};
use crate::strings::push_char;
use crate::XMLError;
use vstd::string::StringExecFns;

verus! {

broadcast use vstd::std_specs::vec::group_vec_axioms;

/// The elements a sequence of elements stands for, as tree nodes.
pub open spec fn node_views_of(s: Seq<XMLNode>) -> Seq<XmlView> {
    s.map_values(|n: XMLNode| XmlView::Node(node_view(n)))
}

/// An element node.
#[derive(Debug)]
pub struct XMLNode {
    pub(crate) name: String,
    pub(crate) namespace: Option<String>,
    pub(crate) attributes: Vec<XMLAttribute>,
    pub(crate) data: Vec<XML>,
}

/// The mathematical value of an element.
pub struct NodeView {
    pub name: Seq<char>,
    pub namespace: Option<Seq<char>>,
    pub attributes: Seq<AttrView>,
    pub data: Seq<XmlView>,
}

/// The mathematical value of an element.
pub closed spec fn node_view(n: XMLNode) -> NodeView
    decreases n,
{
    NodeView {
        name: n.name@,
        namespace: match n.namespace {
            Some(s) => Some(s@),
            None => None,
        },
        attributes: attrs_view(n.attributes@),
        data: xml_views(n.data@),
    }
}

impl View for XMLNode {
    type V = NodeView;

    open spec fn view(&self) -> NodeView {
        node_view(*self)
    }
}

/// A deep copy with the same mathematical value.
pub fn clone_node(n: &XMLNode) -> (r: XMLNode)
    ensures
        r@ == n@,
    decreases n,
{
    let mut attributes: Vec<XMLAttribute> = Vec::new();
    let mut i: usize = 0;
    while i < n.attributes.len()
        invariant
            i <= n.attributes.len(),
            attributes@.len() == i,
            forall|k: int| 0 <= k < i ==> attributes@[k]@ == n.attributes@[k]@,
        decreases n.attributes.len() - i,
    {
        attributes.push(n.attributes[i].clone());
        i += 1;
    }
    proof {
        assert(attrs_view(attributes@) =~= attrs_view(n.attributes@));
    }
    let mut data: Vec<XML> = Vec::new();
    let mut j: usize = 0;
    while j < n.data.len()
        invariant
            j <= n.data.len(),
            data@.len() == j,
            forall|k: int| 0 <= k < j ==> crate::data::xml_view(data@[k]) == crate::data::xml_view(
                n.data@[k],
            ),
        decreases n.data.len() - j,
    {
        let c = crate::data::clone_xml(&n.data[j]);
        data.push(c);
        j += 1;
    }
    proof {
        crate::data::lemma_xml_views_pointwise(data@, n.data@);
    }
    XMLNode {
        name: n.name.clone(),
        namespace: match &n.namespace {
            Some(s) => Some(s.clone()),
            None => None,
        },
        attributes,
        data,
    }
}

impl Clone for XMLNode {
    fn clone(&self) -> (r: Self)
        ensures
            r@ == self@,
    {
        clone_node(self)
    }
}

impl XMLNode {
    /// A new element with the given name, no namespace binding, no
    /// attributes and no children.
    pub fn new(name: &str) -> (r: Self)
        ensures
            r@ == (NodeView {
                name: name@,
                namespace: None,
                attributes: Seq::empty(),
                data: Seq::empty(),
            }),
    {
        let r = XMLNode {
            name: name.to_owned(),
            namespace: None,
            attributes: Vec::new(),
            data: Vec::new(),
        };
        proof {
            assert(attrs_view(r.attributes@) =~= Seq::<AttrView>::empty());
        }
        r
    }

    fn find_attr_index(&self, key: &str) -> (r: Option<usize>)
        ensures
            match r {
                Some(i) => find_key(self@.attributes, key@) == i,
                None => find_key(self@.attributes, key@) == -1,
            },
    {
        proof {
            lemma_find_key(self@.attributes, key@);
        }
        let mut i: usize = 0;
        while i < self.attributes.len()
            invariant
                i <= self.attributes.len(),
                forall|j: int| 0 <= j < i ==> self@.attributes[j].key != key@,
            decreases self.attributes.len() - i,
        {
            if self.attributes[i].matches_key(key) {
                proof {
                    lemma_find_key_at(self@.attributes, key@, i as int);
                }
                return Some(i);
            }
            i += 1;
        }
        None
    }

    /// Inserts or overwrites the attribute under its key: an existing
    /// key keeps its position and takes the new attribute (last write
    /// wins, not an error); a new key is appended.
    pub fn add_attribute(&mut self, attribute: XMLAttribute)
        ensures
            final(self)@ == (NodeView {
                attributes: upsert_attr(old(self)@.attributes, attribute@),
                ..old(self)@
            }),
            attrs_wf(old(self)@.attributes) ==> attrs_wf(final(self)@.attributes),
    {
        let ghost a0 = self@.attributes;
        proof {
            lemma_find_key(a0, attribute@.key);
            if attrs_wf(a0) {
                lemma_upsert_attr_wf(a0, attribute@);
            }
        }
        let ghost prev = self.attributes@;
        match self.find_attr_index(attribute.key_str()) {
            Some(i) => {
                self.attributes[i] = attribute;
                proof {
                    assert(attrs_view(prev).len() == prev.len());
                    assert forall|k: int| 0 <= k < self.attributes@.len() implies attrs_view(
                        self.attributes@,
                    )[k] == upsert_attr(a0, attribute@)[k] by {
                        assert(attrs_view(self.attributes@)[k] == self.attributes@[k]@);
                        if k != i as int {
                            assert(self.attributes@[k] == prev[k]);
                            assert(attrs_view(prev)[k] == prev[k]@);
                        }
                    }
                    assert(attrs_view(self.attributes@) =~= upsert_attr(a0, attribute@));
                }
            },
            None => {
                self.attributes.push(attribute);
                proof {
                    assert(attrs_view(prev).len() == prev.len());
                    assert forall|k: int| 0 <= k < self.attributes@.len() implies attrs_view(
                        self.attributes@,
                    )[k] == upsert_attr(a0, attribute@)[k] by {
                        assert(attrs_view(self.attributes@)[k] == self.attributes@[k]@);
                        if k < prev.len() {
                            assert(self.attributes@[k] == prev[k]);
                            assert(attrs_view(prev)[k] == prev[k]@);
                        }
                    }
                    assert(attrs_view(self.attributes@) =~= upsert_attr(a0, attribute@));
                }
            },
        }
    }

    /// Chaining form of `add_attribute`.
    pub fn attribute(self, attribute: XMLAttribute) -> (r: Self)
        ensures
            r@ == (NodeView { attributes: upsert_attr(self@.attributes, attribute@), ..self@ }),
            attrs_wf(self@.attributes) ==> attrs_wf(r@.attributes),
    {
        let mut n = self;
        n.add_attribute(attribute);
        n
    }

    /// Replaces the element's name.
    pub fn set_name(&mut self, name: &str)
        ensures
            final(self)@ == (NodeView { name: name@, ..old(self)@ }),
    {
        self.name = name.to_owned();
    }

    /// Chaining form of `set_name`.
    pub fn name(self, name: &str) -> (r: Self)
        ensures
            r@ == (NodeView { name: name@, ..self@ }),
    {
        let mut n = self;
        n.set_name(name);
        n
    }

    /// Rewrites the element's name with the chosen case strategy.
    pub fn set_case(&mut self, case: XMLCase)
        ensures
            final(self)@ == (NodeView {
                name: conv_case_spec(old(self)@.name, case),
                ..old(self)@
            }),
    {
        let renamed = conv_case(self.name.as_str(), case);
        self.name = renamed;
    }

    /// Chaining form of `set_case`.
    pub fn case(self, case: XMLCase) -> (r: Self)
        ensures
            r@ == (NodeView { name: conv_case_spec(self@.name, case), ..self@ }),
    {
        let mut n = self;
        n.set_case(case);
        n
    }

    /// Binds this element to a registered namespace name; fails, and
    /// leaves the element unchanged, when the name is not registered.
    pub fn set_namespace(&mut self, namespace: &str, registry: &XMLNamespaces) -> (r: Result<
        (),
        XMLError,
    >)
        ensures
            match r {
                Ok(_) => has_name(registry@, namespace@) && final(self)@ == (NodeView {
                    namespace: Some(namespace@),
                    ..old(self)@
                }),
                Err(e) => !has_name(registry@, namespace@) && final(self)@ == old(self)@
                    && (e matches XMLError::NamespaceNotFound(n) && n@ == namespace@),
            },
    {
        if registry.contains(namespace) {
            self.namespace = Some(namespace.to_owned());
            Ok(())
        } else {
            Err(XMLError::NamespaceNotFound(namespace.to_owned()))
        }
    }

    /// Chaining form of `set_namespace`.
    pub fn namespace(self, namespace: &str, registry: &XMLNamespaces) -> (r: Result<
        Self,
        XMLError,
    >)
        ensures
            match r {
                Ok(n) => has_name(registry@, namespace@) && n@ == (NodeView {
                    namespace: Some(namespace@),
                    ..self@
                }),
                Err(e) => !has_name(registry@, namespace@) && (e matches
                    XMLError::NamespaceNotFound(n) && n@ == namespace@),
            },
    {
        let mut n = self;
        match n.set_namespace(namespace, registry) {
            Ok(_) => Ok(n),
            Err(e) => Err(e),
        }
    }

    /// Appends the node a value stands for to the children.
    pub fn add_datum<T: IntoXML>(&mut self, datum: T)
        ensures
            final(self)@ == (NodeView {
                data: old(self)@.data.push(datum.to_xml_spec()),
                ..old(self)@
            }),
    {
        let x = datum.to_xml();
        let ghost d0 = self.data@;
        self.data.push(x);
        proof {
            lemma_xml_views_push(d0, x);
        }
    }

    /// Chaining form of `add_datum`.
    pub fn datum<T: IntoXML>(self, datum: T) -> (r: Self)
        ensures
            r@ == (NodeView { data: self@.data.push(datum.to_xml_spec()), ..self@ }),
    {
        let mut n = self;
        n.add_datum(datum);
        n
    }

    /// Appends the nodes a slice of values stands for, in order.
    pub fn add_data<T: IntoXML>(&mut self, data: &[T])
        ensures
            final(self)@ == (NodeView {
                data: old(self)@.data + xml_specs_of(data@),
                ..old(self)@
            }),
    {
        let ghost d0 = self.data@;
        let mut i: usize = 0;
        while i < data.len()
            invariant
                i <= data.len(),
                self.data@.len() == d0.len() + i,
                forall|k: int| 0 <= k < d0.len() ==> self.data@[k] == d0[k],
                forall|k: int|
                    0 <= k < i ==> xml_view(self.data@[d0.len() + k]) == data@[k].to_xml_spec(),
                self.name@ == old(self).name@,
                self.namespace == old(self).namespace,
                self.attributes@ == old(self).attributes@,
            decreases data.len() - i,
        {
            let x = data[i].to_xml();
            self.data.push(x);
            i += 1;
        }
        proof {
            crate::data::lemma_xml_views_index(self.data@);
            crate::data::lemma_xml_views_index(d0);
            assert(xml_views(self.data@) =~= xml_views(d0) + xml_specs_of(data@));
        }
    }

    /// Chaining form of `add_data`.
    pub fn data<T: IntoXML>(self, data: &[T]) -> (r: Self)
        ensures
            r@ == (NodeView { data: self@.data + xml_specs_of(data@), ..self@ }),
    {
        let mut n = self;
        n.add_data(data);
        n
    }

    /// Appends one element to the children.
    pub fn add_node(&mut self, node: XMLNode)
        ensures
            final(self)@ == (NodeView {
                data: old(self)@.data.push(XmlView::Node(node@)),
                ..old(self)@
            }),
    {
        let ghost d0 = self.data@;
        let x = XML::Node(node);
        self.data.push(x);
        proof {
            lemma_xml_views_push(d0, x);
        }
    }

    /// Chaining form of `add_node`.
    pub fn node(self, node: XMLNode) -> (r: Self)
        ensures
            r@ == (NodeView { data: self@.data.push(XmlView::Node(node@)), ..self@ }),
    {
        let mut n = self;
        n.add_node(node);
        n
    }

    /// Appends copies of a slice of elements, in order.
    pub fn add_nodes(&mut self, nodes: &[XMLNode])
        ensures
            final(self)@ == (NodeView {
                data: old(self)@.data + node_views_of(nodes@),
                ..old(self)@
            }),
    {
        let ghost d0 = self.data@;
        let mut i: usize = 0;
        while i < nodes.len()
            invariant
                i <= nodes.len(),
                self.data@.len() == d0.len() + i,
                forall|k: int| 0 <= k < d0.len() ==> self.data@[k] == d0[k],
                forall|k: int|
                    0 <= k < i ==> xml_view(self.data@[d0.len() + k]) == XmlView::Node(
                        node_view(nodes@[k]),
                    ),
                self.name@ == old(self).name@,
                self.namespace == old(self).namespace,
                self.attributes@ == old(self).attributes@,
            decreases nodes.len() - i,
        {
            let c = clone_node(&nodes[i]);
            self.data.push(XML::Node(c));
            i += 1;
        }
        proof {
            crate::data::lemma_xml_views_index(self.data@);
            crate::data::lemma_xml_views_index(d0);
            assert(xml_views(self.data@) =~= xml_views(d0) + node_views_of(nodes@));
        }
    }

    /// Chaining form of `add_nodes`.
    pub fn nodes(self, nodes: &[XMLNode]) -> (r: Self)
        ensures
            r@ == (NodeView { data: self@.data + node_views_of(nodes@), ..self@ }),
    {
        let mut n = self;
        n.add_nodes(nodes);
        n
    }

    /// Appends a text leaf to the children.
    pub fn add_text(&mut self, text: &str)
        ensures
            final(self)@ == (NodeView {
                data: old(self)@.data.push(XmlView::Text(text@)),
                ..old(self)@
            }),
    {
        let ghost d0 = self.data@;
        let x = XML::Text(text.to_owned());
        self.data.push(x);
        proof {
            lemma_xml_views_push(d0, x);
        }
    }

    /// Chaining form of `add_text`.
    pub fn text(self, text: &str) -> (r: Self)
        ensures
            r@ == (NodeView { data: self@.data.push(XmlView::Text(text@)), ..self@ }),
    {
        let mut n = self;
        n.add_text(text);
        n
    }

    fn append_tag(&self, registry: &XMLNamespaces, out: &mut String)
        ensures
            final(out)@ == old(out)@ + tag_of(self@, registry@),
    {
        let ghost out0 = out@;
        match &self.namespace {
            Some(nm) => {
                match registry.get(nm.as_str()) {
                    Some(e) => {
                        out.append(e.alias.as_str());
                        push_char(out, ':');
                        out.append(self.name.as_str());
                        proof {
                            assert(out@ =~= out0 + tag_of(self@, registry@));
                        }
                    },
                    None => {
                        out.append(self.name.as_str());
                    },
                }
            },
            None => {
                out.append(self.name.as_str());
            },
        }
    }

    #[verifier::loop_isolation(false)]
    fn append_attrs(&self, registry: &XMLNamespaces, out: &mut String)
        ensures
            final(out)@ == old(out)@ + render_attrs(self@.attributes, registry@),
    {
        let ghost attrs = self@.attributes;
        let ghost out0 = out@;
        proof {
            assert(attrs.take(0) =~= Seq::<AttrView>::empty());
            assert(out@ =~= out0 + render_attrs(attrs.take(0), registry@));
        }
        let mut i: usize = 0;
        while i < self.attributes.len()
            invariant
                i <= self.attributes.len(),
                out@ == out0 + render_attrs(attrs.take(i as int), registry@),
            decreases self.attributes.len() - i,
        {
            let a = &self.attributes[i];
            proof {
                assert(attrs[i as int] == self.attributes@[i as int]@);
            }
            push_char(out, ' ');
            match a.namespace_str() {
                Some(nm) => {
                    match registry.get(nm) {
                        Some(e) => {
                            out.append(e.alias.as_str());
                            push_char(out, ':');
                        },
                        None => {},
                    }
                },
                None => {},
            }
            out.append(a.key_str());
            push_char(out, '=');
            push_char(out, '"');
            out.append(a.value_str());
            push_char(out, '"');
            proof {
                assert(attrs.take(i as int + 1).drop_last() =~= attrs.take(i as int));
                assert(attrs.take(i as int + 1).last() == attrs[i as int]);
                assert(out@ =~= out0 + render_attrs(attrs.take(i as int + 1), registry@));
            }
            i += 1;
        }
        proof {
            assert(attrs.take(attrs.len() as int) =~= attrs);
        }
    }

    #[verifier::loop_isolation(false)]
    fn append_decls(&self, registry: &XMLNamespaces, out: &mut String)
        ensures
            final(out)@ == old(out)@ + decls_of(node_namespaces(self@, registry@)),
    {
        let ghost entries = node_namespaces(self@, registry@);
        let ghost out0 = out@;
        let list = self.namespaces(registry);
        proof {
            reveal_strlit(" xmlns:");
            assert(" xmlns:"@ =~= seq![' ', 'x', 'm', 'l', 'n', 's', ':']);
            assert(entries.take(0) =~= Seq::<NsView>::empty());
            assert(out@ =~= out0 + decls_of(entries.take(0)));
        }
        let mut i: usize = 0;
        while i < list.len()
            invariant
                i <= list.len(),
                out@ == out0 + decls_of(entries.take(i as int)),
            decreases list.len() - i,
        {
            proof {
                assert(entries[i as int] == list@[i as int]@);
            }
            out.append(" xmlns:");
            out.append(list[i].alias.as_str());
            push_char(out, '=');
            push_char(out, '"');
            out.append(list[i].uri.as_str());
            push_char(out, '"');
            proof {
                assert(entries.take(i as int + 1).drop_last() =~= entries.take(i as int));
                assert(entries.take(i as int + 1).last() == entries[i as int]);
                assert(out@ =~= out0 + decls_of(entries.take(i as int + 1)));
            }
            i += 1;
        }
        proof {
            assert(entries.take(entries.len() as int) =~= entries);
        }
    }

    /// Appends this element as rendered on a descent: no hoisted
    /// declarations.
    #[verifier::loop_isolation(false)]
    pub(crate) fn sub_fmt_into(&self, registry: &XMLNamespaces, out: &mut String)
        ensures
            final(out)@ == old(out)@ + sub_render_node(self@, registry@),
        decreases self,
    {
        let ghost out0 = out@;
        proof {
            crate::data::lemma_xml_views_index(self.data@);
        }
        push_char(out, '<');
        self.append_tag(registry, out);
        self.append_attrs(registry, out);
        if self.data.len() == 0 {
            push_char(out, '/');
            push_char(out, '>');
            proof {
                assert(out@ =~= out0 + sub_render_node(self@, registry@));
            }
        } else {
            push_char(out, '>');
            let ghost views = self@.data;
            let ghost mid = out@;
            proof {
                assert(views.take(0) =~= Seq::<XmlView>::empty());
                assert(out@ =~= mid + sub_render_seq(views.take(0), registry@));
            }
            let mut i: usize = 0;
            while i < self.data.len()
                invariant
                    i <= self.data.len(),
                    out@ == mid + sub_render_seq(views.take(i as int), registry@),
                decreases self.data.len() - i,
            {
                self.data[i].sub_fmt_into(registry, out);
                proof {
                    assert(views.take(i as int + 1).drop_last() =~= views.take(i as int));
                    assert(views.take(i as int + 1).last() == views[i as int]);
                    assert(out@ =~= mid + sub_render_seq(views.take(i as int + 1), registry@));
                }
                i += 1;
            }
            proof {
                assert(views.take(views.len() as int) =~= views);
            }
            push_char(out, '<');
            push_char(out, '/');
            self.append_tag(registry, out);
            push_char(out, '>');
            proof {
                assert(out@ =~= out0 + sub_render_node(self@, registry@));
            }
        }
    }

    /// This element as rendered on a descent (no hoisted
    /// declarations), exactly as `sub_render_node` states.
    pub fn sub_fmt(&self, registry: &XMLNamespaces) -> (r: String)
        ensures
            r@ == sub_render_node(self@, registry@),
    {
        let mut out = String::new();
        self.sub_fmt_into(registry, &mut out);
        proof {
            assert(Seq::<char>::empty() + sub_render_node(self@, registry@) =~= sub_render_node(
                self@,
                registry@,
            ));
        }
        out
    }

    /// This element as the root of a render call, exactly as
    /// `render_node` states: attributes in insertion order, then one
    /// hoisted `xmlns:` declaration per namespace bound in the
    /// subtree, then the children; self-closing exactly when there
    /// are no children. Rendering never fails and does not change the
    /// tree or the registry.
    #[verifier::loop_isolation(false)]
    pub fn render(&self, registry: &XMLNamespaces) -> (r: String)
        ensures
            r@ == render_node(self@, registry@),
    {
        let mut out = String::new();
        let ghost out0 = out@;
        proof {
            crate::data::lemma_xml_views_index(self.data@);
        }
        push_char(&mut out, '<');
        self.append_tag(registry, &mut out);
        self.append_attrs(registry, &mut out);
        self.append_decls(registry, &mut out);
        if self.data.len() == 0 {
            push_char(&mut out, '/');
            push_char(&mut out, '>');
            proof {
                assert(out@ =~= out0 + render_node(self@, registry@));
            }
        } else {
            push_char(&mut out, '>');
            let ghost views = self@.data;
            let ghost mid = out@;
            proof {
                assert(views.take(0) =~= Seq::<XmlView>::empty());
                assert(out@ =~= mid + sub_render_seq(views.take(0), registry@));
            }
            let mut i: usize = 0;
            while i < self.data.len()
                invariant
                    i <= self.data.len(),
                    out@ == mid + sub_render_seq(views.take(i as int), registry@),
                decreases self.data.len() - i,
            {
                self.data[i].sub_fmt_into(registry, &mut out);
                proof {
                    assert(views.take(i as int + 1).drop_last() =~= views.take(i as int));
                    assert(views.take(i as int + 1).last() == views[i as int]);
                    assert(out@ =~= mid + sub_render_seq(views.take(i as int + 1), registry@));
                }
                i += 1;
            }
            proof {
                assert(views.take(views.len() as int) =~= views);
            }
            push_char(&mut out, '<');
            push_char(&mut out, '/');
            self.append_tag(registry, &mut out);
            push_char(&mut out, '>');
            proof {
                assert(out@ =~= out0 + render_node(self@, registry@));
            }
        }
        proof {
            assert(Seq::<char>::empty() + render_node(self@, registry@) =~= render_node(
                self@,
                registry@,
            ));
        }
        out
    }

    /// The distinct namespaces bound anywhere in this element's
    /// subtree (itself included), resolved against the registry, in
    /// first-seen order; names the registry does not know are skipped.
    pub fn namespaces(&self, registry: &XMLNamespaces) -> (r: Vec<XMLNamespace>)
        ensures
            entries_view(r@) == node_namespaces(self@, registry@),
    {
        let mut seen: Vec<String> = Vec::new();
        proof {
            assert(names_view(seen@) =~= Seq::<Seq<char>>::empty());
        }
        collect_node(self, &mut seen);
        proof {
            assert(Seq::<Seq<char>>::empty() + dedup_acc(
                collect_ns_node(self@),
                Seq::empty(),
            ) =~= dedup_first(collect_ns_node(self@)));
        }
        resolve_all(registry, &seen)
    }
}

/// Walks the subtree in pre-order, appending each namespace name not
/// yet seen to `seen`.
#[verifier::loop_isolation(false)]
pub(crate) fn collect_node(n: &XMLNode, seen: &mut Vec<String>)
    ensures
        names_view(final(seen)@) == names_view(old(seen)@) + dedup_acc(
            collect_ns_node(n@),
            names_view(old(seen)@),
        ),
    decreases n,
{
    let ghost seen0 = names_view(seen@);
    let ghost own: Seq<Seq<char>> = match n@.namespace {
        Some(nm) => seq![nm],
        None => Seq::empty(),
    };
    match &n.namespace {
        Some(nm) => {
            if !crate::render::contains_name(seen, nm.as_str()) {
                let ghost prev = seen@;
                seen.push(nm.clone());
                proof {
                    assert(names_view(seen@) =~= names_view(prev).push(nm@));
                    assert(own.len() == 1 && own[0] == nm@);
                    assert(own.drop_first().len() == 0);
                    assert(dedup_acc(own.drop_first(), seen0.push(nm@)) == Seq::<Seq<
                        char,
                    >>::empty());
                    assert(dedup_acc(own, seen0) =~= seq![nm@]);
                    assert(names_view(seen@) =~= seen0 + dedup_acc(own, seen0));
                }
            } else {
                proof {
                    assert(own.len() == 1 && own[0] == nm@);
                    assert(own.drop_first().len() == 0);
                    assert(dedup_acc(own.drop_first(), seen0) == Seq::<Seq<char>>::empty());
                    assert(dedup_acc(own, seen0) =~= Seq::<Seq<char>>::empty());
                    assert(names_view(seen@) =~= seen0 + dedup_acc(own, seen0));
                }
            }
        },
        None => {
            proof {
                assert(names_view(seen@) =~= seen0 + dedup_acc(own, seen0));
            }
        },
    }
    let ghost views = xml_views(n.data@);
    proof {
        crate::data::lemma_xml_views_index(n.data@);
    }
    let mut i: usize = 0;
    while i < n.data.len()
        invariant
            i <= n.data.len(),
            names_view(seen@) == seen0 + dedup_acc(own + collect_ns_seq(views.take(i as int)), seen0),
        decreases n.data.len() - i,
    {
        let ghost p = own + collect_ns_seq(views.take(i as int));
        let ghost c = collect_ns_xml(views[i as int]);
        crate::data::collect_xml(&n.data[i], seen);
        proof {
            lemma_dedup_acc_concat(p, c, seen0);
            assert(views.take(i as int + 1).drop_last() =~= views.take(i as int));
            assert(views.take(i as int + 1).last() == views[i as int]);
            assert(own + collect_ns_seq(views.take(i as int + 1)) =~= p + c);
            assert(seen0 + (dedup_acc(p, seen0) + dedup_acc(c, seen0 + dedup_acc(p, seen0)))
                =~= (seen0 + dedup_acc(p, seen0)) + dedup_acc(c, seen0 + dedup_acc(p, seen0)));
        }
        i += 1;
    }
    proof {
        assert(views.take(n.data@.len() as int) =~= views);
        assert(collect_ns_node(n@) == own + collect_ns_seq(views));
    }
}

} // verus!
