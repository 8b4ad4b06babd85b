//! What rendering produces, stated over the mathematical values of
//! trees and of the registry. A render call resolves aliases against
//! the registry as it stands at render time, emits attributes in
//! insertion order, hoists one `xmlns:` declaration per namespace
//! bound in the subtree onto the outermost element of the call (in
//! first-seen order), and self-closes exactly the elements that have
//! no children. Rendering is total: nothing in here can fail.

use vstd::prelude::*;

use crate::attribute::AttrView;
use crate::data::XmlView;
use crate::namespace::{
    entries_view, lemma_entries_view_push, lookup_spec, NsView, XMLNamespace, XMLNamespaces,
};
use crate::node::NodeView;
use crate::strings::str_eq;

verus! {

broadcast use vstd::seq::axiom_seq_index_decreases, vstd::seq::axiom_seq_subrange_decreases;

/// The tag a node renders under: `alias:name` when a namespace is
/// bound and resolvable at render time, the bare name otherwise.
pub open spec fn tag_of(n: NodeView, reg: Seq<NsView>) -> Seq<char> {
    match n.namespace {
        Some(nm) => match lookup_spec(reg, nm) {
            Some(e) => e.alias + seq![':'] + n.name,
            None => n.name,
        },
        None => n.name,
    }
}

/// The `alias:` prefix of an attribute, when bound and resolvable.
pub open spec fn attr_prefix(a: AttrView, reg: Seq<NsView>) -> Seq<char> {
    match a.namespace {
        Some(nm) => match lookup_spec(reg, nm) {
            Some(e) => e.alias + seq![':'],
            None => Seq::empty(),
        },
        None => Seq::empty(),
    }
}

/// One attribute as rendered: ` key="value"`, with the alias prefix
/// when bound.
pub open spec fn render_attr(a: AttrView, reg: Seq<NsView>) -> Seq<char> {
    seq![' '] + attr_prefix(a, reg) + a.key + seq!['=', '"'] + a.value + seq!['"']
}

/// An attribute list as rendered, in insertion order.
pub open spec fn render_attrs(attrs: Seq<AttrView>, reg: Seq<NsView>) -> Seq<char>
    decreases attrs.len(),
{
    if attrs.len() == 0 {
        Seq::empty()
    } else {
        render_attrs(attrs.drop_last(), reg) + render_attr(attrs.last(), reg)
    }
}

/// Every namespace name bound on an element anywhere in the subtree,
/// in pre-order, duplicates included.
pub open spec fn collect_ns_node(n: NodeView) -> Seq<Seq<char>>
    decreases n,
{
    (match n.namespace {
        Some(nm) => seq![nm],
        None => Seq::<Seq<char>>::empty(),
    }) + collect_ns_seq(n.data)
}

pub open spec fn collect_ns_xml(x: XmlView) -> Seq<Seq<char>>
    decreases x,
{
    match x {
        XmlView::Node(n) => collect_ns_node(n),
        XmlView::Container(cs) => collect_ns_seq(cs),
        XmlView::Text(_) => Seq::empty(),
        XmlView::Empty => Seq::empty(),
    }
}

pub open spec fn collect_ns_seq(s: Seq<XmlView>) -> Seq<Seq<char>>
    decreases s,
{
    if s.len() == 0 {
        Seq::empty()
    } else {
        collect_ns_seq(s.drop_last()) + collect_ns_xml(s.last())
    }
}

/// Keeps the first occurrence of each name, in order; `seen` holds
/// names already emitted.
pub open spec fn dedup_acc(s: Seq<Seq<char>>, seen: Seq<Seq<char>>) -> Seq<Seq<char>>
    decreases s.len(),
{
    if s.len() == 0 {
        Seq::empty()
    } else if seen.contains(s[0]) {
        dedup_acc(s.drop_first(), seen)
    } else {
        seq![s[0]] + dedup_acc(s.drop_first(), seen.push(s[0]))
    }
}

/// The distinct names of a list, each at its first occurrence.
pub open spec fn dedup_first(s: Seq<Seq<char>>) -> Seq<Seq<char>> {
    dedup_acc(s, Seq::empty())
}

/// The registry entries the given names resolve to, in order,
/// unresolvable names skipped.
pub open spec fn resolve_names(reg: Seq<NsView>, names: Seq<Seq<char>>) -> Seq<NsView>
    decreases names.len(),
{
    if names.len() == 0 {
        Seq::empty()
    } else {
        resolve_names(reg, names.drop_last()) + (match lookup_spec(reg, names.last()) {
            Some(e) => seq![e],
            None => Seq::<NsView>::empty(),
        })
    }
}

/// The distinct namespaces bound in an element's subtree, resolved
/// against the registry, in first-seen order.
pub open spec fn node_namespaces(n: NodeView, reg: Seq<NsView>) -> Seq<NsView> {
    resolve_names(reg, dedup_first(collect_ns_node(n)))
}

/// The distinct namespaces bound in a tree, resolved against the
/// registry, in first-seen order.
pub open spec fn xml_namespaces(x: XmlView, reg: Seq<NsView>) -> Seq<NsView> {
    resolve_names(reg, dedup_first(collect_ns_xml(x)))
}

/// One hoisted declaration: ` xmlns:alias="uri"`.
pub open spec fn decl_of(e: NsView) -> Seq<char> {
    seq![' ', 'x', 'm', 'l', 'n', 's', ':'] + e.alias + seq!['=', '"'] + e.uri + seq!['"']
}

pub open spec fn decls_of(entries: Seq<NsView>) -> Seq<char>
    decreases entries.len(),
{
    if entries.len() == 0 {
        Seq::empty()
    } else {
        decls_of(entries.drop_last()) + decl_of(entries.last())
    }
}

/// A node as rendered on a descent: no hoisted declarations here;
/// they belong to the root of the render call alone.
pub open spec fn sub_render_node(n: NodeView, reg: Seq<NsView>) -> Seq<char>
    decreases n,
{
    let tag = tag_of(n, reg);
    seq!['<'] + tag + render_attrs(n.attributes, reg) + (if n.data.len() == 0 {
        seq!['/', '>']
    } else {
        seq!['>'] + sub_render_seq(n.data, reg) + seq!['<', '/'] + tag + seq!['>']
    })
}

pub open spec fn sub_render_xml(x: XmlView, reg: Seq<NsView>) -> Seq<char>
    decreases x,
{
    match x {
        XmlView::Text(s) => s,
        XmlView::Node(n) => sub_render_node(n, reg),
        XmlView::Container(cs) => sub_render_seq(cs, reg),
        XmlView::Empty => Seq::empty(),
    }
}

pub open spec fn sub_render_seq(s: Seq<XmlView>, reg: Seq<NsView>) -> Seq<char>
    decreases s,
{
    if s.len() == 0 {
        Seq::empty()
    } else {
        sub_render_seq(s.drop_last(), reg) + sub_render_xml(s.last(), reg)
    }
}

/// An element as the root of a render call: tag, attributes in
/// insertion order, then the hoisted declarations, then either `/>`
/// (exactly when there are no children) or the children and the
/// closing tag.
pub open spec fn render_node(n: NodeView, reg: Seq<NsView>) -> Seq<char> {
    let tag = tag_of(n, reg);
    seq!['<'] + tag + render_attrs(n.attributes, reg) + decls_of(node_namespaces(n, reg)) + (
    if n.data.len() == 0 {
        seq!['/', '>']
    } else {
        seq!['>'] + sub_render_seq(n.data, reg) + seq!['<', '/'] + tag + seq!['>']
    })
}

/// A tree as the root of a render call. Each direct child of an
/// untagged grouping at the root is itself a root of its own render
/// call, so each hoists (and possibly repeats) its own declarations.
pub open spec fn render_xml(x: XmlView, reg: Seq<NsView>) -> Seq<char>
    decreases x,
{
    match x {
        XmlView::Text(s) => s,
        XmlView::Node(n) => render_node(n, reg),
        XmlView::Container(cs) => render_seq_root(cs, reg),
        XmlView::Empty => Seq::empty(),
    }
}

pub open spec fn render_seq_root(s: Seq<XmlView>, reg: Seq<NsView>) -> Seq<char>
    decreases s,
{
    if s.len() == 0 {
        Seq::empty()
    } else {
        render_seq_root(s.drop_last(), reg) + render_xml(s.last(), reg)
    }
}

/// Law: rendering is a function of the tree and the registry alone,
/// so two render calls on one tree with no registry change in between
/// give byte-identical text.
pub proof fn lemma_render_idempotent(x: XmlView, reg: Seq<NsView>, r1: Seq<char>, r2: Seq<char>)
    requires
        r1 == render_xml(x, reg),
        r2 == render_xml(x, reg),
    ensures
        r1 == r2,
{
}

/// The mathematical value of a list of names.
pub open spec fn names_view(s: Seq<String>) -> Seq<Seq<char>> {
    s.map_values(|n: String| n@)
}

/// Whether one of the collected names reads exactly as `name`.
pub(crate) fn contains_name(seen: &Vec<String>, name: &str) -> (r: bool)
    ensures
        r == names_view(seen@).contains(name@),
{
    let mut i: usize = 0;
    while i < seen.len()
        invariant
            i <= seen.len(),
            forall|j: int| 0 <= j < i ==> names_view(seen@)[j] != name@,
        decreases seen.len() - i,
    {
        if str_eq(seen[i].as_str(), name) {
            proof {
                assert(names_view(seen@)[i as int] == name@);
            }
            return true;
        }
        i += 1;
    }
    proof {
        assert(forall|j: int| 0 <= j < seen@.len() ==> names_view(seen@)[j] != name@);
        if names_view(seen@).contains(name@) {
            let w = choose|w: int|
                0 <= w < names_view(seen@).len() && names_view(seen@)[w] == name@;
            assert(names_view(seen@)[w] != name@);
        }
    }
    false
}

/// The registry entries a list of names resolves to, in order,
/// unresolvable names skipped.
#[verifier::loop_isolation(false)]
pub(crate) fn resolve_all(registry: &XMLNamespaces, names: &Vec<String>) -> (r: Vec<XMLNamespace>)
    ensures
        entries_view(r@) == resolve_names(registry@, names_view(names@)),
{
    let ghost ns = names_view(names@);
    let mut out: Vec<XMLNamespace> = Vec::new();
    proof {
        assert(entries_view(out@) =~= Seq::<NsView>::empty());
        assert(ns.take(0) =~= Seq::<Seq<char>>::empty());
    }
    let mut i: usize = 0;
    while i < names.len()
        invariant
            i <= names.len(),
            entries_view(out@) == resolve_names(registry@, ns.take(i as int)),
        decreases names.len() - i,
    {
        let ghost prev = out@;
        match registry.get(names[i].as_str()) {
            Some(e) => {
                out.push(e);
                proof {
                    lemma_entries_view_push(prev, out@.last());
                }
            },
            None => {},
        }
        proof {
            assert(ns.take(i as int + 1).drop_last() =~= ns.take(i as int));
            assert(ns.take(i as int + 1).last() == ns[i as int]);
        }
        i += 1;
    }
    proof {
        assert(ns.take(names@.len() as int) =~= ns);
    }
    out
}

/// Splitting a collected list deduplicates across the split: the
/// names admitted from the second part are those not seen in the
/// first.
pub proof fn lemma_dedup_acc_concat(s1: Seq<Seq<char>>, s2: Seq<Seq<char>>, seen: Seq<Seq<char>>)
    ensures
        dedup_acc(s1 + s2, seen) == dedup_acc(s1, seen) + dedup_acc(s2, seen + dedup_acc(s1, seen)),
    decreases s1.len(),
{
    if s1.len() == 0 {
        assert(s1 + s2 =~= s2);
        assert(seen + dedup_acc(s1, seen) =~= seen);
        assert(dedup_acc(s1, seen) + dedup_acc(s2, seen) =~= dedup_acc(s2, seen));
    } else {
        let h = s1[0];
        assert((s1 + s2)[0] == h);
        assert((s1 + s2).drop_first() =~= s1.drop_first() + s2);
        if seen.contains(h) {
            lemma_dedup_acc_concat(s1.drop_first(), s2, seen);
        } else {
            lemma_dedup_acc_concat(s1.drop_first(), s2, seen.push(h));
            assert(seen + (seq![h] + dedup_acc(s1.drop_first(), seen.push(h))) =~= seen.push(h)
                + dedup_acc(s1.drop_first(), seen.push(h)));
            assert(seq![h] + (dedup_acc(s1.drop_first(), seen.push(h)) + dedup_acc(
                s2,
                seen.push(h) + dedup_acc(s1.drop_first(), seen.push(h)),
            )) =~= (seq![h] + dedup_acc(s1.drop_first(), seen.push(h))) + dedup_acc(
                s2,
                seen.push(h) + dedup_acc(s1.drop_first(), seen.push(h)),
            ));
        }
    }
}

} // verus!
