//! Attributes of an element: an ordered list of key/value pairs,
//! unique by key (last write wins), with an optional namespace binding
//! per attribute resolved against the registry at render time.

use vstd::prelude::*;

use crate::namespace::{has_name, XMLNamespaces};
use crate::strings::str_eq;
use crate::XMLError;

verus! {

/// One attribute. The namespace, when bound, is stored as the
/// registered namespace *name*; the alias it renders under is resolved
/// at render time.
#[derive(Debug)]
pub struct XMLAttribute {
    pub(crate) key: String,
    pub(crate) value: String,
    pub(crate) namespace: Option<String>,
}

/// The mathematical value of one attribute.
pub struct AttrView {
    pub key: Seq<char>,
    pub value: Seq<char>,
    pub namespace: Option<Seq<char>>,
}

impl View for XMLAttribute {
    type V = AttrView;

    closed spec fn view(&self) -> AttrView {
        AttrView {
            key: self.key@,
            value: self.value@,
            namespace: match self.namespace {
                Some(n) => Some(n@),
                None => None,
            },
        }
    }
}

impl Clone for XMLAttribute {
    fn clone(&self) -> (r: Self)
        ensures
            r@ == self@,
    {
        XMLAttribute {
            key: self.key.clone(),
            value: self.value.clone(),
            namespace: match &self.namespace {
                Some(n) => Some(n.clone()),
                None => None,
            },
        }
    }
}

/// The mathematical value of an attribute list.
pub open spec fn attrs_view(s: Seq<XMLAttribute>) -> Seq<AttrView> {
    s.map_values(|a: XMLAttribute| a@)
}

/// Index of the first attribute with the given key, or `-1`.
pub open spec fn find_key(s: Seq<AttrView>, key: Seq<char>) -> int
    decreases s.len(),
{
    if s.len() == 0 {
        -1
    } else if s[0].key == key {
        0
    } else {
        let r = find_key(s.drop_first(), key);
        if r < 0 {
            -1
        } else {
            r + 1
        }
    }
}

/// What inserting an attribute does to a list: an existing key keeps
/// its position and takes the new attribute (last write wins); a new
/// key is appended.
pub open spec fn upsert_attr(s: Seq<AttrView>, a: AttrView) -> Seq<AttrView> {
    let i = find_key(s, a.key);
    if i >= 0 {
        s.update(i, a)
    } else {
        s.push(a)
    }
}

/// Keys are pairwise distinct.
pub open spec fn attrs_wf(s: Seq<AttrView>) -> bool {
    forall|i: int, j: int| 0 <= i < j < s.len() ==> s[i].key != s[j].key
}

pub proof fn lemma_find_key(s: Seq<AttrView>, key: Seq<char>)
    ensures
        ({
            let f = find_key(s, key);
            &&& f == -1 || (0 <= f < s.len())
            &&& f >= 0 ==> s[f].key == key && (forall|j: int| 0 <= j < f ==> s[j].key != key)
            &&& f == -1 ==> (forall|j: int| 0 <= j < s.len() ==> s[j].key != key)
        }),
    decreases s.len(),
{
    if s.len() != 0 && s[0].key != key {
        lemma_find_key(s.drop_first(), key);
        let fd = find_key(s.drop_first(), key);
        if fd >= 0 {
            assert(s[fd + 1].key == key);
            assert forall|j: int| 0 <= j < fd + 1 implies s[j].key != key by {
                if j > 0 {
                    assert(s.drop_first()[j - 1] == s[j]);
                }
            }
        } else {
            assert forall|j: int| 0 <= j < s.len() implies s[j].key != key by {
                if j > 0 {
                    assert(s.drop_first()[j - 1] == s[j]);
                }
            }
        }
    }
}

pub proof fn lemma_find_key_at(s: Seq<AttrView>, key: Seq<char>, i: int)
    requires
        0 <= i < s.len(),
        s[i].key == key,
        forall|j: int| 0 <= j < i ==> s[j].key != key,
    ensures
        find_key(s, key) == i,
    decreases s.len(),
{
    if i > 0 {
        assert(forall|j: int|
            0 <= j < s.drop_first().len() ==> s.drop_first()[j] == s[j + 1]);
        lemma_find_key_at(s.drop_first(), key, i - 1);
    }
}

/// Law: inserting an attribute into a list whose keys are unique keeps
/// them unique, so each key renders exactly once.
pub proof fn lemma_upsert_attr_wf(s: Seq<AttrView>, a: AttrView)
    requires
        attrs_wf(s),
    ensures
        attrs_wf(upsert_attr(s, a)),
{
    lemma_find_key(s, a.key);
    let f = find_key(s, a.key);
    let s2 = upsert_attr(s, a);
    if f >= 0 {
        assert forall|i: int, j: int| 0 <= i < j < s2.len() implies s2[i].key != s2[j].key by {
            if i != f && j != f {
                assert(s2[i] == s[i] && s2[j] == s[j]);
            } else if i == f {
                assert(s2[j] == s[j]);
                assert(s[j].key != a.key);
            } else {
                assert(s2[i] == s[i]);
                assert(s[i].key != a.key);
            }
        }
    } else {
        assert forall|i: int, j: int| 0 <= i < j < s2.len() implies s2[i].key != s2[j].key by {
            if j == s.len() {
                assert(s2[i] == s[i]);
            } else {
                assert(s2[i] == s[i] && s2[j] == s[j]);
            }
        }
    }
}

impl XMLAttribute {
    /// Whether this attribute's key reads exactly as `key`.
    pub fn matches_key(&self, key: &str) -> (r: bool)
        ensures
            r == (self@.key == key@),
    {
        str_eq(self.key.as_str(), key)
    }

    /// The attribute's key.
    pub fn key_str(&self) -> (r: &str)
        ensures
            r@ == self@.key,
    {
        self.key.as_str()
    }

    /// The attribute's value.
    pub fn value_str(&self) -> (r: &str)
        ensures
            r@ == self@.value,
    {
        self.value.as_str()
    }

    /// The namespace name this attribute is bound to, if any.
    pub fn namespace_str(&self) -> (r: Option<&str>)
        ensures
            match r {
                Some(s) => self@.namespace == Some(s@),
                None => self@.namespace is None,
            },
    {
        match &self.namespace {
            Some(s) => Some(s.as_str()),
            None => None,
        }
    }

    /// A new attribute with no namespace binding.
    pub fn new(key: &str, value: &str) -> (r: Self)
        ensures
            r@ == (AttrView { key: key@, value: value@, namespace: None }),
    {
        XMLAttribute { key: key.to_owned(), value: value.to_owned(), namespace: None }
    }

    /// Binds this attribute to a registered namespace name; fails, and
    /// leaves the attribute unchanged, when the name is not registered.
    pub fn set_namespace(&mut self, namespace: &str, registry: &XMLNamespaces) -> (r: Result<
        (),
        XMLError,
    >)
        ensures
            match r {
                Ok(_) => has_name(registry@, namespace@) && final(self)@ == (AttrView {
                    namespace: Some(namespace@),
                    ..old(self)@
                }),
                Err(e) => !has_name(registry@, namespace@) && final(self)@ == old(self)@
                    && (e matches XMLError::NamespaceNotFound(n) && n@ == namespace@),
            },
    {
        if registry.contains(namespace) {
            self.namespace = Some(namespace.to_owned());
            Ok(())
        } else {
            Err(XMLError::NamespaceNotFound(namespace.to_owned()))
        }
    }

    /// Chaining form of `set_namespace`.
    pub fn namespace(self, namespace: &str, registry: &XMLNamespaces) -> (r: Result<
        Self,
        XMLError,
    >)
        ensures
            match r {
                Ok(a) => has_name(registry@, namespace@) && a@ == (AttrView {
                    namespace: Some(namespace@),
                    ..self@
                }),
                Err(e) => !has_name(registry@, namespace@) && (e matches
                    XMLError::NamespaceNotFound(n) && n@ == namespace@),
            },
    {
        let mut a = self;
        match a.set_namespace(namespace, registry) {
            Ok(_) => Ok(a),
            Err(e) => Err(e),
        }
    }
}

} // verus!
