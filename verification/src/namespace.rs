//! The namespace registry: a table mapping a namespace *name* to an
//! allocated *alias* and a *URI*. Registration deduplicates by URI
//! (two names registered with one URI share one alias) and otherwise
//! allocates a fresh alias from the lowercased first character of the
//! name plus the smallest free numeric suffix.

use vstd::prelude::*;

use crate::strings::{
    append_dec_u64, dec_nat, lemma_dec_nat_injective, lower_char, lower_char_exec, push_char,
    str_eq,
};

verus! {

/// One registry entry: `name` is the registration key, `alias` the
/// short prefix written on the wire, `uri` the namespace URI.
#[derive(Debug)]
pub struct XMLNamespace {
    pub alias: String,
    pub name: String,
    pub uri: String,
}

/// The mathematical value of one registry entry.
pub struct NsView {
    pub alias: Seq<char>,
    pub name: Seq<char>,
    pub uri: Seq<char>,
}

impl View for XMLNamespace {
    type V = NsView;

    open spec fn view(&self) -> NsView {
        NsView { alias: self.alias@, name: self.name@, uri: self.uri@ }
    }
}

impl Clone for XMLNamespace {
    fn clone(&self) -> (r: Self)
        ensures
            r@ == self@,
    {
        XMLNamespace { alias: self.alias.clone(), name: self.name.clone(), uri: self.uri.clone() }
    }
}

/// Index of the first entry with the given name, or `-1`.
pub open spec fn find_name(s: Seq<NsView>, name: Seq<char>) -> int
    decreases s.len(),
{
    if s.len() == 0 {
        -1
    } else if s[0].name == name {
        0
    } else {
        let r = find_name(s.drop_first(), name);
        if r < 0 {
            -1
        } else {
            r + 1
        }
    }
}

/// Index of the first entry with the given URI, or `-1`.
pub open spec fn find_uri(s: Seq<NsView>, uri: Seq<char>) -> int
    decreases s.len(),
{
    if s.len() == 0 {
        -1
    } else if s[0].uri == uri {
        0
    } else {
        let r = find_uri(s.drop_first(), uri);
        if r < 0 {
            -1
        } else {
            r + 1
        }
    }
}

pub open spec fn has_name(s: Seq<NsView>, name: Seq<char>) -> bool {
    find_name(s, name) >= 0
}

pub open spec fn has_uri(s: Seq<NsView>, uri: Seq<char>) -> bool {
    find_uri(s, uri) >= 0
}

/// The entry a lookup of `name` resolves to, if any.
pub open spec fn lookup_spec(s: Seq<NsView>, name: Seq<char>) -> Option<NsView> {
    if find_name(s, name) >= 0 {
        Some(s[find_name(s, name)])
    } else {
        None
    }
}

pub proof fn lemma_find_name(s: Seq<NsView>, name: Seq<char>)
    ensures
        ({
            let f = find_name(s, name);
            &&& f == -1 || (0 <= f < s.len())
            &&& f >= 0 ==> s[f].name == name && (forall|j: int| 0 <= j < f ==> s[j].name != name)
            &&& f == -1 ==> (forall|j: int| 0 <= j < s.len() ==> s[j].name != name)
        }),
    decreases s.len(),
{
    if s.len() != 0 && s[0].name != name {
        lemma_find_name(s.drop_first(), name);
        let fd = find_name(s.drop_first(), name);
        if fd >= 0 {
            assert(s[fd + 1].name == name);
            assert forall|j: int| 0 <= j < fd + 1 implies s[j].name != name by {
                if j > 0 {
                    assert(s.drop_first()[j - 1] == s[j]);
                }
            }
        } else {
            assert forall|j: int| 0 <= j < s.len() implies s[j].name != name by {
                if j > 0 {
                    assert(s.drop_first()[j - 1] == s[j]);
                }
            }
        }
    }
}

pub proof fn lemma_find_name_at(s: Seq<NsView>, name: Seq<char>, i: int)
    requires
        0 <= i < s.len(),
        s[i].name == name,
        forall|j: int| 0 <= j < i ==> s[j].name != name,
    ensures
        find_name(s, name) == i,
    decreases s.len(),
{
    if i > 0 {
        assert(forall|j: int|
            0 <= j < s.drop_first().len() ==> s.drop_first()[j] == s[j + 1]);
        lemma_find_name_at(s.drop_first(), name, i - 1);
    }
}

pub proof fn lemma_find_uri(s: Seq<NsView>, uri: Seq<char>)
    ensures
        ({
            let f = find_uri(s, uri);
            &&& f == -1 || (0 <= f < s.len())
            &&& f >= 0 ==> s[f].uri == uri && (forall|j: int| 0 <= j < f ==> s[j].uri != uri)
            &&& f == -1 ==> (forall|j: int| 0 <= j < s.len() ==> s[j].uri != uri)
        }),
    decreases s.len(),
{
    if s.len() != 0 && s[0].uri != uri {
        lemma_find_uri(s.drop_first(), uri);
        let fd = find_uri(s.drop_first(), uri);
        if fd >= 0 {
            assert(s[fd + 1].uri == uri);
            assert forall|j: int| 0 <= j < fd + 1 implies s[j].uri != uri by {
                if j > 0 {
                    assert(s.drop_first()[j - 1] == s[j]);
                }
            }
        } else {
            assert forall|j: int| 0 <= j < s.len() implies s[j].uri != uri by {
                if j > 0 {
                    assert(s.drop_first()[j - 1] == s[j]);
                }
            }
        }
    }
}

pub proof fn lemma_find_uri_at(s: Seq<NsView>, uri: Seq<char>, i: int)
    requires
        0 <= i < s.len(),
        s[i].uri == uri,
        forall|j: int| 0 <= j < i ==> s[j].uri != uri,
    ensures
        find_uri(s, uri) == i,
    decreases s.len(),
{
    if i > 0 {
        assert(forall|j: int|
            0 <= j < s.drop_first().len() ==> s.drop_first()[j] == s[j + 1]);
        lemma_find_uri_at(s.drop_first(), uri, i - 1);
    }
}

/// The alias text made of a base character and a numeric suffix.
pub open spec fn alias_string(base: char, n: nat) -> Seq<char> {
    seq![base] + dec_nat(n)
}

pub open spec fn has_alias(s: Seq<NsView>, alias: Seq<char>) -> bool {
    exists|i: int| 0 <= i < s.len() && s[i].alias == alias
}

pub open spec fn suffix_taken(s: Seq<NsView>, base: char, n: nat) -> bool {
    has_alias(s, alias_string(base, n))
}

pub open spec fn is_smallest_free_suffix(s: Seq<NsView>, base: char, n: nat) -> bool {
    &&& !suffix_taken(s, base, n)
    &&& forall|m: nat| m < n ==> suffix_taken(s, base, m)
}

/// The smallest numeric suffix whose alias is not yet taken. There is
/// always one (there are more candidate aliases than entries), and the
/// smallest is unique, so this pins a single value.
pub open spec fn free_suffix(s: Seq<NsView>, base: char) -> nat {
    choose|n: nat| is_smallest_free_suffix(s, base, n)
}

/// The base character of a fresh alias: the lowercased first character
/// of the namespace name.
pub open spec fn base_char(name: Seq<char>) -> char
    recommends
        name.len() > 0,
{
    lower_char(name[0])
}

/// The alias allocated for a name not deduplicated by URI.
pub open spec fn fresh_alias(s: Seq<NsView>, name: Seq<char>) -> Seq<char>
    recommends
        name.len() > 0,
{
    alias_string(base_char(name), free_suffix(s, base_char(name)))
}

/// What `insert` does: the new table and the returned alias.
///
/// If some entry already holds `uri`, its alias is reused: the entry
/// for `name` is inserted or overwritten with that alias and `uri`.
/// Otherwise, if `name` is already registered, its stored URI is
/// updated in place and its alias kept. Otherwise a fresh entry is
/// appended under a freshly allocated alias.
pub open spec fn spec_register(s: Seq<NsView>, name: Seq<char>, uri: Seq<char>) -> (Seq<NsView>,
    Seq<char>) {
    let ju = find_uri(s, uri);
    let jn = find_name(s, name);
    if ju >= 0 {
        let e = NsView { alias: s[ju].alias, name: name, uri: uri };
        if jn >= 0 {
            (s.update(jn, e), s[ju].alias)
        } else {
            (s.push(e), s[ju].alias)
        }
    } else if jn >= 0 {
        let e = NsView { alias: s[jn].alias, name: name, uri: uri };
        (s.update(jn, e), s[jn].alias)
    } else {
        let a = fresh_alias(s, name);
        (s.push(NsView { alias: a, name: name, uri: uri }), a)
    }
}

/// No two entries share a name.
pub open spec fn names_unique(s: Seq<NsView>) -> bool {
    forall|i: int, j: int| 0 <= i < j < s.len() ==> s[i].name != s[j].name
}

/// No two entries share a URI.
pub open spec fn uris_distinct(s: Seq<NsView>) -> bool {
    forall|i: int, j: int| 0 <= i < j < s.len() ==> s[i].uri != s[j].uri
}

/// No two entries share an alias.
pub open spec fn aliases_distinct(s: Seq<NsView>) -> bool {
    forall|i: int, j: int| 0 <= i < j < s.len() ==> s[i].alias != s[j].alias
}

/// Entries that share a URI share an alias.
pub open spec fn shared_uri_shared_alias(s: Seq<NsView>) -> bool {
    forall|i: int, j: int|
        0 <= i < s.len() && 0 <= j < s.len() && s[i].uri == s[j].uri ==> s[i].alias == s[j].alias
}

/// The registry. Entries are kept in registration order and never
/// removed; names are unique among entries.
#[derive(Debug)]
pub struct XMLNamespaces {
    entries: Vec<XMLNamespace>,
}

/// The mathematical value of a sequence of entries.
pub open spec fn entries_view(s: Seq<XMLNamespace>) -> Seq<NsView> {
    s.map_values(|e: XMLNamespace| e@)
}

pub proof fn lemma_entries_view_push(s: Seq<XMLNamespace>, e: XMLNamespace)
    ensures
        entries_view(s.push(e)) == entries_view(s).push(e@),
{
    assert(entries_view(s.push(e)) =~= entries_view(s).push(e@));
}

impl View for XMLNamespaces {
    type V = Seq<NsView>;

    closed spec fn view(&self) -> Seq<NsView> {
        entries_view(self.entries@)
    }
}

impl XMLNamespaces {
    /// Well-formedness: names are pairwise distinct.
    pub open spec fn wf(&self) -> bool {
        names_unique(self@)
    }

    /// An empty registry.
    pub fn new() -> (r: Self)
        ensures
            r@ == Seq::<NsView>::empty(),
            r.wf(),
    {
        let r = XMLNamespaces { entries: Vec::new() };
        proof {
            assert(r@ =~= Seq::<NsView>::empty());
        }
        r
    }

    /// Whether `name` is registered.
    pub fn contains(&self, name: &str) -> (r: bool)
        ensures
            r == has_name(self@, name@),
    {
        proof {
            lemma_find_name(self@, name@);
        }
        let mut i: usize = 0;
        while i < self.entries.len()
            invariant
                i <= self.entries.len(),
                forall|j: int| 0 <= j < i ==> self@[j].name != name@,
            decreases self.entries.len() - i,
        {
            if str_eq(self.entries[i].name.as_str(), name) {
                proof {
                    lemma_find_name_at(self@, name@, i as int);
                }
                return true;
            }
            i += 1;
        }
        false
    }

    /// Read-only resolution of a name; absence is not an error.
    pub fn get(&self, namespace: &str) -> (r: Option<XMLNamespace>)
        ensures
            match r {
                Some(ns) => lookup_spec(self@, namespace@) == Some(ns@),
                None => lookup_spec(self@, namespace@) is None,
            },
    {
        proof {
            lemma_find_name(self@, namespace@);
        }
        let mut i: usize = 0;
        while i < self.entries.len()
            invariant
                i <= self.entries.len(),
                forall|j: int| 0 <= j < i ==> self@[j].name != namespace@,
            decreases self.entries.len() - i,
        {
            if str_eq(self.entries[i].name.as_str(), namespace) {
                proof {
                    lemma_find_name_at(self@, namespace@, i as int);
                }
                return Some(self.entries[i].clone());
            }
            i += 1;
        }
        None
    }

    /// A read-only copy of the table, in registration order.
    pub fn hashmap(&self) -> (r: Vec<XMLNamespace>)
        ensures
            entries_view(r@) == self@,
    {
        let mut out: Vec<XMLNamespace> = Vec::new();
        let mut i: usize = 0;
        while i < self.entries.len()
            invariant
                i <= self.entries.len(),
                entries_view(out@) =~= self@.take(i as int),
            decreases self.entries.len() - i,
        {
            let ghost prev = out@;
            out.push(self.entries[i].clone());
            proof {
                assert(entries_view(prev).len() == prev.len());
                assert(prev.len() == i as int);
                assert forall|k: int| 0 <= k < out@.len() implies entries_view(out@)[k]
                    == self@.take(i as int + 1)[k] by {
                    assert(entries_view(out@)[k] == out@[k]@);
                    if k < i as int {
                        assert(out@[k] == prev[k]);
                        assert(entries_view(prev)[k] == prev[k]@);
                        assert(entries_view(prev)[k] == self@.take(i as int)[k]);
                    } else {
                        assert(out@[k]@ == self.entries@[i as int]@);
                        assert(self@[k] == self.entries@[k]@);
                    }
                }
                assert(entries_view(out@) =~= self@.take(i as int + 1));
            }
            i += 1;
        }
        proof {
            assert(self@.take(self.entries@.len() as int) =~= self@);
        }
        out
    }

    fn contains_alias(&self, alias: &str) -> (r: bool)
        ensures
            r == has_alias(self@, alias@),
    {
        let mut i: usize = 0;
        while i < self.entries.len()
            invariant
                i <= self.entries.len(),
                forall|j: int| 0 <= j < i ==> self@[j].alias != alias@,
            decreases self.entries.len() - i,
        {
            if str_eq(self.entries[i].alias.as_str(), alias) {
                proof {
                    assert(self@[i as int].alias == alias@);
                }
                return true;
            }
            i += 1;
        }
        false
    }

    fn find_name_index(&self, name: &str) -> (r: Option<usize>)
        ensures
            match r {
                Some(i) => find_name(self@, name@) == i,
                None => find_name(self@, name@) == -1,
            },
    {
        proof {
            lemma_find_name(self@, name@);
        }
        let mut i: usize = 0;
        while i < self.entries.len()
            invariant
                i <= self.entries.len(),
                forall|j: int| 0 <= j < i ==> self@[j].name != name@,
            decreases self.entries.len() - i,
        {
            if str_eq(self.entries[i].name.as_str(), name) {
                proof {
                    lemma_find_name_at(self@, name@, i as int);
                }
                return Some(i);
            }
            i += 1;
        }
        None
    }

    fn find_uri_index(&self, uri: &str) -> (r: Option<usize>)
        ensures
            match r {
                Some(i) => find_uri(self@, uri@) == i,
                None => find_uri(self@, uri@) == -1,
            },
    {
        proof {
            lemma_find_uri(self@, uri@);
        }
        let mut i: usize = 0;
        while i < self.entries.len()
            invariant
                i <= self.entries.len(),
                forall|j: int| 0 <= j < i ==> self@[j].uri != uri@,
            decreases self.entries.len() - i,
        {
            if str_eq(self.entries[i].uri.as_str(), uri) {
                proof {
                    lemma_find_uri_at(self@, uri@, i as int);
                }
                return Some(i);
            }
            i += 1;
        }
        None
    }

    fn free_suffix_index(&self, base: char) -> (n: u64)
        ensures
            is_smallest_free_suffix(self@, base, n as nat),
    {
        let cap: usize = self.entries.len();
        proof {
            assert(self@.len() == self.entries@.len());
        }
        let mut n: usize = 0;
        loop
            invariant
                n <= cap,
                cap == self@.len(),
                forall|m: nat| m < n as nat ==> suffix_taken(self@, base, m),
            decreases cap - n,
        {
            let mut cand = String::new();
            push_char(&mut cand, base);
            append_dec_u64(&mut cand, n as u64);
            proof {
                assert(cand@ == alias_string(base, n as nat));
            }
            if !self.contains_alias(cand.as_str()) {
                return n as u64;
            }
            proof {
                assert(suffix_taken(self@, base, n as nat));
                lemma_some_suffix_free(self@, base);
                let w = choose|m: nat| m <= self@.len() && !suffix_taken(self@, base, m);
                assert((n as nat) < self@.len()) by {
                    if w < n as nat {
                        assert(suffix_taken(self@, base, w));
                    }
                }
            }
            n = n + 1;
        }
    }

    /// Registers `name` under `uri` and returns the alias the name now
    /// resolves to, deduplicating by URI and keeping the alias of an
    /// already-registered name, as `spec_register` states. Entries are
    /// never removed, so registration order is kept.
    pub fn insert(&mut self, namespace: &str, uri: &str) -> (r: String)
        requires
            namespace@.len() > 0,
        ensures
            final(self)@ == spec_register(old(self)@, namespace@, uri@).0,
            r@ == spec_register(old(self)@, namespace@, uri@).1,
            old(self).wf() ==> final(self).wf(),
    {
        let ghost s0 = self@;
        proof {
            lemma_find_name(s0, namespace@);
            lemma_find_uri(s0, uri@);
        }
        if let Some(j) = self.find_uri_index(uri) {
            let alias = self.entries[j].alias.clone();
            let entry = XMLNamespace {
                alias: alias.clone(),
                name: namespace.to_owned(),
                uri: uri.to_owned(),
            };
            let ghost ev = entry@;
            if let Some(i) = self.find_name_index(namespace) {
                self.entries[i] = entry;
                proof {
                    assert(self@ =~= s0.update(i as int, ev));
                    if names_unique(s0) {
                        assert(names_unique(self@));
                    }
                }
            } else {
                self.entries.push(entry);
                proof {
                    assert(self@ =~= s0.push(ev));
                    if names_unique(s0) {
                        assert(names_unique(self@));
                    }
                }
            }
            alias
        } else if let Some(i) = self.find_name_index(namespace) {
            let alias = self.entries[i].alias.clone();
            let entry = XMLNamespace {
                alias: alias.clone(),
                name: namespace.to_owned(),
                uri: uri.to_owned(),
            };
            let ghost ev = entry@;
            self.entries[i] = entry;
            proof {
                assert(self@ =~= s0.update(i as int, ev));
                if names_unique(s0) {
                    assert(names_unique(self@));
                }
            }
            alias
        } else {
            let c0 = vstd::string::StrSliceExecFns::get_char(namespace, 0);
            let base = lower_char_exec(c0);
            let nfree = self.free_suffix_index(base);
            proof {
                lemma_free_suffix_is(s0, base, nfree as nat);
            }
            let mut alias = String::new();
            push_char(&mut alias, base);
            append_dec_u64(&mut alias, nfree);
            proof {
                assert(alias@ == fresh_alias(s0, namespace@));
            }
            let entry = XMLNamespace {
                alias: alias.clone(),
                name: namespace.to_owned(),
                uri: uri.to_owned(),
            };
            let ghost ev = entry@;
            self.entries.push(entry);
            proof {
                assert(self@ =~= s0.push(ev));
                if names_unique(s0) {
                    assert(names_unique(self@));
                }
            }
            alias
        }
    }
}

proof fn lemma_alias_string_injective(base: char, n1: nat, n2: nat)
    requires
        alias_string(base, n1) == alias_string(base, n2),
    ensures
        n1 == n2,
{
    assert(alias_string(base, n1).drop_first() =~= dec_nat(n1));
    assert(alias_string(base, n2).drop_first() =~= dec_nat(n2));
    lemma_dec_nat_injective(n1, n2);
}

/// Some suffix no larger than the number of entries is free: there are
/// more candidate aliases than entries that could hold them.
proof fn lemma_some_suffix_free(s: Seq<NsView>, base: char)
    ensures
        exists|n: nat| n <= s.len() && !suffix_taken(s, base, n),
{
    if forall|m: nat| m <= s.len() ==> suffix_taken(s, base, m) {
        lemma_pigeonhole_contradiction(s, base, s.len());
    }
}

/// Under the (impossible) assumption that every suffix up to `k` is
/// taken while the table has at most `k` entries, anything follows;
/// only `lemma_some_suffix_free` calls this, inside that very case.
proof fn lemma_pigeonhole_contradiction(s: Seq<NsView>, base: char, k: nat)
    requires
        forall|m: nat| m <= k ==> suffix_taken(s, base, m),
        k >= s.len(),
    ensures
        exists|n: nat| n <= s.len() && !suffix_taken(s, base, n),
{
    let cands = Seq::new(k + 1, |i: int| alias_string(base, i as nat));
    assert(cands.no_duplicates()) by {
        assert forall|i: int, j: int|
            0 <= i < cands.len() && 0 <= j < cands.len() && i != j implies cands[i] != cands[j] by {
            if cands[i] == cands[j] {
                lemma_alias_string_injective(base, i as nat, j as nat);
            }
        }
    }
    cands.unique_seq_to_set();
    let aliases = s.map_values(|e: NsView| e.alias);
    aliases.lemma_cardinality_of_set();
    assert(cands.to_set().subset_of(aliases.to_set())) by {
        assert forall|a: Seq<char>| cands.to_set().contains(a) implies aliases.to_set().contains(
            a,
        ) by {
            let i = choose|i: int| 0 <= i < cands.len() && cands[i] == a;
            assert(suffix_taken(s, base, i as nat));
            let w = choose|w: int| 0 <= w < s.len() && s[w].alias == alias_string(base, i as nat);
            assert(aliases[w] == a);
            assert(aliases.contains(a));
        }
    }
    vstd::set_lib::lemma_len_subset(cands.to_set(), aliases.to_set());
    assert(false);
}

proof fn lemma_exists_smallest_free(s: Seq<NsView>, base: char, k: nat)
    requires
        !suffix_taken(s, base, k),
    ensures
        exists|n: nat| is_smallest_free_suffix(s, base, n),
    decreases k,
{
    if forall|m: nat| m < k ==> suffix_taken(s, base, m) {
        assert(is_smallest_free_suffix(s, base, k));
    } else {
        let m = choose|m: nat| m < k && !suffix_taken(s, base, m);
        lemma_exists_smallest_free(s, base, m);
    }
}

proof fn lemma_free_suffix_is(s: Seq<NsView>, base: char, n: nat)
    requires
        is_smallest_free_suffix(s, base, n),
    ensures
        free_suffix(s, base) == n,
{
    let w = free_suffix(s, base);
    assert(is_smallest_free_suffix(s, base, w)) by {
        assert(is_smallest_free_suffix(s, base, n));
    }
    if w < n {
        assert(suffix_taken(s, base, w));
    } else if n < w {
        assert(suffix_taken(s, base, n));
    }
}

/// Law: starting from a table whose URIs are pairwise distinct and
/// whose aliases are pairwise distinct, registering a URI that is not
/// yet stored keeps both. Hence any sequence of registrations with
/// pairwise-distinct URIs, starting from an empty table, yields
/// pairwise-distinct aliases.
pub proof fn lemma_register_distinct_uris_distinct_aliases(
    s: Seq<NsView>,
    name: Seq<char>,
    uri: Seq<char>,
)
    requires
        uris_distinct(s),
        aliases_distinct(s),
        !has_uri(s, uri),
    ensures
        uris_distinct(spec_register(s, name, uri).0),
        aliases_distinct(spec_register(s, name, uri).0),
{
    lemma_find_uri(s, uri);
    lemma_find_name(s, name);
    let jn = find_name(s, name);
    if jn >= 0 {
        let s2 = spec_register(s, name, uri).0;
        assert(s2 == s.update(jn, NsView { alias: s[jn].alias, name: name, uri: uri }));
        assert forall|i: int, j: int| 0 <= i < j < s2.len() implies s2[i].uri != s2[j].uri by {
            if i != jn && j != jn {
                assert(s2[i] == s[i] && s2[j] == s[j]);
            }
        }
        assert forall|i: int, j: int| 0 <= i < j < s2.len() implies s2[i].alias != s2[j].alias by {
            assert(s2[i].alias == s[i].alias && s2[j].alias == s[j].alias);
        }
    } else {
        let a = fresh_alias(s, name);
        let s2 = s.push(NsView { alias: a, name: name, uri: uri });
        assert(spec_register(s, name, uri).0 == s2);
        lemma_alias_pigeonhole_free(s, base_char(name));
        assert(!suffix_taken(s, base_char(name), free_suffix(s, base_char(name))));
        assert forall|i: int, j: int| 0 <= i < j < s2.len() implies s2[i].uri != s2[j].uri by {
            if j == s.len() {
                assert(s2[i] == s[i]);
            }
        }
        assert forall|i: int, j: int| 0 <= i < j < s2.len() implies s2[i].alias != s2[j].alias by {
            if j == s.len() {
                assert(s2[i] == s[i]);
                if s2[i].alias == a {
                    assert(has_alias(s, a));
                }
            }
        }
    }
}

/// There is always a smallest free suffix, so `free_suffix` denotes it.
proof fn lemma_alias_pigeonhole_free(s: Seq<NsView>, base: char)
    ensures
        is_smallest_free_suffix(s, base, free_suffix(s, base)),
{
    lemma_some_suffix_free(s, base);
    let k = choose|m: nat| m <= s.len() && !suffix_taken(s, base, m);
    lemma_exists_smallest_free(s, base, k);
    let n = choose|n: nat| is_smallest_free_suffix(s, base, n);
    lemma_free_suffix_is(s, base, n);
}

/// The table after a sequence of `(name, uri)` registrations, applied
/// in order to an initially empty table.
pub open spec fn register_all(calls: Seq<(Seq<char>, Seq<char>)>) -> Seq<NsView>
    decreases calls.len(),
{
    if calls.len() == 0 {
        Seq::empty()
    } else {
        spec_register(register_all(calls.drop_last()), calls.last().0, calls.last().1).0
    }
}

/// Law: for any sequence of registrations with pairwise-distinct
/// URIs, starting from an empty table, the resulting aliases are
/// pairwise distinct.
pub proof fn lemma_register_all_distinct_aliases(calls: Seq<(Seq<char>, Seq<char>)>)
    ensures
        (forall|i: int, j: int| 0 <= i < j < calls.len() ==> calls[i].1 != calls[j].1)
            ==> aliases_distinct(register_all(calls)),
{
    if forall|i: int, j: int| 0 <= i < j < calls.len() ==> calls[i].1 != calls[j].1 {
        lemma_register_all_inv(calls);
    }
}

/// The induction behind `lemma_register_all_distinct_aliases`: with
/// pairwise-distinct URIs, the table keeps distinct URIs, distinct
/// aliases, and only URIs taken from the calls.
proof fn lemma_register_all_inv(calls: Seq<(Seq<char>, Seq<char>)>)
    requires
        forall|i: int, j: int| 0 <= i < j < calls.len() ==> calls[i].1 != calls[j].1,
    ensures
        uris_distinct(register_all(calls)),
        aliases_distinct(register_all(calls)),
        forall|k: int|
            0 <= k < register_all(calls).len() ==> exists|i: int|
                0 <= i < calls.len() && #[trigger] register_all(calls)[k].uri == #[trigger] calls[i].1,
    decreases calls.len(),
{
    if calls.len() != 0 {
        let prefix = calls.drop_last();
        let name = calls.last().0;
        let uri = calls.last().1;
        assert(forall|i: int| 0 <= i < prefix.len() ==> prefix[i] == calls[i]);
        lemma_register_all_inv(prefix);
        let s = register_all(prefix);
        lemma_find_uri(s, uri);
        assert(!has_uri(s, uri)) by {
            if has_uri(s, uri) {
                let f = find_uri(s, uri);
                let i = choose|i: int| 0 <= i < prefix.len() && s[f].uri == prefix[i].1;
                assert(calls[i].1 != calls[calls.len() - 1].1);
            }
        }
        lemma_register_distinct_uris_distinct_aliases(s, name, uri);
        let s2 = register_all(calls);
        lemma_find_name(s, name);
        let jn = find_name(s, name);
        assert forall|k: int| 0 <= k < s2.len() implies exists|i: int|
            0 <= i < calls.len() && #[trigger] s2[k].uri == #[trigger] calls[i].1 by {
            if k < s.len() && k != jn {
                assert(s2[k] == s[k]);
                let i = choose|i: int| 0 <= i < prefix.len() && s[k].uri == prefix[i].1;
                assert(s2[k].uri == calls[i].1);
            } else {
                assert(s2[k].uri == calls[calls.len() - 1].1);
            }
        }
    }
}

/// Law: registration stores the entry under its name: looking the
/// name up right afterwards yields exactly the returned alias and the
/// given URI.
pub proof fn lemma_register_then_lookup(s: Seq<NsView>, name: Seq<char>, uri: Seq<char>)
    ensures
        lookup_spec(spec_register(s, name, uri).0, name) == Some(
            NsView { alias: spec_register(s, name, uri).1, name: name, uri: uri },
        ),
{
    lemma_find_name(s, name);
    lemma_find_uri(s, uri);
    let s2 = spec_register(s, name, uri).0;
    let jn = find_name(s, name);
    if jn >= 0 {
        assert(forall|k: int| 0 <= k < jn ==> s2[k] == s[k]);
        lemma_find_name_at(s2, name, jn);
    } else {
        assert(forall|k: int| 0 <= k < s.len() ==> s2[k] == s[k]);
        lemma_find_name_at(s2, name, s.len() as int);
    }
}

/// Law: if entries sharing a URI always share an alias, that still
/// holds after any registration, whatever its name and URI.
pub proof fn lemma_register_shared_uri_shared_alias(
    s: Seq<NsView>,
    name: Seq<char>,
    uri: Seq<char>,
)
    requires
        shared_uri_shared_alias(s),
    ensures
        shared_uri_shared_alias(spec_register(s, name, uri).0),
{
    lemma_find_uri(s, uri);
    lemma_find_name(s, name);
    let ju = find_uri(s, uri);
    let jn = find_name(s, name);
    let s2 = spec_register(s, name, uri).0;
    if ju >= 0 {
        let e = NsView { alias: s[ju].alias, name: name, uri: uri };
        let t = if jn >= 0 { jn } else { s.len() as int };
        assert(s2 == if jn >= 0 { s.update(jn, e) } else { s.push(e) });
        assert forall|i: int, j: int|
            0 <= i < s2.len() && 0 <= j < s2.len() && s2[i].uri == s2[j].uri implies s2[i].alias
            == s2[j].alias by {
            if i != t && j != t {
                assert(s2[i] == s[i] && s2[j] == s[j]);
            } else if i == t && j != t {
                assert(s2[j] == s[j]);
                assert(s[j].uri == s[ju].uri);
            } else if j == t && i != t {
                assert(s2[i] == s[i]);
                assert(s[i].uri == s[ju].uri);
            }
        }
    } else {
        let t = if jn >= 0 { jn } else { s.len() as int };
        assert forall|i: int, j: int|
            0 <= i < s2.len() && 0 <= j < s2.len() && s2[i].uri == s2[j].uri implies s2[i].alias
            == s2[j].alias by {
            if i != t && j != t {
                assert(s2[i] == s[i] && s2[j] == s[j]);
            } else if i == t && j != t {
                assert(s2[j] == s[j]);
                assert(s2[t].uri == uri);
            } else if j == t && i != t {
                assert(s2[i] == s[i]);
                assert(s2[t].uri == uri);
            }
        }
    }
}

} // verus!
