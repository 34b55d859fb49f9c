//! The registry of runtime bindings, keyed by exact binding identity.
use crate::binding::{
    is_normal_form, law_normal_form_is_fixed, law_normalize_gives_normal_form,
    law_normalized_fields_are_trimmed, spec_normalize_memory_url, spec_identity, spec_key_new, spec_normalize_binding, BindingError, BindingKeyView,
    RuntimeBinding, RuntimeBindingKey, RuntimeBindingView,
};
use crate::text::{
    compare_text, is_blank, spec_trim, lemma_text_lt_irreflexive, lemma_text_lt_total, lemma_text_lt_transitive, text_lt, trim,
    TextOrder,
};
use vstd::prelude::*;

verus! {

/// An optional binding taken by value.
pub open spec fn opt_binding_view(o: Option<RuntimeBinding>) -> Option<RuntimeBindingView> {
    match o {
        Some(b) => Some(b@),
        None => None,
    }
}

/// Some identity stores this binding.
pub open spec fn is_stored(m: Map<BindingKeyView, RuntimeBindingView>, b: RuntimeBindingView) -> bool {
    exists|k: BindingKeyView| #[trigger] m.dom().contains(k) && m[k] == b
}

/// Every stored binding is in normal form and sits under its own identity.
pub open spec fn stored_under_identity(m: Map<BindingKeyView, RuntimeBindingView>) -> bool {
    forall|k: BindingKeyView|
        #[trigger] m.dom().contains(k) ==> spec_identity(m[k]) == Ok::<
            BindingKeyView,
            BindingError,
        >(k) && is_normal_form(m[k])
}

/// An optional string taken by value.
pub open spec fn opt_str_view(o: Option<&str>) -> Option<Seq<char>> {
    match o {
        Some(s) => Some(s@),
        None => None,
    }
}

/// The fields by which bindings are listed: memory URL, key, swarm.
pub open spec fn binding_triple(b: RuntimeBindingView) -> BindingKeyView {
    (b.memory_url, b.key, b.swarm_id)
}

/// Lexicographic order of `(memory_url, key, swarm_id)` triples, each compared as a string.
pub open spec fn key_lt(a: BindingKeyView, b: BindingKeyView) -> bool {
    ||| text_lt(a.0, b.0)
    ||| a.0 == b.0 && text_lt(a.1, b.1)
    ||| a.0 == b.0 && a.1 == b.1 && text_lt(a.2, b.2)
}

pub proof fn lemma_key_lt_irreflexive(a: BindingKeyView)
    ensures
        !key_lt(a, a),
{
    lemma_text_lt_irreflexive(a.0);
    lemma_text_lt_irreflexive(a.1);
    lemma_text_lt_irreflexive(a.2);
}

pub proof fn lemma_key_lt_transitive(a: BindingKeyView, b: BindingKeyView, c: BindingKeyView)
    requires
        key_lt(a, b),
        key_lt(b, c),
    ensures
        key_lt(a, c),
{
    if text_lt(a.0, b.0) && text_lt(b.0, c.0) {
        lemma_text_lt_transitive(a.0, b.0, c.0);
    }
    if a.0 == b.0 && b.0 == c.0 && text_lt(a.1, b.1) && text_lt(b.1, c.1) {
        lemma_text_lt_transitive(a.1, b.1, c.1);
    }
    if a.0 == b.0 && b.0 == c.0 && a.1 == b.1 && b.1 == c.1 && text_lt(a.2, b.2) && text_lt(
        b.2,
        c.2,
    ) {
        lemma_text_lt_transitive(a.2, b.2, c.2);
    }
}

pub proof fn lemma_key_lt_total(a: BindingKeyView, b: BindingKeyView)
    ensures
        a == b || key_lt(a, b) || key_lt(b, a),
{
    lemma_text_lt_total(a.0, b.0);
    lemma_text_lt_total(a.1, b.1);
    lemma_text_lt_total(a.2, b.2);
}

/// The binding stored under the identity that `RuntimeBindingKey::new` makes of the
/// arguments; `None` when they make no identity.
pub open spec fn spec_get(
    m: Map<BindingKeyView, RuntimeBindingView>,
    memory_url: Seq<char>,
    key: Seq<char>,
    swarm_id: Seq<char>,
) -> Option<RuntimeBindingView> {
    match spec_key_new(memory_url, key, swarm_id) {
        Err(_) => None,
        Ok(k) => if m.dom().contains(k) {
            Some(m[k])
        } else {
            None
        },
    }
}

/// Adding a binding: it is normalised and stored under its identity, replacing what was
/// there; the flag says whether something was.
pub open spec fn spec_add(m: Map<BindingKeyView, RuntimeBindingView>, b: RuntimeBindingView) -> Result<
    (Map<BindingKeyView, RuntimeBindingView>, bool),
    BindingError,
> {
    match spec_normalize_binding(b) {
        Err(e) => Err(e),
        Ok(n) => match spec_identity(n) {
            Err(e) => Err(e),
            Ok(k) => Ok((m.insert(k, n), m.dom().contains(k))),
        },
    }
}

/// Adding bindings in order, stopping at the first refused one: the registry after the
/// bindings added so far, and the error that stopped it, if any.
pub open spec fn spec_add_all(
    m: Map<BindingKeyView, RuntimeBindingView>,
    bs: Seq<RuntimeBindingView>,
) -> (Map<BindingKeyView, RuntimeBindingView>, Option<BindingError>)
    decreases bs.len(),
{
    if bs.len() == 0 {
        (m, None)
    } else {
        match spec_add(m, bs[0]) {
            Err(e) => (m, Some(e)),
            Ok(r) => spec_add_all(r.0, bs.drop_first()),
        }
    }
}

/// The binding's key and swarm are exactly these strings.
pub open spec fn matches_key_swarm(b: RuntimeBindingView, key: Seq<char>, swarm_id: Seq<char>) -> bool {
    b.key == key && b.swarm_id == swarm_id
}

/// Exactly one stored binding has this key and swarm.
pub open spec fn has_unique_match(
    m: Map<BindingKeyView, RuntimeBindingView>,
    key: Seq<char>,
    swarm_id: Seq<char>,
) -> bool {
    exists|k: BindingKeyView|
        #![trigger m.dom().contains(k)]
        m.dom().contains(k) && matches_key_swarm(m[k], key, swarm_id) && forall|k2: BindingKeyView|
            #![trigger m.dom().contains(k2)]
            m.dom().contains(k2) && matches_key_swarm(m[k2], key, swarm_id) ==> k2 == k
}

/// The one stored binding with this key and swarm, if there is exactly one.
pub open spec fn spec_unique_match(
    m: Map<BindingKeyView, RuntimeBindingView>,
    key: Seq<char>,
    swarm_id: Seq<char>,
) -> Option<RuntimeBindingView> {
    if has_unique_match(m, key, swarm_id) {
        let k = choose|k: BindingKeyView|
            #![trigger m.dom().contains(k)]
            m.dom().contains(k) && matches_key_swarm(m[k], key, swarm_id) && forall|
                k2: BindingKeyView,
            |
                #![trigger m.dom().contains(k2)]
                m.dom().contains(k2) && matches_key_swarm(m[k2], key, swarm_id) ==> k2 == k;
        Some(m[k])
    } else {
        None
    }
}

/// `find_for_request`: an explicit, non-blank memory URL is looked up exactly; otherwise the
/// default URL is tried, and then the one binding with this key and swarm, if it is the only one.
pub open spec fn spec_find_for_request(
    m: Map<BindingKeyView, RuntimeBindingView>,
    memory_url: Option<Seq<char>>,
    default_memory_url: Seq<char>,
    key: Seq<char>,
    swarm_id: Seq<char>,
) -> Option<RuntimeBindingView> {
    if memory_url matches Some(u) && !is_blank(u) {
        spec_get(m, memory_url->Some_0, key, swarm_id)
    } else if spec_get(m, default_memory_url, key, swarm_id) is Some {
        spec_get(m, default_memory_url, key, swarm_id)
    } else {
        spec_unique_match(m, key, swarm_id)
    }
}

/// A stored binding with its identity.
struct RegistryEntry {
    key: RuntimeBindingKey,
    binding: RuntimeBinding,
}

spec fn entry_triple(e: RegistryEntry) -> BindingKeyView {
    binding_triple(e.binding@)
}

/// Each entry sits under its binding's identity and holds a binding in normal form, the
/// entries are in strictly increasing order of their bindings' triples, and no identity
/// occurs twice.
spec fn entries_wf(es: Seq<RegistryEntry>) -> bool {
    &&& forall|i: int|
        0 <= i < es.len() ==> spec_identity(#[trigger] es[i].binding@) == Ok::<
            BindingKeyView,
            BindingError,
        >(es[i].key@) && is_normal_form(es[i].binding@)
    &&& forall|i: int, j: int|
        0 <= i < j < es.len() ==> key_lt(entry_triple(#[trigger] es[i]), entry_triple(#[trigger] es[j]))
    &&& forall|i: int, j: int|
        0 <= i < es.len() && 0 <= j < es.len() && i != j ==> (#[trigger] es[i]).key@ != (
        #[trigger] es[j]).key@
}

spec fn entries_map(es: Seq<RegistryEntry>) -> Map<BindingKeyView, RuntimeBindingView> {
    Map::new(
        |k: BindingKeyView| exists|i: int| 0 <= i < es.len() && (#[trigger] es[i]).key@ == k,
        |k: BindingKeyView|
            es[choose|i: int| 0 <= i < es.len() && (#[trigger] es[i]).key@ == k].binding@,
    )
}

proof fn lemma_entries_lookup(es: Seq<RegistryEntry>, i: int)
    requires
        entries_wf(es),
        0 <= i < es.len(),
    ensures
        entries_map(es).dom().contains(es[i].key@),
        entries_map(es)[es[i].key@] == es[i].binding@,
{
    let k = es[i].key@;
    assert(0 <= i < es.len() && es[i].key@ == k);
    let c = choose|c: int| 0 <= c < es.len() && (#[trigger] es[c]).key@ == k;
    assert(c == i);
}

proof fn lemma_entries_dom(es: Seq<RegistryEntry>, k: BindingKeyView)
    requires
        entries_wf(es),
        entries_map(es).dom().contains(k),
    ensures
        exists|i: int| 0 <= i < es.len() && (#[trigger] es[i]).key@ == k,
{
}

proof fn lemma_entries_stored_under_identity(es: Seq<RegistryEntry>)
    requires
        entries_wf(es),
    ensures
        stored_under_identity(entries_map(es)),
{
    let m = entries_map(es);
    assert forall|k: BindingKeyView| #[trigger] m.dom().contains(k) implies spec_identity(m[k])
        == Ok::<BindingKeyView, BindingError>(k) && is_normal_form(m[k]) by {
        let a = choose|a: int| 0 <= a < es.len() && (#[trigger] es[a]).key@ == k;
        lemma_entries_lookup(es, a);
    }
}

proof fn lemma_entries_dom_len(es: Seq<RegistryEntry>)
    requires
        entries_wf(es),
    ensures
        entries_map(es).dom().finite(),
        entries_map(es).dom().len() == es.len(),
    decreases es.len(),
{
    if es.len() == 0 {
        assert(entries_map(es).dom() =~= Set::<BindingKeyView>::empty());
    } else {
        let last = es.len() - 1;
        let d = es.remove(last);
        lemma_entries_remove(es, last);
        lemma_entries_lookup(es, last);
        lemma_entries_dom_len(d);
        let k = es[last].key@;
        assert(entries_map(es).dom() =~= entries_map(d).dom().insert(k));
        assert(!entries_map(d).dom().contains(k));
    }
}

/// The identity depends on the triple alone.
proof fn lemma_identity_of_triple(a: RuntimeBindingView, b: RuntimeBindingView)
    requires
        binding_triple(a) == binding_triple(b),
    ensures
        spec_identity(a) == spec_identity(b),
{
}

proof fn lemma_entries_remove(es: Seq<RegistryEntry>, i: int)
    requires
        entries_wf(es),
        0 <= i < es.len(),
    ensures
        entries_wf(es.remove(i)),
        entries_map(es.remove(i)) == entries_map(es).remove(es[i].key@),
{
    let r = es.remove(i);
    es.remove_ensures(i);
    assert forall|a: int, b: int| 0 <= a < b < r.len() implies key_lt(
        entry_triple(#[trigger] r[a]),
        entry_triple(#[trigger] r[b]),
    ) by {
        let a1 = if a < i { a } else { a + 1 };
        let b1 = if b < i { b } else { b + 1 };
        assert(r[a] == es[a1]);
        assert(r[b] == es[b1]);
    }
    assert forall|a: int, b: int| 0 <= a < r.len() && 0 <= b < r.len() && a != b implies (
    #[trigger] r[a]).key@ != (#[trigger] r[b]).key@ by {
        let a1 = if a < i { a } else { a + 1 };
        let b1 = if b < i { b } else { b + 1 };
        assert(r[a] == es[a1]);
        assert(r[b] == es[b1]);
    }
    assert forall|a: int| 0 <= a < r.len() implies spec_identity(#[trigger] r[a].binding@) == Ok::<
        BindingKeyView,
        BindingError,
    >(r[a].key@) && is_normal_form(r[a].binding@) by {
        let a1 = if a < i { a } else { a + 1 };
        assert(r[a] == es[a1]);
    }
    let m = entries_map(es);
    let m2 = entries_map(r);
    let k0 = es[i].key@;
    assert forall|k: BindingKeyView| m2.dom().contains(k) <==> m.remove(k0).dom().contains(k) by {
        if m2.dom().contains(k) {
            let a = choose|a: int| 0 <= a < r.len() && (#[trigger] r[a]).key@ == k;
            let a1 = if a < i { a } else { a + 1 };
            assert(r[a] == es[a1]);
            lemma_entries_lookup(es, a1);
        }
        if m.remove(k0).dom().contains(k) {
            let a1 = choose|a1: int| 0 <= a1 < es.len() && (#[trigger] es[a1]).key@ == k;
            assert(a1 != i);
            let a = if a1 < i { a1 } else { a1 - 1 };
            assert(r[a] == es[a1]);
        }
    }
    assert forall|k: BindingKeyView| #[trigger] m2.dom().contains(k) implies m2[k] == m.remove(
        k0,
    )[k] by {
        let a = choose|a: int| 0 <= a < r.len() && (#[trigger] r[a]).key@ == k;
        let a1 = if a < i { a } else { a + 1 };
        assert(r[a] == es[a1]);
        lemma_entries_lookup(es, a1);
        lemma_entries_lookup(r, a);
    }
    assert(m2 =~= m.remove(k0));
}

proof fn lemma_entries_insert(es: Seq<RegistryEntry>, p: int, e: RegistryEntry)
    requires
        entries_wf(es),
        0 <= p <= es.len(),
        spec_identity(e.binding@) == Ok::<BindingKeyView, BindingError>(e.key@),
        is_normal_form(e.binding@),
        forall|j: int| 0 <= j < p ==> key_lt(entry_triple(#[trigger] es[j]), entry_triple(e)),
        forall|j: int| p <= j < es.len() ==> key_lt(entry_triple(e), entry_triple(#[trigger] es[j])),
        forall|j: int| 0 <= j < es.len() ==> (#[trigger] es[j]).key@ != e.key@,
    ensures
        entries_wf(es.insert(p, e)),
        entries_map(es.insert(p, e)) == entries_map(es).insert(e.key@, e.binding@),
{
    let r = es.insert(p, e);
    es.insert_ensures(p, e);
    assert forall|a: int| 0 <= a < r.len() implies #[trigger] r[a] == (if a < p {
        es[a]
    } else if a == p {
        e
    } else {
        es[a - 1]
    }) by {
        if a > p {
            assert(r[(a - 1) + 1] == es[a - 1]);
        }
    }
    assert forall|a: int, b: int| 0 <= a < b < r.len() implies key_lt(
        entry_triple(#[trigger] r[a]),
        entry_triple(#[trigger] r[b]),
    ) by {
        if a < p && b == p {
        } else if a < p && b > p {
            lemma_key_lt_transitive(entry_triple(es[a]), entry_triple(e), entry_triple(es[b - 1]));
        } else if a == p {
        } else if a < p {
        } else {
        }
    }
    assert forall|a: int, b: int| 0 <= a < r.len() && 0 <= b < r.len() && a != b implies (
    #[trigger] r[a]).key@ != (#[trigger] r[b]).key@ by {
    }
    assert forall|a: int| 0 <= a < r.len() implies spec_identity(#[trigger] r[a].binding@) == Ok::<
        BindingKeyView,
        BindingError,
    >(r[a].key@) && is_normal_form(r[a].binding@) by {}
    let m = entries_map(es);
    let m2 = entries_map(r);
    let m1 = m.insert(e.key@, e.binding@);
    assert forall|k: BindingKeyView| m2.dom().contains(k) <==> m1.dom().contains(k) by {
        if m2.dom().contains(k) {
            let a = choose|a: int| 0 <= a < r.len() && (#[trigger] r[a]).key@ == k;
            if a < p {
                lemma_entries_lookup(es, a);
            } else if a > p {
                lemma_entries_lookup(es, a - 1);
            }
        }
        if m1.dom().contains(k) {
            if k == e.key@ {
                assert(r[p].key@ == k);
            } else {
                let a1 = choose|a1: int| 0 <= a1 < es.len() && (#[trigger] es[a1]).key@ == k;
                let a = if a1 < p { a1 } else { a1 + 1 };
                assert(r[a] == es[a1]);
            }
        }
    }
    assert forall|k: BindingKeyView| #[trigger] m2.dom().contains(k) implies m2[k] == m1[k] by {
        let a = choose|a: int| 0 <= a < r.len() && (#[trigger] r[a]).key@ == k;
        lemma_entries_lookup(r, a);
        if a < p {
            lemma_entries_lookup(es, a);
        } else if a > p {
            lemma_entries_lookup(es, a - 1);
        }
    }
    assert(m2 =~= m1);
}

/// The bindings an agent runtime knows, each under its exact identity
/// `(memory_url, key, swarm_id)`.
pub struct RuntimeBindingRegistry {
    entries: Vec<RegistryEntry>,
}

impl RuntimeBindingRegistry {
    #[verifier::type_invariant]
    spec fn inv(self) -> bool {
        entries_wf(self.entries@)
    }
}

impl View for RuntimeBindingRegistry {
    type V = Map<BindingKeyView, RuntimeBindingView>;

    closed spec fn view(&self) -> Map<BindingKeyView, RuntimeBindingView> {
        entries_map(self.entries@)
    }
}

impl Default for RuntimeBindingRegistry {
    fn default() -> (r: Self)
        ensures
            r@ == Map::<BindingKeyView, RuntimeBindingView>::empty(),
    {
        RuntimeBindingRegistry::new()
    }
}

fn binding_lt(a: &RuntimeBinding, b: &RuntimeBinding) -> (r: bool)
    ensures
        r == key_lt(binding_triple(a@), binding_triple(b@)),
{
    match compare_text(a.memory_url.as_str(), b.memory_url.as_str()) {
        TextOrder::Less => true,
        TextOrder::Greater => false,
        TextOrder::Equal => match compare_text(a.key.as_str(), b.key.as_str()) {
            TextOrder::Less => true,
            TextOrder::Greater => false,
            TextOrder::Equal => match compare_text(a.swarm_id.as_str(), b.swarm_id.as_str()) {
                TextOrder::Less => true,
                _ => false,
            },
        },
    }
}

fn text_eq(a: &str, b: &str) -> (r: bool)
    ensures
        r == (a@ == b@),
{
    match compare_text(a, b) {
        TextOrder::Equal => true,
        _ => false,
    }
}

fn key_eq(a: &RuntimeBindingKey, b: &RuntimeBindingKey) -> (r: bool)
    ensures
        r == (a@ == b@),
{
    text_eq(a.memory_url.as_str(), b.memory_url.as_str()) && text_eq(
        a.key.as_str(),
        b.key.as_str(),
    ) && text_eq(a.swarm_id.as_str(), b.swarm_id.as_str())
}

impl RuntimeBindingRegistry {
    /// An empty registry.
    pub fn new() -> (r: Self)
        ensures
            r@ == Map::<BindingKeyView, RuntimeBindingView>::empty(),
    {
        let r = RuntimeBindingRegistry { entries: Vec::new() };
        assert(r@ =~= Map::<BindingKeyView, RuntimeBindingView>::empty());
        r
    }

    /// The index of the entry stored under `key`.
    fn position_of(&self, key: &RuntimeBindingKey) -> (r: Option<usize>)
        ensures
            match r {
                Some(i) => i < self.entries@.len() && self.entries@[i as int].key@ == key@,
                None => forall|i: int|
                    0 <= i < self.entries@.len() ==> (#[trigger] self.entries@[i]).key@ != key@,
            },
    {
        let n = self.entries.len();
        let mut i: usize = 0;
        while i < n
            invariant
                n == self.entries@.len(),
                i <= n,
                forall|j: int| 0 <= j < i ==> (#[trigger] self.entries@[j]).key@ != key@,
            decreases n - i,
        {
            if key_eq(&self.entries[i].key, key) {
                return Some(i);
            }
            i = i + 1;
        }
        None
    }

    /// The binding stored under `key`, if any.
    fn lookup(&self, key: &RuntimeBindingKey) -> (r: Option<RuntimeBinding>)
        ensures
            match r {
                Some(b) => self@.dom().contains(key@) && self@[key@] == b@,
                None => !self@.dom().contains(key@),
            },
    {
        proof {
            use_type_invariant(self);
        }
        match self.position_of(key) {
            Some(i) => {
                proof {
                    lemma_entries_lookup(self.entries@, i as int);
                }
                Some(self.entries[i].binding.duplicate())
            },
            None => {
                proof {
                    if self@.dom().contains(key@) {
                        lemma_entries_dom(self.entries@, key@);
                    }
                }
                None
            },
        }
    }

    /// Normalises `binding` and stores it under its identity, replacing any binding stored
    /// there; returns whether one was replaced.
    pub fn add(&mut self, binding: RuntimeBinding) -> (r: Result<bool, BindingError>)
        ensures
            match r {
                Ok(replaced) => spec_add(old(self)@, binding@) == Ok::<
                    (Map<BindingKeyView, RuntimeBindingView>, bool),
                    BindingError,
                >((final(self)@, replaced)),
                Err(e) => spec_add(old(self)@, binding@) == Err::<
                    (Map<BindingKeyView, RuntimeBindingView>, bool),
                    BindingError,
                >(e) && final(self)@ == old(self)@,
            },
            old(self)@.dom().finite(),
            final(self)@.dom().finite(),
            r matches Ok(replaced) ==> if replaced {
                final(self)@.dom().len() == old(self)@.dom().len()
            } else {
                final(self)@.dom().len() == old(self)@.dom().len() + 1
            },
    {
        proof {
            use_type_invariant(&*self);
            lemma_entries_dom_len(self.entries@);
        }
        let normalized = binding.normalize()?;
        proof {
            law_normalize_gives_normal_form(binding@);
        }
        let key = normalized.identity()?;
        let ghost es0 = self.entries@;
        let replaced = match self.position_of(&key) {
            Some(i) => {
                proof {
                    lemma_entries_lookup(es0, i as int);
                    lemma_entries_remove(es0, i as int);
                }
                assert(entries_map(es0).dom().contains(key@));
                let mut entries = Vec::new();
                std::mem::swap(&mut entries, &mut self.entries);
                entries.remove(i);
                self.entries = entries;
                true
            },
            None => {
                proof {
                    if entries_map(es0).dom().contains(key@) {
                        lemma_entries_dom(es0, key@);
                    }
                }
                false
            },
        };
        let ghost es1 = self.entries@;
        assert(entries_map(es1) == entries_map(es0).remove(key@));
        assert(forall|j: int| 0 <= j < es1.len() ==> (#[trigger] es1[j]).key@ != key@) by {
            assert forall|j: int| 0 <= j < es1.len() implies (#[trigger] es1[j]).key@ != key@ by {
                lemma_entries_lookup(es1, j);
            }
        }
        // Where the new binding goes in the order of triples.
        let n = self.entries.len();
        let mut p: usize = 0;
        while p < n && binding_lt(&self.entries[p].binding, &normalized)
            invariant
                self.entries@ == es1,
                entries_wf(es1),
                n == es1.len(),
                p <= n,
                forall|j: int|
                    0 <= j < p ==> key_lt(entry_triple(#[trigger] es1[j]), binding_triple(normalized@)),
            decreases n - p,
        {
            p = p + 1;
        }
        proof {
            assert forall|j: int| p <= j < n implies key_lt(
                binding_triple(normalized@),
                entry_triple(#[trigger] es1[j]),
            ) by {
                let t = binding_triple(normalized@);
                let tp = entry_triple(es1[p as int]);
                if binding_triple(normalized@) == tp {
                    lemma_identity_of_triple(normalized@, es1[p as int].binding@);
                }
                lemma_key_lt_total(t, tp);
                if j > p {
                    lemma_key_lt_transitive(t, tp, entry_triple(es1[j]));
                }
            }
        }
        let entry = RegistryEntry { key, binding: normalized };
        proof {
            lemma_entries_insert(es1, p as int, entry);
        }
        let mut entries = Vec::new();
        std::mem::swap(&mut entries, &mut self.entries);
        entries.insert(p, entry);
        self.entries = entries;
        assert(self@ =~= entries_map(es0).insert(key@, normalized@));
        assert(replaced == entries_map(es0).dom().contains(key@));
        proof {
            law_add_reports_replacement(entries_map(es0), binding@);
        }
        Ok(replaced)
    }

    /// The binding stored under the identity that `RuntimeBindingKey::new` makes of the
    /// arguments; `None` when they make none or nothing is stored there.
    pub fn get_exact(&self, memory_url: &str, key: &str, swarm_id: &str) -> (r: Option<
        RuntimeBinding,
    >)
        ensures
            opt_binding_view(r) == spec_get(self@, memory_url@, key@, swarm_id@),
    {
        let binding_key = match RuntimeBindingKey::new(memory_url, key, swarm_id) {
            Ok(k) => k,
            Err(_) => return None,
        };
        self.lookup(&binding_key)
    }

    /// Removes and returns the binding stored under the identity that `RuntimeBindingKey::new`
    /// makes of the arguments; refuses arguments that make no identity.
    pub fn remove_exact(&mut self, memory_url: &str, key: &str, swarm_id: &str) -> (r: Result<
        Option<RuntimeBinding>,
        BindingError,
    >)
        ensures
            match r {
                Ok(removed) => spec_key_new(memory_url@, key@, swarm_id@) is Ok
                    && final(self)@ == old(self)@.remove(
                    spec_key_new(memory_url@, key@, swarm_id@)->Ok_0,
                ) && opt_binding_view(removed) == spec_get(
                    old(self)@,
                    memory_url@,
                    key@,
                    swarm_id@,
                ),
                Err(e) => spec_key_new(memory_url@, key@, swarm_id@) == Err::<
                    BindingKeyView,
                    BindingError,
                >(e) && final(self)@ == old(self)@,
            },
    {
        proof {
            use_type_invariant(&*self);
        }
        let binding_key = RuntimeBindingKey::new(memory_url, key, swarm_id)?;
        let ghost es0 = self.entries@;
        match self.position_of(&binding_key) {
            Some(i) => {
                proof {
                    lemma_entries_lookup(es0, i as int);
                    lemma_entries_remove(es0, i as int);
                }
                let mut entries = Vec::new();
                std::mem::swap(&mut entries, &mut self.entries);
                let removed = entries.remove(i);
                self.entries = entries;
                Ok(Some(removed.binding))
            },
            None => {
                proof {
                    if entries_map(es0).dom().contains(binding_key@) {
                        lemma_entries_dom(es0, binding_key@);
                    }
                    assert(entries_map(es0).remove(binding_key@) =~= entries_map(es0));
                }
                Ok(None)
            },
        }
    }

    /// The bindings in increasing order of `(memory_url, key, swarm_id)`.
    pub fn list(&self) -> (r: Vec<RuntimeBinding>)
        ensures
            forall|i: int, j: int|
                0 <= i < j < r@.len() ==> key_lt(
                    binding_triple((#[trigger] r@[i])@),
                    binding_triple((#[trigger] r@[j])@),
                ),
            forall|i: int| 0 <= i < r@.len() ==> is_stored(self@, (#[trigger] r@[i])@),
            forall|k: BindingKeyView|
                #[trigger] self@.dom().contains(k) ==> exists|i: int|
                    0 <= i < r@.len() && (#[trigger] r@[i])@ == self@[k],
            self@.dom().finite(),
            r@.len() == self@.dom().len(),
            stored_under_identity(self@),
    {
        proof {
            use_type_invariant(self);
            lemma_entries_dom_len(self.entries@);
            lemma_entries_stored_under_identity(self.entries@);
        }
        let ghost es = self.entries@;
        let n = self.entries.len();
        let mut out: Vec<RuntimeBinding> = Vec::new();
        let mut i: usize = 0;
        while i < n
            invariant
                es == self.entries@,
                entries_wf(es),
                n == es.len(),
                i <= n,
                out@.len() == i,
                forall|j: int| 0 <= j < i ==> (#[trigger] out@[j])@ == es[j].binding@,
            decreases n - i,
        {
            out.push(self.entries[i].binding.duplicate());
            i = i + 1;
        }
        proof {
            assert forall|a: int, b: int| 0 <= a < b < out@.len() implies key_lt(
                binding_triple((#[trigger] out@[a])@),
                binding_triple((#[trigger] out@[b])@),
            ) by {
                assert(key_lt(entry_triple(es[a]), entry_triple(es[b])));
            }
            assert forall|a: int| 0 <= a < out@.len() implies is_stored(self@, (#[trigger] out@[a])@) by {
                lemma_entries_lookup(es, a);
                assert(self@.dom().contains(es[a].key@));
            }
            assert forall|k: BindingKeyView| #[trigger] self@.dom().contains(k) implies exists|
                a: int,
            | 0 <= a < out@.len() && (#[trigger] out@[a])@ == self@[k] by {
                let a = choose|a: int| 0 <= a < es.len() && (#[trigger] es[a]).key@ == k;
                lemma_entries_lookup(es, a);
                assert(out@[a]@ == self@[k]);
            }
        }
        out
    }

    /// The one binding whose key and swarm are exactly these strings, if only one has them.
    fn unique_match(&self, key: &str, swarm_id: &str) -> (r: Option<RuntimeBinding>)
        ensures
            opt_binding_view(r) == spec_unique_match(self@, key@, swarm_id@),
    {
        proof {
            use_type_invariant(self);
        }
        let ghost es = self.entries@;
        let ghost m = self@;
        let n = self.entries.len();
        let mut first: Option<usize> = None;
        let mut i: usize = 0;
        while i < n
            invariant
                es == self.entries@,
                m == entries_map(es),
                entries_wf(es),
                n == es.len(),
                i <= n,
                match first {
                    None => forall|j: int|
                        0 <= j < i ==> !matches_key_swarm((#[trigger] es[j]).binding@, key@, swarm_id@),
                    Some(f) => f < i && matches_key_swarm(es[f as int].binding@, key@, swarm_id@)
                        && forall|j: int|
                        0 <= j < i && j != f ==> !matches_key_swarm(
                            (#[trigger] es[j]).binding@,
                            key@,
                            swarm_id@,
                        ),
                },
            decreases n - i,
        {
            let b = &self.entries[i].binding;
            if text_eq(b.key.as_str(), key) && text_eq(b.swarm_id.as_str(), swarm_id) {
                match first {
                    Some(f) => {
                        proof {
                            lemma_entries_lookup(es, f as int);
                            lemma_entries_lookup(es, i as int);
                            let k1 = es[f as int].key@;
                            let k2 = es[i as int].key@;
                            assert(k1 != k2);
                            if has_unique_match(m, key@, swarm_id@) {
                                let k = choose|k: BindingKeyView|
                                    #![trigger m.dom().contains(k)]
                                    m.dom().contains(k) && matches_key_swarm(m[k], key@, swarm_id@)
                                        && forall|k3: BindingKeyView|
                                        #![trigger m.dom().contains(k3)]
                                        m.dom().contains(k3) && matches_key_swarm(
                                            m[k3],
                                            key@,
                                            swarm_id@,
                                        ) ==> k3 == k;
                                assert(m.dom().contains(k1));
                                assert(m.dom().contains(k2));
                            }
                        }
                        return None;
                    },
                    None => {
                        first = Some(i);
                    },
                }
            }
            i = i + 1;
        }
        match first {
            None => {
                proof {
                    if has_unique_match(m, key@, swarm_id@) {
                        let k = choose|k: BindingKeyView|
                            #![trigger m.dom().contains(k)]
                            m.dom().contains(k) && matches_key_swarm(m[k], key@, swarm_id@)
                                && forall|k3: BindingKeyView|
                                #![trigger m.dom().contains(k3)]
                                m.dom().contains(k3) && matches_key_swarm(m[k3], key@, swarm_id@)
                                    ==> k3 == k;
                        let a = choose|a: int| 0 <= a < es.len() && (#[trigger] es[a]).key@ == k;
                        lemma_entries_lookup(es, a);
                    }
                }
                None
            },
            Some(f) => {
                proof {
                    lemma_entries_lookup(es, f as int);
                    let kf = es[f as int].key@;
                    assert forall|k3: BindingKeyView|
                        #![trigger m.dom().contains(k3)]
                        m.dom().contains(k3) && matches_key_swarm(m[k3], key@, swarm_id@)
                            implies k3 == kf by {
                        let a = choose|a: int| 0 <= a < es.len() && (#[trigger] es[a]).key@ == k3;
                        lemma_entries_lookup(es, a);
                    }
                    assert(m.dom().contains(kf) && matches_key_swarm(m[kf], key@, swarm_id@));
                    assert(has_unique_match(m, key@, swarm_id@));
                }
                Some(self.entries[f].binding.duplicate())
            },
        }
    }

    /// The binding for a request: with a non-blank `memory_url`, the exact binding for it;
    /// otherwise the exact binding for `default_memory_url`, or else the binding with this
    /// key and swarm when exactly one has them. An ambiguous key and swarm give `None`.
    pub fn find_for_request(
        &self,
        memory_url: Option<&str>,
        default_memory_url: &str,
        key: &str,
        swarm_id: &str,
    ) -> (r: Option<RuntimeBinding>)
        ensures
            opt_binding_view(r) == spec_find_for_request(
                self@,
                opt_str_view(memory_url),
                default_memory_url@,
                key@,
                swarm_id@,
            ),
            r matches Some(b) ==> {
                &&& is_stored(self@, b@)
                &&& b.key@ == spec_trim(key@)
                &&& b.swarm_id@ == spec_trim(swarm_id@)
            },
    {
        proof {
            use_type_invariant(self);
            lemma_entries_stored_under_identity(self.entries@);
            law_found_binding_matches_request(
                self@,
                opt_str_view(memory_url),
                default_memory_url@,
                key@,
                swarm_id@,
            );
        }
        if let Some(url) = memory_url {
            let trimmed = trim(url);
            if !trimmed.as_str().is_empty() {
                return self.get_exact(url, key, swarm_id);
            }
        }
        if let Some(binding) = self.get_exact(default_memory_url, key, swarm_id) {
            return Some(binding);
        }
        self.unique_match(key, swarm_id)
    }

    /// Adds the bindings in order, stopping at the first one refused; returns how many
    /// were given.
    pub fn load_bindings(&mut self, bindings: Vec<RuntimeBinding>) -> (r: Result<
        usize,
        BindingError,
    >)
        ensures
            final(self)@ == spec_add_all(old(self)@, bindings@.map_values(|b: RuntimeBinding| b@)).0,
            match r {
                Ok(count) => count == bindings@.len() && spec_add_all(
                    old(self)@,
                    bindings@.map_values(|b: RuntimeBinding| b@),
                ).1 is None,
                Err(e) => spec_add_all(
                    old(self)@,
                    bindings@.map_values(|b: RuntimeBinding| b@),
                ).1 == Some(e),
            },
    {
        let ghost all = bindings@.map_values(|b: RuntimeBinding| b@);
        let count = bindings.len();
        let mut i: usize = 0;
        assert(all.skip(0) =~= all);
        while i < count
            invariant
                count == bindings@.len(),
                all == bindings@.map_values(|b: RuntimeBinding| b@),
                i <= count,
                spec_add_all(old(self)@, all) == spec_add_all(self@, all.skip(i as int)),
            decreases count - i,
        {
            assert(all.skip(i as int)[0] == bindings@[i as int]@);
            assert(all.skip(i as int).drop_first() =~= all.skip(i + 1));
            match self.add(bindings[i].duplicate()) {
                Ok(_) => {},
                Err(e) => {
                    return Err(e);
                },
            }
            i = i + 1;
        }
        assert(all.skip(count as int).len() == 0);
        Ok(count)
    }
}

/// Law (read after write): once a binding is added, looking it up by the memory URL, key and
/// swarm it was given with returns it, normalised. This holds where normalising the memory URL
/// a second time leaves it as it is, since the identity is made from the normalised binding.
pub proof fn law_add_then_get_exact(m: Map<BindingKeyView, RuntimeBindingView>, b: RuntimeBindingView)
    requires
        spec_add(m, b) is Ok,
        spec_normalize_memory_url(spec_normalize_binding(b)->Ok_0.memory_url) == Ok::<
            Seq<char>,
            BindingError,
        >(spec_normalize_binding(b)->Ok_0.memory_url),
    ensures
        spec_get(spec_add(m, b)->Ok_0.0, b.memory_url, b.key, b.swarm_id) == Some(
            spec_normalize_binding(b)->Ok_0,
        ),
{
    law_normalized_fields_are_trimmed(b);
}

/// Law: adding a binding leaves the bindings under every other identity as they were.
pub proof fn law_add_keeps_other_identities(
    m: Map<BindingKeyView, RuntimeBindingView>,
    b: RuntimeBindingView,
    memory_url: Seq<char>,
    key: Seq<char>,
    swarm_id: Seq<char>,
)
    requires
        spec_add(m, b) is Ok,
        spec_key_new(memory_url, key, swarm_id) != spec_identity(spec_normalize_binding(b)->Ok_0),
    ensures
        spec_get(spec_add(m, b)->Ok_0.0, memory_url, key, swarm_id) == spec_get(
            m,
            memory_url,
            key,
            swarm_id,
        ),
{
}

/// Law: adding the same binding twice stores it once; the second add reports a replacement
/// and changes nothing.
pub proof fn law_add_is_idempotent(m: Map<BindingKeyView, RuntimeBindingView>, b: RuntimeBindingView)
    requires
        spec_add(m, b) is Ok,
    ensures
        spec_add(spec_add(m, b)->Ok_0.0, b) == Ok::<
            (Map<BindingKeyView, RuntimeBindingView>, bool),
            BindingError,
        >((spec_add(m, b)->Ok_0.0, true)),
{
    let m2 = spec_add(m, b)->Ok_0.0;
    let n = spec_normalize_binding(b)->Ok_0;
    let k = spec_identity(n)->Ok_0;
    assert(m2.insert(k, n) =~= m2);
}

/// Law: after removing an identity, nothing is found under it, and every other identity
/// keeps its binding.
pub proof fn law_remove_then_get(
    m: Map<BindingKeyView, RuntimeBindingView>,
    memory_url: Seq<char>,
    key: Seq<char>,
    swarm_id: Seq<char>,
    other_url: Seq<char>,
    other_key: Seq<char>,
    other_swarm: Seq<char>,
)
    requires
        spec_key_new(memory_url, key, swarm_id) is Ok,
        spec_key_new(other_url, other_key, other_swarm) != spec_key_new(memory_url, key, swarm_id),
    ensures
        ({
            let m2 = m.remove(spec_key_new(memory_url, key, swarm_id)->Ok_0);
            &&& spec_get(m2, memory_url, key, swarm_id) is None
            &&& spec_get(m2, other_url, other_key, other_swarm) == spec_get(
                m,
                other_url,
                other_key,
                other_swarm,
            )
        }),
{
}

/// Law: without a memory URL, when the default URL finds nothing and two bindings share the
/// key and swarm, the request finds nothing rather than picking one.
pub proof fn law_ambiguous_request_finds_nothing(
    m: Map<BindingKeyView, RuntimeBindingView>,
    default_memory_url: Seq<char>,
    key: Seq<char>,
    swarm_id: Seq<char>,
    k1: BindingKeyView,
    k2: BindingKeyView,
)
    requires
        k1 != k2,
        m.dom().contains(k1),
        m.dom().contains(k2),
        matches_key_swarm(m[k1], key, swarm_id),
        matches_key_swarm(m[k2], key, swarm_id),
        spec_get(m, default_memory_url, key, swarm_id) is None,
    ensures
        spec_find_for_request(m, None, default_memory_url, key, swarm_id) is None,
{
    if has_unique_match(m, key, swarm_id) {
        let k = choose|k: BindingKeyView|
            #![trigger m.dom().contains(k)]
            m.dom().contains(k) && matches_key_swarm(m[k], key, swarm_id) && forall|
                k3: BindingKeyView,
            |
                #![trigger m.dom().contains(k3)]
                m.dom().contains(k3) && matches_key_swarm(m[k3], key, swarm_id) ==> k3 == k;
        assert(k1 == k);
        assert(k2 == k);
    }
}

/// Law: a binding that `find_for_request` finds is stored, and its key and swarm are the
/// trimmed key and swarm asked for; it never answers with a binding for another key or swarm.
pub proof fn law_found_binding_matches_request(
    m: Map<BindingKeyView, RuntimeBindingView>,
    memory_url: Option<Seq<char>>,
    default_memory_url: Seq<char>,
    key: Seq<char>,
    swarm_id: Seq<char>,
)
    requires
        stored_under_identity(m),
    ensures
        spec_find_for_request(m, memory_url, default_memory_url, key, swarm_id) matches Some(b)
            ==> {
            &&& is_stored(m, b)
            &&& b.key == spec_trim(key)
            &&& b.swarm_id == spec_trim(swarm_id)
        },
{
    lemma_get_matches(m, default_memory_url, key, swarm_id);
    if let Some(u) = memory_url {
        lemma_get_matches(m, u, key, swarm_id);
    }
    if has_unique_match(m, key, swarm_id) {
        let k = choose|k: BindingKeyView|
            #![trigger m.dom().contains(k)]
            m.dom().contains(k) && matches_key_swarm(m[k], key, swarm_id) && forall|
                k3: BindingKeyView,
            |
                #![trigger m.dom().contains(k3)]
                m.dom().contains(k3) && matches_key_swarm(m[k3], key, swarm_id) ==> k3 == k;
        assert(m.dom().contains(k));
        assert(is_stored(m, m[k]));
    }
}

proof fn lemma_get_matches(
    m: Map<BindingKeyView, RuntimeBindingView>,
    memory_url: Seq<char>,
    key: Seq<char>,
    swarm_id: Seq<char>,
)
    requires
        stored_under_identity(m),
    ensures
        spec_get(m, memory_url, key, swarm_id) matches Some(b) ==> {
            &&& is_stored(m, b)
            &&& b.key == spec_trim(key)
            &&& b.swarm_id == spec_trim(swarm_id)
        },
{
    if let Ok(k) = spec_key_new(memory_url, key, swarm_id) {
        if m.dom().contains(k) {
            assert(is_stored(m, m[k]));
        }
    }
}

/// The identity a binding is stored under.
pub open spec fn identity_of(b: RuntimeBindingView) -> BindingKeyView {
    spec_identity(b)->Ok_0
}

/// Bindings that `add` keeps as they are: in normal form, with a memory URL that normalises
/// to itself, under distinct identities.
pub open spec fn adds_unchanged(s: Seq<RuntimeBindingView>) -> bool {
    &&& forall|i: int|
        0 <= i < s.len() ==> {
            &&& is_normal_form(#[trigger] s[i])
            &&& spec_normalize_memory_url(s[i].memory_url) == Ok::<Seq<char>, BindingError>(
                s[i].memory_url,
            )
        }
    &&& forall|i: int, j: int|
        0 <= i < s.len() && 0 <= j < s.len() && i != j ==> identity_of(#[trigger] s[i])
            != identity_of(#[trigger] s[j])
}

proof fn lemma_add_all_unchanged(m0: Map<BindingKeyView, RuntimeBindingView>, s: Seq<RuntimeBindingView>)
    requires
        adds_unchanged(s),
    ensures
        spec_add_all(m0, s).1 is None,
        forall|k: BindingKeyView|
            #[trigger] spec_add_all(m0, s).0.dom().contains(k) <==> (m0.dom().contains(k) || exists|
                i: int,
            | 0 <= i < s.len() && identity_of(#[trigger] s[i]) == k),
        forall|i: int| 0 <= i < s.len() ==> spec_add_all(m0, s).0[identity_of(#[trigger] s[i])] == s[i],
        forall|k: BindingKeyView|
            m0.dom().contains(k) && (forall|i: int| 0 <= i < s.len() ==> identity_of(s[i]) != k)
                ==> #[trigger] spec_add_all(m0, s).0[k] == m0[k],
    decreases s.len(),
{
    if s.len() > 0 {
        let b = s[0];
        law_normal_form_is_fixed(b);
        assert(spec_identity(b) is Ok);
        let k0 = identity_of(b);
        let m1 = m0.insert(k0, b);
        let t = s.drop_first();
        assert forall|i: int| 0 <= i < t.len() implies t[i] == s[i + 1] by {}
        assert(adds_unchanged(t)) by {
            assert forall|i: int, j: int|
                0 <= i < t.len() && 0 <= j < t.len() && i != j implies identity_of(#[trigger] t[i])
                != identity_of(#[trigger] t[j]) by {
                assert(t[i] == s[i + 1]);
                assert(t[j] == s[j + 1]);
            }
        }
        lemma_add_all_unchanged(m1, t);
        let r = spec_add_all(m0, s).0;
        assert(r == spec_add_all(m1, t).0);
        assert forall|k: BindingKeyView| #[trigger] r.dom().contains(k) <==> (m0.dom().contains(k)
            || exists|i: int| 0 <= i < s.len() && identity_of(#[trigger] s[i]) == k) by {
            if exists|i: int| 0 <= i < t.len() && identity_of(#[trigger] t[i]) == k {
                let i = choose|i: int| 0 <= i < t.len() && identity_of(#[trigger] t[i]) == k;
                assert(identity_of(s[i + 1]) == k);
            }
            if exists|i: int| 0 <= i < s.len() && identity_of(#[trigger] s[i]) == k {
                let i = choose|i: int| 0 <= i < s.len() && identity_of(#[trigger] s[i]) == k;
                if i > 0 {
                    assert(identity_of(t[i - 1]) == k);
                }
            }
        }
        assert forall|i: int| 0 <= i < s.len() implies r[identity_of(#[trigger] s[i])] == s[i] by {
            if i > 0 {
                assert(t[i - 1] == s[i]);
                assert(spec_add_all(m1, t).0[identity_of(t[i - 1])] == t[i - 1]);
            } else {
                assert forall|j: int| 0 <= j < t.len() implies identity_of(t[j]) != k0 by {
                    assert(t[j] == s[j + 1]);
                    assert(identity_of(s[j + 1]) != identity_of(s[0]));
                }
                assert(m1.dom().contains(k0));
                assert(spec_add_all(m1, t).0[k0] == m1[k0]);
            }
        }
        assert forall|k: BindingKeyView|
            m0.dom().contains(k) && (forall|i: int| 0 <= i < s.len() ==> identity_of(s[i]) != k)
                implies #[trigger] r[k] == m0[k] by {
            assert(identity_of(s[0]) != k);
            assert forall|j: int| 0 <= j < t.len() implies identity_of(t[j]) != k by {
                assert(t[j] == s[j + 1]);
                assert(identity_of(s[j + 1]) != k);
            }
            assert(spec_add_all(m1, t).0[k] == m1[k]);
        }
    }
}

/// Law: adding the listed bindings of a registry to an empty one, in list order, rebuilds
/// it exactly, where every listed memory URL normalises to itself.
pub proof fn law_load_listed_bindings_rebuilds(
    m: Map<BindingKeyView, RuntimeBindingView>,
    s: Seq<RuntimeBindingView>,
)
    requires
        stored_under_identity(m),
        forall|i: int, j: int|
            0 <= i < j < s.len() ==> key_lt(binding_triple(#[trigger] s[i]), binding_triple(#[trigger] s[j])),
        forall|i: int| 0 <= i < s.len() ==> is_stored(m, #[trigger] s[i]),
        forall|k: BindingKeyView|
            #[trigger] m.dom().contains(k) ==> exists|i: int| 0 <= i < s.len() && (#[trigger] s[i]) == m[k],
        forall|i: int|
            0 <= i < s.len() ==> spec_normalize_memory_url((#[trigger] s[i]).memory_url) == Ok::<
                Seq<char>,
                BindingError,
            >(s[i].memory_url),
    ensures
        spec_add_all(Map::empty(), s) == (m, None::<BindingError>),
{
    // Each listed binding sits in `m` under its own identity.
    assert forall|i: int| 0 <= i < s.len() implies m.dom().contains(identity_of(#[trigger] s[i]))
        && m[identity_of(s[i])] == s[i] && is_normal_form(s[i]) by {
        let k = choose|k: BindingKeyView| #[trigger] m.dom().contains(k) && m[k] == s[i];
    }
    assert forall|i: int, j: int|
        0 <= i < s.len() && 0 <= j < s.len() && i != j implies identity_of(#[trigger] s[i])
        != identity_of(#[trigger] s[j]) by {
        assert(m.dom().contains(identity_of(s[i])) && m[identity_of(s[i])] == s[i]);
        assert(m.dom().contains(identity_of(s[j])) && m[identity_of(s[j])] == s[j]);
        lemma_key_lt_irreflexive(binding_triple(s[i]));
    }
    lemma_add_all_unchanged(Map::empty(), s);
    let r = spec_add_all(Map::empty(), s).0;
    assert forall|k: BindingKeyView| #[trigger] r.dom().contains(k) <==> m.dom().contains(k) by {
        if m.dom().contains(k) {
            let i = choose|i: int| 0 <= i < s.len() && (#[trigger] s[i]) == m[k];
            assert(identity_of(s[i]) == k);
        }
        if r.dom().contains(k) {
            let i = choose|i: int| 0 <= i < s.len() && identity_of(#[trigger] s[i]) == k;
            assert(m.dom().contains(identity_of(s[i])));
        }
    }
    assert forall|k: BindingKeyView| #[trigger] r.dom().contains(k) implies r[k] == m[k] by {
        let i = choose|i: int| 0 <= i < s.len() && (#[trigger] s[i]) == m[k];
        assert(identity_of(s[i]) == k);
    }
    assert(r =~= m);
}

/// Law: adding reports a replacement exactly when the registry keeps its size; adding under
/// an identity not yet stored reports none and grows the registry by one binding.
pub proof fn law_add_reports_replacement(m: Map<BindingKeyView, RuntimeBindingView>, b: RuntimeBindingView)
    requires
        m.dom().finite(),
        spec_add(m, b) is Ok,
    ensures
        ({
            let (m2, replaced) = spec_add(m, b)->Ok_0;
            &&& m2.dom().finite()
            &&& replaced ==> m2.dom().len() == m.dom().len()
            &&& !replaced ==> m2.dom().len() == m.dom().len() + 1
            &&& !replaced <==> forall|c: BindingKeyView| #[trigger] m.dom().contains(c) ==> c != identity_of(
                spec_normalize_binding(b)->Ok_0,
            )
        }),
{
    let n = spec_normalize_binding(b)->Ok_0;
    let k = identity_of(n);
    let m2 = spec_add(m, b)->Ok_0.0;
    if m.dom().contains(k) {
        assert(m2.dom() =~= m.dom());
    } else {
        assert(m2.dom() =~= m.dom().insert(k));
    }
}

} // verus!
