//! A state machine that maps sequences of keys to values, as a trie of hash tables.
use std::collections::HashMap;
use std::hash::Hash;
use vstd::prelude::*;
use vstd::std_specs::hash::obeys_key_model;

verus! {

/// Why a binding was refused.
#[derive(Clone, Copy, Debug, PartialEq, Eq, Structural)]
pub enum BindingErrorKind {
    ExtensionAlreadyBound,
    PrefixAlreadyBound,
    Empty,
}

/// One entry of a state's table: the key completes a binding, or leads to another state.
#[derive(Debug)]
enum Entry<V> {
    Done(V),
    NeedMore(usize),
}

/// The tables of a trie, taken by their views.
spec fn tables<K, V>(states: Seq<HashMap<K, Entry<V>>>) -> Seq<Map<K, Entry<V>>> {
    states.map_values(|m: HashMap<K, Entry<V>>| m@)
}

/// The state that `key` leads to from `state`, if it leads to one.
spec fn step<K, V>(t: Seq<Map<K, Entry<V>>>, state: int, key: K) -> Option<int> {
    if 0 <= state < t.len() && t[state].contains_key(key) {
        match t[state][key] {
            Entry::NeedMore(next) => Some(next as int),
            Entry::Done(_) => None,
        }
    } else {
        None
    }
}

/// The state that the keys `s` lead to from the initial state, if they lead to one.
spec fn reach<K, V>(t: Seq<Map<K, Entry<V>>>, s: Seq<K>) -> Option<int>
    decreases s.len(),
{
    if s.len() == 0 {
        Some(0)
    } else {
        match reach(t, s.drop_last()) {
            Some(state) => step(t, state, s.last()),
            None => None,
        }
    }
}

/// The value that the keys `s` are bound to, if they are bound.
spec fn bound_value<K, V>(t: Seq<Map<K, Entry<V>>>, s: Seq<K>) -> Option<V> {
    if s.len() == 0 {
        None
    } else {
        match reach(t, s.drop_last()) {
            Some(state) => if 0 <= state < t.len() && t[state].contains_key(s.last()) {
                match t[state][s.last()] {
                    Entry::Done(v) => Some(v),
                    Entry::NeedMore(_) => None,
                }
            } else {
                None
            },
            None => None,
        }
    }
}

/// The bindings that a trie holds: each bound key sequence and its value.
spec fn bindings_of<K, V>(t: Seq<Map<K, Entry<V>>>) -> Map<Seq<K>, V> {
    Map::new(|s: Seq<K>| bound_value(t, s) is Some, |s: Seq<K>| bound_value(t, s)->0)
}

/// Every edge leads to a later state that exists.
spec fn forward_edges<K, V>(t: Seq<Map<K, Entry<V>>>) -> bool {
    forall|i: int, k: K|
        0 <= i < t.len() && #[trigger] t[i].contains_key(k) && t[i][k] is NeedMore ==> i
            < t[i][k]->NeedMore_0 < t.len()
}

/// No two edges lead to the same state.
spec fn single_parent<K, V>(t: Seq<Map<K, Entry<V>>>) -> bool {
    forall|i1: int, k1: K, i2: int, k2: K|
        #![trigger t[i1][k1], t[i2][k2]]
        0 <= i1 < t.len() && 0 <= i2 < t.len() && t[i1].contains_key(k1) && t[i2].contains_key(
            k2,
        ) && t[i1][k1] is NeedMore && t[i2][k2] == t[i1][k1] ==> i1 == i2 && k1 == k2
}

/// The table has at least one entry.
spec fn has_entry<K, V>(m: Map<K, Entry<V>>) -> bool {
    exists|k: K| m.contains_key(k)
}

/// Every state but the initial one, and but `except`, has an entry.
spec fn nonempty_except<K, V>(t: Seq<Map<K, Entry<V>>>, except: int) -> bool {
    forall|j: int| 1 <= j < t.len() && j != except ==> #[trigger] has_entry(t[j])
}

/// The shape of a trie, without the demand that every state leads somewhere.
spec fn shaped<K, V>(t: Seq<Map<K, Entry<V>>>) -> bool {
    &&& t.len() >= 1
    &&& forward_edges(t)
    &&& single_parent(t)
}

/// A well-formed trie: every state after the initial one leads to at least one binding.
spec fn well_formed<K, V>(t: Seq<Map<K, Entry<V>>>) -> bool {
    &&& shaped(t)
    &&& nonempty_except(t, -1)
}

/// `p` is a prefix of `s`.
pub open spec fn is_prefix<K>(p: Seq<K>, s: Seq<K>) -> bool {
    p.len() <= s.len() && s.take(p.len() as int) == p
}

/// Some binding is `keys` or extends it.
pub open spec fn prefix_of_binding<K, V>(bindings: Map<Seq<K>, V>, keys: Seq<K>) -> bool {
    exists|b: Seq<K>| #[trigger] bindings.contains_key(b) && is_prefix(keys, b)
}

/// Some binding extends `keys` by at least one key.
pub open spec fn proper_prefix_of_binding<K, V>(bindings: Map<Seq<K>, V>, keys: Seq<K>) -> bool {
    exists|b: Seq<K>| #[trigger] bindings.contains_key(b) && is_prefix(keys, b) && keys.len() < b.len()
}

/// A nonempty proper prefix of `keys` is bound.
pub open spec fn has_bound_prefix<K, V>(bindings: Map<Seq<K>, V>, keys: Seq<K>) -> bool {
    exists|i: int| 1 <= i < keys.len() && #[trigger] bindings.contains_key(keys.take(i))
}

/// No binding is a proper prefix of another.
pub open spec fn prefix_free<K, V>(bindings: Map<Seq<K>, V>) -> bool {
    forall|a: Seq<K>, b: Seq<K>|
        #[trigger] bindings.contains_key(a) && #[trigger] bindings.contains_key(b) && is_prefix(
            a,
            b,
        ) ==> a == b
}

/// A builder with `bindings` takes `keys`: they are not empty, no proper prefix of them is bound,
/// and they are neither bound nor a prefix of a bound sequence.
pub open spec fn accepts_binding<K, V>(bindings: Map<Seq<K>, V>, keys: Seq<K>) -> bool {
    keys.len() > 0 && !has_bound_prefix(bindings, keys) && !prefix_of_binding(bindings, keys)
}

/// The answers of a machine with `bindings`, having seen the keys `pending`, to the keys `keys`
/// fed one at a time.
pub open spec fn run<K, V>(bindings: Map<Seq<K>, V>, pending: Seq<K>, keys: Seq<K>) -> Seq<
    InputResult<V>,
>
    decreases keys.len(),
{
    if keys.len() == 0 {
        Seq::empty()
    } else {
        let (answer, next) = input_outcome(bindings, pending, keys[0]);
        seq![answer] + run(bindings, next, keys.drop_first())
    }
}

proof fn lemma_push_drop_last<K>(s: Seq<K>, k: K)
    ensures
        s.push(k).drop_last() == s,
        s.push(k).last() == k,
        s.push(k).len() == s.len() + 1,
{
    assert(s.push(k).drop_last() =~= s);
}

/// Following the keys of `s` then `k` is following `s`, then one step on `k`.
proof fn lemma_reach_push<K, V>(t: Seq<Map<K, Entry<V>>>, s: Seq<K>, k: K)
    ensures
        reach(t, s.push(k)) == match reach(t, s) {
            Some(state) => step(t, state, k),
            None => None,
        },
{
    lemma_push_drop_last(s, k);
}

/// Every state that keys lead to exists.
proof fn lemma_reach_in_bounds<K, V>(t: Seq<Map<K, Entry<V>>>, s: Seq<K>)
    requires
        t.len() >= 1,
        forward_edges(t),
    ensures
        reach(t, s) matches Some(state) ==> 0 <= state < t.len(),
    decreases s.len(),
{
    if s.len() > 0 {
        lemma_reach_in_bounds(t, s.drop_last());
    }
}

/// Keys that lead to a state go through the states of all their prefixes.
proof fn lemma_reach_prefix<K, V>(t: Seq<Map<K, Entry<V>>>, s: Seq<K>, i: int)
    requires
        0 <= i <= s.len(),
        reach(t, s) is Some,
    ensures
        reach(t, s.take(i)) is Some,
    decreases s.len(),
{
    if i < s.len() {
        assert(s.drop_last().take(i) =~= s.take(i));
        lemma_reach_prefix(t, s.drop_last(), i);
    } else {
        assert(s.take(i) =~= s);
    }
}

/// In a trie where no two edges meet, each state is reached by one key sequence at most.
proof fn lemma_reach_injective<K, V>(t: Seq<Map<K, Entry<V>>>, s1: Seq<K>, s2: Seq<K>)
    requires
        shaped(t),
        reach(t, s1) is Some,
        reach(t, s1) == reach(t, s2),
    ensures
        s1 == s2,
    decreases s1.len() + s2.len(),
{
    if s1.len() > 0 {
        lemma_reach_in_bounds(t, s1.drop_last());
    }
    if s2.len() > 0 {
        lemma_reach_in_bounds(t, s2.drop_last());
    }
    if s1.len() > 0 && s2.len() > 0 {
        let i1 = reach(t, s1.drop_last())->0;
        let i2 = reach(t, s2.drop_last())->0;
        assert(t[i1][s1.last()] == t[i2][s2.last()]);
        lemma_reach_injective(t, s1.drop_last(), s2.drop_last());
        assert(s1 =~= s1.drop_last().push(s1.last()));
        assert(s2 =~= s2.drop_last().push(s2.last()));
    } else if s1.len() > 0 {
        let i1 = reach(t, s1.drop_last())->0;
        assert(t[i1].contains_key(s1.last()));
    } else if s2.len() > 0 {
        let i2 = reach(t, s2.drop_last())->0;
        assert(t[i2].contains_key(s2.last()));
    } else {
        assert(s1 =~= s2);
    }
}

/// In a well-formed trie, every state after the initial one lies on the way to a binding.
proof fn lemma_state_leads_to_binding<K, V>(t: Seq<Map<K, Entry<V>>>, p: Seq<K>, state: int)
    requires
        well_formed(t),
        reach(t, p) == Some(state),
        1 <= state,
    ensures
        proper_prefix_of_binding(bindings_of(t), p),
    decreases t.len() - state,
{
    lemma_reach_in_bounds(t, p);
    assert(has_entry(t[state]));
    let k = choose|k: K| t[state].contains_key(k);
    let q = p.push(k);
    lemma_push_drop_last(p, k);
    assert(q.take(p.len() as int) =~= p);
    match t[state][k] {
        Entry::Done(v) => {
            assert(bound_value(t, q) == Some(v));
            assert(bindings_of(t).contains_key(q));
        },
        Entry::NeedMore(next) => {
            assert(reach(t, q) == Some(next as int));
            lemma_state_leads_to_binding(t, q, next as int);
            let b = choose|b: Seq<K>|
                #[trigger] bindings_of(t).contains_key(b) && is_prefix(q, b) && q.len() < b.len();
            assert(b.take(p.len() as int) =~= b.take(q.len() as int).take(p.len() as int));
            assert(bindings_of(t).contains_key(b) && is_prefix(p, b) && p.len() < b.len());
        },
    }
}

/// The bindings of a trie never contain a proper prefix of one another.
proof fn lemma_bindings_prefix_free<K, V>(t: Seq<Map<K, Entry<V>>>)
    ensures
        prefix_free(bindings_of(t)),
{
    assert forall|a: Seq<K>, b: Seq<K>|
        #[trigger] bindings_of(t).contains_key(a) && #[trigger] bindings_of(t).contains_key(b)
            && is_prefix(a, b) implies a == b by {
        if a.len() < b.len() {
            lemma_reach_prefix(t, b.drop_last(), a.len() as int);
            assert(b.drop_last().take(a.len() as int) =~= a);
            lemma_push_drop_last(a.drop_last(), a.last());
            assert(a.drop_last().push(a.last()) =~= a);
        } else {
            assert(b.take(a.len() as int) =~= b);
        }
    }
}

/// The trie with a new edge on `key` from `state` to a new, empty state.
spec fn with_edge<K, V>(t: Seq<Map<K, Entry<V>>>, state: int, key: K) -> Seq<Map<K, Entry<V>>> {
    t.update(state, t[state].insert(key, Entry::NeedMore(t.len() as usize))).push(Map::empty())
}

/// The trie with `key` bound to `value` at `state`.
spec fn with_done<K, V>(t: Seq<Map<K, Entry<V>>>, state: int, key: K, value: V) -> Seq<
    Map<K, Entry<V>>,
> {
    t.update(state, t[state].insert(key, Entry::Done(value)))
}

proof fn lemma_with_edge_reach<K, V>(t: Seq<Map<K, Entry<V>>>, state: int, key: K, s: Seq<K>)
    requires
        shaped(t),
        0 <= state < t.len() < usize::MAX,
        !t[state].contains_key(key),
    ensures
        reach(with_edge(t, state, key), s) == if reach(t, s) is Some {
            reach(t, s)
        } else if s.len() > 0 && reach(t, s.drop_last()) == Some(state) && s.last() == key {
            Some(t.len() as int)
        } else {
            None::<int>
        },
    decreases s.len(),
{
    let t2 = with_edge(t, state, key);
    if s.len() > 0 {
        lemma_with_edge_reach(t, state, key, s.drop_last());
        lemma_reach_in_bounds(t, s.drop_last());
        if s.drop_last().len() > 0 {
            lemma_reach_in_bounds(t, s.drop_last().drop_last());
        }
    }
}

/// Adding an edge to a new, empty state keeps the shape of the trie and its bindings.
proof fn lemma_with_edge<K, V>(t: Seq<Map<K, Entry<V>>>, state: int, key: K)
    requires
        shaped(t),
        0 <= state < t.len() < usize::MAX,
        !t[state].contains_key(key),
        nonempty_except(t, state),
    ensures
        shaped(with_edge(t, state, key)),
        nonempty_except(with_edge(t, state, key), t.len() as int),
        with_edge(t, state, key)[t.len() as int] == Map::<K, Entry<V>>::empty(),
        with_edge(t, state, key).len() == t.len() + 1,
        bindings_of(with_edge(t, state, key)) == bindings_of(t),
        forall|s: Seq<K>|
            #![trigger reach(with_edge(t, state, key), s)]
            reach(t, s) is Some ==> reach(with_edge(t, state, key), s) == reach(t, s),
        forall|s: Seq<K>|
            reach(t, s) == Some(state) ==> #[trigger] reach(with_edge(t, state, key), s.push(key))
                == Some(t.len() as int),
{
    let t2 = with_edge(t, state, key);
    let n = t.len() as int;
    assert forall|i: int, k: K|
        0 <= i < t2.len() && #[trigger] t2[i].contains_key(k) && t2[i][k] is NeedMore implies i
            < t2[i][k]->NeedMore_0 < t2.len() by {
        if i < n && !(i == state && k == key) {
            assert(t[i].contains_key(k) && t2[i][k] == t[i][k]);
        }
    }
    assert forall|i1: int, k1: K, i2: int, k2: K|
        #![trigger t2[i1][k1], t2[i2][k2]]
        0 <= i1 < t2.len() && 0 <= i2 < t2.len() && t2[i1].contains_key(k1) && t2[i2].contains_key(
            k2,
        ) && t2[i1][k1] is NeedMore && t2[i2][k2] == t2[i1][k1] implies i1 == i2 && k1 == k2 by {
        if i1 < n && !(i1 == state && k1 == key) {
            assert(t[i1].contains_key(k1) && t2[i1][k1] == t[i1][k1]);
        }
        if i2 < n && !(i2 == state && k2 == key) {
            assert(t[i2].contains_key(k2) && t2[i2][k2] == t[i2][k2]);
        }
        if i1 < n && !(i1 == state && k1 == key) && i2 < n && !(i2 == state && k2 == key) {
            assert(t[i1][k1] == t[i2][k2]);
        }
    }
    assert forall|j: int| 1 <= j < t2.len() && j != n implies #[trigger] has_entry(t2[j]) by {
        if j == state {
            assert(t2[j].contains_key(key));
        } else {
            assert(has_entry(t[j]));
            let k = choose|k: K| t[j].contains_key(k);
            assert(t2[j].contains_key(k));
        }
    }
    assert forall|s: Seq<K>| #[trigger] bound_value(t2, s) == bound_value(t, s) by {
        if s.len() > 0 {
            lemma_with_edge_reach(t, state, key, s.drop_last());
            lemma_reach_in_bounds(t, s.drop_last());
            if s.drop_last().len() > 0 {
                lemma_reach_in_bounds(t, s.drop_last().drop_last());
            }
        }
    }
    assert(bindings_of(t2) =~= bindings_of(t));
    assert forall|s: Seq<K>| reach(t, s) is Some implies #[trigger] reach(t2, s) == reach(t, s) by {
        lemma_with_edge_reach(t, state, key, s);
    }
    assert forall|s: Seq<K>| reach(t, s) == Some(state) implies #[trigger] reach(t2, s.push(key))
        == Some(n) by {
        lemma_with_edge_reach(t, state, key, s.push(key));
        lemma_push_drop_last(s, key);
        lemma_reach_push(t, s, key);
    }
}

proof fn lemma_with_done_reach<K, V>(
    t: Seq<Map<K, Entry<V>>>,
    state: int,
    key: K,
    value: V,
    s: Seq<K>,
)
    requires
        0 <= state < t.len(),
        !t[state].contains_key(key),
    ensures
        reach(with_done(t, state, key, value), s) == reach(t, s),
    decreases s.len(),
{
    if s.len() > 0 {
        lemma_with_done_reach(t, state, key, value, s.drop_last());
        let t2 = with_done(t, state, key, value);
        if let Some(j) = reach(t, s.drop_last()) {
            if 0 <= j < t.len() && j == state && s.last() != key {
                assert(t2[j].contains_key(s.last()) == t[j].contains_key(s.last()));
            }
            assert(step(t2, j, s.last()) == step(t, j, s.last()));
        }
    }
}

/// Binding a new key at the state that `keys` lead to adds exactly that binding.
proof fn lemma_with_done<K, V>(
    t: Seq<Map<K, Entry<V>>>,
    state: int,
    key: K,
    value: V,
    keys: Seq<K>,
)
    requires
        shaped(t),
        0 <= state < t.len(),
        !t[state].contains_key(key),
        nonempty_except(t, state),
        keys.len() > 0,
        reach(t, keys.drop_last()) == Some(state),
        keys.last() == key,
    ensures
        well_formed(with_done(t, state, key, value)),
        bindings_of(with_done(t, state, key, value)) == bindings_of(t).insert(keys, value),
{
    let t2 = with_done(t, state, key, value);
    assert forall|i: int, k: K|
        0 <= i < t2.len() && #[trigger] t2[i].contains_key(k) && t2[i][k] is NeedMore implies i
            < t2[i][k]->NeedMore_0 < t2.len() by {
        assert(t[i].contains_key(k) && t2[i][k] == t[i][k]);
    }
    assert forall|i1: int, k1: K, i2: int, k2: K|
        #![trigger t2[i1][k1], t2[i2][k2]]
        0 <= i1 < t2.len() && 0 <= i2 < t2.len() && t2[i1].contains_key(k1) && t2[i2].contains_key(
            k2,
        ) && t2[i1][k1] is NeedMore && t2[i2][k2] == t2[i1][k1] implies i1 == i2 && k1 == k2 by {
        assert(t[i1].contains_key(k1) && t2[i1][k1] == t[i1][k1]);
        assert(t[i2].contains_key(k2) && t2[i2][k2] == t[i2][k2]);
    }
    assert forall|j: int| 1 <= j < t2.len() && j != -1 implies #[trigger] has_entry(t2[j]) by {
        if j == state {
            assert(t2[j].contains_key(key));
        } else {
            assert(has_entry(t[j]));
            let k = choose|k: K| t[j].contains_key(k);
            assert(t2[j].contains_key(k));
        }
    }
    assert forall|s: Seq<K>| #[trigger]
        bound_value(t2, s) == if s == keys {
            Some(value)
        } else {
            bound_value(t, s)
        } by {
        if s.len() > 0 {
            lemma_with_done_reach(t, state, key, value, s.drop_last());
            lemma_reach_in_bounds(t, s.drop_last());
            if reach(t, s.drop_last()) == Some(state) && s.last() == key {
                lemma_reach_injective(t, s.drop_last(), keys.drop_last());
                assert(s =~= s.drop_last().push(s.last()));
                assert(keys =~= keys.drop_last().push(keys.last()));
            }
        }
    }
    assert(bindings_of(t2) =~= bindings_of(t).insert(keys, value));
}

/// What looking a key up in one state's table finds.
enum Lookup {
    Absent,
    Next(usize),
    Bound,
}

/// Looks `key` up in one state's table.
fn look_up<K: Eq + Hash, V>(table: &HashMap<K, Entry<V>>, key: &K) -> (r: Lookup)
    requires
        obeys_key_model::<K>(),
    ensures
        r is Absent <==> !table@.contains_key(*key),
        r matches Lookup::Next(n) ==> table@.contains_key(*key) && table@[*key] == Entry::<V>::NeedMore(n),
        r is Bound ==> table@.contains_key(*key) && table@[*key] is Done,
{
    match table.get(key) {
        None => Lookup::Absent,
        Some(Entry::NeedMore(next_state)) => Lookup::Next(*next_state),
        Some(Entry::Done(_)) => Lookup::Bound,
    }
}

/// A binding that was refused, with the builder it was offered to, unchanged.
#[derive(Debug)]
pub struct BindingError<K, V> {
    kind: BindingErrorKind,
    builder: Builder<K, V>,
}

impl<K, V> BindingError<K, V> {
    /// Why the binding was refused.
    pub closed spec fn reason(&self) -> BindingErrorKind {
        self.kind
    }

    /// The builder that refused the binding.
    pub closed spec fn refused_by(&self) -> Builder<K, V> {
        self.builder
    }

    pub fn kind(&self) -> (r: BindingErrorKind)
        ensures
            r == self.reason(),
    {
        self.kind
    }

    /// Gives the builder back, to go on binding.
    pub fn into_builder(self) -> (r: Builder<K, V>)
        ensures
            r == self.refused_by(),
    {
        self.builder
    }
}

impl BindingErrorKind {
    /// What went wrong, in words.
    pub fn message(&self) -> (r: &'static str)
        ensures
            r@ == match self {
                BindingErrorKind::ExtensionAlreadyBound => "extension of binding already bound"@,
                BindingErrorKind::PrefixAlreadyBound => "prefix of binding already bound"@,
                BindingErrorKind::Empty => "attempt to bind an empty key sequence"@,
            },
    {
        match self {
            BindingErrorKind::ExtensionAlreadyBound => "extension of binding already bound",
            BindingErrorKind::PrefixAlreadyBound => "prefix of binding already bound",
            BindingErrorKind::Empty => "attempt to bind an empty key sequence",
        }
    }
}

/// Recognizes bound key sequences, one key at a time.
pub struct InputStateMachine<K, V> {
    states: Vec<HashMap<K, Entry<V>>>,
    current_state: usize,
    pending: Ghost<Seq<K>>,
}

/// What one key of input completes.
#[derive(Debug, PartialEq, Eq)]
pub enum InputResult<V> {
    Done(V),
    NeedMore,
    Invalid,
}

/// What a machine with `bindings`, having seen the keys `pending`, answers to `key`, and the
/// keys it has seen afterwards: the value of a binding that the keys complete; a request for
/// more keys while they are on the way to a binding; otherwise, a refusal. A completed or
/// refused sequence starts over.
pub open spec fn input_outcome<K, V>(bindings: Map<Seq<K>, V>, pending: Seq<K>, key: K) -> (
    InputResult<V>,
    Seq<K>,
) {
    let p = pending.push(key);
    if bindings.contains_key(p) {
        (InputResult::Done(bindings[p]), Seq::empty())
    } else if proper_prefix_of_binding(bindings, p) {
        (InputResult::NeedMore, p)
    } else {
        (InputResult::Invalid, Seq::empty())
    }
}

impl<K, V> InputStateMachine<K, V> {
    /// The bound key sequences and their values.
    pub closed spec fn bindings(&self) -> Map<Seq<K>, V> {
        bindings_of(tables(self.states@))
    }

    /// The keys seen since the last completed or refused sequence.
    pub closed spec fn pending(&self) -> Seq<K> {
        self.pending@
    }

    pub closed spec fn wf(&self) -> bool {
        &&& well_formed(tables(self.states@))
        &&& reach(tables(self.states@), self.pending@) == Some(self.current_state as int)
    }

    /// Forgets the keys seen so far.
    pub fn reset(&mut self)
        requires
            old(self).wf(),
        ensures
            final(self).wf(),
            final(self).bindings() == old(self).bindings(),
            final(self).pending() == Seq::<K>::empty(),
    {
        self.current_state = 0;
        self.pending = Ghost(Seq::empty());
    }
}

impl<K, V> InputStateMachine<K, V> where K: Eq + Hash, V: Clone {
    pub fn input(&mut self, key: K) -> (r: InputResult<V>)
        requires
            old(self).wf(),
            obeys_key_model::<K>(),
        ensures
            final(self).wf(),
            final(self).bindings() == old(self).bindings(),
            final(self).pending() == input_outcome(old(self).bindings(), old(self).pending(), key).1,
            match input_outcome(old(self).bindings(), old(self).pending(), key).0 {
                InputResult::Done(v) => r matches InputResult::Done(w) && cloned(v, w),
                other => r == other,
            },
    {
        let ghost t = tables(self.states@);
        let ghost p = self.pending@.push(key);
        proof {
            lemma_reach_in_bounds(t, self.pending@);
            lemma_push_drop_last(self.pending@, key);
            lemma_reach_push(t, self.pending@, key);
            assert(t[self.current_state as int] == self.states@[self.current_state as int]@);
        }
        match self.states[self.current_state].get(&key) {
            None => {
                proof {
                    assert forall|b: Seq<K>|
                        #[trigger] bindings_of(t).contains_key(b) && is_prefix(p, b) && p.len()
                            < b.len() implies false by {
                        lemma_reach_prefix(t, b.drop_last(), p.len() as int);
                        assert(b.drop_last().take(p.len() as int) =~= p);
                    }
                }
                self.current_state = 0;
                self.pending = Ghost(Seq::empty());
                InputResult::Invalid
            },
            Some(Entry::Done(value)) => {
                self.current_state = 0;
                self.pending = Ghost(Seq::empty());
                InputResult::Done(value.clone())
            },
            Some(Entry::NeedMore(next_state)) => {
                proof {
                    lemma_state_leads_to_binding(t, p, *next_state as int);
                }
                self.current_state = *next_state;
                self.pending = Ghost(p);
                InputResult::NeedMore
            },
        }
    }
}

/// Builds an input state machine, one binding at a time.
#[derive(Debug)]
pub struct Builder<K, V>(Vec<HashMap<K, Entry<V>>>);

impl<K, V> View for Builder<K, V> {
    type V = Map<Seq<K>, V>;

    closed spec fn view(&self) -> Map<Seq<K>, V> {
        bindings_of(tables(self.0@))
    }
}

impl<K, V> Builder<K, V> {
    pub closed spec fn wf(&self) -> bool {
        well_formed(tables(self.0@))
    }

    /// The number of states the machine has grown to.
    pub closed spec fn num_states(&self) -> nat {
        self.0@.len()
    }
}

impl<K, V> Default for Builder<K, V> {
    fn default() -> (b: Self)
        ensures
            b.wf(),
            b@ == Map::<Seq<K>, V>::empty(),
            b.num_states() == 1,
    {
        let b = Builder(vec![HashMap::default()]);
        proof {
            let t = tables(b.0@);
            assert(t.len() == 1 && t[0] == Map::<K, Entry<V>>::empty());
            assert forall|s: Seq<K>| !(#[trigger] bindings_of(t).contains_key(s)) by {
                if s.len() > 0 {
                    lemma_reach_in_bounds(t, s.drop_last());
                }
            }
            assert(bindings_of(t) =~= Map::<Seq<K>, V>::empty());
        }
        b
    }
}

impl<K, V> Builder<K, V> where K: Eq + Hash, V: Clone {
    /// Binds the key sequence `keys` to `value`. The binding is refused when `keys` is empty,
    /// when a proper prefix of it is already bound, or else when it is bound already or is a
    /// proper prefix of a bound sequence; the error carries the builder back unchanged.
    pub fn binding(self, keys: Vec<K>, value: V) -> (r: Result<Self, BindingError<K, V>>)
        requires
            self.wf(),
            obeys_key_model::<K>(),
        ensures
            r is Ok <==> accepts_binding(self@, keys@),
            r matches Ok(b) ==> b.wf() && b@ == self@.insert(keys@, value) && b.num_states()
                <= self.num_states() + keys@.len(),
            r matches Err(e) ==> e.refused_by().wf() && e.refused_by()@ == self@
                && e.refused_by().num_states() == self.num_states() && e.reason() == if keys@.len()
                == 0 {
                BindingErrorKind::Empty
            } else if has_bound_prefix(self@, keys@) {
                BindingErrorKind::PrefixAlreadyBound
            } else {
                BindingErrorKind::ExtensionAlreadyBound
            },
    {
        let ghost old_self = self;
        let ghost all_keys = keys@;
        let ghost t0 = tables(self.0@);
        let num_keys = keys.len();
        if num_keys == 0 {
            return Err(BindingError { kind: BindingErrorKind::Empty, builder: self });
        }
        let Builder(mut states) = self;
        let mut rest = keys;
        let mut state: usize = 0;
        let ghost mut fresh = false;
        let mut i: usize = 0;
        proof {
            assert(all_keys.take(0) =~= Seq::<K>::empty());
        }
        while i < num_keys - 1
            invariant
                obeys_key_model::<K>(),
                num_keys == all_keys.len() > 0,
                i <= num_keys - 1,
                rest@ == all_keys.skip(i as int),
                keys@ == all_keys,
                shaped(tables(states@)),
                0 <= state < states@.len(),
                reach(tables(states@), all_keys.take(i as int)) == Some(state as int),
                bindings_of(tables(states@)) == bindings_of(t0),
                states@.len() <= t0.len() + i,
                forall|j: int| 1 <= j <= i ==> !(#[trigger] bindings_of(t0).contains_key(all_keys.take(j))),
                fresh ==> state == states@.len() - 1 && tables(states@)[state as int]
                    == Map::<K, Entry<V>>::empty() && nonempty_except(tables(states@), state as int)
                    && reach(t0, all_keys.take(i as int)) is None,
                !fresh ==> states@ == old_self.0@,
                well_formed(t0),
                t0 == tables(old_self.0@),
                old_self.wf(),
                old_self == self,
            decreases num_keys - 1 - i,
        {
            let ghost t = tables(states@);
            let ghost prefix = all_keys.take(i as int);
            let key = rest.remove(0);
            proof {
                assert(key == all_keys[i as int]);
                assert(all_keys.take(i + 1) =~= prefix.push(key));
                assert(rest@ =~= all_keys.skip(i + 1));
                lemma_reach_push(t, prefix, key);
                lemma_reach_push(t0, prefix, key);
                assert(t[state as int] == states@[state as int]@);
            }
            match look_up(&states[state], &key) {
                Lookup::Absent => {
                    let next_state = states.len();
                    states[state].insert(key, Entry::NeedMore(next_state));
                    states.push(HashMap::new());
                    proof {
                        assert(states.len() == t.len() + 1);
                        assert(tables(states@) =~= with_edge(t, state as int, key));
                        lemma_with_edge(t, state as int, key);
                        if !fresh {
                            assert(t == t0);
                        }
                        fresh = true;
                    }
                    state = next_state;
                },
                Lookup::Next(next_state) => {
                    proof {
                        if fresh {
                            assert(!t[state as int].contains_key(key));
                        }
                        lemma_reach_in_bounds(t, prefix.push(key));
                    }
                    state = next_state;
                },
                Lookup::Bound => {
                    proof {
                        if fresh {
                            assert(!t[state as int].contains_key(key));
                        }
                        assert(t == t0);
                        lemma_push_drop_last(prefix, key);
                        assert(bound_value(t0, all_keys.take(i + 1)) is Some);
                        assert(bindings_of(t0).contains_key(all_keys.take(i + 1)));
                        assert(old_self@.contains_key(all_keys.take(i + 1)));
                        assert(has_bound_prefix(old_self@, all_keys));
                        assert(states@ =~= old_self.0@);
                    }
                    return Err(
                        BindingError {
                            kind: BindingErrorKind::PrefixAlreadyBound,
                            builder: Builder(states),
                        },
                    );
                },
            }
            i += 1;
        }
        let ghost t = tables(states@);
        let ghost prefix = all_keys.take(i as int);
        let key = rest.remove(0);
        proof {
            assert(key == all_keys[i as int]);
            assert(all_keys =~= prefix.push(key));
            lemma_push_drop_last(prefix, key);
            lemma_reach_push(t0, prefix, key);
            assert(t[state as int] == states@[state as int]@);
            assert(!has_bound_prefix(old_self@, all_keys)) by {
                if has_bound_prefix(old_self@, all_keys) {
                    let j = choose|j: int|
                        1 <= j < all_keys.len() && #[trigger] old_self@.contains_key(all_keys.take(j));
                    assert(!bindings_of(t0).contains_key(all_keys.take(j)));
                }
            }
        }
        match look_up(&states[state], &key) {
            Lookup::Absent => {
                states[state].insert(key, Entry::Done(value));
                proof {
                    assert(tables(states@) =~= with_done(t, state as int, key, value));
                    if !fresh {
                        assert(t == t0);
                        assert(nonempty_except(t, state as int));
                    }
                    lemma_with_done(t, state as int, key, value, all_keys);
                    assert forall|b: Seq<K>| #[trigger]
                        bindings_of(t0).contains_key(b) && is_prefix(all_keys, b) implies false by {
                        if b.len() > all_keys.len() {
                            lemma_reach_prefix(t0, b.drop_last(), all_keys.len() as int);
                            assert(b.drop_last().take(all_keys.len() as int) =~= all_keys);
                        } else {
                            assert(b.take(all_keys.len() as int) =~= b);
                        }
                    }
                }
                Ok(Builder(states))
            },
            Lookup::Next(next_state) => {
                proof {
                    if fresh {
                        assert(!t[state as int].contains_key(key));
                    }
                    assert(t == t0);
                    lemma_reach_in_bounds(t0, all_keys);
                    lemma_state_leads_to_binding(t0, all_keys, next_state as int);
                    let b = choose|b: Seq<K>|
                        #[trigger] bindings_of(t0).contains_key(b) && is_prefix(all_keys, b)
                            && all_keys.len() < b.len();
                    assert(states@ =~= old_self.0@);
                }
                Err(
                    BindingError {
                        kind: BindingErrorKind::ExtensionAlreadyBound,
                        builder: Builder(states),
                    },
                )
            },
            Lookup::Bound => {
                proof {
                    if fresh {
                        assert(!t[state as int].contains_key(key));
                    }
                    assert(t == t0);
                    assert(bound_value(t0, all_keys) is Some);
                    assert(bindings_of(t0).contains_key(all_keys));
                    assert(all_keys.take(all_keys.len() as int) =~= all_keys);
                    assert(states@ =~= old_self.0@);
                }
                Err(
                    BindingError {
                        kind: BindingErrorKind::ExtensionAlreadyBound,
                        builder: Builder(states),
                    },
                )
            },
        }
    }

    /// The machine that recognizes the bindings made so far.
    pub fn build(self) -> (m: InputStateMachine<K, V>)
        requires
            self.wf(),
        ensures
            m.wf(),
            m.bindings() == self@,
            m.pending() == Seq::<K>::empty(),
    {
        InputStateMachine { states: self.0, current_state: 0, pending: Ghost(Seq::empty()) }
    }
}

/// No binding of a well-formed builder is a proper prefix of another.
pub proof fn lemma_builder_prefix_free<K, V>(b: Builder<K, V>)
    ensures
        prefix_free(b@),
{
    lemma_bindings_prefix_free(tables(b.0@));
}

/// No binding of a machine is a proper prefix of another.
pub proof fn lemma_machine_prefix_free<K, V>(m: InputStateMachine<K, V>)
    ensures
        prefix_free(m.bindings()),
{
    lemma_bindings_prefix_free(tables(m.states@));
}

/// Fed one at a time, from the start, the keys of a binding are each answered with a request for
/// more, until the last one, which gives the bound value and starts over.
pub proof fn lemma_binding_recognized<K, V>(bindings: Map<Seq<K>, V>, keys: Seq<K>, i: int)
    requires
        prefix_free(bindings),
        bindings.contains_key(keys),
        0 <= i < keys.len(),
    ensures
        input_outcome(bindings, keys.take(i), keys[i]) == if i + 1 < keys.len() {
            (InputResult::<V>::NeedMore, keys.take(i + 1))
        } else {
            (InputResult::Done(bindings[keys]), Seq::<K>::empty())
        },
{
    let p = keys.take(i).push(keys[i]);
    assert(p =~= keys.take(i + 1));
    assert(keys.take(i + 1).take(i + 1) =~= keys.take(i + 1));
    assert(keys.take(p.len() as int) =~= p);
    if i + 1 < keys.len() {
        if bindings.contains_key(p) {
            assert(is_prefix(p, keys));
        }
        assert(bindings.contains_key(keys) && is_prefix(p, keys) && p.len() < keys.len());
    } else {
        assert(p =~= keys);
    }
}

/// The empty key sequence is never bound, in any builder.
pub proof fn lemma_builder_no_empty_binding<K, V>(b: Builder<K, V>)
    ensures
        !b@.contains_key(Seq::<K>::empty()),
{
}

/// The empty key sequence is never bound, in any machine.
pub proof fn lemma_machine_no_empty_binding<K, V>(m: InputStateMachine<K, V>)
    ensures
        !m.bindings().contains_key(Seq::<K>::empty()),
{
}

/// Two bindings that are taken one after the other are taken in the other order too, and give the
/// same bindings, so the machines built from them answer every sequence of keys alike.
pub proof fn lemma_binding_order_irrelevant<K, V>(
    bindings: Map<Seq<K>, V>,
    keys1: Seq<K>,
    value1: V,
    keys2: Seq<K>,
    value2: V,
)
    requires
        accepts_binding(bindings, keys1),
        accepts_binding(bindings.insert(keys1, value1), keys2),
    ensures
        accepts_binding(bindings, keys2),
        accepts_binding(bindings.insert(keys2, value2), keys1),
        bindings.insert(keys1, value1).insert(keys2, value2) == bindings.insert(
            keys2,
            value2,
        ).insert(keys1, value1),
        forall|keys: Seq<K>|
            #![trigger run(bindings.insert(keys1, value1).insert(keys2, value2), Seq::<K>::empty(), keys)]
            run(bindings.insert(keys1, value1).insert(keys2, value2), Seq::<K>::empty(), keys)
                == run(bindings.insert(keys2, value2).insert(keys1, value1), Seq::<K>::empty(), keys),
{
    let b1 = bindings.insert(keys1, value1);
    let b2 = bindings.insert(keys2, value2);
    // The second sequence is neither the first, nor a prefix of it, nor extends it.
    assert(b1.contains_key(keys1));
    assert(keys2.take(keys2.len() as int) =~= keys2);
    assert(keys1.take(keys1.len() as int) =~= keys1);
    if is_prefix(keys2, keys1) {
        assert(b1.contains_key(keys1) && is_prefix(keys2, keys1));
    }
    if is_prefix(keys1, keys2) {
        if keys1.len() < keys2.len() {
            assert(b1.contains_key(keys2.take(keys1.len() as int)));
        } else {
            assert(keys1 =~= keys2);
        }
    }
    assert(keys1 != keys2);
    assert(!is_prefix(keys2, keys1));
    assert(!is_prefix(keys1, keys2));
    // Taken first, the second sequence meets only the bindings that were there before.
    if has_bound_prefix(bindings, keys2) {
        let i = choose|i: int| 1 <= i < keys2.len() && #[trigger] bindings.contains_key(keys2.take(i));
        assert(b1.contains_key(keys2.take(i)));
    }
    if prefix_of_binding(bindings, keys2) {
        let b = choose|b: Seq<K>| #[trigger] bindings.contains_key(b) && is_prefix(keys2, b);
        assert(b1.contains_key(b));
    }
    // Taken second, the first sequence meets the second one only where it did before.
    if has_bound_prefix(b2, keys1) {
        let i = choose|i: int| 1 <= i < keys1.len() && #[trigger] b2.contains_key(keys1.take(i));
        if keys1.take(i) == keys2 {
            assert(keys1.take(keys2.len() as int) == keys2);
            assert(is_prefix(keys2, keys1));
        } else {
            assert(bindings.contains_key(keys1.take(i)));
        }
    }
    if prefix_of_binding(b2, keys1) {
        let b = choose|b: Seq<K>| #[trigger] b2.contains_key(b) && is_prefix(keys1, b);
        if b == keys2 {
            assert(is_prefix(keys1, keys2));
        } else {
            assert(bindings.contains_key(b));
        }
    }
    assert(b1.insert(keys2, value2) =~= b2.insert(keys1, value1));
}

/// A key that completes or refuses a sequence leaves the machine as a fresh one: it has no keys
/// pending, and answers every following sequence of keys as a fresh machine does.
pub proof fn lemma_starts_over<K, V>(bindings: Map<Seq<K>, V>, pending: Seq<K>, key: K, keys: Seq<K>)
    requires
        input_outcome(bindings, pending, key).0 matches InputResult::Done(_)
            || input_outcome(bindings, pending, key).0 matches InputResult::Invalid,
    ensures
        input_outcome(bindings, pending, key).1 == Seq::<K>::empty(),
        run(bindings, input_outcome(bindings, pending, key).1, keys) == run(
            bindings,
            Seq::<K>::empty(),
            keys,
        ),
{
}

} // verus!
