//! Registries keyed by connection token or by (group, topic).
use vstd::prelude::*;
use vstd::string::*;
use std::collections::HashMap;
use rand::seq::IndexedRandom;

use crate::keyed::{
    keys_unique, lemma_map_domain, lemma_map_index, lemma_map_push, lemma_map_remove,
    lemma_map_update, seq_to_map,
};

verus! {

broadcast use vstd::std_specs::hash::group_hash_axioms;

/// A (group id, topic) pair as the contracts see it.
pub type RouteView = (Seq<char>, Seq<char>);

pub open spec fn route_view(r: (String, String)) -> RouteView {
    (r.0@, r.1@)
}

fn strings_equal(a: &String, b: &String) -> (r: bool)
    ensures
        r == (a@ == b@),
{
    *a == *b
}

fn route_equal(a: &(String, String), b: &(String, String)) -> (r: bool)
    ensures
        r == (route_view(*a) == route_view(*b)),
{
    strings_equal(&a.0, &b.0) && strings_equal(&a.1, &b.1)
}

fn route_copy(a: &(String, String)) -> (r: (String, String))
    ensures
        route_view(r) == route_view(*a),
{
    (a.0.clone(), a.1.clone())
}

pub open spec fn bind_view(e: (u64, (String, String))) -> (u64, RouteView) {
    (e.0, route_view(e.1))
}

pub open spec fn bind_key() -> spec_fn((u64, RouteView)) -> u64 {
    |e: (u64, RouteView)| e.0
}

/// The tokens of the entries bound to `v`, in table order.
pub open spec fn keys_with_value(s: Seq<(u64, RouteView)>, v: RouteView) -> Seq<u64>
    decreases s.len(),
{
    if s.len() == 0 {
        Seq::empty()
    } else if s.last().1 == v {
        keys_with_value(s.drop_last(), v).push(s.last().0)
    } else {
        keys_with_value(s.drop_last(), v)
    }
}

proof fn lemma_keys_with_value(s: Seq<(u64, RouteView)>, v: RouteView, k: u64)
    ensures
        keys_with_value(s, v).contains(k) <==> exists|i: int|
            0 <= i < s.len() && s[i].0 == k && s[i].1 == v,
    decreases s.len(),
{
    if s.len() > 0 {
        let p = s.drop_last();
        lemma_keys_with_value(p, v, k);
        if keys_with_value(s, v).contains(k) {
            if s.last().1 == v && s.last().0 == k {
                assert(s[s.len() - 1].0 == k);
            } else {
                if s.last().1 == v {
                    let j = choose|j: int| 0 <= j < keys_with_value(s, v).len() && keys_with_value(s, v)[j] == k;
                    assert(keys_with_value(p, v)[j] == k);
                }
                let i = choose|i: int| 0 <= i < p.len() && p[i].0 == k && p[i].1 == v;
                assert(s[i] == p[i]);
            }
        }
        if exists|i: int| 0 <= i < s.len() && s[i].0 == k && s[i].1 == v {
            let i = choose|i: int| 0 <= i < s.len() && s[i].0 == k && s[i].1 == v;
            if i == s.len() - 1 {
                assert(keys_with_value(s, v).last() == k);
            } else {
                assert(p[i] == s[i]);
                let j = choose|j: int| 0 <= j < keys_with_value(p, v).len() && keys_with_value(p, v)[j] == k;
                if s.last().1 == v {
                    assert(keys_with_value(s, v)[j] == k);
                }
            }
        }
    }
}

proof fn lemma_keys_with_value_distinct(s: Seq<(u64, RouteView)>, v: RouteView)
    requires
        keys_unique(s, bind_key()),
    ensures
        keys_with_value(s, v).no_duplicates(),
    decreases s.len(),
{
    if s.len() > 0 {
        let p = s.drop_last();
        assert(keys_unique(p, bind_key())) by {
            assert forall|a: int, b: int| 0 <= a < b < p.len() implies (bind_key())(
                #[trigger] p[a],
            ) != (bind_key())(#[trigger] p[b]) by {
                assert(p[a] == s[a] && p[b] == s[b]);
            }
        }
        lemma_keys_with_value_distinct(p, v);
        if s.last().1 == v {
            let k = s.last().0;
            lemma_keys_with_value(p, v, k);
            if keys_with_value(p, v).contains(k) {
                let i = choose|i: int| 0 <= i < p.len() && p[i].0 == k && p[i].1 == v;
                assert(s[i] == p[i]);
                assert((bind_key())(s[i]) == (bind_key())(s[s.len() - 1]));
            }
            let q = keys_with_value(p, v);
            assert forall|a: int, b: int| 0 <= a < q.push(k).len() && 0 <= b < q.push(k).len() && a
                != b implies q.push(k)[a] != q.push(k)[b] by {
                if b == q.len() {
                    assert(q[a] == q.push(k)[a]);
                } else if a == q.len() {
                    assert(q[b] == q.push(k)[b]);
                }
            }
        }
    }
}

/// The tokens of the entries of `entries` whose binding equals `value`, in
/// table order.
pub fn get_keys_for_value(entries: &Vec<(u64, (String, String))>, value: &(String, String)) -> (r:
    Vec<u64>)
    ensures
        r@ == keys_with_value(entries@.map_values(|e| bind_view(e)), route_view(*value)),
{
    let ghost s = entries@.map_values(|e| bind_view(e));
    let mut keys: Vec<u64> = Vec::new();
    let mut i: usize = 0;
    while i < entries.len()
        invariant
            i <= entries@.len(),
            s == entries@.map_values(|e| bind_view(e)),
            keys@ == keys_with_value(s.subrange(0, i as int), route_view(*value)),
        decreases entries@.len() - i,
    {
        assert(s.subrange(0, i + 1).drop_last() =~= s.subrange(0, i as int));
        if route_equal(&entries[i].1, value) {
            keys.push(entries[i].0);
        }
        i = i + 1;
    }
    assert(s.subrange(0, i as int) =~= s);
    keys
}

/// Relies on rand's `IndexedRandom::choose` over the thread-local generator:
/// `None` for an empty list, otherwise one of its elements.
#[verifier::external_body]
fn choose_token(tokens: &Vec<u64>) -> (r: Option<u64>)
    ensures
        r is None <==> tokens@.len() == 0,
        r matches Some(t) ==> tokens@.contains(t),
{
    tokens.choose(&mut rand::rng()).copied()
}

/// The binding of each connection token to the (group id, topic) it takes
/// part in; a token is bound to at most one pair.
pub struct ConnectionPoolAndGroupBind {
    binds: Vec<(u64, (String, String))>,
}

impl ConnectionPoolAndGroupBind {
    pub closed spec fn entries(&self) -> Seq<(u64, RouteView)> {
        self.binds@.map_values(|e| bind_view(e))
    }

    pub closed spec fn wf(&self) -> bool {
        keys_unique(self.entries(), bind_key())
    }
}

impl View for ConnectionPoolAndGroupBind {
    type V = Map<u64, (u64, RouteView)>;

    /// Token to its entry.
    open spec fn view(&self) -> Map<u64, (u64, RouteView)> {
        seq_to_map(self.entries(), bind_key())
    }
}

impl ConnectionPoolAndGroupBind {
    pub fn new() -> (r: Self)
        ensures
            r.wf(),
            r@ == Map::<u64, (u64, RouteView)>::empty(),
    {
        let r = ConnectionPoolAndGroupBind { binds: Vec::new() };
        assert(r.entries() =~= Seq::<(u64, RouteView)>::empty());
        r
    }

    fn find(&self, k: u64) -> (r: Option<usize>)
        requires
            self.wf(),
        ensures
            r matches Some(i) ==> i < self.binds@.len() && self.binds@[i as int].0 == k,
            r is None ==> !self@.contains_key(k),
    {
        let mut i: usize = 0;
        while i < self.binds.len()
            invariant
                i <= self.binds@.len(),
                forall|j: int| 0 <= j < i ==> self.binds@[j].0 != k,
            decreases self.binds@.len() - i,
        {
            if self.binds[i].0 == k {
                return Some(i);
            }
            i = i + 1;
        }
        proof {
            lemma_map_domain(self.entries(), bind_key(), k);
        }
        None
    }

    /// Binds token `k` to the pair `v`, replacing any earlier binding of `k`.
    pub fn insert(&mut self, k: u64, v: (String, String))
        requires
            old(self).wf(),
        ensures
            final(self).wf(),
            final(self)@ == old(self)@.insert(k, (k, route_view(v))),
    {
        let ghost e = (k, route_view(v));
        match self.find(k) {
            Some(i) => {
                proof {
                    assert(self.entries()[i as int].0 == k);
                    lemma_map_update(self.entries(), bind_key(), i as int, e);
                }
                self.binds.set(i, (k, v));
                assert(self.entries() =~= old(self).entries().update(i as int, e));
            },
            None => {
                proof {
                    lemma_map_push(self.entries(), bind_key(), e);
                }
                self.binds.push((k, v));
                assert(self.entries() =~= old(self).entries().push(e));
            },
        }
    }

    /// Removes the binding of token `k`, if there is one.
    pub fn remove(&mut self, k: u64)
        requires
            old(self).wf(),
        ensures
            final(self).wf(),
            final(self)@ == old(self)@.remove(k),
    {
        match self.find(k) {
            Some(i) => {
                proof {
                    lemma_map_remove(self.entries(), bind_key(), i as int);
                }
                self.binds.remove(i);
                assert(self.entries() =~= old(self).entries().remove(i as int));
            },
            None => {
                assert(self@ =~= old(self)@.remove(k));
            },
        }
    }

    /// The pair token `k` is bound to.
    pub fn get(&self, k: u64) -> (r: Option<(String, String)>)
        requires
            self.wf(),
        ensures
            r is None <==> !self@.contains_key(k),
            r matches Some(v) ==> self@[k].1 == route_view(v),
    {
        match self.find(k) {
            Some(i) => {
                proof {
                    lemma_map_index(self.entries(), bind_key(), i as int);
                }
                Some(route_copy(&self.binds[i].1))
            },
            None => None,
        }
    }

    /// Every token bound to `v`, each once.
    pub fn get_token_list(&self, v: (String, String)) -> (r: Vec<u64>)
        requires
            self.wf(),
        ensures
            r@ == keys_with_value(self.entries(), route_view(v)),
            r@.no_duplicates(),
            forall|k: u64| r@.contains(k) <==> self@.contains_key(k) && self@[k].1 == route_view(v),
    {
        let r = get_keys_for_value(&self.binds, &v);
        proof {
            lemma_keys_with_value_distinct(self.entries(), route_view(v));
            assert forall|k: u64| r@.contains(k) <==> self@.contains_key(k) && self@[k].1
                == route_view(v) by {
                lemma_keys_with_value(self.entries(), route_view(v), k);
                lemma_map_domain(self.entries(), bind_key(), k);
                if self@.contains_key(k) {
                    let i = choose|i: int| 0 <= i < self.entries().len() && self.entries()[i].0 == k;
                    lemma_map_index(self.entries(), bind_key(), i);
                }
                if r@.contains(k) {
                    let i = choose|i: int|
                        0 <= i < self.entries().len() && self.entries()[i].0 == k
                            && self.entries()[i].1 == route_view(v);
                    lemma_map_index(self.entries(), bind_key(), i);
                }
            }
        }
        r
    }

    /// One token bound to `v`, drawn at random; `None` when no token is.
    pub fn get_random_token(&self, v: (String, String)) -> (r: Option<u64>)
        requires
            self.wf(),
        ensures
            r is None <==> keys_with_value(self.entries(), route_view(v)).len() == 0,
            r matches Some(t) ==> self@.contains_key(t) && self@[t].1 == route_view(v),
    {
        let tokens = self.get_token_list(v);
        choose_token(&tokens)
    }
}

/// The tokens bound to one (group id, topic) are distinct.
pub proof fn lemma_bound_tokens_distinct(binds: &ConnectionPoolAndGroupBind, v: RouteView)
    requires
        binds.wf(),
    ensures
        keys_with_value(binds.entries(), v).no_duplicates(),
{
    lemma_keys_with_value_distinct(binds.entries(), v);
}

/// Removing a token twice is the same as removing it once, and afterwards no
/// binding of it is left.
pub proof fn lemma_remove_idempotent(m: Map<u64, (u64, RouteView)>, t: u64)
    ensures
        m.remove(t).remove(t) == m.remove(t),
        !m.remove(t).contains_key(t),
{
    assert(m.remove(t).remove(t) =~= m.remove(t));
}

/// Live connections by token.
pub struct ConnectionPool<C> {
    conns: HashMap<u64, C>,
}

impl<C> View for ConnectionPool<C> {
    type V = Map<u64, C>;

    closed spec fn view(&self) -> Map<u64, C> {
        self.conns@
    }
}

impl<C> ConnectionPool<C> {
    pub fn new() -> (r: Self)
        ensures
            r@ == Map::<u64, C>::empty(),
    {
        ConnectionPool { conns: HashMap::new() }
    }

    pub fn contains(&self, k: u64) -> (r: bool)
        ensures
            r == self@.contains_key(k),
    {
        self.conns.contains_key(&k)
    }

    /// Registers connection `v` under token `k`, replacing any earlier one.
    pub fn insert(&mut self, k: u64, v: C)
        ensures
            final(self)@ == old(self)@.insert(k, v),
    {
        self.conns.insert(k, v);
    }

    /// Drops the connection of token `k`, if there is one.
    pub fn remove(&mut self, k: u64)
        ensures
            final(self)@ == old(self)@.remove(k),
    {
        self.conns.remove(&k);
    }

    /// The connection of token `k`; `None` once it has been removed.
    pub fn handle(&self, k: u64) -> (r: Option<&C>)
        ensures
            r is None <==> !self@.contains_key(k),
            r matches Some(c) ==> self@[k] == *c,
    {
        self.conns.get(&k)
    }
}

pub open spec fn binder_view(e: ((String, String), String)) -> (RouteView, Seq<char>) {
    (route_view(e.0), e.1@)
}

pub open spec fn binder_key() -> spec_fn((RouteView, Seq<char>)) -> RouteView {
    |e: (RouteView, Seq<char>)| e.0
}

/// The consumer registered for each (group id, topic), by name.
pub struct ConsumerBinder {
    consumers: Vec<((String, String), String)>,
}

impl ConsumerBinder {
    pub closed spec fn entries(&self) -> Seq<(RouteView, Seq<char>)> {
        self.consumers@.map_values(|e| binder_view(e))
    }

    pub closed spec fn wf(&self) -> bool {
        keys_unique(self.entries(), binder_key())
    }
}

impl View for ConsumerBinder {
    type V = Map<RouteView, (RouteView, Seq<char>)>;

    closed spec fn view(&self) -> Map<RouteView, (RouteView, Seq<char>)> {
        seq_to_map(self.entries(), binder_key())
    }
}

impl ConsumerBinder {
    pub fn new() -> (r: Self)
        ensures
            r.wf(),
            r@ == Map::<RouteView, (RouteView, Seq<char>)>::empty(),
    {
        let r = ConsumerBinder { consumers: Vec::new() };
        assert(r.entries() =~= Seq::<(RouteView, Seq<char>)>::empty());
        r
    }

    fn find(&self, k: &(String, String)) -> (r: Option<usize>)
        requires
            self.wf(),
        ensures
            r matches Some(i) ==> i < self.consumers@.len() && route_view(
                self.consumers@[i as int].0,
            ) == route_view(*k),
            r is None ==> !self@.contains_key(route_view(*k)),
    {
        let mut i: usize = 0;
        while i < self.consumers.len()
            invariant
                i <= self.consumers@.len(),
                forall|j: int| 0 <= j < i ==> route_view(self.consumers@[j].0) != route_view(*k),
            decreases self.consumers@.len() - i,
        {
            if route_equal(&self.consumers[i].0, k) {
                return Some(i);
            }
            i = i + 1;
        }
        proof {
            lemma_map_domain(self.entries(), binder_key(), route_view(*k));
        }
        None
    }

    /// Registers consumer `v` for the pair `k`, replacing any earlier one.
    pub fn insert(&mut self, k: (String, String), v: String)
        requires
            old(self).wf(),
        ensures
            final(self).wf(),
            final(self)@ == old(self)@.insert(route_view(k), (route_view(k), v@)),
    {
        let ghost e = (route_view(k), v@);
        match self.find(&k) {
            Some(i) => {
                proof {
                    lemma_map_update(self.entries(), binder_key(), i as int, e);
                }
                self.consumers.set(i, (k, v));
                assert(self.entries() =~= old(self).entries().update(i as int, e));
            },
            None => {
                proof {
                    lemma_map_push(self.entries(), binder_key(), e);
                }
                self.consumers.push((k, v));
                assert(self.entries() =~= old(self).entries().push(e));
            },
        }
    }

    /// The consumer registered for `k`, or an error saying that none is.
    pub fn get(&self, k: (String, String)) -> (r: Result<String, String>)
        requires
            self.wf(),
        ensures
            r is Err <==> !self@.contains_key(route_view(k)),
            r matches Ok(v) ==> self@[route_view(k)].1 == v@,
    {
        match self.find(&k) {
            Some(i) => {
                proof {
                    lemma_map_index(self.entries(), binder_key(), i as int);
                }
                Ok(self.consumers[i].1.clone())
            },
            None => Err(String::from_str("key does not exist.")),
        }
    }
}

} // verus!
