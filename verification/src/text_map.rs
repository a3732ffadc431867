//! An ordered map from strings to strings.
//!
//! Entries are kept in ascending key order, so that walking the map is deterministic.
use crate::text::{
    at_most, is_at_most, lemma_at_most_antisymmetric, lemma_at_most_total,
    lemma_at_most_transitive, same,
};
use vstd::prelude::*;

verus! {

/// The value of the first pair with key `k`.
pub open spec fn lookup(p: Seq<(Seq<char>, Seq<char>)>, k: Seq<char>) -> Option<Seq<char>>
    decreases p.len(),
{
    if p.len() == 0 {
        None
    } else if p[0].0 == k {
        Some(p[0].1)
    } else {
        lookup(p.drop_first(), k)
    }
}

/// The map that a list of pairs stands for.
pub open spec fn map_of(p: Seq<(Seq<char>, Seq<char>)>) -> Map<Seq<char>, Seq<char>> {
    Map::new(|k: Seq<char>| lookup(p, k) is Some, |k: Seq<char>| lookup(p, k)->0)
}

/// Keys stand in strictly ascending order.
pub open spec fn ascending(p: Seq<(Seq<char>, Seq<char>)>) -> bool {
    forall|i: int, j: int|
        #![trigger p[i], p[j]]
        0 <= i < j < p.len() ==> at_most(p[i].0, p[j].0) && p[i].0 != p[j].0
}

/// The pairs of `m` in ascending key order.
pub open spec fn is_listing(p: Seq<(Seq<char>, Seq<char>)>, m: Map<Seq<char>, Seq<char>>) -> bool {
    ascending(p) && map_of(p) == m
}

/// The pairs of `m` in ascending key order.
pub open spec fn listing(m: Map<Seq<char>, Seq<char>>) -> Seq<(Seq<char>, Seq<char>)> {
    choose|p: Seq<(Seq<char>, Seq<char>)>| is_listing(p, m)
}

/// A key that stands at `i` of an ascending list is looked up there.
proof fn lemma_lookup_at(p: Seq<(Seq<char>, Seq<char>)>, i: int)
    requires
        ascending(p),
        0 <= i < p.len(),
    ensures
        lookup(p, p[i].0) == Some(p[i].1),
    decreases p.len(),
{
    if i > 0 {
        assert(p[0].0 != p[i].0);
        let q = p.drop_first();
        assert(ascending(q)) by {
            assert forall|a: int, b: int|
                #![trigger q[a], q[b]]
                0 <= a < b < q.len() implies at_most(q[a].0, q[b].0) && q[a].0 != q[b].0 by {
                assert(q[a] == p[a + 1] && q[b] == p[b + 1]);
            }
        }
        lemma_lookup_at(q, i - 1);
    }
}

/// A lookup that succeeds found its key somewhere.
proof fn lemma_lookup_found(p: Seq<(Seq<char>, Seq<char>)>, k: Seq<char>) -> (i: int)
    requires
        lookup(p, k) is Some,
    ensures
        0 <= i < p.len(),
        p[i].0 == k,
        lookup(p, k) == Some(p[i].1),
    decreases p.len(),
{
    if p[0].0 == k {
        0
    } else {
        let i = lemma_lookup_found(p.drop_first(), k);
        i + 1
    }
}

/// A map has one listing.
pub proof fn lemma_listing_unique(
    p: Seq<(Seq<char>, Seq<char>)>,
    q: Seq<(Seq<char>, Seq<char>)>,
    m: Map<Seq<char>, Seq<char>>,
)
    requires
        is_listing(p, m),
        is_listing(q, m),
    ensures
        p == q,
    decreases p.len() + q.len(),
{
    if p.len() == 0 {
        if q.len() > 0 {
            lemma_lookup_at(q, 0);
            assert(map_of(q).contains_key(q[0].0));
            assert(map_of(p).contains_key(q[0].0));
        }
        assert(p =~= q);
    } else if q.len() == 0 {
        lemma_lookup_at(p, 0);
        assert(map_of(p).contains_key(p[0].0));
        assert(map_of(q).contains_key(p[0].0));
    } else {
        // The last pairs hold the greatest key, so they agree.
        let a = p.last();
        let b = q.last();
        lemma_lookup_at(p, p.len() - 1);
        lemma_lookup_at(q, q.len() - 1);
        assert(map_of(p).contains_key(a.0) && map_of(q).contains_key(b.0));
        assert(map_of(q).contains_key(a.0) && map_of(p).contains_key(b.0));
        let i = lemma_lookup_found(q, a.0);
        let j = lemma_lookup_found(p, b.0);
        if i < q.len() - 1 && j < p.len() - 1 {
            assert(at_most(q[i].0, b.0) && at_most(p[j].0, a.0));
            lemma_at_most_antisymmetric(a.0, b.0);
            assert(q[i].0 != q[q.len() - 1].0);
        } else if i < q.len() - 1 {
            assert(q[i].0 != q[q.len() - 1].0);
            assert(false);
        } else if j < p.len() - 1 {
            assert(p[j].0 != p[p.len() - 1].0);
            assert(false);
        }
        assert(a.0 == b.0);
        assert(map_of(p)[a.0] == a.1 && map_of(q)[b.0] == b.1);
        let p1 = p.drop_last();
        let q1 = q.drop_last();
        let m1 = m.remove(a.0);
        lemma_listing_drop_last(p, m);
        lemma_listing_drop_last(q, m);
        lemma_listing_unique(p1, q1, m1);
        assert(p =~= p1.push(a));
        assert(q =~= q1.push(b));
    }
}

proof fn lemma_listing_drop_last(p: Seq<(Seq<char>, Seq<char>)>, m: Map<Seq<char>, Seq<char>>)
    requires
        is_listing(p, m),
        p.len() > 0,
    ensures
        is_listing(p.drop_last(), m.remove(p.last().0)),
{
    let q = p.drop_last();
    let z = p.last().0;
    assert(ascending(q)) by {
        assert forall|a: int, b: int|
            #![trigger q[a], q[b]]
            0 <= a < b < q.len() implies at_most(q[a].0, q[b].0) && q[a].0 != q[b].0 by {
            assert(q[a] == p[a] && q[b] == p[b]);
        }
    }
    assert forall|k: Seq<char>| true implies lookup(q, k) == (if k == z {
        None
    } else {
        lookup(p, k)
    }) by {
        if lookup(q, k) is Some {
            let i = lemma_lookup_found(q, k);
            assert(q[i] == p[i]);
            assert(p[i].0 != p[p.len() - 1].0);
            lemma_lookup_at(p, i);
        } else if lookup(p, k) is Some {
            let i = lemma_lookup_found(p, k);
            if i < q.len() {
                assert(q[i] == p[i]);
                lemma_lookup_at(q, i);
            }
        }
    }
    assert(map_of(q) =~= m.remove(z));
}

/// Writing a pair at the position of its key keeps the order and writes the map.
proof fn lemma_inserted(
    p: Seq<(Seq<char>, Seq<char>)>,
    q: Seq<(Seq<char>, Seq<char>)>,
    n: int,
    k: Seq<char>,
    v: Seq<char>,
)
    requires
        ascending(p),
        0 <= n <= p.len(),
        forall|i: int| 0 <= i < n ==> at_most((#[trigger] p[i]).0, k) && p[i].0 != k,
        forall|i: int| n <= i < p.len() ==> at_most(k, (#[trigger] p[i]).0),
        if n < p.len() && p[n].0 == k {
            q == p.update(n, (k, v))
        } else {
            q == p.insert(n, (k, v))
        },
    ensures
        ascending(q),
        map_of(q) == map_of(p).insert(k, v),
{
    let hit = n < p.len() && p[n].0 == k;
    assert forall|i: int| n < i < p.len() || (i == n && n < p.len() && !hit) implies k != (
    #[trigger] p[i]).0 by {
        if i > n && p[i].0 == k {
            assert(at_most(p[n].0, p[i].0));
            assert(at_most(k, p[n].0));
            lemma_at_most_antisymmetric(k, p[n].0);
        }
    }
    assert(q[n] == (k, v));
    if hit {
        assert forall|i: int| 0 <= i < q.len() && i != n implies q[i] == p[i] by {}
    } else {
        assert forall|i: int| 0 <= i < n implies q[i] == p[i] by {}
        assert forall|i: int| n < i < q.len() implies q[i] == p[i - 1] by {}
    }
    assert forall|a: int, b: int|
        #![trigger q[a], q[b]]
        0 <= a < b < q.len() implies at_most(q[a].0, q[b].0) && q[a].0 != q[b].0 by {
        let pa = if !hit && a > n {
            a - 1
        } else {
            a
        };
        let pb = if !hit && b > n {
            b - 1
        } else {
            b
        };
        if a != n {
            assert(q[a] == p[pa]);
        }
        if b != n {
            assert(q[b] == p[pb]);
        }
    }
    assert forall|x: Seq<char>| true implies lookup(q, x) == (if x == k {
        Some(v)
    } else {
        lookup(p, x)
    }) by {
        if x == k {
            lemma_lookup_at(q, n);
        } else {
            if lookup(q, x) is Some {
                let i = lemma_lookup_found(q, x);
                let pi = if !hit && i > n {
                    i - 1
                } else {
                    i
                };
                assert(q[i] == p[pi]);
                lemma_lookup_at(p, pi);
            } else if lookup(p, x) is Some {
                let i = lemma_lookup_found(p, x);
                let qi = if !hit && i >= n {
                    i + 1
                } else {
                    i
                };
                assert(q[qi] == p[i]);
                lemma_lookup_at(q, qi);
            }
        }
    }
    assert(map_of(q) =~= map_of(p).insert(k, v));
}

/// A map from strings to strings whose keys are kept in ascending order.
#[derive(Debug)]
pub struct TextMap {
    entries: Vec<(String, String)>,
}

impl View for TextMap {
    type V = Map<Seq<char>, Seq<char>>;

    closed spec fn view(&self) -> Map<Seq<char>, Seq<char>> {
        map_of(pair_views(self.entries@))
    }
}

/// The character views of a list of string pairs.
pub open spec fn pair_views(v: Seq<(String, String)>) -> Seq<(Seq<char>, Seq<char>)> {
    v.map_values(|e: (String, String)| (e.0@, e.1@))
}

impl TextMap {
    #[verifier::type_invariant]
    closed spec fn in_order(self) -> bool {
        ascending(pair_views(self.entries@))
    }

    /// The empty map.
    pub fn new() -> (m: Self)
        ensures
            m@ == Map::<Seq<char>, Seq<char>>::empty(),
    {
        let m = TextMap { entries: Vec::new() };
        assert(m@ =~= Map::<Seq<char>, Seq<char>>::empty());
        m
    }

    /// The entries in ascending key order.
    pub fn entries(&self) -> (v: &Vec<(String, String)>)
        ensures
            pair_views(v@) == listing(self@),
            is_listing(pair_views(v@), self@),
    {
        proof {
            use_type_invariant(self);
            let p = pair_views(self.entries@);
            assert(is_listing(p, self@));
            lemma_listing_unique(p, listing(self@), self@);
        }
        &self.entries
    }

    /// Number of entries.
    pub fn len(&self) -> (n: usize)
        ensures
            n == listing(self@).len(),
    {
        self.entries().len()
    }

    /// Whether there is no entry.
    pub fn is_empty(&self) -> (r: bool)
        ensures
            r == (self@ == Map::<Seq<char>, Seq<char>>::empty()),
    {
        proof {
            use_type_invariant(self);
            let p = pair_views(self.entries@);
            if p.len() > 0 {
                lemma_lookup_at(p, 0);
                assert(self@.contains_key(p[0].0));
            } else {
                assert(self@ =~= Map::<Seq<char>, Seq<char>>::empty());
            }
        }
        self.entries.len() == 0
    }

    /// Position of the first entry whose key is not below `key`.
    fn position(&self, key: &str) -> (n: usize)
        ensures
            n <= self.entries@.len(),
            forall|i: int|
                0 <= i < n ==> at_most((#[trigger] self.entries@[i]).0@, key@)
                    && self.entries@[i].0@ != key@,
            forall|i: int| n <= i < self.entries@.len() ==> at_most(key@, (#[trigger] self.entries@[i]).0@),
    {
        proof {
            use_type_invariant(self);
        }
        let ghost p = pair_views(self.entries@);
        let mut n: usize = 0;
        while n < self.entries.len()
            invariant
                p == pair_views(self.entries@),
                ascending(p),
                n <= self.entries@.len(),
                forall|i: int|
                    0 <= i < n ==> at_most((#[trigger] self.entries@[i]).0@, key@)
                        && self.entries@[i].0@ != key@,
            decreases self.entries@.len() - n,
        {
            if is_at_most(key, self.entries[n].0.as_str()) {
                assert forall|i: int| n <= i < self.entries@.len() implies at_most(
                    key@,
                    (#[trigger] self.entries@[i]).0@,
                ) by {
                    assert(p[i].0 == self.entries@[i].0@);
                    if i > n {
                        assert(p[n as int].0 == self.entries@[n as int].0@);
                        lemma_at_most_transitive(key@, p[n as int].0, p[i].0);
                    }
                }
                return n;
            }
            proof {
                lemma_at_most_total(key@, self.entries@[n as int].0@);
            }
            n = n + 1;
        }
        n
    }

    /// The value stored under `key`.
    pub fn get(&self, key: &str) -> (r: Option<&String>)
        ensures
            r is Some <==> self@.contains_key(key@),
            r matches Some(v) ==> v@ == self@[key@],
    {
        let n: usize = self.position(key);
        proof {
            use_type_invariant(self);
            let p = pair_views(self.entries@);
            if lookup(p, key@) is Some {
                let i = lemma_lookup_found(p, key@);
                assert(self.entries@[i].0@ == key@);
                if i > n {
                    assert(p[n as int].0 == self.entries@[n as int].0@);
                    lemma_at_most_antisymmetric(key@, p[n as int].0);
                }
            }
            if n < p.len() {
                lemma_lookup_at(p, n as int);
            }
        }
        if n < self.entries.len() && same(self.entries[n].0.as_str(), key) {
            Some(&self.entries[n].1)
        } else {
            None
        }
    }

    /// Stores `value` under `key`; returns the value that stood there before.
    pub fn insert(&mut self, key: String, value: String) -> (r: Option<String>)
        ensures
            final(self)@ == old(self)@.insert(key@, value@),
            r is Some <==> old(self)@.contains_key(key@),
            r matches Some(v) ==> v@ == old(self)@[key@],
    {
        let n: usize = self.position(key.as_str());
        let before = self.get(key.as_str());
        let found = match before {
            Some(v) => Some(v.clone()),
            None => None,
        };
        proof {
            use_type_invariant(&*self);
        }
        let mut entries: Vec<(String, String)> = Vec::new();
        std::mem::swap(&mut entries, &mut self.entries);
        let ghost p = pair_views(entries@);
        let ghost k = key@;
        let ghost v = value@;
        if n < entries.len() && same(entries[n].0.as_str(), key.as_str()) {
            entries.set(n, (key, value));
            assert(pair_views(entries@) =~= p.update(n as int, (k, v)));
        } else {
            entries.insert(n, (key, value));
            assert(pair_views(entries@) =~= p.insert(n as int, (k, v)));
        }
        proof {
            lemma_inserted(p, pair_views(entries@), n as int, k, v);
        }
        self.entries = entries;
        found
    }
}

impl Clone for TextMap {
    fn clone(&self) -> (r: Self)
        ensures
            r@ == self@,
    {
        proof {
            use_type_invariant(self);
        }
        let mut entries: Vec<(String, String)> = Vec::new();
        let mut i: usize = 0;
        while i < self.entries.len()
            invariant
                i <= self.entries@.len(),
                entries@.len() == i,
                forall|j: int|
                    0 <= j < i ==> (#[trigger] entries@[j]).0@ == self.entries@[j].0@ && entries@[j].1@
                        == self.entries@[j].1@,
            decreases self.entries@.len() - i,
        {
            entries.push((self.entries[i].0.clone(), self.entries[i].1.clone()));
            i = i + 1;
        }
        assert(pair_views(entries@) =~= pair_views(self.entries@));
        TextMap { entries }
    }
}

/// A listing holds each entry once and nothing else, and a key stands behind every lesser one.
pub proof fn law_listings_ascend(
    p: Seq<(Seq<char>, Seq<char>)>,
    m: Map<Seq<char>, Seq<char>>,
    k: Seq<char>,
    i: int,
    j: int,
)
    requires
        is_listing(p, m),
        0 <= i < j < p.len(),
    ensures
        m.contains_pair(p[i].0, p[i].1),
        m.contains_key(k) ==> p.contains((k, m[k])),
        at_most(p[i].0, p[j].0) && !at_most(p[j].0, p[i].0),
{
    lemma_lookup_at(p, i);
    assert(map_of(p).contains_key(p[i].0));
    if m.contains_key(k) {
        assert(map_of(p).contains_key(k));
        let n = lemma_lookup_found(p, k);
        assert(p[n] == (k, m[k]));
    }
    assert(at_most(p[i].0, p[j].0) && p[i].0 != p[j].0);
    if at_most(p[j].0, p[i].0) {
        lemma_at_most_antisymmetric(p[i].0, p[j].0);
    }
}

} // verus!
