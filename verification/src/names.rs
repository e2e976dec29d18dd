//! Sets and maps keyed by names, kept in the order of names.
//!
//! Both collections hold their entries in a vector that is strictly ascending,
//! so nothing occurs twice and every walk goes in the same order.

use crate::text::{
    name_less, name_lt, name_lt_asymmetric, name_lt_irreflexive, name_lt_total, name_lt_transitive,
    same,
};
use vstd::prelude::*;

verus! {

/// The texts of a sequence of strings.
pub open spec fn texts(v: Seq<String>) -> Seq<Seq<char>> {
    Seq::new(v.len(), |i: int| v[i]@)
}

/// Each name stands before all that follow it.
pub open spec fn ascending(s: Seq<Seq<char>>) -> bool {
    forall|i: int, j: int| 0 <= i < j < s.len() ==> #[trigger] name_lt(s[i], s[j])
}

/// An ascending sequence holds no name twice.
pub proof fn ascending_no_duplicates(s: Seq<Seq<char>>)
    requires
        ascending(s),
    ensures
        s.no_duplicates(),
{
    assert forall|i: int, j: int| 0 <= i < s.len() && 0 <= j < s.len() && i != j implies s[i] != s[j] by {
        if i < j {
            name_lt_asymmetric(s[i], s[j]);
        } else {
            name_lt_asymmetric(s[j], s[i]);
        }
    }
}

/// A set of names has only one ascending listing.
pub proof fn ascending_unique(a: Seq<Seq<char>>, b: Seq<Seq<char>>)
    requires
        ascending(a),
        ascending(b),
        a.to_set() == b.to_set(),
    ensures
        a == b,
    decreases a.len(),
{
    ascending_no_duplicates(a);
    ascending_no_duplicates(b);
    a.unique_seq_to_set();
    b.unique_seq_to_set();
    assert(a.len() == b.len());
    if a.len() > 0 {
        let n = a.len() - 1;
        assert(a.to_set().contains(a[n]));
        assert(b.to_set().contains(b[n]));
        let i = choose|i: int| 0 <= i < b.len() && b[i] == a[n];
        let j = choose|j: int| 0 <= j < a.len() && a[j] == b[n];
        assert(a[n] == b[n]) by {
            if i < n {
                assert(name_lt(b[i], b[n]));
                if j < n {
                    assert(name_lt(a[j], a[n]));
                    name_lt_asymmetric(a[j], a[n]);
                }
                name_lt_irreflexive(b[n]);
            }
        }
        let x = a.drop_last();
        let y = b.drop_last();
        assert forall|k: Seq<char>| x.to_set().contains(k) == y.to_set().contains(k) by {
            if x.to_set().contains(k) {
                let p = choose|p: int| 0 <= p < x.len() && x[p] == k;
                assert(a[p] == k);
                assert(a.to_set().contains(k));
                let q = choose|q: int| 0 <= q < b.len() && b[q] == k;
                assert(a[p] != a[n]);
                assert(q != n);
                assert(y[q] == k);
            }
            if y.to_set().contains(k) {
                let p = choose|p: int| 0 <= p < y.len() && y[p] == k;
                assert(b[p] == k);
                assert(b.to_set().contains(k));
                let q = choose|q: int| 0 <= q < a.len() && a[q] == k;
                assert(b[p] != b[n]);
                assert(q != n);
                assert(x[q] == k);
            }
        }
        assert(x.to_set() =~= y.to_set());
        ascending_unique(x, y);
        assert(a =~= x.push(a[n]));
        assert(b =~= y.push(b[n]));
    } else {
        assert(a =~= b);
    }
}

/// The set of a listing with one more name at its end.
pub proof fn to_set_push(s: Seq<Seq<char>>, x: Seq<char>)
    ensures
        s.push(x).to_set() == s.to_set().insert(x),
{
    let u = s.push(x);
    assert forall|k: Seq<char>| u.to_set().contains(k) == s.to_set().insert(x).contains(k) by {
        if s.to_set().contains(k) {
            let p = choose|p: int| 0 <= p < s.len() && s[p] == k;
            assert(u[p] == k);
        }
        if k == x {
            assert(u[s.len() as int] == k);
        }
        if u.to_set().contains(k) {
            let p = choose|p: int| 0 <= p < u.len() && u[p] == k;
            if p < s.len() {
                assert(s[p] == k);
            }
        }
    }
    assert(u.to_set() =~= s.to_set().insert(x));
}

/// The names of a set in ascending order.
pub open spec fn listing(names: Set<Seq<char>>) -> Seq<Seq<char>> {
    choose|s: Seq<Seq<char>>| ascending(s) && s.to_set() == names
}

/// An ascending sequence is the listing of its names.
pub proof fn listing_is(s: Seq<Seq<char>>)
    requires
        ascending(s),
    ensures
        listing(s.to_set()) == s,
{
    let names = s.to_set();
    assert(ascending(s) && s.to_set() == names);
    ascending_unique(listing(names), s);
}

/// Where a name belongs in an ascending sequence that lacks it.
proof fn place_of(s: Seq<Seq<char>>, x: Seq<char>) -> (i: int)
    requires
        ascending(s),
        !s.contains(x),
    ensures
        0 <= i <= s.len(),
        ascending(s.insert(i, x)),
        forall|j: int| i <= j < s.len() ==> name_lt(x, #[trigger] s[j]),
    decreases s.len(),
{
    if s.len() == 0 {
        0
    } else if name_lt(s.last(), x) {
        assert forall|j: int| 0 <= j < s.len() implies name_lt(#[trigger] s[j], x) by {
            if j < s.len() - 1 {
                name_lt_transitive(s[j], s.last(), x);
            }
        }
        s.len() as int
    } else {
        assert(s[s.len() - 1] == s.last());
        name_lt_total(s.last(), x);
        let t = s.drop_last();
        assert forall|k: int| 0 <= k < t.len() implies t[k] != x by {
            assert(s[k] == t[k]);
        }
        let i = place_of(t, x);
        let u = s.insert(i, x);
        assert forall|a: int, b: int| 0 <= a < b < u.len() implies #[trigger] name_lt(u[a], u[b]) by {
            let v = t.insert(i, x);
            if b < v.len() {
                assert(u[a] == v[a] && u[b] == v[b]);
            } else if a < i {
                assert(u[a] == s[a] && u[b] == s[s.len() - 1]);
            } else if a > i {
                assert(u[a] == s[a - 1] && u[b] == s[s.len() - 1]);
            }
        }
        assert forall|j: int| i <= j < s.len() implies name_lt(x, #[trigger] s[j]) by {
            if j < t.len() {
                assert(s[j] == t[j]);
            }
        }
        i
    }
}

/// The listing of a finite set holds its names and no others, each before all that
/// follow it.
pub proof fn listing_holds(names: Set<Seq<char>>)
    requires
        names.finite(),
    ensures
        ascending(listing(names)),
        listing(names).to_set() == names,
    decreases names.len(),
{
    if names.len() == 0 {
        let s = Seq::<Seq<char>>::empty();
        assert(names =~= Set::empty());
        assert(s.to_set() =~= names);
        assert(ascending(s));
        listing_is(s);
    } else {
        let x = names.choose();
        let rest = names.remove(x);
        listing_holds(rest);
        let s = listing(rest);
        assert(!s.contains(x)) by {
            assert(!s.to_set().contains(x));
        }
        let i = place_of(s, x);
        let u = s.insert(i, x);
        assert forall|k: Seq<char>| u.to_set().contains(k) == names.contains(k) by {
            if names.contains(k) && k != x {
                assert(s.to_set().contains(k));
                let p = choose|p: int| 0 <= p < s.len() && s[p] == k;
                assert(u[if p < i { p } else { p + 1 }] == k);
            }
            if k == x {
                assert(u[i] == k);
            }
            if u.to_set().contains(k) && k != x {
                let p = choose|p: int| 0 <= p < u.len() && u[p] == k;
                assert(s[if p < i { p } else { p - 1 }] == k);
                assert(s.to_set().contains(k));
            }
        }
        assert(u.to_set() =~= names);
        listing_is(u);
    }
}

/// The names that occur in a listing.
pub open spec fn name_set(v: Seq<String>) -> Set<Seq<char>> {
    texts(v).to_set()
}

/// Whether `key` is among `names`.
pub fn has_name(names: &[String], key: &str) -> (r: bool)
    ensures
        r == name_set(names@).contains(key@),
{
    for i in 0..names.len()
        invariant
            forall|j: int| 0 <= j < i ==> names@[j]@ != key@,
    {
        if same(names[i].as_str(), key) {
            assert(texts(names@)[i as int] == key@);
            return true;
        }
    }
    proof {
        if name_set(names@).contains(key@) {
            let j = choose|j: int| 0 <= j < texts(names@).len() && texts(names@)[j] == key@;
            assert(names@[j]@ == key@);
        }
    }
    false
}

/// Where `key` first occurs among `names`.
pub open spec fn first_index(names: Seq<Seq<char>>, key: Seq<char>) -> Option<int>
    decreases names.len(),
{
    if names.len() == 0 {
        None
    } else if names[0] == key {
        Some(0)
    } else {
        match first_index(names.drop_first(), key) {
            Some(i) => Some(i + 1),
            None => None,
        }
    }
}

/// What a first index means: the name stands there and nowhere before; with
/// none, the name does not occur.
pub proof fn first_index_facts(names: Seq<Seq<char>>, key: Seq<char>)
    ensures
        match first_index(names, key) {
            Some(i) => 0 <= i < names.len() && names[i] == key
                && (forall|j: int| 0 <= j < i ==> names[j] != key),
            None => !names.contains(key),
        },
    decreases names.len(),
{
    if names.len() > 0 && names[0] != key {
        let rest = names.drop_first();
        first_index_facts(rest, key);
        match first_index(rest, key) {
            Some(i) => {
                assert forall|j: int| 0 <= j < i + 1 implies names[j] != key by {
                    if j > 0 {
                        assert(rest[j - 1] == names[j]);
                    }
                }
            },
            None => {
                if names.contains(key) {
                    let j = choose|j: int| 0 <= j < names.len() && names[j] == key;
                    assert(rest[j - 1] == key);
                    assert(rest.contains(key));
                }
            },
        }
    }
}

/// The position at which `key` first occurs.
pub fn position_of(names: &[String], key: &str) -> (r: Option<usize>)
    ensures
        match r {
            Some(i) => first_index(texts(names@), key@) == Some(i as int) && i < names.len(),
            None => first_index(texts(names@), key@) is None,
        },
{
    for i in 0..names.len()
        invariant
            forall|j: int| 0 <= j < i ==> names@[j]@ != key@,
    {
        if same(names[i].as_str(), key) {
            proof {
                let t = texts(names@);
                first_index_facts(t, key@);
                assert(t[i as int] == key@);
                assert(t.contains(key@));
                let k = first_index(t, key@)->0;
                assert(t[k] == names@[k]@);
            }
            return Some(i);
        }
    }
    proof {
        let t = texts(names@);
        first_index_facts(t, key@);
        if first_index(t, key@) is Some {
            let k = first_index(t, key@)->0;
            assert(names@[k]@ == t[k]);
        }
    }
    None
}

// ---------------------------------------------------------------------
// NameSet
// ---------------------------------------------------------------------

/// A set of names.
#[derive(Debug, PartialEq, Eq)]
pub struct NameSet {
    names: Vec<String>,
}

/// The place of `key` in an ascending listing.
fn search(names: &Vec<String>, key: &str) -> (r: (usize, bool))
    requires
        ascending(texts(names@)),
    ensures
        r.0 <= names.len(),
        forall|j: int| 0 <= j < r.0 ==> name_lt(texts(names@)[j], key@),
        r.1 ==> r.0 < names.len() && texts(names@)[r.0 as int] == key@,
        !r.1 ==> (forall|j: int| r.0 <= j < names.len() ==> name_lt(key@, texts(names@)[j])),
        r.1 == texts(names@).contains(key@),
{
    let mut i: usize = 0;
    while i < names.len() && name_less(names[i].as_str(), key)
        invariant
            i <= names.len(),
            forall|j: int| 0 <= j < i ==> name_lt(texts(names@)[j], key@),
        decreases names.len() - i,
    {
        i = i + 1;
    }
    let found = i < names.len() && same(names[i].as_str(), key);
    proof {
        let t = texts(names@);
        if found {
            assert(t[i as int] == key@);
        } else {
            if i < names.len() {
                name_lt_total(t[i as int], key@);
                assert forall|j: int| i <= j < names.len() implies name_lt(key@, t[j]) by {
                    if j > i {
                        name_lt_transitive(key@, t[i as int], t[j]);
                    }
                }
            }
            if t.contains(key@) {
                let j = choose|j: int| 0 <= j < t.len() && t[j] == key@;
                name_lt_irreflexive(key@);
            }
        }
    }
    (i, found)
}

proof fn texts_insert(v: Seq<String>, i: int, s: String)
    requires
        0 <= i <= v.len(),
    ensures
        texts(v.insert(i, s)) == texts(v).insert(i, s@),
{
    assert(texts(v.insert(i, s)) =~= texts(v).insert(i, s@));
}

impl NameSet {
    #[verifier::type_invariant]
    spec fn sorted(&self) -> bool {
        ascending(texts(self.names@))
    }

    /// The set of names.
    pub closed spec fn view(&self) -> Set<Seq<char>> {
        name_set(self.names@)
    }

    /// The empty set.
    pub fn new() -> (r: Self)
        ensures
            r@ == Set::<Seq<char>>::empty(),
    {
        let names: Vec<String> = Vec::new();
        assert(texts(names@) =~= Seq::empty());
        assert(name_set(names@) =~= Set::empty());
        NameSet { names }
    }

    /// The set of the names that occur in a listing.
    pub fn of(list: &[String]) -> (r: Self)
        ensures
            r@ == name_set(list@),
    {
        let mut r = NameSet::new();
        for i in 0..list.len()
            invariant
                r@ == texts(list@).take(i as int).to_set(),
        {
            r.insert(list[i].clone());
            proof {
                let t = texts(list@);
                assert(t.take(i + 1) =~= t.take(i as int).push(t[i as int]));
                to_set_push(t.take(i as int), t[i as int]);
            }
        }
        assert(texts(list@).take(list@.len() as int) =~= texts(list@));
        r
    }

    /// Whether `key` is in the set.
    pub fn contains(&self, key: &str) -> (r: bool)
        ensures
            r == self@.contains(key@),
    {
        proof {
            use_type_invariant(self);
        }
        search(&self.names, key).1
    }

    /// Puts `key` into the set.
    pub fn insert(&mut self, key: String)
        ensures
            final(self)@ == old(self)@.insert(key@),
    {
        proof {
            use_type_invariant(&*self);
        }
        let (i, found) = search(&self.names, key.as_str());
        let ghost before = self.names@;
        if found {
            assert(name_set(before) =~= name_set(before).insert(key@));
        } else {
            proof {
                texts_insert(before, i as int, key);
                let t = texts(before);
                let u = t.insert(i as int, key@);
                assert forall|k: Seq<char>| u.to_set().contains(k) == t.to_set().insert(key@).contains(k) by {
                    if t.to_set().contains(k) {
                        let p = choose|p: int| 0 <= p < t.len() && t[p] == k;
                        if p < i {
                            assert(u[p] == k);
                        } else {
                            assert(u[p + 1] == k);
                        }
                    }
                    if k == key@ {
                        assert(u[i as int] == k);
                    }
                    if u.to_set().contains(k) {
                        let p = choose|p: int| 0 <= p < u.len() && u[p] == k;
                        if p < i {
                            assert(t[p] == k);
                        } else if p > i {
                            assert(t[p - 1] == k);
                        }
                    }
                }
                assert(u.to_set() =~= t.to_set().insert(key@));
                assert(ascending(u));
            }
            let mut names: Vec<String> = Vec::new();
            assert(texts(names@) =~= Seq::empty());
            std::mem::swap(&mut names, &mut self.names);
            names.insert(i, key);
            self.names = names;
        }
    }

    /// Takes `key` out of the set.
    pub fn remove(&mut self, key: &str)
        ensures
            final(self)@ == old(self)@.remove(key@),
    {
        proof {
            use_type_invariant(&*self);
        }
        let (i, found) = search(&self.names, key);
        let ghost before = self.names@;
        if found {
            proof {
                let t = texts(before);
                let u = t.remove(i as int);
                assert(texts(before.remove(i as int)) =~= u);
                ascending_no_duplicates(t);
                assert forall|k: Seq<char>| u.to_set().contains(k) == t.to_set().remove(key@).contains(k) by {
                    if t.to_set().contains(k) && k != key@ {
                        let p = choose|p: int| 0 <= p < t.len() && t[p] == k;
                        if p < i {
                            assert(u[p] == k);
                        } else {
                            assert(u[p - 1] == k);
                        }
                    }
                    if u.to_set().contains(k) {
                        let p = choose|p: int| 0 <= p < u.len() && u[p] == k;
                        if p < i {
                            assert(t[p] == k);
                        } else {
                            assert(t[p + 1] == k);
                        }
                    }
                }
                assert(u.to_set() =~= t.to_set().remove(key@));
                assert(ascending(u));
            }
            let mut names: Vec<String> = Vec::new();
            assert(texts(names@) =~= Seq::empty());
            std::mem::swap(&mut names, &mut self.names);
            let _ = names.remove(i);
            self.names = names;
        } else {
            assert(name_set(before) =~= name_set(before).remove(key@));
        }
    }

    /// How many names the set holds.
    pub fn len(&self) -> (r: usize)
        ensures
            self@.finite(),
            r == self@.len(),
    {
        proof {
            use_type_invariant(self);
            ascending_no_duplicates(texts(self.names@));
            texts(self.names@).unique_seq_to_set();
        }
        self.names.len()
    }

    /// Whether the set holds no name.
    pub fn is_empty(&self) -> (r: bool)
        ensures
            r == (self@ == Set::<Seq<char>>::empty()),
    {
        let r = self.names.len() == 0;
        proof {
            let t = texts(self.names@);
            if r {
                assert(t.to_set() =~= Set::empty());
            } else {
                assert(t.to_set().contains(t[0]));
            }
        }
        r
    }

    /// The names of the set, ascending.
    pub fn to_vec(&self) -> (r: Vec<String>)
        ensures
            ascending(texts(r@)),
            name_set(r@) == self@,
            texts(r@) == listing(self@),
    {
        proof {
            use_type_invariant(self);
            listing_is(texts(self.names@));
        }
        clone_names(&self.names)
    }

    /// Whether the two sets hold the same names.
    pub fn equals(&self, other: &NameSet) -> (r: bool)
        ensures
            r == (self@ == other@),
    {
        proof {
            use_type_invariant(self);
            use_type_invariant(other);
        }
        let a = &self.names;
        let b = &other.names;
        let mut eq = a.len() == b.len();
        let mut i: usize = 0;
        while eq && i < a.len()
            invariant
                i <= a.len(),
                eq ==> a.len() == b.len() && (forall|j: int| 0 <= j < i ==> a@[j]@ == b@[j]@),
                !eq ==> texts(a@) != texts(b@),
                a@.len() != b@.len() ==> !eq,
            decreases (if eq { 1int } else { 0int }) + a.len() - i,
        {
            if !same(a[i].as_str(), b[i].as_str()) {
                assert(texts(a@)[i as int] != texts(b@)[i as int]);
                eq = false;
            } else {
                i = i + 1;
            }
        }
        proof {
            if eq {
                assert(texts(a@) =~= texts(b@));
            }
            if self@ == other@ {
                ascending_unique(texts(a@), texts(b@));
            }
        }
        eq
    }
}

impl Clone for NameSet {
    fn clone(&self) -> (r: Self)
        ensures
            r@ == self@,
    {
        proof {
            use_type_invariant(self);
        }
        NameSet { names: clone_names(&self.names) }
    }
}

/// A listing with the same strings.
pub fn clone_names(v: &[String]) -> (r: Vec<String>)
    ensures
        r@ == v@,
{
    let mut r: Vec<String> = Vec::new();
    for i in 0..v.len()
        invariant
            r@ == v@.take(i as int),
    {
        r.push(v[i].clone());
    }
    assert(r@ =~= v@);
    r
}

// ---------------------------------------------------------------------
// NameMap
// ---------------------------------------------------------------------

/// A map from names to values.
#[derive(Debug, PartialEq, Eq)]
pub struct NameMap<V> {
    entries: Vec<(String, V)>,
}

spec fn entry_keys<V>(e: Seq<(String, V)>) -> Seq<Seq<char>> {
    Seq::new(e.len(), |i: int| e[i].0@)
}

spec fn entry_map<V>(e: Seq<(String, V)>) -> Map<Seq<char>, V> {
    Map::new(
        |k: Seq<char>| entry_keys(e).contains(k),
        |k: Seq<char>| e[entry_keys(e).index_of(k)].1,
    )
}

proof fn entry_at<V>(e: Seq<(String, V)>, i: int)
    requires
        ascending(entry_keys(e)),
        0 <= i < e.len(),
    ensures
        entry_map(e).contains_key(e[i].0@),
        entry_map(e)[e[i].0@] == e[i].1,
{
    let t = entry_keys(e);
    ascending_no_duplicates(t);
    assert(t[i] == e[i].0@);
    assert(t.contains(e[i].0@));
    let j = t.index_of(e[i].0@);
    assert(t[j] == t[i]);
}

proof fn entry_insert<V>(e: Seq<(String, V)>, i: int, key: String, value: V)
    requires
        ascending(entry_keys(e)),
        0 <= i <= e.len(),
        forall|j: int| 0 <= j < i ==> name_lt(entry_keys(e)[j], key@),
        forall|j: int| i <= j < e.len() ==> name_lt(key@, entry_keys(e)[j]),
    ensures
        ascending(entry_keys(e.insert(i, (key, value)))),
        entry_map(e.insert(i, (key, value))) == entry_map(e).insert(key@, value),
{
    let f = e.insert(i, (key, value));
    let t = entry_keys(e);
    let u = entry_keys(f);
    assert(u =~= t.insert(i, key@));
    assert(ascending(u));
    let m = entry_map(e).insert(key@, value);
    assert forall|k: Seq<char>| entry_map(f).contains_key(k) == m.contains_key(k) by {
        if t.contains(k) {
            let p = choose|p: int| 0 <= p < t.len() && t[p] == k;
            if p < i {
                assert(u[p] == k);
            } else {
                assert(u[p + 1] == k);
            }
        }
        if k == key@ {
            assert(u[i] == k);
        }
        if u.contains(k) {
            let p = choose|p: int| 0 <= p < u.len() && u[p] == k;
            if p < i {
                assert(t[p] == k);
            } else if p > i {
                assert(t[p - 1] == k);
            }
        }
    }
    assert forall|k: Seq<char>| m.contains_key(k) implies entry_map(f)[k] == m[k] by {
        if k == key@ {
            assert(f[i].0@ == k);
            entry_at(f, i);
        } else {
            let p = choose|p: int| 0 <= p < t.len() && t[p] == k;
            assert(e[p].0@ == k);
            entry_at(e, p);
            if p < i {
                assert(f[p] == e[p]);
                entry_at(f, p);
            } else {
                assert(f[p + 1] == e[p]);
                entry_at(f, p + 1);
            }
        }
    }
    assert(entry_map(f) =~= m);
}

proof fn entry_update<V>(e: Seq<(String, V)>, i: int, key: String, value: V)
    requires
        ascending(entry_keys(e)),
        0 <= i < e.len(),
        e[i].0@ == key@,
    ensures
        ascending(entry_keys(e.update(i, (key, value)))),
        entry_map(e.update(i, (key, value))) == entry_map(e).insert(key@, value),
{
    let f = e.update(i, (key, value));
    assert(entry_keys(f) =~= entry_keys(e));
    let m = entry_map(e).insert(key@, value);
    entry_at(e, i);
    assert forall|k: Seq<char>| m.contains_key(k) implies entry_map(f)[k] == m[k] by {
        let t = entry_keys(e);
        if k == key@ {
            entry_at(f, i);
        } else {
            let p = choose|p: int| 0 <= p < t.len() && t[p] == k;
            assert(e[p].0@ == k);
            entry_at(e, p);
            assert(f[p] == e[p]);
            entry_at(f, p);
        }
    }
    assert(entry_map(f) =~= m);
}

proof fn entry_remove<V>(e: Seq<(String, V)>, i: int)
    requires
        ascending(entry_keys(e)),
        0 <= i < e.len(),
    ensures
        ascending(entry_keys(e.remove(i))),
        entry_map(e.remove(i)) == entry_map(e).remove(e[i].0@),
{
    let f = e.remove(i);
    let t = entry_keys(e);
    let u = entry_keys(f);
    assert(u =~= t.remove(i));
    assert(ascending(u));
    ascending_no_duplicates(t);
    let key = e[i].0@;
    assert(t[i] == key);
    let m = entry_map(e).remove(key);
    assert forall|k: Seq<char>| entry_map(f).contains_key(k) == m.contains_key(k) by {
        if t.contains(k) && k != key {
            let p = choose|p: int| 0 <= p < t.len() && t[p] == k;
            if p < i {
                assert(u[p] == k);
            } else {
                assert(u[p - 1] == k);
            }
        }
        if u.contains(k) {
            let p = choose|p: int| 0 <= p < u.len() && u[p] == k;
            if p < i {
                assert(t[p] == k);
            } else {
                assert(t[p + 1] == k);
            }
        }
    }
    assert forall|k: Seq<char>| m.contains_key(k) implies entry_map(f)[k] == m[k] by {
        let p = choose|p: int| 0 <= p < t.len() && t[p] == k;
        assert(e[p].0@ == k);
        entry_at(e, p);
        if p < i {
            assert(f[p] == e[p]);
            entry_at(f, p);
        } else {
            assert(f[p - 1] == e[p]);
            entry_at(f, p - 1);
        }
    }
    assert(entry_map(f) =~= m);
}

/// The place of `key` among ascending entries.
fn search_entries<V>(entries: &Vec<(String, V)>, key: &str) -> (r: (usize, bool))
    requires
        ascending(entry_keys(entries@)),
    ensures
        r.0 <= entries.len(),
        forall|j: int| 0 <= j < r.0 ==> name_lt(entry_keys(entries@)[j], key@),
        r.1 ==> r.0 < entries.len() && entry_keys(entries@)[r.0 as int] == key@,
        !r.1 ==> (forall|j: int| r.0 <= j < entries.len() ==> name_lt(key@, entry_keys(entries@)[j])),
        r.1 == entry_keys(entries@).contains(key@),
{
    let mut i: usize = 0;
    while i < entries.len() && name_less(entries[i].0.as_str(), key)
        invariant
            i <= entries.len(),
            forall|j: int| 0 <= j < i ==> name_lt(entry_keys(entries@)[j], key@),
        decreases entries.len() - i,
    {
        i = i + 1;
    }
    let found = i < entries.len() && same(entries[i].0.as_str(), key);
    proof {
        let t = entry_keys(entries@);
        if found {
            assert(t[i as int] == key@);
        } else {
            if i < entries.len() {
                name_lt_total(t[i as int], key@);
                assert forall|j: int| i <= j < entries.len() implies name_lt(key@, t[j]) by {
                    if j > i {
                        name_lt_transitive(key@, t[i as int], t[j]);
                    }
                }
            }
            if t.contains(key@) {
                let j = choose|j: int| 0 <= j < t.len() && t[j] == key@;
                name_lt_irreflexive(key@);
            }
        }
    }
    (i, found)
}

impl<V> NameMap<V> {
    #[verifier::type_invariant]
    spec fn sorted(&self) -> bool {
        ascending(entry_keys(self.entries@))
    }

    /// The map from names to values.
    pub closed spec fn view(&self) -> Map<Seq<char>, V> {
        entry_map(self.entries@)
    }

    /// The empty map.
    pub fn new() -> (r: Self)
        ensures
            r@ == Map::<Seq<char>, V>::empty(),
    {
        let entries: Vec<(String, V)> = Vec::new();
        assert(entry_keys(entries@) =~= Seq::empty());
        assert(entry_map(entries@) =~= Map::empty());
        NameMap { entries }
    }

    /// The value of `key`, if it has one.
    pub fn get(&self, key: &str) -> (r: Option<&V>)
        ensures
            match r {
                Some(v) => self@.contains_key(key@) && *v == self@[key@],
                None => !self@.contains_key(key@),
            },
    {
        proof {
            use_type_invariant(self);
        }
        let (i, found) = search_entries(&self.entries, key);
        if found {
            proof {
                entry_at(self.entries@, i as int);
            }
            Some(&self.entries[i].1)
        } else {
            None
        }
    }

    /// Whether `key` has a value.
    pub fn contains_key(&self, key: &str) -> (r: bool)
        ensures
            r == self@.contains_key(key@),
    {
        proof {
            use_type_invariant(self);
        }
        search_entries(&self.entries, key).1
    }

    /// Gives `key` the value `value`, in place of any it had.
    pub fn insert(&mut self, key: String, value: V)
        ensures
            final(self)@ == old(self)@.insert(key@, value),
    {
        proof {
            use_type_invariant(&*self);
        }
        let (i, found) = search_entries(&self.entries, key.as_str());
        let ghost before = self.entries@;
        let mut entries: Vec<(String, V)> = Vec::new();
        assert(entry_keys(entries@) =~= Seq::empty());
        std::mem::swap(&mut entries, &mut self.entries);
        if found {
            proof {
                entry_update(before, i as int, key, value);
            }
            entries[i] = (key, value);
        } else {
            proof {
                entry_insert(before, i as int, key, value);
            }
            entries.insert(i, (key, value));
        }
        self.entries = entries;
    }

    /// Gives `key` the value `value` where it has none yet.
    pub fn insert_new(&mut self, key: String, value: V)
        ensures
            final(self)@ == (if old(self)@.contains_key(key@) {
                old(self)@
            } else {
                old(self)@.insert(key@, value)
            }),
    {
        if !self.contains_key(key.as_str()) {
            self.insert(key, value);
        }
    }

    /// Takes `key` out of the map and hands back its value.
    pub fn remove(&mut self, key: &str) -> (r: Option<V>)
        ensures
            final(self)@ == old(self)@.remove(key@),
            match r {
                Some(v) => old(self)@.contains_key(key@) && v == old(self)@[key@],
                None => !old(self)@.contains_key(key@),
            },
    {
        proof {
            use_type_invariant(&*self);
        }
        let (i, found) = search_entries(&self.entries, key);
        let ghost before = self.entries@;
        if found {
            let mut entries: Vec<(String, V)> = Vec::new();
            assert(entry_keys(entries@) =~= Seq::empty());
            std::mem::swap(&mut entries, &mut self.entries);
            proof {
                entry_at(before, i as int);
                entry_remove(before, i as int);
            }
            let (_, v) = entries.remove(i);
            self.entries = entries;
            Some(v)
        } else {
            assert(entry_map(before) =~= entry_map(before).remove(key@));
            None
        }
    }

    /// How many names have a value.
    pub fn len(&self) -> (r: usize)
        ensures
            self@.dom().finite(),
            r == self@.len(),
    {
        proof {
            use_type_invariant(self);
            let t = entry_keys(self.entries@);
            ascending_no_duplicates(t);
            t.unique_seq_to_set();
            assert(self@.dom() =~= t.to_set());
        }
        self.entries.len()
    }

    /// Whether no name has a value.
    pub fn is_empty(&self) -> (r: bool)
        ensures
            r == (self@ == Map::<Seq<char>, V>::empty()),
    {
        let r = self.entries.len() == 0;
        proof {
            let t = entry_keys(self.entries@);
            if r {
                assert(self@ =~= Map::empty());
            } else {
                assert(t.contains(t[0]));
                assert(self@.contains_key(t[0]));
            }
        }
        r
    }

    /// The names that have a value, ascending.
    pub fn keys(&self) -> (r: Vec<String>)
        ensures
            ascending(texts(r@)),
            name_set(r@) == self@.dom(),
            texts(r@) == listing(self@.dom()),
    {
        proof {
            use_type_invariant(self);
        }
        let mut r: Vec<String> = Vec::new();
        for i in 0..self.entries.len()
            invariant
                r.len() == i,
                forall|j: int| 0 <= j < i ==> r@[j]@ == self.entries@[j].0@,
        {
            r.push(self.entries[i].0.clone());
        }
        proof {
            assert(texts(r@) =~= entry_keys(self.entries@));
            assert(name_set(r@) =~= self@.dom());
            listing_is(texts(r@));
        }
        r
    }
}

impl<V: Clone> Clone for NameMap<V> {
    fn clone(&self) -> (r: Self)
        ensures
            r@.dom() == self@.dom(),
            forall|k: Seq<char>| #[trigger] self@.contains_key(k) ==> cloned(self@[k], r@[k]),
    {
        proof {
            use_type_invariant(self);
        }
        let mut entries: Vec<(String, V)> = Vec::new();
        for i in 0..self.entries.len()
            invariant
                entries.len() == i,
                forall|j: int| 0 <= j < i ==> entries@[j].0 == self.entries@[j].0,
                forall|j: int| 0 <= j < i ==> cloned(self.entries@[j].1, #[trigger] entries@[j].1),
        {
            let v = self.entries[i].1.clone();
            entries.push((self.entries[i].0.clone(), v));
        }
        proof {
            assert(entry_keys(entries@) =~= entry_keys(self.entries@));
            assert forall|k: Seq<char>| #[trigger] self@.contains_key(k) implies cloned(self@[k], entry_map(entries@)[k]) by {
                let t = entry_keys(self.entries@);
                let p = choose|p: int| 0 <= p < t.len() && t[p] == k;
                entry_at(self.entries@, p);
                entry_at(entries@, p);
                assert(cloned(self.entries@[p].1, entries@[p].1));
            }
            assert(entry_map(entries@).dom() =~= self@.dom());
        }
        NameMap { entries }
    }
}

/// The texts of strings are those of each in its place, and their set holds just those.
pub proof fn texts_are_those_of_the_strings(v: Seq<String>, name: Seq<char>)
    ensures
        texts(v).len() == v.len(),
        forall|i: int| 0 <= i < v.len() ==> texts(v)[i] == (#[trigger] v[i])@,
        name_set(v).contains(name) <==> (exists|i: int| 0 <= i < v.len() && (#[trigger] v[i])@ == name),
{
    let t = texts(v);
    if name_set(v).contains(name) {
        let i = choose|i: int| 0 <= i < t.len() && t[i] == name;
        assert(v[i]@ == name);
    }
    if exists|i: int| 0 <= i < v.len() && (#[trigger] v[i])@ == name {
        let i = choose|i: int| 0 <= i < v.len() && (#[trigger] v[i])@ == name;
        assert(t[i] == name);
        assert(t.contains(name));
    }
}

/// A place that is found is the first at which the name stands, and none is found just where
/// it stands nowhere.
pub proof fn first_place_is_found(names: &[String], key: &str, r: Option<usize>)
    requires
        call_ensures(position_of, (names, key), r),
    ensures
        r is Some <==> texts(names@).contains(key@),
        r is Some ==> r->0 < names@.len() && names@[r->0 as int]@ == key@ && (forall|j: int|
            0 <= j < r->0 ==> (#[trigger] names@[j])@ != key@),
{
    let t = texts(names@);
    first_index_facts(t, key@);
    if let Some(i) = r {
        assert(t[i as int] == key@);
        assert forall|j: int| 0 <= j < i implies (#[trigger] names@[j])@ != key@ by {
            assert(t[j] == names@[j]@);
        }
    }
}

/// A set of names holds what was put in and not taken out again.
pub proof fn sets_hold_what_was_put_in(
    a: &mut NameSet,
    b: &mut NameSet,
    put: String,
    taken: &str,
    ra: (),
    rb: (),
    key: Seq<char>,
)
    requires
        call_ensures(NameSet::insert, (a, put), ra),
        call_ensures(NameSet::remove, (b, taken), rb),
    ensures
        final(a)@.contains(key) <==> key == put@ || old(a)@.contains(key),
        final(b)@.contains(key) <==> key != taken@ && old(b)@.contains(key),
{
}

/// A name is in a set just where it is said to be, and two sets are equal just where they hold
/// the same names.
pub proof fn sets_tell_what_they_hold(a: &NameSet, b: &NameSet, key: &str, held: bool, equal: bool, empty: bool)
    requires
        call_ensures(NameSet::contains, (a, key), held),
        call_ensures(NameSet::equals, (a, b), equal),
        call_ensures(NameSet::is_empty, (a,), empty),
    ensures
        held <==> a@.contains(key@),
        equal <==> (forall|n: Seq<char>| #[trigger] a@.contains(n) <==> b@.contains(n)),
        empty ==> !held,
{
    if forall|n: Seq<char>| #[trigger] a@.contains(n) <==> b@.contains(n) {
        assert(a@ =~= b@);
    }
}

} // verus!
