//! A map from names to values that is walked in the order of the names.
//!
//! Names are ordered by their characters' code points, first difference
//! first. Whatever was inserted in whatever order, two maps with the
//! same contents are walked alike: what is printed or handed to a child
//! process does not depend on how the map came about.

use crate::text::{chars_of, str_eq};
use crate::values::{views, Duplicate};
use vstd::prelude::*;
use vstd::string::*;

verus! {

// ---------------------------------------------------------------------
// The order of names
// ---------------------------------------------------------------------
/// Does `a` come before `b`?
pub open spec fn name_less(a: Seq<char>, b: Seq<char>) -> bool
    decreases a.len(),
{
    if b.len() == 0 {
        false
    } else if a.len() == 0 {
        true
    } else if a[0] != b[0] {
        a[0] < b[0]
    } else {
        name_less(a.skip(1), b.skip(1))
    }
}

/// No name comes before itself.
pub proof fn lemma_name_less_irreflexive(a: Seq<char>)
    ensures
        !name_less(a, a),
    decreases a.len(),
{
    if a.len() > 0 {
        lemma_name_less_irreflexive(a.skip(1));
    }
}

/// The order of names is transitive.
pub proof fn lemma_name_less_transitive(a: Seq<char>, b: Seq<char>, c: Seq<char>)
    requires
        name_less(a, b),
        name_less(b, c),
    ensures
        name_less(a, c),
    decreases a.len(),
{
    if a.len() > 0 && a[0] == b[0] && b[0] == c[0] {
        lemma_name_less_transitive(a.skip(1), b.skip(1), c.skip(1));
    }
}

/// Of two different names one comes before the other.
pub proof fn lemma_name_less_total(a: Seq<char>, b: Seq<char>)
    requires
        a != b,
    ensures
        name_less(a, b) || name_less(b, a),
    decreases a.len(),
{
    if a.len() == 0 || b.len() == 0 {
        if a.len() == 0 && b.len() == 0 {
            assert(a =~= b);
        }
    } else if a[0] == b[0] {
        if a.skip(1) == b.skip(1) {
            assert forall|i: int| 0 <= i < a.len() implies a.len() == b.len() && a[i] == b[i] by {
                assert(a.skip(1).len() == b.skip(1).len());
                if i > 0 {
                    assert(a.skip(1)[i - 1] == b.skip(1)[i - 1]);
                }
            }
            assert(a.skip(1).len() == b.skip(1).len());
            assert(a =~= b);
        }
        lemma_name_less_total(a.skip(1), b.skip(1));
    }
}

/// Does `a` come before `b`?
pub fn name_before(a: &str, b: &str) -> (r: bool)
    ensures
        r == name_less(a@, b@),
{
    let x = chars_of(a);
    let y = chars_of(b);
    let mut i: usize = 0;
    proof {
        assert(a@.skip(0) =~= a@);
        assert(b@.skip(0) =~= b@);
    }
    while i < x.len() && i < y.len()
        invariant
            x@ == a@,
            y@ == b@,
            i <= x@.len(),
            i <= y@.len(),
            name_less(a@.skip(i as int), b@.skip(i as int)) == name_less(a@, b@),
        decreases x.len() - i,
    {
        assert(a@.skip(i as int)[0] == x@[i as int]);
        assert(b@.skip(i as int)[0] == y@[i as int]);
        if x[i] != y[i] {
            return x[i] < y[i];
        }
        assert(a@.skip(i as int).skip(1) =~= a@.skip(i + 1));
        assert(b@.skip(i as int).skip(1) =~= b@.skip(i + 1));
        i = i + 1;
    }
    i < y.len()
}

// ---------------------------------------------------------------------
// Entries
// ---------------------------------------------------------------------
/// Are the names in strictly ascending order?
pub open spec fn ascending<W>(e: Seq<(Seq<char>, W)>) -> bool {
    forall|i: int, j: int| 0 <= i < j < e.len() ==> name_less(#[trigger] e[i].0, #[trigger] e[j].0)
}

/// Is `name` the name of an entry?
pub open spec fn names_entry<W>(e: Seq<(Seq<char>, W)>, name: Seq<char>) -> bool {
    exists|i: int| 0 <= i < e.len() && (#[trigger] e[i]).0 == name
}

/// The map that the entries spell.
pub open spec fn map_of<W>(e: Seq<(Seq<char>, W)>) -> Map<Seq<char>, W> {
    Map::new(
        |name: Seq<char>| names_entry(e, name),
        |name: Seq<char>| e[choose|i: int| 0 <= i < e.len() && (#[trigger] e[i]).0 == name].1,
    )
}

/// The map's names are the entries' names.
pub proof fn lemma_map_of_domain<W>(e: Seq<(Seq<char>, W)>, name: Seq<char>)
    ensures
        map_of(e).contains_key(name) == names_entry(e, name),
{
}

/// There are finitely many names.
pub proof fn lemma_map_of_finite<W>(e: Seq<(Seq<char>, W)>)
    ensures
        map_of(e).dom().finite(),
{
    let names = e.map_values(|p: (Seq<char>, W)| p.0);
    vstd::seq_lib::seq_to_set_is_finite(names);
    assert(map_of(e).dom().subset_of(names.to_set())) by {
        assert forall|n: Seq<char>| map_of(e).dom().contains(n) implies names.to_set().contains(
            n,
        ) by {
            let i = choose|i: int| 0 <= i < e.len() && (#[trigger] e[i]).0 == n;
            assert(names[i] == n);
        }
    }
    vstd::set_lib::lemma_len_subset(map_of(e).dom(), names.to_set());
}

/// In ascending entries each name stands once, so the map holds exactly
/// the entries.
pub proof fn lemma_map_of<W>(e: Seq<(Seq<char>, W)>, i: int)
    requires
        ascending(e),
        0 <= i < e.len(),
    ensures
        map_of(e).contains_key(e[i].0),
        map_of(e)[e[i].0] == e[i].1,
{
    let k = choose|k: int| 0 <= k < e.len() && (#[trigger] e[k]).0 == e[i].0;
    assert(0 <= k < e.len() && e[k].0 == e[i].0);
    lemma_name_less_irreflexive(e[i].0);
    if k < i {
        assert(name_less(e[k].0, e[i].0));
    } else if i < k {
        assert(name_less(e[i].0, e[k].0));
    }
}

/// Equal maps name the same entries.
proof fn lemma_equal_maps_name_alike<W>(
    a: Seq<(Seq<char>, W)>,
    b: Seq<(Seq<char>, W)>,
    name: Seq<char>,
)
    requires
        map_of(a) == map_of(b),
    ensures
        names_entry(a, name) == names_entry(b, name),
{
    lemma_map_of_domain(a, name);
    lemma_map_of_domain(b, name);
}

/// A name of ascending entries is the last one's or less.
proof fn lemma_last_is_greatest<W>(e: Seq<(Seq<char>, W)>, name: Seq<char>)
    requires
        ascending(e),
        names_entry(e, name),
    ensures
        e.len() > 0,
        name == e.last().0 || name_less(name, e.last().0),
{
    let i = choose|i: int| 0 <= i < e.len() && (#[trigger] e[i]).0 == name;
    assert(0 <= i < e.len() && e[i].0 == name);
    if i < e.len() - 1 {
        assert(name_less(e[i].0, e[e.len() - 1].0));
    }
}

/// Ascending entries with equal maps end in the same entry.
proof fn lemma_equal_maps_end_alike<W>(a: Seq<(Seq<char>, W)>, b: Seq<(Seq<char>, W)>)
    requires
        ascending(a),
        ascending(b),
        map_of(a) == map_of(b),
        a.len() > 0,
    ensures
        b.len() > 0,
        a.last() == b.last(),
{
    let na = a.last().0;
    assert(names_entry(a, na)) by {
        assert(a[a.len() - 1].0 == na);
    }
    lemma_equal_maps_name_alike(a, b, na);
    lemma_last_is_greatest(b, na);
    let nb = b.last().0;
    assert(names_entry(b, nb)) by {
        assert(b[b.len() - 1].0 == nb);
    }
    lemma_equal_maps_name_alike(a, b, nb);
    lemma_last_is_greatest(a, nb);
    if na != nb {
        lemma_name_less_transitive(na, nb, na);
        lemma_name_less_irreflexive(na);
    }
    lemma_map_of(a, a.len() - 1);
    lemma_map_of(b, b.len() - 1);
}

/// Entries in ascending order are determined by the map they spell: two
/// walks over equal contents visit the same names in the same order.
pub proof fn law_walk_is_canonical<W>(a: Seq<(Seq<char>, W)>, b: Seq<(Seq<char>, W)>)
    requires
        ascending(a),
        ascending(b),
        map_of(a) == map_of(b),
    ensures
        a == b,
    decreases a.len(),
{
    if a.len() == 0 {
        if b.len() > 0 {
            lemma_equal_maps_end_alike(b, a);
        }
        assert(a =~= b);
    } else {
        lemma_equal_maps_end_alike(a, b);
        lemma_map_of_drop_last(a);
        lemma_map_of_drop_last(b);
        law_walk_is_canonical(a.drop_last(), b.drop_last());
        assert(a =~= a.drop_last().push(a.last()));
        assert(b =~= b.drop_last().push(b.last()));
    }
}

/// The entries of a map, in the order in which they are walked.
pub open spec fn walk_of<W>(m: Map<Seq<char>, W>) -> Seq<(Seq<char>, W)> {
    choose|e: Seq<(Seq<char>, W)>| ascending(e) && #[trigger] map_of(e) == m
}

/// Ascending entries are the walk of the map they spell.
pub proof fn lemma_walk_of<W>(e: Seq<(Seq<char>, W)>)
    requires
        ascending(e),
    ensures
        walk_of(map_of(e)) == e,
{
    let w = walk_of(map_of(e));
    assert(ascending(w) && map_of(w) == map_of(e));
    law_walk_is_canonical(w, e);
}

/// Dropping the last entry removes its name.
proof fn lemma_map_of_drop_last<W>(e: Seq<(Seq<char>, W)>)
    requires
        ascending(e),
        e.len() > 0,
    ensures
        map_of(e.drop_last()) == map_of(e).remove(e.last().0),
{
    let d = e.drop_last();
    assert forall|name: Seq<char>| #[trigger]
        map_of(d).contains_key(name) == map_of(e).remove(e.last().0).contains_key(name) by {
        if names_entry(d, name) {
            let i = choose|i: int| 0 <= i < d.len() && (#[trigger] d[i]).0 == name;
            assert(e[i].0 == name);
            assert(name_less(e[i].0, e[e.len() - 1].0));
            lemma_name_less_irreflexive(name);
        }
        if names_entry(e, name) && name != e.last().0 {
            let i = choose|i: int| 0 <= i < e.len() && (#[trigger] e[i]).0 == name;
            assert(d[i].0 == name);
        }
    }
    assert forall|name: Seq<char>| #[trigger]
        map_of(d).contains_key(name) implies map_of(d)[name] == map_of(e).remove(
        e.last().0,
    )[name] by {
        let i = choose|i: int| 0 <= i < d.len() && (#[trigger] d[i]).0 == name;
        assert(0 <= i < d.len() && d[i].0 == name);
        lemma_map_of(d, i);
        lemma_map_of(e, i);
    }
    assert(map_of(d) =~= map_of(e).remove(e.last().0));
}

/// The last entry adds its name and value.
pub proof fn lemma_map_of_push<W>(e: Seq<(Seq<char>, W)>)
    requires
        ascending(e),
        e.len() > 0,
    ensures
        map_of(e) == map_of(e.drop_last()).insert(e.last().0, e.last().1),
{
    lemma_map_of_drop_last(e);
    lemma_map_of(e, e.len() - 1);
    assert(map_of(e) =~= map_of(e.drop_last()).insert(e.last().0, e.last().1));
}

/// Entries with the same names and other values.
pub open spec fn with_values<A, B>(e: Seq<(Seq<char>, A)>, values: Seq<B>) -> Seq<(Seq<char>, B)> {
    Seq::new(e.len(), |i: int| (e[i].0, values[i]))
}

// ---------------------------------------------------------------------
// The map
// ---------------------------------------------------------------------
/// A map from names to values, walked in the order of the names.
#[derive(Debug)]
pub struct NameMap<V: View> {
    list: Vec<(String, V)>,
}

impl<V: View> NameMap<V> {
    /// The entries, in the order in which they are walked.
    pub closed spec fn entries(&self) -> Seq<(Seq<char>, V::V)> {
        self.list@.map_values(|p: (String, V)| (p.0@, p.1@))
    }

    #[verifier::type_invariant]
    spec fn well_formed(&self) -> bool {
        ascending(self.entries())
    }

    /// There are finitely many names.
    pub proof fn lemma_finite(&self)
        ensures
            self@.dom().finite(),
    {
        lemma_map_of_finite(self.entries());
    }

    /// The empty map.
    pub fn new() -> (r: NameMap<V>)
        ensures
            r@ == Map::<Seq<char>, V::V>::empty(),
            r.entries().len() == 0,
    {
        let r = NameMap { list: Vec::new() };
        assert(r@ =~= Map::<Seq<char>, V::V>::empty());
        r
    }

    /// The number of entries.
    pub fn len(&self) -> (n: usize)
        ensures
            n == self.entries().len(),
            ascending(self.entries()),
    {
        proof {
            use_type_invariant(self);
        }
        self.list.len()
    }

    /// Is there no entry?
    pub fn is_empty(&self) -> (r: bool)
        ensures
            r == (self.entries().len() == 0),
            r == (self@ == Map::<Seq<char>, V::V>::empty()),
    {
        proof {
            if self.entries().len() == 0 {
                assert(self@ =~= Map::<Seq<char>, V::V>::empty());
            } else {
                lemma_map_of_domain(self.entries(), self.entries()[0].0);
                assert(names_entry(self.entries(), self.entries()[0].0));
            }
        }
        self.list.len() == 0
    }

    /// The name of the `i`-th entry.
    pub fn name_at(&self, i: usize) -> (r: &String)
        requires
            i < self.entries().len(),
        ensures
            r@ == self.entries()[i as int].0,
    {
        &self.list[i].0
    }

    /// The value of the `i`-th entry.
    pub fn value_at(&self, i: usize) -> (r: &V)
        requires
            i < self.entries().len(),
        ensures
            r@ == self.entries()[i as int].1,
    {
        &self.list[i].1
    }

    /// The values, in the order in which they are walked.
    pub open spec fn values(&self) -> Seq<V::V> {
        self.entries().map_values(|p: (Seq<char>, V::V)| p.1)
    }

    /// A map with the same names and other values: the `i`-th name gets
    /// the `i`-th value.
    pub fn with_values<W: View>(&self, values: Vec<W>) -> (r: NameMap<W>)
        requires
            values@.len() == self.entries().len(),
        ensures
            r.entries() == with_values(self.entries(), views(values@)),
    {
        let ghost e = self.entries();
        let ghost all = views(values@);
        let ghost want = with_values(e, all);
        proof {
            use_type_invariant(self);
        }
        let mut list: Vec<(String, W)> = Vec::new();
        let mut rest = values;
        let mut i: usize = self.list.len();
        let ghost mut tail = Seq::<(Seq<char>, W::V)>::empty();
        while i > 0
            invariant
                i <= self.list@.len(),
                i == rest@.len(),
                e == self.entries(),
                all.len() == e.len(),
                want == with_values(e, all),
                views(rest@) == all.take(i as int),
                list@.len() == self.list@.len() - i,
                forall|j: int|
                    0 <= j < list@.len() ==> ((#[trigger] list@[j]).0@, list@[j].1@)
                        == want[e.len() - 1 - j],
            decreases i,
        {
            let ghost before = rest@;
            match rest.pop() {
                Some(value) => {
                    proof {
                        assert(value@ == views(before)[i - 1]);
                        assert(value@ == all[i - 1]);
                        assert(views(rest@) =~= all.take(i - 1));
                    }
                    list.push((self.list[i - 1].0.clone(), value));
                },
                None => {},
            }
            i = i - 1;
        }
        let mut straight: Vec<(String, W)> = Vec::new();
        let n = list.len();
        while straight.len() < n
            invariant
                n == e.len(),
                e == self.entries(),
                want == with_values(e, all),
                straight@.len() + list@.len() == n,
                forall|j: int|
                    0 <= j < list@.len() ==> ((#[trigger] list@[j]).0@, list@[j].1@) == want[n - 1
                        - j],
                forall|j: int|
                    0 <= j < straight@.len() ==> ((#[trigger] straight@[j]).0@, straight@[j].1@)
                        == want[j],
            decreases n - straight.len(),
        {
            match list.pop() {
                Some(p) => {
                    straight.push(p);
                },
                None => {},
            }
        }
        proof {
            assert(straight@.map_values(|p: (String, W)| (p.0@, p.1@)) =~= want);
            assert forall|a: int, b: int| 0 <= a < b < want.len() implies name_less(
                #[trigger] want[a].0,
                #[trigger] want[b].0,
            ) by {
                assert(name_less(e[a].0, e[b].0));
            }
        }
        NameMap { list: straight }
    }

    /// The index at which `name` stands or belongs.
    fn position(&self, name: &str) -> (r: usize)
        ensures
            r <= self.list@.len(),
            forall|i: int| 0 <= i < r ==> name_less((#[trigger] self.list@[i]).0@, name@),
            r < self.list@.len() ==> !name_less(self.list@[r as int].0@, name@),
    {
        let mut i: usize = 0;
        while i < self.list.len() && name_before(self.list[i].0.as_str(), name)
            invariant
                i <= self.list@.len(),
                forall|j: int| 0 <= j < i ==> name_less((#[trigger] self.list@[j]).0@, name@),
            decreases self.list.len() - i,
        {
            i = i + 1;
        }
        i
    }

    /// The value of `name`.
    pub fn get(&self, name: &str) -> (r: Option<&V>)
        ensures
            r is Some <==> self@.contains_key(name@),
            r matches Some(v) ==> v@ == self@[name@],
    {
        let i = self.position(name);
        let ghost e = self.entries();
        proof {
            use_type_invariant(self);
            lemma_map_of_domain(e, name@);
        }
        if i < self.list.len() && str_eq(self.list[i].0.as_str(), name) {
            proof {
                assert(e[i as int].0 == name@);
                lemma_map_of(e, i as int);
            }
            Some(&self.list[i].1)
        } else {
            proof {
                if names_entry(e, name@) {
                    let k = choose|k: int| 0 <= k < e.len() && (#[trigger] e[k]).0 == name@;
                    lemma_name_less_irreflexive(name@);
                    if k < i {
                        assert(name_less(self.list@[k].0@, name@));
                    } else if i < k {
                        lemma_name_less_total(e[i as int].0, name@);
                        assert(name_less(e[i as int].0, e[k].0));
                    }
                }
            }
            None
        }
    }

    /// Let `name` have `value`, whatever it had before.
    pub fn set(&mut self, name: String, value: V)
        ensures
            final(self)@ == old(self)@.insert(name@, value@),
    {
        let i = self.position(name.as_str());
        let present = i < self.list.len() && str_eq(self.list[i].0.as_str(), name.as_str());
        let ghost e = self.entries();
        let ghost k = name@;
        let ghost w = value@;
        proof {
            use_type_invariant(&*self);
            assert forall|j: int| 0 <= j < i implies name_less((#[trigger] e[j]).0, k) by {
                assert(e[j].0 == self.list@[j].0@);
            }
            if i < e.len() {
                assert(e[i as int].0 == self.list@[i as int].0@);
                if e[i as int].0 != k {
                    lemma_name_less_total(e[i as int].0, k);
                }
            }
        }
        let mut list: Vec<(String, V)> = Vec::new();
        core::mem::swap(&mut self.list, &mut list);
        assert(e == list@.map_values(|p: (String, V)| (p.0@, p.1@)));
        if present {
            list.set(i, (name, value));
            proof {
                assert(list@.map_values(|p: (String, V)| (p.0@, p.1@)) =~= e.update(i as int, (k, w)));
                lemma_update_entry(e, i as int, w);
            }
        } else {
            list.insert(i, (name, value));
            proof {
                assert(list@.map_values(|p: (String, V)| (p.0@, p.1@)) =~= e.insert(i as int, (k, w)));
                lemma_insert_entry(e, i as int, k, w);
            }
        }
        *self = NameMap { list };
    }
}

impl<V: Duplicate> NameMap<V> {
    /// A copy, entry for entry.
    pub fn copy(&self) -> (r: NameMap<V>)
        ensures
            r.entries() == self.entries(),
    {
        let n = self.len();
        let mut values: Vec<V> = Vec::new();
        let mut i: usize = 0;
        while i < n
            invariant
                i <= n,
                n == self.entries().len(),
                values@.len() == i,
                forall|j: int| 0 <= j < i ==> (#[trigger] values@[j])@ == self.entries()[j].1,
            decreases n - i,
        {
            values.push(self.value_at(i).duplicate());
            i = i + 1;
        }
        let r = self.with_values(values);
        assert(r.entries() =~= self.entries());
        r
    }

    /// Let every name of `other` have its value there.
    pub fn set_all(&mut self, other: &NameMap<V>)
        ensures
            final(self)@ == old(self)@.union_prefer_right(other@),
    {
        let ghost e = other.entries();
        let n = other.len();
        let mut i: usize = 0;
        proof {
            assert(map_of(e.take(0)) =~= Map::<Seq<char>, V::V>::empty());
            assert(self@.union_prefer_right(map_of(e.take(0))) =~= self@);
        }
        while i < n
            invariant
                i <= n,
                n == e.len(),
                e == other.entries(),
                ascending(e),
                self@ == old(self)@.union_prefer_right(map_of(e.take(i as int))),
            decreases n - i,
        {
            let name = other.name_at(i).clone();
            let value = other.value_at(i).duplicate();
            self.set(name, value);
            proof {
                let t = e.take(i + 1);
                assert(t.drop_last() =~= e.take(i as int));
                lemma_map_of_push(t);
                assert(old(self)@.union_prefer_right(map_of(e.take(i as int))).insert(name@, value@)
                    =~= old(self)@.union_prefer_right(map_of(t)));
            }
            i = i + 1;
        }
        assert(e.take(n as int) =~= e);
    }
}

impl<V: Duplicate> Duplicate for NameMap<V> {
    fn duplicate(&self) -> (r: NameMap<V>) {
        self.copy()
    }
}

impl<V: View> View for NameMap<V> {
    type V = Map<Seq<char>, V::V>;

    open spec fn view(&self) -> Map<Seq<char>, V::V> {
        map_of(self.entries())
    }
}

/// Giving an entry another value updates the map at its name.
proof fn lemma_update_entry<W>(e: Seq<(Seq<char>, W)>, i: int, w: W)
    requires
        ascending(e),
        0 <= i < e.len(),
    ensures
        ascending(e.update(i, (e[i].0, w))),
        map_of(e.update(i, (e[i].0, w))) == map_of(e).insert(e[i].0, w),
{
    let f = e.update(i, (e[i].0, w));
    assert(forall|j: int| 0 <= j < e.len() ==> f[j].0 == e[j].0);
    assert(ascending(f));
    assert forall|name: Seq<char>| #[trigger]
        map_of(f).contains_key(name) == map_of(e).insert(e[i].0, w).contains_key(name) by {
        lemma_map_of_domain(f, name);
        lemma_map_of_domain(e, name);
        if names_entry(e, name) {
            let j = choose|j: int| 0 <= j < e.len() && (#[trigger] e[j]).0 == name;
            assert(f[j].0 == name);
        }
        if names_entry(f, name) {
            let j = choose|j: int| 0 <= j < f.len() && (#[trigger] f[j]).0 == name;
            assert(e[j].0 == name);
        }
        assert(f[i].0 == e[i].0);
    }
    assert forall|name: Seq<char>| #[trigger]
        map_of(f).contains_key(name) implies map_of(f)[name] == map_of(e).insert(
        e[i].0,
        w,
    )[name] by {
        lemma_map_of_domain(f, name);
        let j = choose|j: int| 0 <= j < f.len() && (#[trigger] f[j]).0 == name;
        assert(0 <= j < f.len() && f[j].0 == name);
        lemma_map_of(f, j);
        lemma_map_of(e, j);
        lemma_name_less_irreflexive(name);
        if i < j {
            assert(name_less(e[i].0, e[j].0));
        } else if j < i {
            assert(name_less(e[j].0, e[i].0));
        }
    }
    assert(map_of(f) =~= map_of(e).insert(e[i].0, w));
}

/// Inserting an entry where its name belongs inserts it into the map.
proof fn lemma_insert_entry<W>(e: Seq<(Seq<char>, W)>, i: int, k: Seq<char>, w: W)
    requires
        ascending(e),
        0 <= i <= e.len(),
        forall|j: int| 0 <= j < i ==> name_less((#[trigger] e[j]).0, k),
        i < e.len() ==> name_less(k, e[i].0),
    ensures
        ascending(e.insert(i, (k, w))),
        map_of(e.insert(i, (k, w))) == map_of(e).insert(k, w),
{
    let f = e.insert(i, (k, w));
    assert forall|j: int| i <= j < e.len() implies name_less(k, (#[trigger] e[j]).0) by {
        if i < j {
            assert(name_less(e[i].0, e[j].0));
            lemma_name_less_transitive(k, e[i].0, e[j].0);
        }
    }
    assert forall|a: int, b: int| 0 <= a < b < f.len() implies name_less(
        #[trigger] f[a].0,
        #[trigger] f[b].0,
    ) by {
        let x = if a < i {
            a
        } else {
            a - 1
        };
        let y = if b < i {
            b
        } else {
            b - 1
        };
        if a != i && b != i {
            assert(f[a] == e[x] && f[b] == e[y]);
            assert(name_less(e[x].0, e[y].0));
        } else if a == i {
            assert(f[b] == e[y]);
        } else {
            assert(f[a] == e[x]);
        }
    }
    assert forall|name: Seq<char>| #[trigger]
        map_of(f).contains_key(name) == map_of(e).insert(k, w).contains_key(name) by {
        lemma_map_of_domain(f, name);
        lemma_map_of_domain(e, name);
        if names_entry(e, name) {
            let j = choose|j: int| 0 <= j < e.len() && (#[trigger] e[j]).0 == name;
            if j < i {
                assert(f[j].0 == name);
            } else {
                assert(f[j + 1].0 == name);
            }
        }
        if names_entry(f, name) && name != k {
            let j = choose|j: int| 0 <= j < f.len() && (#[trigger] f[j]).0 == name;
            if j < i {
                assert(e[j].0 == name);
            } else {
                assert(e[j - 1].0 == name);
            }
        }
        assert(f[i].0 == k);
    }
    assert forall|name: Seq<char>| #[trigger]
        map_of(f).contains_key(name) implies map_of(f)[name] == map_of(e).insert(k, w)[name] by {
        lemma_map_of_domain(f, name);
        let j = choose|j: int| 0 <= j < f.len() && (#[trigger] f[j]).0 == name;
        assert(0 <= j < f.len() && f[j].0 == name);
        lemma_map_of(f, j);
        lemma_name_less_irreflexive(name);
        if j < i {
            assert(f[j] == e[j]);
            lemma_map_of(e, j);
            assert(name_less(f[j].0, f[i].0));
        } else if j > i {
            assert(f[j] == e[j - 1]);
            lemma_map_of(e, j - 1);
            assert(name_less(f[i].0, f[j].0));
        }
    }
    assert(map_of(f) =~= map_of(e).insert(k, w));
}

/// Names are ordered as in a dictionary: where two part, the characters
/// there decide, and a name comes before every longer one that begins with
/// it.
pub proof fn law_names_are_ordered_as_in_a_dictionary(
    common: Seq<char>,
    x: char,
    y: char,
    a: Seq<char>,
    b: Seq<char>,
)
    ensures
        x != y ==> (name_less(common + seq![x] + a, common + seq![y] + b) <==> (x as u32) < (
        y as u32)),
        name_less(common, common + seq![y] + b),
        !name_less(common + seq![y] + b, common),
        !name_less(common, common),
    decreases common.len(),
{
    let p = common + seq![x] + a;
    let q = common + seq![y] + b;
    if common.len() > 0 {
        let rest = common.skip(1);
        law_names_are_ordered_as_in_a_dictionary(rest, x, y, a, b);
        assert(p.skip(1) =~= rest + seq![x] + a);
        assert(q.skip(1) =~= rest + seq![y] + b);
        assert(p[0] == common[0] && q[0] == common[0]);
    } else {
        assert(p[0] == x && q[0] == y);
    }
}

} // verus!
