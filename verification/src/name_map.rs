//! A map from names to values that keeps its entries sorted by name.
//!
//! Every name occurs at most once, and the entries are walked in the order
//! [`precedes`] of their names, so that whatever is built from a map does not
//! depend on the order in which it was filled.
//!
//! The map is built on a sorted vector. vstd states what a `BTreeMap` holds
//! only for keys whose order it knows, and it does not know that of `String`:
//! Verus accepts the calls on a `BTreeMap<String, V>` and proves nothing of
//! what they return, not even that a map holds the name that was just put
//! into it.

use crate::text::{lemma_precedes_irreflexive, lemma_precedes_transitive, order, precedes, Sign};
use vstd::prelude::*;

verus! {

/// The names of `entries` strictly increase.
pub open spec fn sorted<V>(entries: Seq<(Seq<char>, V)>) -> bool {
    forall|i: int, j: int|
        0 <= i < j < entries.len() ==> precedes(#[trigger] entries[i].0, #[trigger] entries[j].0)
}

/// `entries` holds `name` at position `i`.
pub open spec fn holds_at<V>(entries: Seq<(Seq<char>, V)>, i: int, name: Seq<char>) -> bool {
    0 <= i < entries.len() && entries[i].0 == name
}

/// Some entry of `entries` has the name `name`.
pub open spec fn has_name<V>(entries: Seq<(Seq<char>, V)>, name: Seq<char>) -> bool {
    exists|i: int| holds_at(entries, i, name)
}

/// The value of the first entry of `entries` named `name`.
pub open spec fn value_of<V>(entries: Seq<(Seq<char>, V)>, name: Seq<char>) -> V {
    entries[choose|i: int| holds_at(entries, i, name)].1
}

/// In a sorted sequence a name stands at one position only.
pub proof fn lemma_sorted_position_unique<V>(
    entries: Seq<(Seq<char>, V)>,
    i: int,
    j: int,
    name: Seq<char>,
)
    requires
        sorted(entries),
        holds_at(entries, i, name),
        holds_at(entries, j, name),
    ensures
        i == j,
{
    lemma_precedes_irreflexive(name);
    if i < j {
        assert(precedes(entries[i].0, entries[j].0));
    } else if j < i {
        assert(precedes(entries[j].0, entries[i].0));
    }
}

/// Two sorted sequences that hold the same names with the same values are the
/// same sequence.
pub proof fn lemma_sorted_canonical<V>(a: Seq<(Seq<char>, V)>, b: Seq<(Seq<char>, V)>)
    requires
        sorted(a),
        sorted(b),
        forall|name: Seq<char>| has_name(a, name) == has_name(b, name),
        forall|name: Seq<char>| has_name(a, name) ==> value_of(a, name) == value_of(b, name),
    ensures
        a == b,
    decreases a.len(),
{
    if a.len() == 0 {
        if b.len() > 0 {
            assert(holds_at(b, 0, b[0].0));
            assert(has_name(a, b[0].0));
        }
        assert(a =~= b);
    } else if b.len() == 0 {
        assert(holds_at(a, 0, a[0].0));
        assert(has_name(b, a[0].0));
    } else {
        // The two greatest names coincide.
        let la = a.len() - 1;
        let lb = b.len() - 1;
        assert(holds_at(a, la, a[la].0));
        assert(has_name(b, a[la].0));
        let ib = choose|i: int| holds_at(b, i, a[la].0);
        assert(holds_at(b, lb, b[lb].0));
        assert(has_name(a, b[lb].0));
        let ia = choose|i: int| holds_at(a, i, b[lb].0);
        lemma_precedes_irreflexive(a[la].0);
        if ib < lb {
            assert(precedes(b[ib].0, b[lb].0));
            if ia < la {
                assert(precedes(a[ia].0, a[la].0));
                lemma_precedes_transitive(a[la].0, b[lb].0, a[la].0);
            }
        }
        assert(a[la].0 == b[lb].0);
        lemma_sorted_position_unique(a, la, choose|i: int| holds_at(a, i, a[la].0), a[la].0);
        lemma_sorted_position_unique(b, lb, choose|i: int| holds_at(b, i, a[la].0), a[la].0);
        assert(a[la].1 == b[lb].1);
        let a1 = a.drop_last();
        let b1 = b.drop_last();
        assert forall|name: Seq<char>| has_name(a1, name) == has_name(b1, name) by {
            lemma_drop_last_names(a, name);
            lemma_drop_last_names(b, name);
        }
        assert forall|name: Seq<char>| has_name(a1, name) implies value_of(a1, name) == value_of(
            b1,
            name,
        ) by {
            lemma_drop_last_names(a, name);
            lemma_drop_last_names(b, name);
        }
        lemma_sorted_canonical(a1, b1);
        assert(a =~= a1.push(a[la]));
        assert(b =~= b1.push(b[lb]));
    }
}

/// What a sorted sequence without its last entry holds: every name but the
/// last, with its value.
proof fn lemma_drop_last_names<V>(a: Seq<(Seq<char>, V)>, name: Seq<char>)
    requires
        sorted(a),
        a.len() > 0,
    ensures
        sorted(a.drop_last()),
        has_name(a.drop_last(), name) == (has_name(a, name) && name != a.last().0),
        has_name(a.drop_last(), name) ==> value_of(a.drop_last(), name) == value_of(a, name),
{
    let a1 = a.drop_last();
    let la = a.len() - 1;
    assert forall|i: int, j: int| 0 <= i < j < a1.len() implies precedes(
        #[trigger] a1[i].0,
        #[trigger] a1[j].0,
    ) by {
        assert(precedes(a[i].0, a[j].0));
    }
    lemma_precedes_irreflexive(name);
    if has_name(a1, name) {
        let i = choose|i: int| holds_at(a1, i, name);
        assert(holds_at(a, i, name));
        assert(precedes(a[i].0, a[la].0));
        let k = choose|i: int| holds_at(a, i, name);
        lemma_sorted_position_unique(a, i, k, name);
    }
    if has_name(a, name) && name != a.last().0 {
        let i = choose|i: int| holds_at(a, i, name);
        assert(holds_at(a1, i, name));
    }
}

/// The order in which a map is walked follows from what the map holds: two
/// maps that hold the same values under the same names have the same entries,
/// in whatever order each of them was filled.
pub proof fn lemma_view_determines_entries<V>(first: NameMap<V>, second: NameMap<V>)
    requires
        first.well_formed(),
        second.well_formed(),
        first@ == second@,
    ensures
        first.entries() == second.entries(),
{
    let a = first.entries();
    let b = second.entries();
    assert forall|name: Seq<char>| has_name(a, name) == has_name(b, name) by {
        assert(first@.dom().contains(name) == has_name(a, name));
        assert(second@.dom().contains(name) == has_name(b, name));
    }
    assert forall|name: Seq<char>| has_name(a, name) implies value_of(a, name) == value_of(
        b,
        name,
    ) by {
        assert(first@.dom().contains(name));
        assert(second@.dom().contains(name));
        assert(first@[name] == value_of(a, name));
        assert(second@[name] == value_of(b, name));
    }
    lemma_sorted_canonical(a, b);
}

/// The stored entries, each name by its characters.
spec fn viewed<V>(items: Seq<(String, V)>) -> Seq<(Seq<char>, V)> {
    Seq::new(items.len(), |i: int| (items[i].0@, items[i].1))
}

/// A map from names to values, sorted by name.
#[derive(Debug, PartialEq, Eq)]
pub struct NameMap<V> {
    items: Vec<(String, V)>,
}

impl<V> View for NameMap<V> {
    type V = Map<Seq<char>, V>;

    /// The map as a mathematical map from a name's characters to its value.
    open spec fn view(&self) -> Map<Seq<char>, V> {
        Map::new(
            |name: Seq<char>| has_name(self.entries(), name),
            |name: Seq<char>| value_of(self.entries(), name),
        )
    }
}

impl<V> NameMap<V> {
    /// The entries in the order in which the map is walked.
    pub closed spec fn entries(&self) -> Seq<(Seq<char>, V)> {
        viewed(self.items@)
    }

    /// Every map keeps its entries sorted, and so holds no name twice.
    #[verifier::type_invariant]
    pub open spec fn well_formed(&self) -> bool {
        sorted(self.entries())
    }

    /// A map without entries.
    pub fn new() -> (m: Self)
        ensures
            m.entries() == Seq::<(Seq<char>, V)>::empty(),
            m@ == Map::<Seq<char>, V>::empty(),
    {
        let m = NameMap { items: Vec::new() };
        assert(m.entries() =~= Seq::<(Seq<char>, V)>::empty());
        assert(m@ =~= Map::<Seq<char>, V>::empty());
        m
    }

    /// The number of entries.
    pub fn len(&self) -> (n: usize)
        ensures
            n == self.entries().len(),
            sorted(self.entries()),
    {
        proof {
            use_type_invariant(self);
        }
        self.items.len()
    }

    /// Whether the map has no entries.
    pub fn is_empty(&self) -> (r: bool)
        ensures
            r == (self.entries().len() == 0),
    {
        self.items.len() == 0
    }

    /// The name of the entry at position `i`.
    pub fn name_at(&self, i: usize) -> (name: &String)
        requires
            i < self.entries().len(),
        ensures
            name@ == self.entries()[i as int].0,
            self@.dom().contains(name@),
    {
        assert(holds_at(self.entries(), i as int, self.entries()[i as int].0));
        &self.items[i].0
    }

    /// The value of the entry at position `i`.
    pub fn value_at(&self, i: usize) -> (value: &V)
        requires
            i < self.entries().len(),
        ensures
            *value == self.entries()[i as int].1,
            *value == self@[self.entries()[i as int].0],
    {
        proof {
            use_type_invariant(self);
            let name = self.entries()[i as int].0;
            assert(holds_at(self.entries(), i as int, name));
            lemma_sorted_position_unique(
                self.entries(),
                i as int,
                choose|k: int| holds_at(self.entries(), k, name),
                name,
            );
        }
        &self.items[i].1
    }

    /// The position at which `name` stands, or the one at which it would have
    /// to be put.
    fn locate(&self, name: &str) -> (r: (usize, bool))
        ensures
            sorted(self.entries()),
            r.0 <= self.entries().len(),
            r.1 == has_name(self.entries(), name@),
            r.1 ==> holds_at(self.entries(), r.0 as int, name@),
            forall|j: int| 0 <= j < r.0 ==> precedes(#[trigger] self.entries()[j].0, name@),
            forall|j: int|
                r.0 <= j < self.entries().len() && !r.1 ==> precedes(
                    name@,
                    #[trigger] self.entries()[j].0,
                ),
    {
        proof {
            use_type_invariant(self);
        }
        let n: usize = self.items.len();
        let mut i: usize = 0;
        let mut found = false;
        while i < n
            invariant_except_break
                !found,
            invariant
                n == self.entries().len(),
                n == self.items@.len(),
                sorted(self.entries()),
                i <= n,
                forall|j: int| 0 <= j < i ==> precedes(#[trigger] self.entries()[j].0, name@),
            ensures
                found ==> holds_at(self.entries(), i as int, name@),
                !found ==> i == n || precedes(name@, self.entries()[i as int].0),
            decreases n - i,
        {
            match order(self.items[i].0.as_str(), name) {
                Sign::Less => {
                    i += 1;
                },
                Sign::Equal => {
                    found = true;
                    break ;
                },
                Sign::Greater => {
                    break ;
                },
            }
        }
        proof {
            let es = self.entries();
            lemma_precedes_irreflexive(name@);
            if !found {
                assert forall|j: int| i <= j < es.len() implies precedes(
                    name@,
                    #[trigger] es[j].0,
                ) by {
                    if j > i {
                        assert(precedes(es[i as int].0, es[j].0));
                        lemma_precedes_transitive(name@, es[i as int].0, es[j].0);
                    }
                }
                if has_name(es, name@) {
                    let k = choose|k: int| holds_at(es, k, name@);
                    if k < i {
                        assert(precedes(es[k].0, name@));
                    } else {
                        assert(precedes(name@, es[k].0));
                    }
                }
            }
        }
        (i, found)
    }

    /// Whether the map holds `name`.
    pub fn contains_key(&self, name: &str) -> (r: bool)
        ensures
            r == self@.dom().contains(name@),
    {
        let (_, found) = self.locate(name);
        found
    }

    /// The value that the map holds for `name`.
    pub fn get(&self, name: &str) -> (r: Option<&V>)
        ensures
            r is Some == self@.dom().contains(name@),
            r is Some ==> *r->0 == self@[name@],
    {
        let (i, found) = self.locate(name);
        if found {
            proof {
                lemma_sorted_position_unique(
                    self.entries(),
                    i as int,
                    choose|k: int| holds_at(self.entries(), k, name@),
                    name@,
                );
            }
            Some(&self.items[i].1)
        } else {
            None
        }
    }

    /// Puts `value` under `name`, in place of what the map held for that name.
    pub fn insert(&mut self, name: String, value: V)
        ensures
            final(self)@ == old(self)@.insert(name@, value),
            sorted(final(self).entries()),
            old(self)@.dom().contains(name@) ==> final(self).entries().len() == old(
                self,
            ).entries().len(),
            !old(self)@.dom().contains(name@) ==> final(self).entries().len() == old(
                self,
            ).entries().len() + 1,
    {
        let (i, found) = self.locate(name.as_str());
        let ghost before = self.entries();
        let ghost key = name@;
        let ghost prior = self@;
        let mut items: Vec<(String, V)> = Vec::new();
        std::mem::swap(&mut self.items, &mut items);
        assert(viewed(self.items@) =~= Seq::<(Seq<char>, V)>::empty());
        if found {
            items.set(i, (name, value));
            proof {
                assert(viewed(items@) =~= before.update(i as int, (key, value)));
                lemma_update_keeps_sorted(before, i as int, value);
                lemma_update_is_insert(before, i as int, value);
            }
        } else {
            items.insert(i, (name, value));
            proof {
                assert(viewed(items@) =~= before.insert(i as int, (key, value)));
                lemma_insert_keeps_sorted(before, i as int, key, value);
                lemma_insert_is_insert(before, i as int, key, value);
            }
        }
        self.items = items;
        assert(self@ =~= prior.insert(key, value));
    }
}

/// Replacing the value of an entry leaves a sorted sequence sorted.
proof fn lemma_update_keeps_sorted<V>(es: Seq<(Seq<char>, V)>, i: int, value: V)
    requires
        sorted(es),
        0 <= i < es.len(),
    ensures
        sorted(es.update(i, (es[i].0, value))),
{
    let after = es.update(i, (es[i].0, value));
    assert forall|a: int, b: int| 0 <= a < b < after.len() implies precedes(
        #[trigger] after[a].0,
        #[trigger] after[b].0,
    ) by {
        assert(precedes(es[a].0, es[b].0));
    }
}

/// After the value of an entry is replaced, the sequence holds the same names,
/// the new value under the entry's name and the old values elsewhere.
proof fn lemma_update_is_insert<V>(es: Seq<(Seq<char>, V)>, i: int, value: V)
    requires
        sorted(es),
        0 <= i < es.len(),
    ensures
        forall|name: Seq<char>|
            has_name(es.update(i, (es[i].0, value)), name) == (has_name(es, name) || name
                == es[i].0),
        value_of(es.update(i, (es[i].0, value)), es[i].0) == value,
        forall|name: Seq<char>|
            has_name(es, name) && name != es[i].0 ==> value_of(
                es.update(i, (es[i].0, value)),
                name,
            ) == value_of(es, name),
{
    let key = es[i].0;
    let after = es.update(i, (key, value));
    lemma_update_keeps_sorted(es, i, value);
    assert forall|name: Seq<char>| has_name(after, name) == (has_name(es, name) || name
        == key) by {
        if has_name(after, name) {
            let k = choose|k: int| holds_at(after, k, name);
            assert(holds_at(es, k, name));
        }
        if has_name(es, name) {
            let k = choose|k: int| holds_at(es, k, name);
            assert(holds_at(after, k, name));
        }
        if name == key {
            assert(holds_at(after, i, name));
        }
    }
    assert(holds_at(after, i, key));
    lemma_sorted_position_unique(after, i, choose|k: int| holds_at(after, k, key), key);
    assert forall|name: Seq<char>| has_name(es, name) && name != key implies value_of(
        after,
        name,
    ) == value_of(es, name) by {
        let k = choose|k: int| holds_at(es, k, name);
        assert(holds_at(after, k, name));
        lemma_sorted_position_unique(after, k, choose|k: int| holds_at(after, k, name), name);
    }
}

/// Putting a new name at the place where the order wants it leaves a sorted
/// sequence sorted.
proof fn lemma_insert_keeps_sorted<V>(es: Seq<(Seq<char>, V)>, i: int, key: Seq<char>, value: V)
    requires
        sorted(es),
        0 <= i <= es.len(),
        forall|j: int| 0 <= j < i ==> precedes(#[trigger] es[j].0, key),
        forall|j: int| i <= j < es.len() ==> precedes(key, #[trigger] es[j].0),
    ensures
        sorted(es.insert(i, (key, value))),
{
    let after = es.insert(i, (key, value));
    assert forall|a: int, b: int| 0 <= a < b < after.len() implies precedes(
        #[trigger] after[a].0,
        #[trigger] after[b].0,
    ) by {
        if b < i {
            assert(precedes(es[a].0, es[b].0));
        } else if b == i {
            assert(precedes(es[a].0, key));
        } else if a < i {
            assert(precedes(es[a].0, es[b - 1].0));
        } else if a == i {
            assert(precedes(key, es[b - 1].0));
        } else {
            assert(precedes(es[a - 1].0, es[b - 1].0));
        }
    }
}

/// After a new name is put in, the sequence holds it with its value, and
/// whatever it held before.
proof fn lemma_insert_is_insert<V>(es: Seq<(Seq<char>, V)>, i: int, key: Seq<char>, value: V)
    requires
        sorted(es),
        sorted(es.insert(i, (key, value))),
        0 <= i <= es.len(),
        !has_name(es, key),
    ensures
        forall|name: Seq<char>|
            has_name(es.insert(i, (key, value)), name) == (has_name(es, name) || name == key),
        value_of(es.insert(i, (key, value)), key) == value,
        forall|name: Seq<char>|
            has_name(es, name) ==> value_of(es.insert(i, (key, value)), name) == value_of(
                es,
                name,
            ),
{
    let after = es.insert(i, (key, value));
    assert forall|name: Seq<char>| has_name(after, name) == (has_name(es, name) || name
        == key) by {
        if has_name(after, name) {
            let k = choose|k: int| holds_at(after, k, name);
            if k < i {
                assert(holds_at(es, k, name));
            } else if k > i {
                assert(holds_at(es, k - 1, name));
            }
        }
        if has_name(es, name) {
            let k = choose|k: int| holds_at(es, k, name);
            if k < i {
                assert(holds_at(after, k, name));
            } else {
                assert(holds_at(after, k + 1, name));
            }
        }
        if name == key {
            assert(holds_at(after, i, name));
        }
    }
    assert(holds_at(after, i, key));
    lemma_sorted_position_unique(after, i, choose|k: int| holds_at(after, k, key), key);
    assert forall|name: Seq<char>| has_name(es, name) implies value_of(after, name) == value_of(
        es,
        name,
    ) by {
        let k = choose|k: int| holds_at(es, k, name);
        let k2 = if k < i { k } else { k + 1 };
        assert(holds_at(after, k2, name));
        lemma_sorted_position_unique(after, k2, choose|k: int| holds_at(after, k, name), name);
    }
}

} // verus!
