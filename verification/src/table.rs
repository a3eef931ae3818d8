//! A finite map from names to text, kept as a list in the order of the
//! names, so that it is listed in one order whatever the order in which it
//! was filled.

use crate::text::{
    lemma_precedes_asymmetric, lemma_precedes_connected, lemma_precedes_irreflexive,
    lemma_precedes_transitive, precedes, same_text, text_precedes,
};
use vstd::prelude::*;

verus! {

/// The views of a list of pairs of strings.
pub open spec fn pairs(v: Seq<(String, String)>) -> Seq<(Seq<char>, Seq<char>)> {
    Seq::new(v.len(), |i: int| (v[i].0@, v[i].1@))
}

/// Whether entry `i` of `entries` is the one named `k`.
pub open spec fn names(entries: Seq<(Seq<char>, Seq<char>)>, k: Seq<char>, i: int) -> bool {
    0 <= i < entries.len() && entries[i].0 == k
}

/// Whether the names of `entries` stand in strictly increasing order.
pub open spec fn increasing(entries: Seq<(Seq<char>, Seq<char>)>) -> bool {
    forall|i: int, j: int|
        0 <= i < j < entries.len() ==> precedes(#[trigger] entries[i].0, #[trigger] entries[j].0)
}

/// The map that a list of entries stands for.
pub open spec fn map_of(entries: Seq<(Seq<char>, Seq<char>)>) -> Map<Seq<char>, Seq<char>> {
    Map::new(
        |k: Seq<char>| exists|i: int| names(entries, k, i),
        |k: Seq<char>| entries[choose|i: int| names(entries, k, i)].1,
    )
}

/// Whether `list` holds exactly the pairs of `m`, in the order of their names.
pub open spec fn lists(list: Seq<(Seq<char>, Seq<char>)>, m: Map<Seq<char>, Seq<char>>) -> bool {
    &&& increasing(list)
    &&& forall|i: int|
        0 <= i < list.len() ==> m.contains_key(#[trigger] list[i].0) && m[list[i].0] == list[i].1
    &&& forall|k: Seq<char>| m.contains_key(k) ==> exists|i: int| names(list, k, i)
}

/// In a list with increasing names each name occurs once, and the map holds
/// under it the text that stands beside it.
pub proof fn lemma_map_of(entries: Seq<(Seq<char>, Seq<char>)>)
    requires
        increasing(entries),
    ensures
        lists(entries, map_of(entries)),
{
    let m = map_of(entries);
    assert forall|i: int| 0 <= i < entries.len() implies m.contains_key(#[trigger] entries[i].0)
        && m[entries[i].0] == entries[i].1 by {
        let k = entries[i].0;
        assert(names(entries, k, i));
        let j = choose|j: int| names(entries, k, j);
        lemma_precedes_irreflexive(k);
        if i < j {
            assert(precedes(entries[i].0, entries[j].0));
        }
        if j < i {
            assert(precedes(entries[j].0, entries[i].0));
        }
    }
}

/// Two lists of the same map are the same list: the order in which a table
/// is listed is fixed by what it holds.
pub proof fn lemma_listing_unique(
    a: Seq<(Seq<char>, Seq<char>)>,
    b: Seq<(Seq<char>, Seq<char>)>,
    m: Map<Seq<char>, Seq<char>>,
)
    requires
        lists(a, m),
        lists(b, m),
    ensures
        a.len() == b.len(),
        forall|i: int| 0 <= i < a.len() ==> a[i].0 == b[i].0 && a[i].1 == b[i].1,
    decreases a.len(),
{
    if a.len() == 0 {
        if b.len() > 0 {
            assert(m.contains_key(b[0].0));
            let i = choose|i: int| names(a, b[0].0, i);
            assert(names(a, b[0].0, i));
        }
    } else if b.len() == 0 {
        assert(m.contains_key(a[0].0));
        let i = choose|i: int| names(b, a[0].0, i);
        assert(names(b, a[0].0, i));
    } else {
        let x = a.last().0;
        let y = b.last().0;
        assert(m.contains_key(x) && m.contains_key(y));
        let i = choose|i: int| names(b, x, i);
        let j = choose|j: int| names(a, y, j);
        assert(names(b, x, i) && names(a, y, j));
        lemma_precedes_asymmetric(x, y);
        lemma_precedes_irreflexive(x);
        if i < b.len() - 1 {
            assert(precedes(b[i].0, b[b.len() - 1].0));
        }
        if j < a.len() - 1 {
            assert(precedes(a[j].0, a[a.len() - 1].0));
        }
        assert(x == y);
        let m1 = m.remove(x);
        let a1 = a.drop_last();
        let b1 = b.drop_last();
        assert(lists(a1, m1)) by {
            lemma_rest_lists(a, m);
        }
        assert(lists(b1, m1)) by {
            lemma_rest_lists(b, m);
        }
        lemma_listing_unique(a1, b1, m1);
        assert forall|k: int| 0 <= k < a.len() implies a[k].0 == b[k].0 && a[k].1 == b[k].1 by {
            if k < a.len() - 1 {
                assert(a1[k] == a[k] && b1[k] == b[k]);
            }
        }
    }
}

/// A list without its last pair lists the map without that pair's name.
proof fn lemma_rest_lists(a: Seq<(Seq<char>, Seq<char>)>, m: Map<Seq<char>, Seq<char>>)
    requires
        lists(a, m),
        a.len() > 0,
    ensures
        lists(a.drop_last(), m.remove(a.last().0)),
{
    let x = a.last().0;
    let a1 = a.drop_last();
    let m1 = m.remove(x);
    lemma_precedes_irreflexive(x);
    assert forall|i: int, j: int| 0 <= i < j < a1.len() implies precedes(
        #[trigger] a1[i].0,
        #[trigger] a1[j].0,
    ) by {
        assert(a1[i] == a[i] && a1[j] == a[j]);
    }
    assert forall|i: int| 0 <= i < a1.len() implies m1.contains_key(#[trigger] a1[i].0)
        && m1[a1[i].0] == a1[i].1 by {
        assert(a1[i] == a[i]);
        assert(precedes(a[i].0, a[a.len() - 1].0));
    }
    assert forall|k: Seq<char>| m1.contains_key(k) implies exists|i: int| names(a1, k, i) by {
        let i = choose|i: int| names(a, k, i);
        assert(names(a, k, i));
        assert(names(a1, k, i));
    }
}

/// The pairs of a map in the order of their names.
pub open spec fn listing(m: Map<Seq<char>, Seq<char>>) -> Seq<(Seq<char>, Seq<char>)> {
    choose|list: Seq<(Seq<char>, Seq<char>)>| lists(list, m)
}

/// A list of a map is the listing of that map.
pub proof fn lemma_listing(list: Seq<(Seq<char>, Seq<char>)>, m: Map<Seq<char>, Seq<char>>)
    requires
        lists(list, m),
    ensures
        listing(m) == list,
{
    lemma_listing_unique(list, listing(m), m);
}

/// A finite map from names to text.
#[derive(Debug)]
pub struct Table {
    entries: Vec<(String, String)>,
}

impl View for Table {
    type V = Map<Seq<char>, Seq<char>>;

    closed spec fn view(&self) -> Map<Seq<char>, Seq<char>> {
        map_of(pairs(self.entries@))
    }
}

/// Where `name` stands in `entries`, or where it would have to be put.
fn locate(entries: &Vec<(String, String)>, name: &str) -> (r: (usize, bool))
    requires
        increasing(pairs(entries@)),
    ensures
        r.0 <= entries.len(),
        forall|j: int| 0 <= j < r.0 ==> precedes(#[trigger] pairs(entries@)[j].0, name@),
        r.1 ==> r.0 < entries.len() && pairs(entries@)[r.0 as int].0 == name@,
        !r.1 ==> (r.0 == entries.len() || precedes(name@, pairs(entries@)[r.0 as int].0)),
        r.1 == map_of(pairs(entries@)).contains_key(name@),
{
    let ghost list = pairs(entries@);
    let mut i: usize = 0;
    let mut found = false;
    while i < entries.len()
        invariant_except_break
            !found,
        invariant
            list == pairs(entries@),
            i <= entries.len(),
            forall|j: int| 0 <= j < i ==> precedes(#[trigger] list[j].0, name@),
        ensures
            i <= entries.len(),
            forall|j: int| 0 <= j < i ==> precedes(#[trigger] list[j].0, name@),
            found ==> i < entries.len() && list[i as int].0 == name@,
            !found ==> (i == entries.len() || precedes(name@, list[i as int].0)),
        decreases entries.len() - i,
    {
        assert(list[i as int].0 == entries@[i as int].0@);
        if same_text(entries[i].0.as_str(), name) {
            found = true;
            break ;
        }
        if text_precedes(name, entries[i].0.as_str()) {
            break ;
        }
        proof {
            lemma_precedes_connected(list[i as int].0, name@);
        }
        i += 1;
    }
    proof {
        if found {
            assert(names(list, name@, i as int));
        } else if map_of(list).contains_key(name@) {
            let j = choose|j: int| names(list, name@, j);
            assert(names(list, name@, j));
            lemma_precedes_irreflexive(name@);
            if j < i {
                assert(precedes(list[j].0, name@));
            } else {
                if j > i {
                    assert(precedes(list[i as int].0, list[j].0));
                }
                lemma_precedes_asymmetric(name@, list[i as int].0);
            }
        }
    }
    (i, found)
}

impl Table {
    #[verifier::type_invariant]
    spec fn in_order(&self) -> bool {
        increasing(pairs(self.entries@))
    }

    /// A table that holds nothing.
    pub fn new() -> (r: Table)
        ensures
            r@ == Map::<Seq<char>, Seq<char>>::empty(),
    {
        let r = Table { entries: Vec::new() };
        assert(r@ =~= Map::<Seq<char>, Seq<char>>::empty());
        r
    }

    /// How many names the table holds.
    pub fn len(&self) -> (r: usize)
        ensures
            self@.dom().finite(),
            r == self@.len(),
    {
        proof {
            use_type_invariant(self);
            lemma_domain_size(pairs(self.entries@));
        }
        self.entries.len()
    }

    /// Whether the table holds `name`.
    pub fn contains(&self, name: &str) -> (r: bool)
        ensures
            r == self@.contains_key(name@),
    {
        proof {
            use_type_invariant(self);
        }
        let (_, found) = locate(&self.entries, name);
        found
    }

    /// The text that stands under exactly `name`, if the table holds it.
    pub fn lookup(&self, name: &str) -> (r: Option<String>)
        ensures
            r is Some == self@.contains_key(name@),
            r is Some ==> r->0@ == self@[name@],
    {
        proof {
            use_type_invariant(self);
            lemma_map_of(pairs(self.entries@));
        }
        let (at, found) = locate(&self.entries, name);
        if found {
            assert(pairs(self.entries@)[at as int].1 == self.entries@[at as int].1@);
            Some(self.entries[at].1.clone())
        } else {
            None
        }
    }

    /// Puts `text` under `name`, in place of whatever stood there.
    pub fn insert(&mut self, name: String, text: String)
        ensures
            final(self)@ == old(self)@.insert(name@, text@),
    {
        proof {
            use_type_invariant(&*self);
        }
        let mut entries: Vec<(String, String)> = Vec::new();
        assert(pairs(entries@) =~= Seq::empty());
        std::mem::swap(&mut entries, &mut self.entries);
        let ghost before = pairs(entries@);
        let (at, found) = locate(&entries, name.as_str());
        let ghost pair = (name@, text@);
        if found {
            entries.set(at, (name, text));
            proof {
                assert(pairs(entries@) =~= before.update(at as int, pair));
                lemma_overwrite(before, at as int, pair);
            }
        } else {
            entries.insert(at, (name, text));
            proof {
                assert(pairs(entries@) =~= before.insert(at as int, pair));
                lemma_put_in(before, at as int, pair);
            }
        }
        self.entries = entries;
    }

    /// Takes `name` out of the table and says whether it was there.
    pub fn remove(&mut self, name: &str) -> (r: bool)
        ensures
            r == old(self)@.contains_key(name@),
            final(self)@ == old(self)@.remove(name@),
    {
        proof {
            use_type_invariant(&*self);
        }
        let mut entries: Vec<(String, String)> = Vec::new();
        assert(pairs(entries@) =~= Seq::empty());
        std::mem::swap(&mut entries, &mut self.entries);
        let ghost before = pairs(entries@);
        let (at, found) = locate(&entries, name);
        if found {
            entries.remove(at);
            proof {
                assert(pairs(entries@) =~= before.remove(at as int));
                lemma_take_out(before, at as int);
            }
        } else {
            assert(map_of(before) =~= map_of(before).remove(name@));
        }
        self.entries = entries;
        found
    }

    /// The pairs of the table, in the order of their names.
    pub fn list(&self) -> (r: Vec<(String, String)>)
        ensures
            lists(pairs(r@), self@),
            pairs(r@) == listing(self@),
    {
        let mut out: Vec<(String, String)> = Vec::new();
        let mut i: usize = 0;
        while i < self.entries.len()
            invariant
                i <= self.entries.len(),
                out.len() == i,
                forall|j: int|
                    0 <= j < i ==> (#[trigger] out@[j]).0@ == self.entries@[j].0@ && out@[j].1@
                        == self.entries@[j].1@,
            decreases self.entries.len() - i,
        {
            let name = self.entries[i].0.clone();
            let text = self.entries[i].1.clone();
            out.push((name, text));
            i += 1;
        }
        proof {
            use_type_invariant(self);
            assert(pairs(out@) =~= pairs(self.entries@));
            lemma_map_of(pairs(self.entries@));
            lemma_listing(pairs(self.entries@), self@);
        }
        out
    }
}

impl Clone for Table {
    fn clone(&self) -> (r: Table)
        ensures
            r@ == self@,
    {
        let listed = self.list();
        proof {
            use_type_invariant(self);
            lemma_map_of(pairs(self.entries@));
            lemma_listing(pairs(self.entries@), self@);
        }
        Table { entries: listed }
    }
}

/// Writing a text over the one at position `at` gives the list of the map
/// with the pair inserted.
proof fn lemma_overwrite(before: Seq<(Seq<char>, Seq<char>)>, at: int, pair: (Seq<char>, Seq<char>))
    requires
        increasing(before),
        0 <= at < before.len(),
        before[at].0 == pair.0,
    ensures
        increasing(before.update(at, pair)),
        map_of(before.update(at, pair)) == map_of(before).insert(pair.0, pair.1),
{
    let after = before.update(at, pair);
    assert forall|i: int, j: int| 0 <= i < j < after.len() implies precedes(
        #[trigger] after[i].0,
        #[trigger] after[j].0,
    ) by {
        assert(after[i].0 == before[i].0 && after[j].0 == before[j].0);
    }
    lemma_map_of(before);
    lemma_map_of(after);
    let want = map_of(before).insert(pair.0, pair.1);
    assert forall|k: Seq<char>| want.contains_key(k) implies #[trigger] map_of(after).contains_key(
        k,
    ) && map_of(after)[k] == want[k] by {
        if k == pair.0 {
            assert(names(after, k, at));
        } else {
            let i = choose|i: int| names(before, k, i);
            assert(names(before, k, i));
            assert(after[i] == before[i]);
            assert(names(after, k, i));
        }
    }
    assert forall|k: Seq<char>| map_of(after).contains_key(k) implies #[trigger] want.contains_key(
        k,
    ) by {
        let i = choose|i: int| names(after, k, i);
        assert(names(after, k, i));
        if i != at {
            assert(after[i] == before[i]);
            assert(names(before, k, i));
        }
    }
    assert(map_of(after) =~= want);
}

/// Putting a pair with a new name in at its place gives the list of the map
/// with the pair inserted.
proof fn lemma_put_in(before: Seq<(Seq<char>, Seq<char>)>, at: int, pair: (Seq<char>, Seq<char>))
    requires
        increasing(before),
        0 <= at <= before.len(),
        forall|j: int| 0 <= j < at ==> precedes(#[trigger] before[j].0, pair.0),
        at == before.len() || precedes(pair.0, before[at].0),
    ensures
        increasing(before.insert(at, pair)),
        map_of(before.insert(at, pair)) == map_of(before).insert(pair.0, pair.1),
{
    let after = before.insert(at, pair);
    assert forall|i: int, j: int| 0 <= i < j < after.len() implies precedes(
        #[trigger] after[i].0,
        #[trigger] after[j].0,
    ) by {
        if j == at {
            assert(after[i] == before[i]);
        } else if i == at {
            assert(after[j] == before[j - 1]);
            if j - 1 > at {
                assert(precedes(before[at].0, before[j - 1].0));
                lemma_precedes_transitive(pair.0, before[at].0, before[j - 1].0);
            }
        } else {
            let i0 = if i < at { i } else { i - 1 };
            let j0 = if j < at { j } else { j - 1 };
            assert(after[i] == before[i0] && after[j] == before[j0]);
        }
    }
    lemma_map_of(before);
    lemma_map_of(after);
    let want = map_of(before).insert(pair.0, pair.1);
    assert(after[at] == pair);
    assert forall|k: Seq<char>| want.contains_key(k) implies #[trigger] map_of(after).contains_key(
        k,
    ) && map_of(after)[k] == want[k] by {
        if k == pair.0 {
            assert(names(after, k, at));
        } else {
            let i = choose|i: int| names(before, k, i);
            assert(names(before, k, i));
            let i1 = if i < at { i } else { i + 1 };
            assert(after[i1] == before[i]);
            assert(names(after, k, i1));
        }
    }
    assert forall|k: Seq<char>| map_of(after).contains_key(k) implies #[trigger] want.contains_key(
        k,
    ) by {
        let i = choose|i: int| names(after, k, i);
        assert(names(after, k, i));
        if i != at {
            let i0 = if i < at { i } else { i - 1 };
            assert(after[i] == before[i0]);
            assert(names(before, k, i0));
        }
    }
    assert(map_of(after) =~= want);
}

/// Taking the pair at `at` out of a list gives the list of the map without
/// that pair's name.
proof fn lemma_take_out(before: Seq<(Seq<char>, Seq<char>)>, at: int)
    requires
        increasing(before),
        0 <= at < before.len(),
    ensures
        increasing(before.remove(at)),
        map_of(before.remove(at)) == map_of(before).remove(before[at].0),
{
    let after = before.remove(at);
    let name = before[at].0;
    assert forall|i: int, j: int| 0 <= i < j < after.len() implies precedes(
        #[trigger] after[i].0,
        #[trigger] after[j].0,
    ) by {
        let i0 = if i < at { i } else { i + 1 };
        let j0 = if j < at { j } else { j + 1 };
        assert(after[i] == before[i0] && after[j] == before[j0]);
    }
    lemma_map_of(before);
    lemma_map_of(after);
    let want = map_of(before).remove(name);
    lemma_precedes_irreflexive(name);
    assert forall|k: Seq<char>| want.contains_key(k) implies #[trigger] map_of(after).contains_key(
        k,
    ) && map_of(after)[k] == want[k] by {
        let i = choose|i: int| names(before, k, i);
        assert(names(before, k, i));
        let i1 = if i < at { i } else { i - 1 };
        assert(after[i1] == before[i]);
        assert(names(after, k, i1));
    }
    assert forall|k: Seq<char>| map_of(after).contains_key(k) implies #[trigger] want.contains_key(
        k,
    ) by {
        let i = choose|i: int| names(after, k, i);
        assert(names(after, k, i));
        let i0 = if i < at { i } else { i + 1 };
        assert(after[i] == before[i0]);
        assert(names(before, k, i0));
        if i0 < at {
            assert(precedes(before[i0].0, before[at].0));
        } else {
            assert(precedes(before[at].0, before[i0].0));
        }
    }
    assert(map_of(after) =~= want);
}

/// A list with increasing names stands for a map with as many names as the
/// list has pairs.
proof fn lemma_domain_size(entries: Seq<(Seq<char>, Seq<char>)>)
    requires
        increasing(entries),
    ensures
        map_of(entries).dom().finite(),
        map_of(entries).dom().len() == entries.len(),
    decreases entries.len(),
{
    if entries.len() == 0 {
        assert(map_of(entries).dom() =~= Set::<Seq<char>>::empty());
    } else {
        let rest = entries.drop_last();
        let name = entries.last().0;
        lemma_map_of(entries);
        lemma_rest_lists(entries, map_of(entries));
        assert(increasing(rest));
        lemma_map_of(rest);
        lemma_domain_size(rest);
        lemma_precedes_irreflexive(name);
        assert(map_of(entries).dom() =~= map_of(rest).dom().insert(name)) by {
            assert forall|k: Seq<char>| map_of(rest).dom().insert(name).contains(k) implies map_of(
                entries,
            ).dom().contains(k) by {
                if k == name {
                    assert(names(entries, k, entries.len() - 1));
                } else {
                    let i = choose|i: int| names(rest, k, i);
                    assert(names(rest, k, i));
                    assert(names(entries, k, i));
                }
            }
            assert forall|k: Seq<char>| map_of(entries).dom().contains(k) implies map_of(
                rest,
            ).dom().insert(name).contains(k) by {
                let i = choose|i: int| names(entries, k, i);
                assert(names(entries, k, i));
                if i < entries.len() - 1 {
                    assert(names(rest, k, i));
                }
            }
        }
        assert(!map_of(rest).dom().contains(name)) by {
            if map_of(rest).dom().contains(name) {
                let i = choose|i: int| names(rest, name, i);
                assert(names(rest, name, i));
                assert(precedes(entries[i].0, entries[entries.len() - 1].0));
            }
        }
    }
}

} // verus!
