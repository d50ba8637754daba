//! A table of window entries keyed by program path and kept in name order:
//! the list of windows on screen and the store of remembered layouts.

use vstd::prelude::*;
use crate::item::{Item, ItemView};
use crate::order::{
    compare_names, lemma_name_lt_asymmetric, lemma_name_lt_irreflexive, lemma_name_lt_total,
    lemma_name_lt_transitive, name_lt, NameOrder,
};
use crate::text::chars_of;

verus! {

broadcast use vstd::string::group_string_axioms;

/// The views of a sequence of entries.
pub open spec fn views(s: Seq<Item>) -> Seq<ItemView> {
    s.map_values(|i: Item| i@)
}

/// The contents that inserting `s` one after the other, each under its own
/// name, gives an empty table: for each name, the last entry that carries it.
pub open spec fn map_of_items(s: Seq<ItemView>) -> Map<Seq<char>, ItemView>
    decreases s.len(),
{
    if s.len() == 0 {
        Map::empty()
    } else {
        map_of_items(s.drop_last()).insert(s.last().name, s.last())
    }
}

/// Whether the entries' names strictly increase along `s`.
pub open spec fn sorted_by_name(s: Seq<ItemView>) -> bool {
    forall|i: int, j: int|
        0 <= i < j < s.len() ==> name_lt(#[trigger] s[i].name, #[trigger] s[j].name)
}

/// Whether no two entries of `s` carry the same name.
pub open spec fn names_distinct(s: Seq<ItemView>) -> bool {
    forall|i: int, j: int|
        0 <= i < s.len() && 0 <= j < s.len() && i != j ==> #[trigger] s[i].name
            != #[trigger] s[j].name
}

proof fn lemma_sorted_distinct(s: Seq<ItemView>)
    requires
        sorted_by_name(s),
    ensures
        names_distinct(s),
{
    assert forall|i: int, j: int|
        0 <= i < s.len() && 0 <= j < s.len() && i != j implies #[trigger] s[i].name
        != #[trigger] s[j].name by {
        if i < j {
            assert(name_lt(s[i].name, s[j].name));
            lemma_name_lt_irreflexive(s[i].name);
        } else {
            assert(name_lt(s[j].name, s[i].name));
            lemma_name_lt_irreflexive(s[j].name);
        }
    }
}

proof fn lemma_map_of_items_domain(s: Seq<ItemView>)
    ensures
        forall|k: Seq<char>|
            #[trigger] map_of_items(s).contains_key(k) <==> exists|i: int|
                0 <= i < s.len() && s[i].name == k,
    decreases s.len(),
{
    if s.len() > 0 {
        let p = s.drop_last();
        lemma_map_of_items_domain(p);
        assert(map_of_items(s) == map_of_items(p).insert(s.last().name, s.last()));
        assert forall|k: Seq<char>|
            #[trigger] map_of_items(s).contains_key(k) <==> exists|i: int|
                0 <= i < s.len() && s[i].name == k by {
            if map_of_items(s).contains_key(k) {
                if k == s.last().name {
                    assert(s[s.len() - 1].name == k);
                } else {
                    assert(map_of_items(p).contains_key(k));
                    let i = choose|i: int| 0 <= i < p.len() && p[i].name == k;
                    assert(s[i].name == k);
                }
            }
            if exists|i: int| 0 <= i < s.len() && s[i].name == k {
                let i = choose|i: int| 0 <= i < s.len() && s[i].name == k;
                if i < s.len() - 1 {
                    assert(p[i].name == k);
                    assert(map_of_items(p).contains_key(k));
                } else {
                    assert(s.last().name == k);
                }
            }
        }
    }
}

/// Inserting entries one after the other gives finitely many entries, no
/// more than were inserted, each kept under its own name.
pub proof fn lemma_map_of_items_finite(s: Seq<ItemView>)
    ensures
        map_of_items(s).dom().finite(),
        map_of_items(s).dom().len() <= s.len(),
        forall|k: Seq<char>| #[trigger] map_of_items(s).contains_key(k) ==> map_of_items(s)[k].name
            == k,
    decreases s.len(),
{
    if s.len() > 0 {
        let p = s.drop_last();
        lemma_map_of_items_finite(p);
        assert(map_of_items(s) == map_of_items(p).insert(s.last().name, s.last()));
        assert(map_of_items(s).dom() =~= map_of_items(p).dom().insert(s.last().name));
    }
}

/// Inserting one entry into finitely many adds at most one entry, and keeps
/// every entry under its own name when the inserted one is under its name.
pub proof fn law_insert_grows_by_at_most_one(
    contents: Map<Seq<char>, ItemView>,
    entry: ItemView,
)
    requires
        contents.dom().finite(),
        forall|k: Seq<char>| #[trigger] contents.contains_key(k) ==> contents[k].name == k,
    ensures
        contents.insert(entry.name, entry).dom().finite(),
        contents.insert(entry.name, entry).dom().len() <= contents.dom().len() + 1,
        forall|k: Seq<char>| #[trigger] contents.insert(entry.name, entry).contains_key(k)
            ==> contents.insert(entry.name, entry)[k].name == k,
{
    assert(contents.insert(entry.name, entry).dom() =~= contents.dom().insert(entry.name));
}

/// Loading entries one after the other keeps, for each name, the last entry
/// that carries it, and holds exactly the names that occur.
pub proof fn law_load_keeps_last(s: Seq<ItemView>, i: int)
    requires
        0 <= i < s.len(),
        forall|j: int| i < j < s.len() ==> #[trigger] s[j].name != s[i].name,
    ensures
        map_of_items(s).contains_key(s[i].name),
        map_of_items(s)[s[i].name] == s[i],
        forall|k: Seq<char>|
            #[trigger] map_of_items(s).contains_key(k) <==> exists|j: int|
                0 <= j < s.len() && s[j].name == k,
    decreases s.len(),
{
    lemma_map_of_items_domain(s);
    if i < s.len() - 1 {
        let p = s.drop_last();
        assert forall|j: int| i < j < p.len() implies #[trigger] p[j].name != p[i].name by {
            assert(p[j] == s[j]);
        }
        law_load_keeps_last(p, i);
        assert(s[s.len() - 1].name != s[i].name);
    }
}

proof fn lemma_map_of_distinct(s: Seq<ItemView>)
    requires
        names_distinct(s),
    ensures
        forall|i: int|
            0 <= i < s.len() ==> #[trigger] map_of_items(s).contains_key(s[i].name)
                && map_of_items(s)[s[i].name] == s[i],
        forall|k: Seq<char>|
            #[trigger] map_of_items(s).contains_key(k) <==> exists|i: int|
                0 <= i < s.len() && s[i].name == k,
{
    lemma_map_of_items_domain(s);
    assert forall|i: int| 0 <= i < s.len() implies #[trigger] map_of_items(s).contains_key(
        s[i].name,
    ) && map_of_items(s)[s[i].name] == s[i] by {
        assert forall|j: int| i < j < s.len() implies #[trigger] s[j].name != s[i].name by {
            assert(s[j].name != s[i].name);
        }
        law_load_keeps_last(s, i);
    }
}

/// A name-sorted listing is determined by its contents: two listings sorted
/// by name that hold the same entries under the same names are equal. So
/// the listing of a table, which is sorted and holds its contents, is the
/// only one there is.
pub proof fn law_sorted_listing_unique(a: Seq<ItemView>, b: Seq<ItemView>)
    requires
        sorted_by_name(a),
        sorted_by_name(b),
        map_of_items(a) == map_of_items(b),
    ensures
        a == b,
    decreases a.len() + b.len(),
{
    lemma_sorted_distinct(a);
    lemma_sorted_distinct(b);
    lemma_map_of_distinct(a);
    lemma_map_of_distinct(b);
    if a.len() == 0 || b.len() == 0 {
        if a.len() > 0 {
            assert(map_of_items(a).contains_key(a[0].name));
        }
        if b.len() > 0 {
            assert(map_of_items(b).contains_key(b[0].name));
        }
        assert(a =~= b);
    } else {
        let la = a.last();
        let lb = b.last();
        assert(map_of_items(b).contains_key(la.name));
        assert(map_of_items(a).contains_key(lb.name));
        let ib = choose|i: int| 0 <= i < b.len() && b[i].name == la.name;
        let ia = choose|i: int| 0 <= i < a.len() && a[i].name == lb.name;
        if la.name != lb.name {
            lemma_name_lt_total(la.name, lb.name);
            if name_lt(la.name, lb.name) {
                assert(ia != a.len() - 1);
                assert(name_lt(a[ia].name, la.name));
                lemma_name_lt_asymmetric(la.name, lb.name);
            } else {
                assert(ib != b.len() - 1);
                assert(name_lt(b[ib].name, lb.name));
                lemma_name_lt_asymmetric(la.name, lb.name);
            }
        }
        assert(la.name == lb.name);
        assert(la == map_of_items(a)[la.name]);
        assert(lb == map_of_items(b)[lb.name]);
        let pa = a.drop_last();
        let pb = b.drop_last();
        assert(sorted_by_name(pa));
        assert(sorted_by_name(pb));
        lemma_sorted_distinct(pa);
        lemma_sorted_distinct(pb);
        lemma_map_of_distinct(pa);
        lemma_map_of_distinct(pb);
        assert forall|k: Seq<char>| #[trigger] map_of_items(pa).contains_key(k) implies k
            != la.name by {
            let i = choose|i: int| 0 <= i < pa.len() && pa[i].name == k;
            assert(a[i].name == k);
        }
        assert forall|k: Seq<char>| #[trigger] map_of_items(pb).contains_key(k) implies k
            != lb.name by {
            let i = choose|i: int| 0 <= i < pb.len() && pb[i].name == k;
            assert(b[i].name == k);
        }
        assert(map_of_items(pa) =~= map_of_items(a).remove(la.name));
        assert(map_of_items(pb) =~= map_of_items(b).remove(lb.name));
        law_sorted_listing_unique(pa, pb);
        assert(a =~= pa.push(la));
        assert(b =~= pb.push(lb));
    }
}

/// Entries keyed by the name they carry, kept in name order.
pub struct WindowTable {
    entries: Vec<Item>,
}

impl View for WindowTable {
    type V = Map<Seq<char>, ItemView>;

    closed spec fn view(&self) -> Map<Seq<char>, ItemView> {
        map_of_items(views(self.entries@))
    }
}

impl WindowTable {
    /// The table's internal invariant: its entries are kept in strictly
    /// increasing name order.
    pub closed spec fn wf(&self) -> bool {
        sorted_by_name(views(self.entries@))
    }

    /// A table holds finitely many entries, each under its own name.
    pub proof fn lemma_contents(&self)
        ensures
            self@.dom().finite(),
            forall|k: Seq<char>| #[trigger] self@.contains_key(k) ==> self@[k].name == k,
    {
        lemma_map_of_items_finite(views(self.entries@));
    }

    /// An empty table.
    pub fn new() -> (t: WindowTable)
        ensures
            t.wf(),
            t@ == Map::<Seq<char>, ItemView>::empty(),
    {
        WindowTable { entries: Vec::new() }
    }

    /// Where `key` stands among the entries: the first position whose name
    /// does not come before `key`, and whether that entry carries `key`.
    fn find(&self, key: &Vec<char>) -> (r: (usize, bool))
        requires
            self.wf(),
        ensures
            r.0 <= self.entries.len(),
            forall|j: int|
                0 <= j < r.0 ==> name_lt(#[trigger] views(self.entries@)[j].name, key@),
            r.1 ==> r.0 < self.entries.len() && views(self.entries@)[r.0 as int].name == key@,
            !r.1 ==> forall|j: int|
                r.0 <= j < self.entries.len() ==> name_lt(
                    key@,
                    #[trigger] views(self.entries@)[j].name,
                ),
    {
        let ghost s = views(self.entries@);
        let n = self.entries.len();
        let mut i: usize = 0;
        while i < n
            invariant
                n == self.entries.len(),
                s == views(self.entries@),
                sorted_by_name(s),
                i <= n,
                forall|j: int| 0 <= j < i ==> name_lt(#[trigger] s[j].name, key@),
            decreases n - i,
        {
            let nm = chars_of(self.entries[i].name.as_str());
            assert(nm@ == s[i as int].name);
            match compare_names(&nm, key) {
                NameOrder::Before => {
                    i = i + 1;
                },
                NameOrder::Same => {
                    return (i, true);
                },
                NameOrder::After => {
                    assert forall|j: int| i <= j < n implies name_lt(
                        key@,
                        #[trigger] s[j].name,
                    ) by {
                        if j > i {
                            assert(sorted_by_name(s));
                            assert(name_lt(s[i as int].name, s[j].name));
                            lemma_name_lt_transitive(key@, s[i as int].name, s[j].name);
                        }
                    }
                    return (i, false);
                },
            }
        }
        (n, false)
    }

    /// Whether an entry is kept under `name`.
    pub fn contains(&self, name: &str) -> (r: bool)
        requires
            self.wf(),
        ensures
            r == self@.contains_key(name@),
    {
        let key = chars_of(name);
        let (p, found) = self.find(&key);
        proof {
            let s = views(self.entries@);
            lemma_sorted_distinct(s);
            lemma_map_of_distinct(s);
            if !found {
                if self@.contains_key(name@) {
                    let i = choose|i: int| 0 <= i < s.len() && s[i].name == name@;
                    lemma_name_lt_irreflexive(name@);
                    if i < p {
                        assert(name_lt(s[i].name, key@));
                    } else {
                        assert(name_lt(key@, s[i].name));
                    }
                }
            }
        }
        found
    }

    /// The entry kept under `name`, if any.
    pub fn get(&self, name: &str) -> (r: Option<&Item>)
        requires
            self.wf(),
        ensures
            match r {
                Some(it) => self@.contains_key(name@) && it@ == self@[name@],
                None => !self@.contains_key(name@),
            },
    {
        let key = chars_of(name);
        let (p, found) = self.find(&key);
        proof {
            let s = views(self.entries@);
            lemma_sorted_distinct(s);
            lemma_map_of_distinct(s);
            if !found {
                if self@.contains_key(name@) {
                    let i = choose|i: int| 0 <= i < s.len() && s[i].name == name@;
                    lemma_name_lt_irreflexive(name@);
                    if i < p {
                        assert(name_lt(s[i].name, key@));
                    } else {
                        assert(name_lt(key@, s[i].name));
                    }
                }
            } else {
                assert(s[p as int] == self.entries@[p as int]@);
                assert(map_of_items(s).contains_key(s[p as int].name));
                assert(map_of_items(s)[name@] == s[p as int]);
            }
        }
        if found {
            Some(&self.entries[p])
        } else {
            None
        }
    }

    /// Keeps `item` under its name, replacing the entry that was kept there.
    pub fn insert(&mut self, item: Item)
        requires
            old(self).wf(),
        ensures
            final(self).wf(),
            final(self)@ == old(self)@.insert(item.name@, item@),
    {
        let ghost o = views(self.entries@);
        let ghost x = item@;
        let key = chars_of(item.name.as_str());
        let (p, found) = self.find(&key);
        if found {
            self.entries.set(p, item);
            proof {
                let nw = views(self.entries@);
                assert(nw =~= o.update(p as int, x));
                assert(sorted_by_name(nw)) by {
                    assert forall|i: int, j: int| 0 <= i < j < nw.len() implies name_lt(
                        #[trigger] nw[i].name,
                        #[trigger] nw[j].name,
                    ) by {
                        assert(nw[i].name == o[i].name);
                        assert(nw[j].name == o[j].name);
                    }
                }
                Self::lemma_same_names_map(o, nw, p as int);
            }
        } else {
            self.entries.insert(p, item);
            proof {
                let nw = views(self.entries@);
                assert(nw =~= o.insert(p as int, x));
                assert(sorted_by_name(nw)) by {
                    assert forall|i: int, j: int| 0 <= i < j < nw.len() implies name_lt(
                        #[trigger] nw[i].name,
                        #[trigger] nw[j].name,
                    ) by {
                        if j < p {
                            assert(nw[i] == o[i] && nw[j] == o[j]);
                        } else if j == p {
                            assert(nw[i] == o[i]);
                        } else if i == p {
                            assert(nw[j] == o[j - 1]);
                        } else if i < p {
                            assert(nw[i] == o[i] && nw[j] == o[j - 1]);
                        } else {
                            assert(nw[i] == o[i - 1] && nw[j] == o[j - 1]);
                        }
                    }
                }
                Self::lemma_inserted_map(o, nw, p as int);
            }
        }
    }

    proof fn lemma_same_names_map(o: Seq<ItemView>, nw: Seq<ItemView>, p: int)
        requires
            sorted_by_name(o),
            sorted_by_name(nw),
            0 <= p < o.len(),
            nw == o.update(p, nw[p]),
            nw[p].name == o[p].name,
        ensures
            map_of_items(nw) == map_of_items(o).insert(nw[p].name, nw[p]),
    {
        lemma_sorted_distinct(o);
        lemma_sorted_distinct(nw);
        lemma_map_of_distinct(o);
        lemma_map_of_distinct(nw);
        let x = nw[p];
        let m = map_of_items(o).insert(x.name, x);
        assert forall|k: Seq<char>| #[trigger] map_of_items(nw).contains_key(k) <==> m.contains_key(
            k,
        ) by {
            if map_of_items(nw).contains_key(k) {
                let i = choose|i: int| 0 <= i < nw.len() && nw[i].name == k;
                assert(o[i].name == k);
            }
            if m.contains_key(k) && k != x.name {
                let i = choose|i: int| 0 <= i < o.len() && o[i].name == k;
                assert(nw[i].name == k);
            }
        }
        assert forall|k: Seq<char>| #[trigger] map_of_items(nw).contains_key(k) implies map_of_items(
            nw,
        )[k] == m[k] by {
            let i = choose|i: int| 0 <= i < nw.len() && nw[i].name == k;
            if i != p {
                assert(o[i] == nw[i]);
                assert(map_of_items(o)[o[i].name] == o[i]);
            }
        }
        assert(map_of_items(nw) =~= m);
    }

    proof fn lemma_inserted_map(o: Seq<ItemView>, nw: Seq<ItemView>, p: int)
        requires
            sorted_by_name(o),
            sorted_by_name(nw),
            0 <= p <= o.len(),
            nw == o.insert(p, nw[p]),
        ensures
            map_of_items(nw) == map_of_items(o).insert(nw[p].name, nw[p]),
    {
        lemma_sorted_distinct(o);
        lemma_sorted_distinct(nw);
        lemma_map_of_distinct(o);
        lemma_map_of_distinct(nw);
        let x = nw[p];
        let m = map_of_items(o).insert(x.name, x);
        assert forall|k: Seq<char>| #[trigger] map_of_items(nw).contains_key(k) <==> m.contains_key(
            k,
        ) by {
            if map_of_items(nw).contains_key(k) {
                let i = choose|i: int| 0 <= i < nw.len() && nw[i].name == k;
                if i < p {
                    assert(o[i].name == k);
                } else if i > p {
                    assert(o[i - 1].name == k);
                }
            }
            if m.contains_key(k) && k != x.name {
                let i = choose|i: int| 0 <= i < o.len() && o[i].name == k;
                if i < p {
                    assert(nw[i].name == k);
                } else {
                    assert(nw[i + 1].name == k);
                }
            }
        }
        assert forall|k: Seq<char>| #[trigger] map_of_items(nw).contains_key(k) implies map_of_items(
            nw,
        )[k] == m[k] by {
            let i = choose|i: int| 0 <= i < nw.len() && nw[i].name == k;
            if i < p {
                assert(o[i] == nw[i]);
                assert(map_of_items(o)[o[i].name] == o[i]);
            } else if i > p {
                assert(o[i - 1] == nw[i]);
                assert(map_of_items(o)[o[i - 1].name] == o[i - 1]);
            }
        }
        assert(map_of_items(nw) =~= m);
    }

    /// Drops the entry kept under `name`, if any, and hands it back.
    pub fn remove(&mut self, name: &str) -> (r: Option<Item>)
        requires
            old(self).wf(),
        ensures
            final(self).wf(),
            final(self)@ == old(self)@.remove(name@),
            match r {
                Some(it) => old(self)@.contains_key(name@) && it@ == old(self)@[name@],
                None => !old(self)@.contains_key(name@),
            },
    {
        let ghost o = views(self.entries@);
        let key = chars_of(name);
        let (p, found) = self.find(&key);
        proof {
            lemma_sorted_distinct(o);
            lemma_map_of_distinct(o);
        }
        if found {
            proof {
                assert(map_of_items(o).contains_key(o[p as int].name));
            }
            let it = self.entries.remove(p);
            proof {
                let nw = views(self.entries@);
                assert(nw =~= o.remove(p as int));
                assert(sorted_by_name(nw)) by {
                    assert forall|i: int, j: int| 0 <= i < j < nw.len() implies name_lt(
                        #[trigger] nw[i].name,
                        #[trigger] nw[j].name,
                    ) by {
                        if j < p {
                            assert(nw[i] == o[i] && nw[j] == o[j]);
                        } else if i < p {
                            assert(nw[i] == o[i] && nw[j] == o[j + 1]);
                        } else {
                            assert(nw[i] == o[i + 1] && nw[j] == o[j + 1]);
                        }
                    }
                }
                Self::lemma_removed_map(o, nw, p as int);
            }
            Some(it)
        } else {
            proof {
                if map_of_items(o).contains_key(name@) {
                    let i = choose|i: int| 0 <= i < o.len() && o[i].name == name@;
                    lemma_name_lt_irreflexive(name@);
                    if i < p {
                        assert(name_lt(o[i].name, key@));
                    } else {
                        assert(name_lt(key@, o[i].name));
                    }
                }
                assert(map_of_items(o).remove(name@) =~= map_of_items(o));
            }
            None
        }
    }

    proof fn lemma_removed_map(o: Seq<ItemView>, nw: Seq<ItemView>, p: int)
        requires
            sorted_by_name(o),
            sorted_by_name(nw),
            0 <= p < o.len(),
            nw == o.remove(p),
        ensures
            map_of_items(nw) == map_of_items(o).remove(o[p].name),
    {
        lemma_sorted_distinct(o);
        lemma_sorted_distinct(nw);
        lemma_map_of_distinct(o);
        lemma_map_of_distinct(nw);
        let m = map_of_items(o).remove(o[p].name);
        assert forall|k: Seq<char>| #[trigger] map_of_items(nw).contains_key(k) <==> m.contains_key(
            k,
        ) by {
            if map_of_items(nw).contains_key(k) {
                let i = choose|i: int| 0 <= i < nw.len() && nw[i].name == k;
                if i < p {
                    assert(o[i].name == k);
                } else {
                    assert(o[i + 1].name == k);
                }
            }
            if m.contains_key(k) {
                let i = choose|i: int| 0 <= i < o.len() && o[i].name == k;
                if i < p {
                    assert(nw[i].name == k);
                } else if i > p {
                    assert(nw[i - 1].name == k);
                }
            }
        }
        assert forall|k: Seq<char>| #[trigger] map_of_items(nw).contains_key(k) implies map_of_items(
            nw,
        )[k] == m[k] by {
            let i = choose|i: int| 0 <= i < nw.len() && nw[i].name == k;
            if i < p {
                assert(o[i] == nw[i]);
                assert(map_of_items(o)[o[i].name] == o[i]);
            } else {
                assert(o[i + 1] == nw[i]);
                assert(map_of_items(o)[o[i + 1].name] == o[i + 1]);
            }
        }
        assert(map_of_items(nw) =~= m);
    }

    /// The entries, in name order: the only name-sorted listing of the
    /// table's contents (see `law_sorted_listing_unique`).
    pub fn items(&self) -> (r: Vec<Item>)
        requires
            self.wf(),
        ensures
            sorted_by_name(views(r@)),
            map_of_items(views(r@)) == self@,
    {
        let mut r: Vec<Item> = Vec::new();
        let n = self.entries.len();
        let mut i: usize = 0;
        while i < n
            invariant
                n == self.entries.len(),
                i <= n,
                views(r@) == views(self.entries@).take(i as int),
            decreases n - i,
        {
            let it = self.entries[i].duplicate();
            let ghost before = r@;
            r.push(it);
            proof {
                assert(r@ == before.push(it));
                assert(views(r@) =~= views(before).push(self.entries@[i as int]@));
                assert(views(self.entries@).take(i + 1) =~= views(self.entries@).take(
                    i as int,
                ).push(self.entries@[i as int]@));
            }
            i = i + 1;
        }
        assert(views(r@) =~= views(self.entries@));
        r
    }

    /// The table that inserting `items` one after the other, each under its
    /// own name, gives an empty table.
    pub fn from_items(items: Vec<Item>) -> (t: WindowTable)
        ensures
            t.wf(),
            t@ == map_of_items(views(items@)),
    {
        let mut t = WindowTable::new();
        let n = items.len();
        let mut i: usize = 0;
        assert(views(items@).take(0) =~= Seq::<ItemView>::empty());
        while i < n
            invariant
                n == items.len(),
                i <= n,
                t.wf(),
                t@ == map_of_items(views(items@).take(i as int)),
            decreases n - i,
        {
            let it = items[i].duplicate();
            t.insert(it);
            proof {
                let s = views(items@);
                assert(s.take(i + 1).drop_last() =~= s.take(i as int));
                assert(s.take(i + 1).last() == s[i as int]);
            }
            i = i + 1;
        }
        assert(views(items@).take(n as int) =~= views(items@));
        t
    }
}

/// Saving the remembered layouts (the table's listing, which is sorted by
/// name) and loading them back (inserting the listed entries one after the
/// other into an empty table) gives back every saved entry under its own
/// name, and nothing else.
pub proof fn law_save_then_load(listing: Seq<ItemView>)
    requires
        sorted_by_name(listing),
    ensures
        forall|i: int|
            0 <= i < listing.len() ==> #[trigger] map_of_items(listing).contains_key(
                listing[i].name,
            ) && map_of_items(listing)[listing[i].name] == listing[i],
        forall|k: Seq<char>|
            #[trigger] map_of_items(listing).contains_key(k) ==> exists|i: int|
                0 <= i < listing.len() && listing[i].name == k,
{
    lemma_sorted_distinct(listing);
    lemma_map_of_distinct(listing);
}

/// What a lookup gives back after an insertion: the inserted entry under its
/// name, and under any other name what was there before.
pub proof fn law_get_after_insert(
    contents: Map<Seq<char>, ItemView>,
    entry: ItemView,
    other: Seq<char>,
)
    requires
        other != entry.name,
    ensures
        contents.insert(entry.name, entry).contains_key(entry.name),
        contents.insert(entry.name, entry)[entry.name] == entry,
        contents.insert(entry.name, entry).contains_key(other) == contents.contains_key(other),
        contents.contains_key(other) ==> contents.insert(entry.name, entry)[other]
            == contents[other],
{
}

/// What a lookup gives back after a removal: nothing under the removed
/// name, and under any other name what was there before.
pub proof fn law_get_after_remove(
    contents: Map<Seq<char>, ItemView>,
    name: Seq<char>,
    other: Seq<char>,
)
    requires
        other != name,
    ensures
        !contents.remove(name).contains_key(name),
        contents.remove(name).contains_key(other) == contents.contains_key(other),
        contents.contains_key(other) ==> contents.remove(name)[other] == contents[other],
{
}

} // verus!
