//! A table from names to values, as a JSON object or an alias list is one.

use crate::text::same_text;
use vstd::prelude::*;

verus! {

/// Values under names, where no name occurs twice.
///
/// Seen as a mathematical map from the characters of a name to its value. The
/// rows stand in the order in which their names were first inserted.
#[derive(Debug)]
pub struct Table<V> {
    names: Vec<String>,
    items: Vec<V>,
}

/// No name stands in the list twice.
pub open spec fn distinct(names: Seq<Seq<char>>) -> bool {
    forall|i: int, j: int| 0 <= i < j < names.len() ==> names[i] != names[j]
}

/// The map that takes each name to the item in the same place.
pub open spec fn as_map<V>(names: Seq<Seq<char>>, items: Seq<V>) -> Map<Seq<char>, V> {
    Map::new(|k: Seq<char>| names.contains(k), |k: Seq<char>| items[names.index_of(k)])
}

/// In a list of distinct names the index of a name is where it stands.
pub proof fn lemma_index_of(names: Seq<Seq<char>>, i: int)
    requires
        distinct(names),
        0 <= i < names.len(),
    ensures
        names.contains(names[i]),
        names.index_of(names[i]) == i,
{
    let j = names.index_of(names[i]);
    assert(names[j] == names[i] && 0 <= j < names.len());
}

/// A table has finitely many names.
pub proof fn lemma_finite<V>(names: Seq<Seq<char>>, items: Seq<V>)
    ensures
        as_map(names, items).dom().finite(),
{
    vstd::seq_lib::seq_to_set_is_finite(names);
    assert(as_map(names, items).dom() =~= names.to_set());
}

/// A row under a new name, added at the end, is an insertion into the map.
proof fn lemma_push_row<V>(names: Seq<Seq<char>>, items: Seq<V>, name: Seq<char>, item: V)
    requires
        distinct(names),
        names.len() == items.len(),
        !names.contains(name),
    ensures
        distinct(names.push(name)),
        as_map(names.push(name), items.push(item)) == as_map(names, items).insert(name, item),
{
    let n = names.push(name);
    let m = as_map(n, items.push(item));
    assert(distinct(n));
    assert forall|k: Seq<char>| n.contains(k) == (names.contains(k) || k == name) by {
        if names.contains(k) {
            assert(n[names.index_of(k)] == k);
        }
        assert(n[names.len() as int] == name);
    }
    assert forall|k: Seq<char>| #[trigger] m.contains_key(k) implies m[k] == as_map(
        names,
        items,
    ).insert(name, item)[k] by {
        lemma_index_of(n, n.index_of(k));
        if k == name {
            lemma_index_of(n, names.len() as int);
        } else {
            lemma_index_of(n, names.index_of(k));
        }
    }
    assert(m =~= as_map(names, items).insert(name, item));
}

/// Taking a row out of the list takes its name out of the map.
proof fn lemma_remove_row<V>(names: Seq<Seq<char>>, items: Seq<V>, i: int)
    requires
        distinct(names),
        names.len() == items.len(),
        0 <= i < names.len(),
    ensures
        distinct(names.remove(i)),
        as_map(names.remove(i), items.remove(i)) == as_map(names, items).remove(names[i]),
{
    let n = names.remove(i);
    let m = as_map(n, items.remove(i));
    assert(distinct(n));
    assert forall|k: Seq<char>| n.contains(k) == (names.contains(k) && k != names[i]) by {
        if names.contains(k) && k != names[i] {
            let j = names.index_of(k);
            assert(n[if j < i { j } else { j - 1 }] == k);
        }
        if n.contains(k) {
            let j = n.index_of(k);
            assert(names[if j < i { j } else { j + 1 }] == k);
        }
    }
    assert forall|k: Seq<char>| #[trigger] m.contains_key(k) implies m[k] == as_map(
        names,
        items,
    )[k] by {
        let j = names.index_of(k);
        lemma_index_of(n, if j < i { j } else { j - 1 });
    }
    assert(m =~= as_map(names, items).remove(names[i]));
}

impl<V> View for Table<V> {
    type V = Map<Seq<char>, V>;

    open spec fn view(&self) -> Map<Seq<char>, V> {
        as_map(self.names(), self.items())
    }
}

impl<V> Table<V> {
    /// The names, in the order of the rows.
    pub closed spec fn names(self) -> Seq<Seq<char>> {
        self.names@.map_values(|s: String| s@)
    }

    /// The values, in the order of the rows.
    pub closed spec fn items(self) -> Seq<V> {
        self.items@
    }

    /// Each row has one name and one value, and no two rows share a name.
    #[verifier::type_invariant]
    pub open spec fn wf(self) -> bool {
        &&& distinct(self.names())
        &&& self.names().len() == self.items().len()
    }

    /// A recursion that goes from a table to its values comes to an end.
    pub proof fn lemma_items_decrease(self)
        ensures
            decreases_to!(self => self.items()),
    {
    }

    /// A table without rows.
    pub fn new() -> (r: Self)
        ensures
            r@ == Map::<Seq<char>, V>::empty(),
            r.names() == Seq::<Seq<char>>::empty(),
            r.items() == Seq::<V>::empty(),
    {
        let r = Table { names: Vec::new(), items: Vec::new() };
        assert(r.names() =~= Seq::<Seq<char>>::empty());
        assert(r@ =~= Map::<Seq<char>, V>::empty());
        r
    }

    /// How many rows there are.
    pub fn len(&self) -> (r: usize)
        ensures
            r == self.names().len(),
            self.wf(),
    {
        proof {
            use_type_invariant(self);
        }
        self.names.len()
    }

    /// Whether there is no row at all.
    pub fn is_empty(&self) -> (r: bool)
        ensures
            r == (self@.dom() == Set::<Seq<char>>::empty()),
    {
        proof {
            use_type_invariant(self);
            if self.names().len() > 0 {
                assert(self@.dom().contains(self.names()[0]));
            } else {
                assert(self@.dom() =~= Set::empty());
            }
        }
        self.names.len() == 0
    }

    /// The name of a row.
    pub fn name_at(&self, i: usize) -> (r: &String)
        requires
            i < self.names().len(),
        ensures
            r@ == self.names()[i as int],
    {
        &self.names[i]
    }

    /// The value of a row.
    pub fn item_at(&self, i: usize) -> (r: &V)
        requires
            i < self.names().len(),
        ensures
            *r == self.items()[i as int],
            self@.contains_key(self.names()[i as int]),
            *r == self@[self.names()[i as int]],
    {
        proof {
            use_type_invariant(self);
            lemma_index_of(self.names(), i as int);
        }
        &self.items[i]
    }

    fn find(&self, name: &str) -> (r: Option<usize>)
        ensures
            match r {
                Some(i) => i < self.names().len() && self.names()[i as int] == name@,
                None => !self.names().contains(name@),
            },
    {
        let mut i: usize = 0;
        while i < self.names.len()
            invariant
                i <= self.names().len(),
                forall|j: int| 0 <= j < i ==> self.names()[j] != name@,
            decreases self.names().len() - i,
        {
            if same_text(self.names[i].as_str(), name) {
                return Some(i);
            }
            i += 1;
        }
        None
    }

    /// The value under a name.
    pub fn get(&self, name: &str) -> (r: Option<&V>)
        ensures
            match r {
                Some(v) => self@.contains_key(name@) && *v == self@[name@],
                None => !self@.contains_key(name@),
            },
    {
        proof {
            use_type_invariant(self);
        }
        match self.find(name) {
            Some(i) => {
                proof {
                    lemma_index_of(self.names(), i as int);
                }
                Some(&self.items[i])
            },
            None => None,
        }
    }

    /// The value under a name, to be changed in place.
    pub fn get_mut(&mut self, name: &str) -> (r: Option<&mut V>)
        ensures
            match r {
                Some(v) => {
                    &&& old(self)@.contains_key(name@)
                    &&& *v == old(self)@[name@]
                    &&& final(self)@ == old(self)@.insert(name@, *final(v))
                    &&& final(self).wf()
                },
                None => !old(self)@.contains_key(name@) && *final(self) == *old(self),
            },
            old(self).wf(),
    {
        proof {
            use_type_invariant(&*self);
        }
        match self.find(name) {
            Some(i) => Some(&mut self.items[i]),
            None => None,
        }
    }

    /// Puts a value under a name, in place of the one that was there.
    pub fn insert(&mut self, name: String, item: V)
        ensures
            final(self)@ == old(self)@.insert(name@, item),
            !old(self)@.contains_key(name@) ==> final(self).names() == old(self).names().push(name@)
                && final(self).items() == old(self).items().push(item),
    {
        proof {
            use_type_invariant(&*self);
        }
        match self.find(name.as_str()) {
            Some(i) => {
                proof {
                    lemma_index_of(self.names(), i as int);
                }
                self.items[i] = item;
                assert(self@ =~= old(self)@.insert(name@, item));
            },
            None => {
                let mut whole: Table<V> = Table::new();
                std::mem::swap(self, &mut whole);
                let Table { names: mut names, items: mut items } = whole;
                names.push(name);
                items.push(item);
                let ghost all = names@.map_values(|s: String| s@);
                assert(all =~= old(self).names().push(name@));
                proof {
                    lemma_push_row(old(self).names(), old(self).items(), name@, item);
                }
                *self = Table { names, items };
            },
        }
    }

    /// Takes a name out, with its value; nothing happens when it is not there.
    pub fn remove(&mut self, name: &str)
        ensures
            final(self)@ == old(self)@.remove(name@),
    {
        proof {
            use_type_invariant(&*self);
        }
        match self.find(name) {
            Some(i) => {
                let mut whole: Table<V> = Table::new();
                std::mem::swap(self, &mut whole);
                let Table { names: mut names, items: mut items } = whole;
                let _ = names.remove(i);
                let _ = items.remove(i);
                let ghost all = names@.map_values(|s: String| s@);
                assert(all =~= old(self).names().remove(i as int));
                proof {
                    lemma_remove_row(old(self).names(), old(self).items(), i as int);
                }
                *self = Table { names, items };
            },
            None => {
                assert(self@ =~= old(self)@.remove(name@));
            },
        }
    }
}

impl Clone for Table<String> {
    fn clone(&self) -> (r: Self)
        ensures
            r.names() == self.names(),
            r@.map_values(|s: String| s@) == self@.map_values(|s: String| s@),
    {
        let n = self.len();
        let mut r: Table<String> = Table::new();
        let mut i: usize = 0;
        while i < n
            invariant
                i <= n,
                n == self.names().len(),
                self.wf(),
                r.names() == self.names().take(i as int),
                r.items().len() == i,
                forall|j: int| 0 <= j < i ==> #[trigger] r.items()[j]@ == self.items()[j]@,
            decreases n - i,
        {
            proof {
                if r@.contains_key(self.names()[i as int]) {
                    let j = r.names().index_of(self.names()[i as int]);
                    assert(self.names()[j] == self.names()[i as int]);
                }
            }
            r.insert(self.name_at(i).clone(), self.item_at(i).clone());
            i += 1;
            assert(r.names() =~= self.names().take(i as int));
        }
        assert(r.names() =~= self.names());
        assert(r@.map_values(|s: String| s@) =~= self@.map_values(|s: String| s@));
        r
    }
}

} // verus!
