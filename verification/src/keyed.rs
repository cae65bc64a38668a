//! A list whose entries have unique keys: putting an entry under a key that
//! is taken replaces the entry that was there. Properties are kept in one
//! by their names, and the chunks of an infinite layer by their origins.

use vstd::prelude::*;

verus! {

/// What can be kept in a keyed list: something that has a key.
pub trait Entry: Sized {
    /// The key, as contracts see it.
    type Id;

    /// What is kept under the key, as contracts see it.
    type Held;

    /// What an entry is asked for by.
    type Probe: ?Sized;

    /// The key of this entry.
    spec fn id(&self) -> Self::Id;

    /// What this entry keeps under its key.
    spec fn held(&self) -> Self::Held;

    /// The key that is asked for.
    spec fn sought(probe: &Self::Probe) -> Self::Id;

    /// Whether this entry has the key that is asked for.
    fn has_key(&self, probe: &Self::Probe) -> (yes: bool)
        ensures
            yes == (self.id() == Self::sought(probe)),
    ;

    /// Whether two entries have one key.
    fn same_key(&self, other: &Self) -> (yes: bool)
        ensures
            yes == (self.id() == other.id()),
    ;

    /// An entry with the same key that keeps the same.
    fn copy(&self) -> (copy: Self)
        ensures
            copy.id() == self.id(),
            copy.held() == self.held(),
    ;
}

/// The mapping that a list of entries makes, a later one replacing an
/// earlier one of its key.
pub open spec fn listed<T: Entry>(items: Seq<T>) -> Map<T::Id, T::Held>
    decreases items.len(),
{
    if items.len() == 0 {
        Map::empty()
    } else {
        listed(items.drop_last()).insert(items.last().id(), items.last().held())
    }
}

/// No two entries have one key.
pub open spec fn distinct<T: Entry>(items: Seq<T>) -> bool {
    forall|i: int, j: int|
        0 <= i < j < items.len() ==> (#[trigger] items[i]).id() != (#[trigger] items[j]).id()
}

/// A key is in the mapping exactly if an entry has it.
pub proof fn lemma_listed_domain<T: Entry>(items: Seq<T>, id: T::Id)
    ensures
        listed(items).contains_key(id) <==> exists|i: int|
            0 <= i < items.len() && (#[trigger] items[i]).id() == id,
    decreases items.len(),
{
    if items.len() > 0 {
        let front = items.drop_last();
        lemma_listed_domain(front, id);
        if listed(items).contains_key(id) {
            if items.last().id() != id {
                let i = choose|i: int| 0 <= i < front.len() && (#[trigger] front[i]).id() == id;
                assert(items[i].id() == id);
            } else {
                assert(items[items.len() - 1].id() == id);
            }
        } else {
            assert forall|i: int| 0 <= i < items.len() implies (#[trigger] items[i]).id() != id by {
                if i < items.len() - 1 {
                    assert(front[i].id() != id);
                }
            }
        }
    }
}

/// Where keys are unique, the mapping has under the key of an entry what
/// the entry keeps.
pub proof fn lemma_listed_at<T: Entry>(items: Seq<T>, at: int)
    requires
        distinct(items),
        0 <= at < items.len(),
    ensures
        listed(items).contains_key(items[at].id()),
        listed(items)[items[at].id()] == items[at].held(),
    decreases items.len(),
{
    let front = items.drop_last();
    if at < items.len() - 1 {
        assert(distinct(front)) by {
            assert forall|i: int, j: int| 0 <= i < j < front.len() implies (#[trigger] front[i]).id()
                != (#[trigger] front[j]).id() by {
                assert(items[i].id() != items[j].id());
            }
        }
        lemma_listed_at(front, at);
        assert(items[at].id() != items[items.len() - 1].id());
    }
}

/// Taking one entry out and putting something under its key is putting it
/// under that key.
proof fn lemma_listed_replace<T: Entry>(items: Seq<T>, at: int, held: T::Held)
    requires
        0 <= at < items.len(),
    ensures
        listed(items.remove(at)).insert(items[at].id(), held) == listed(items).insert(
            items[at].id(),
            held,
        ),
    decreases items.len(),
{
    let id = items[at].id();
    let front = items.drop_last();
    if at < items.len() - 1 {
        let last = items.last();
        assert(items.remove(at).drop_last() =~= front.remove(at));
        assert(items.remove(at).last() == last);
        lemma_listed_replace(front, at, held);
        assert(listed(items.remove(at)).insert(id, held) =~= listed(front.remove(at)).insert(
            id,
            held,
        ).insert(last.id(), last.held()).insert(id, held));
        assert(listed(items).insert(id, held) =~= listed(front).insert(id, held).insert(
            last.id(),
            last.held(),
        ).insert(id, held));
    } else {
        assert(items.remove(at) =~= front);
        assert(listed(front).insert(id, held) =~= listed(items).insert(id, held));
    }
}

/// Lists whose entries have the same keys and keep the same make the same
/// mapping.
proof fn lemma_listed_same<T: Entry>(a: Seq<T>, b: Seq<T>)
    requires
        a.len() == b.len(),
        forall|i: int|
            0 <= i < a.len() ==> (#[trigger] a[i]).id() == b[i].id() && a[i].held() == b[i].held(),
    ensures
        listed(a) == listed(b),
    decreases a.len(),
{
    if a.len() > 0 {
        assert(a.last().id() == b.last().id() && a.last().held() == b.last().held()) by {
            assert(a[a.len() - 1].id() == b[a.len() - 1].id());
        }
        assert forall|i: int| 0 <= i < a.drop_last().len() implies (#[trigger] a.drop_last()[i]).id()
            == b.drop_last()[i].id() && a.drop_last()[i].held() == b.drop_last()[i].held() by {
            assert(a[i].id() == b[i].id());
        }
        lemma_listed_same(a.drop_last(), b.drop_last());
    }
}

/// Entries under their keys. No two of them have one key.
#[derive(Debug, PartialEq)]
pub struct Keyed<T: Entry> {
    items: Vec<T>,
}

impl<T: Entry> View for Keyed<T> {
    type V = Map<T::Id, T::Held>;

    closed spec fn view(&self) -> Map<T::Id, T::Held> {
        listed(self.items@)
    }
}

impl<T: Entry> Clone for Keyed<T> {
    fn clone(&self) -> (copy: Keyed<T>)
        ensures
            copy@ == self@,
    {
        proof {
            use_type_invariant(self);
        }
        let mut items: Vec<T> = Vec::new();
        let mut i: usize = 0;
        while i < self.items.len()
            invariant
                i <= self.items@.len(),
                items@.len() == i,
                forall|k: int|
                    0 <= k < i ==> (#[trigger] items@[k]).id() == self.items@[k].id()
                        && items@[k].held() == self.items@[k].held(),
            decreases self.items.len() - i,
        {
            items.push(self.items[i].copy());
            i += 1;
        }
        proof {
            lemma_listed_same(items@, self.items@);
            assert forall|a: int, b: int| 0 <= a < b < items@.len() implies (#[trigger] items@[a]).id()
                != (#[trigger] items@[b]).id() by {
                assert(self.items@[a].id() != self.items@[b].id());
            }
        }
        Keyed { items }
    }
}

impl<T: Entry> Keyed<T> {
    #[verifier::type_invariant]
    spec fn unique(self) -> bool {
        distinct(self.items@)
    }

    /// The entries in the order in which their keys were last put.
    pub closed spec fn list(&self) -> Seq<T> {
        self.items@
    }

    /// No entries.
    pub fn new() -> (keyed: Keyed<T>)
        ensures
            keyed@ == Map::<T::Id, T::Held>::empty(),
    {
        Keyed { items: Vec::new() }
    }

    /// Where the entry with the key of `item` is.
    fn position_of(&self, item: &T) -> (at: Option<usize>)
        ensures
            match at {
                Some(i) => i < self.items@.len() && self.items@[i as int].id() == item.id(),
                None => forall|i: int|
                    0 <= i < self.items@.len() ==> (#[trigger] self.items@[i]).id() != item.id(),
            },
    {
        let mut i: usize = 0;
        while i < self.items.len()
            invariant
                i <= self.items@.len(),
                forall|k: int| 0 <= k < i ==> (#[trigger] self.items@[k]).id() != item.id(),
            decreases self.items.len() - i,
        {
            if self.items[i].same_key(item) {
                return Some(i);
            }
            i += 1;
        }
        None
    }

    /// Puts an entry under its key, in place of the entry that was there.
    pub fn insert(&mut self, item: T)
        ensures
            final(self)@ == old(self)@.insert(item.id(), item.held()),
    {
        proof {
            use_type_invariant(&*self);
        }
        let ghost before = self.items@;
        let found = self.position_of(&item);
        let mut items: Vec<T> = Vec::new();
        core::mem::swap(&mut self.items, &mut items);
        match found {
            Some(i) => {
                proof {
                    lemma_listed_replace(before, i as int, item.held());
                    let after = before.remove(i as int);
                    assert forall|a: int, b: int| 0 <= a < b < after.len() implies (
                    #[trigger] after[a]).id() != (#[trigger] after[b]).id() by {
                        let x = if a < i {
                            a
                        } else {
                            a + 1
                        };
                        let y = if b < i {
                            b
                        } else {
                            b + 1
                        };
                        assert(before[x].id() != before[y].id());
                    }
                    assert forall|a: int| 0 <= a < after.len() implies (#[trigger] after[a]).id()
                        != item.id() by {
                        let x = if a < i {
                            a
                        } else {
                            a + 1
                        };
                        if x < i {
                            assert(before[x].id() != before[i as int].id());
                        } else {
                            assert(before[i as int].id() != before[x].id());
                        }
                    }
                }
                items.remove(i);
            },
            None => {},
        }
        let ghost kept = items@;
        proof {
            let after = kept.push(item);
            assert(after.drop_last() =~= kept);
            assert forall|a: int, b: int| 0 <= a < b < after.len() implies (#[trigger] after[a]).id()
                != (#[trigger] after[b]).id() by {
                if b < kept.len() {
                    assert(kept[a].id() != kept[b].id());
                } else {
                    assert(kept[a].id() != item.id());
                }
            }
        }
        items.push(item);
        self.items = items;
    }

    /// The entry with the key that is asked for.
    pub fn get(&self, probe: &T::Probe) -> (item: Option<&T>)
        ensures
            match item {
                Some(t) => t.id() == T::sought(probe) && self@.contains_key(t.id()) && self@[t.id()]
                    == t.held(),
                None => !self@.contains_key(T::sought(probe)),
            },
    {
        proof {
            use_type_invariant(self);
            lemma_listed_domain(self.items@, T::sought(probe));
        }
        let mut i: usize = 0;
        while i < self.items.len()
            invariant
                i <= self.items@.len(),
                distinct(self.items@),
                forall|k: int| 0 <= k < i ==> (#[trigger] self.items@[k]).id() != T::sought(probe),
            decreases self.items.len() - i,
        {
            if self.items[i].has_key(probe) {
                proof {
                    lemma_listed_at(self.items@, i as int);
                }
                return Some(&self.items[i]);
            }
            i += 1;
        }
        None
    }

    /// All the entries; no two of them have one key.
    pub fn items(&self) -> (items: &Vec<T>)
        ensures
            items@ == self.list(),
            listed(items@) == self@,
            distinct(items@),
    {
        proof {
            use_type_invariant(self);
        }
        &self.items
    }
}

} // verus!
