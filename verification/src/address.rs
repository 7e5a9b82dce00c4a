//! Sets of mail addresses that remember the order of insertion.

use vstd::prelude::*;

verus! {

/// The sequences that the strings of `v` hold.
pub open spec fn string_views(v: Seq<String>) -> Seq<Seq<char>> {
    Seq::new(v.len(), |i: int| v[i]@)
}

/// A set of addresses. It holds each address once, in the order in which
/// they were first inserted.
#[derive(Debug, Clone)]
pub struct AddressSet {
    items: Vec<String>,
}

impl View for AddressSet {
    type V = Set<Seq<char>>;

    open spec fn view(&self) -> Set<Seq<char>> {
        self.entries().to_set()
    }
}

impl AddressSet {
    /// The addresses, in the order of their first insertion.
    pub closed spec fn entries(&self) -> Seq<Seq<char>> {
        string_views(self.items@)
    }

    /// No address is held twice.
    pub open spec fn wf(&self) -> bool {
        self.entries().no_duplicates()
    }

    /// The empty set.
    pub fn new() -> (s: AddressSet)
        ensures
            s.wf(),
            s.entries() == Seq::<Seq<char>>::empty(),
            s@ == Set::<Seq<char>>::empty(),
    {
        let s = AddressSet { items: Vec::new() };
        assert(s.entries() =~= Seq::<Seq<char>>::empty());
        assert(s@ =~= Set::<Seq<char>>::empty());
        s
    }

    /// Number of addresses in the set.
    pub fn len(&self) -> (n: usize)
        ensures
            n == self.entries().len(),
            self.wf() ==> n == self@.len(),
    {
        proof {
            if self.wf() {
                self.entries().unique_seq_to_set();
            }
        }
        self.items.len()
    }

    /// Whether the set holds no address.
    pub fn is_empty(&self) -> (b: bool)
        ensures
            b == (self.entries().len() == 0),
            b == (self@ == Set::<Seq<char>>::empty()),
    {
        proof {
            if self.entries().len() == 0 {
                assert(self@ =~= Set::<Seq<char>>::empty());
            } else {
                assert(self@.contains(self.entries()[0]));
            }
        }
        self.items.len() == 0
    }

    /// Whether the set holds `address`.
    pub fn contains(&self, address: &str) -> (b: bool)
        ensures
            b == self@.contains(address@),
    {
        let wanted: String = address.to_owned();
        let mut i: usize = 0;
        while i < self.items.len()
            invariant
                i <= self.items.len(),
                wanted@ == address@,
                forall|j: int| 0 <= j < i ==> self.entries()[j] != address@,
            decreases self.items.len() - i,
        {
            if self.items[i] == wanted {
                assert(self.entries()[i as int] == address@);
                return true;
            }
            i = i + 1;
        }
        false
    }

    /// Adds `address` to the set; tells whether it was new.
    pub fn insert(&mut self, address: String) -> (added: bool)
        ensures
            old(self).wf() ==> final(self).wf(),
            added == !old(self)@.contains(address@),
            final(self)@ == old(self)@.insert(address@),
            final(self).entries() == if added {
                old(self).entries().push(address@)
            } else {
                old(self).entries()
            },
    {
        if self.contains(address.as_str()) {
            assert(self@.insert(address@) =~= self@);
            return false;
        }
        let ghost before = self.entries();
        self.items.push(address);
        proof {
            assert(self.entries() =~= before.push(address@));
            before.lemma_push_to_set_commute(address@);
        }
        true
    }

    /// The addresses, in the order of their first insertion.
    pub fn as_vec(&self) -> (v: &Vec<String>)
        ensures
            string_views(v@) == self.entries(),
    {
        &self.items
    }

    /// The set of the given addresses; an address that occurs again is
    /// passed over.
    pub fn from_vec(addresses: Vec<String>) -> (s: AddressSet)
        ensures
            s.wf(),
            s@ == string_views(addresses@).to_set(),
            string_views(addresses@).no_duplicates() ==> s.entries() == string_views(addresses@),
    {
        let mut s = AddressSet::new();
        let mut i: usize = 0;
        let ghost all = string_views(addresses@);
        assert(all.take(0) =~= Seq::<Seq<char>>::empty());
        assert(Seq::<Seq<char>>::empty().to_set() =~= Set::<Seq<char>>::empty());
        while i < addresses.len()
            invariant
                i <= addresses.len(),
                all == string_views(addresses@),
                s.wf(),
                s@ == all.take(i as int).to_set(),
                all.no_duplicates() ==> s.entries() == all.take(i as int),
            decreases addresses.len() - i,
        {
            proof {
                let taken = all.take(i as int);
                assert(all.take(i + 1) =~= taken.push(all[i as int]));
                taken.lemma_push_to_set_commute(all[i as int]);
                if all.no_duplicates() {
                    assert(!taken.contains(all[i as int]));
                    assert(!taken.to_set().contains(all[i as int]));
                }
            }
            s.insert(addresses[i].clone());
            i = i + 1;
        }
        assert(all.take(i as int) =~= all);
        s
    }

    /// Adds every address of `other` to the set.
    pub fn extend(&mut self, other: &AddressSet)
        ensures
            old(self).wf() ==> final(self).wf(),
            final(self)@ == old(self)@.union(other@),
    {
        let mut i: usize = 0;
        while i < other.items.len()
            invariant
                i <= other.items.len(),
                old(self).wf() ==> self.wf(),
                self@ == old(self)@.union(other.entries().take(i as int).to_set()),
            decreases other.items.len() - i,
        {
            let ghost before = self@;
            self.insert(other.items[i].clone());
            proof {
                let taken = other.entries().take(i as int);
                let more = other.entries().take(i + 1);
                assert(more =~= taken.push(other.entries()[i as int]));
                taken.lemma_push_to_set_commute(other.entries()[i as int]);
                assert(self@ =~= old(self)@.union(more.to_set()));
            }
            i = i + 1;
        }
        proof {
            assert(other.entries().take(i as int) =~= other.entries());
        }
    }
}

impl Default for AddressSet {
    fn default() -> (s: AddressSet)
        ensures
            s.wf(),
            s.entries() == Seq::<Seq<char>>::empty(),
    {
        AddressSet::new()
    }
}

} // verus!
