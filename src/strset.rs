//! A finite set of strings, kept as a vector without repeats.

use vstd::prelude::*;
use crate::url::same_text;

verus! {

pub open spec fn views_of(items: Seq<String>) -> Seq<Seq<char>> {
    items.map_values(|s: String| s@)
}

/// A set of strings; its members keep the order in which they came.
pub struct TextSet {
    items: Vec<String>,
}

impl View for TextSet {
    type V = Set<Seq<char>>;

    closed spec fn view(&self) -> Set<Seq<char>> {
        views_of(self.items@).to_set()
    }
}

impl TextSet {
    #[verifier::type_invariant]
    closed spec fn no_repeats(self) -> bool {
        views_of(self.items@).no_duplicates()
    }

    /// The members in the order of their insertion.
    pub closed spec fn members(&self) -> Seq<Seq<char>> {
        views_of(self.items@)
    }

    proof fn lemma_members(&self)
        requires
            views_of(self.items@).no_duplicates(),
        ensures
            self.members().to_set() == self@,
            self.members().no_duplicates(),
            self.members().len() == self@.len(),
            self@.finite(),
    {
        views_of(self.items@).unique_seq_to_set();
    }

    /// The empty set.
    pub fn new() -> (r: TextSet)
        ensures
            r@ == Set::<Seq<char>>::empty(),
            r.members() == Seq::<Seq<char>>::empty(),
    {
        let r = TextSet { items: Vec::new() };
        assert(views_of(r.items@) =~= Seq::<Seq<char>>::empty());
        assert(r@ =~= Set::<Seq<char>>::empty());
        r
    }

    /// Whether `s` is a member.
    pub fn contains(&self, s: &str) -> (r: bool)
        ensures
            r == self@.contains(s@),
    {
        let mut i: usize = 0;
        while i < self.items.len()
            invariant
                i <= self.items@.len(),
                forall|m: int| 0 <= m < i ==> self.items@[m]@ != s@,
            decreases self.items.len() - i,
        {
            if same_text(self.items[i].as_str(), s) {
                assert(views_of(self.items@)[i as int] == s@);
                return true;
            }
            i = i + 1;
        }
        assert(!views_of(self.items@).contains(s@)) by {
            if views_of(self.items@).contains(s@) {
                let k = choose|k: int| 0 <= k < views_of(self.items@).len() && views_of(self.items@)[k] == s@;
                assert(self.items@[k]@ == s@);
            }
        }
        false
    }

    /// Adds `s`; whether it was not a member before.
    pub fn insert(&mut self, s: String) -> (r: bool)
        ensures
            final(self)@ == old(self)@.insert(s@),
            r == !old(self)@.contains(s@),
            final(self).members() == (if r { old(self).members().push(s@) } else { old(self).members() }),
    {
        proof {
            use_type_invariant(&*self);
        }
        if self.contains(s.as_str()) {
            return false;
        }
        let ghost old_items = self.items@;
        let mut taken = TextSet::new();
        std::mem::swap(self, &mut taken);
        let mut items = taken.items;
        let ghost sv = s@;
        items.push(s);
        proof {
            assert(views_of(items@) =~= views_of(old_items).push(sv));
            assert(!views_of(old_items).contains(sv));
        }
        *self = TextSet { items };
        proof {
            assert(views_of(self.items@) =~= views_of(old_items).push(s@));
            assert(views_of(self.items@).to_set() =~= views_of(old_items).to_set().insert(s@)) by {
                assert forall|x: Seq<char>| views_of(self.items@).contains(x) <==> (views_of(old_items).contains(x) || x == s@) by {
                    if views_of(self.items@).contains(x) {
                        let k = choose|k: int| 0 <= k < views_of(self.items@).len() && views_of(self.items@)[k] == x;
                        if k < old_items.len() {
                            assert(views_of(old_items)[k] == x);
                        }
                    }
                    if views_of(old_items).contains(x) {
                        let k = choose|k: int| 0 <= k < views_of(old_items).len() && views_of(old_items)[k] == x;
                        assert(views_of(self.items@)[k] == x);
                    }
                    if x == s@ {
                        assert(views_of(self.items@)[old_items.len() as int] == x);
                    }
                }
            }
        }
        true
    }

    /// The number of members.
    pub fn len(&self) -> (r: usize)
        ensures
            r == self@.len(),
            r == self.members().len(),
    {
        proof {
            use_type_invariant(self);
            self.lemma_members();
        }
        self.items.len()
    }

    /// Whether the set has no member.
    pub fn is_empty(&self) -> (r: bool)
        ensures
            r == (self@.len() == 0),
            r == (self@ == Set::<Seq<char>>::empty()),
    {
        proof {
            use_type_invariant(self);
            self.lemma_members();
            if self@.len() != 0 {
                assert(self.members().len() > 0);
                assert(self@.contains(self.members()[0]));
            } else {
                assert(self@ =~= Set::<Seq<char>>::empty());
            }
        }
        self.items.len() == 0
    }
}

} // verus!
