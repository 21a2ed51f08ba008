//! Sets of confirmations. A confirmation is the stored form of a record
//! after its confirmation count was raised; two confirmations are the same
//! when their whole text is the same, count included. So two confirmations of
//! one transaction with different counts are two members of a set.
use crate::encoding::parse_record;
use crate::tx::signature_valid;
use std::collections::HashMap;
use vstd::prelude::*;

verus! {

broadcast use vstd::std_specs::hash::group_hash_axioms;

/// The hash of a text, by which a set finds its members: it starts at 5381,
/// and each character multiplies it by 33 and is added to it, in 64 bits.
pub open spec fn text_hash(text: Seq<char>) -> u64
    decreases text.len(),
{
    if text.len() == 0 {
        5381
    } else {
        ((text_hash(text.drop_last()) * 33 + text.last() as u32) % 0x1_0000_0000_0000_0000) as u64
    }
}

/// The hash of a text, computed.
pub fn hash_of(text: &String) -> (h: u64)
    ensures
        h == text_hash(text@),
{
    let mut h: u64 = 5381;
    for c in it: text.as_str().chars()
        invariant
            it.seq() == text@,
            h == text_hash(text@.take(it.index() as int)),
    {
        proof {
            let n = it.index() as int;
            assert(text@.take(n + 1).drop_last() =~= text@.take(n));
            assert(text@.take(n + 1).last() == c);
        }
        h = ((h as u128 * 33 + c as u32 as u128) % 0x1_0000_0000_0000_0000) as u64;
    }
    proof {
        assert(text@.take(text@.len() as int) =~= text@);
    }
    h
}

/// Whether `text` is the stored form of a valid record that was confirmed at
/// least once.
pub open spec fn is_confirmation(text: Seq<char>) -> bool {
    match parse_record(text) {
        Some(v) => signature_valid(v) && v.conf >= 1,
        None => false,
    }
}

/// Whether a set holds nothing but confirmations.
pub open spec fn all_confirmations(set: Set<Seq<char>>) -> bool {
    forall|text: Seq<char>| set.contains(text) ==> is_confirmation(text)
}

/// A set of texts: each member once, in the order in which they came, and
/// for each hash the places of the members that have it.
pub struct ConfirmationSet {
    items: Vec<String>,
    index: HashMap<u64, Vec<usize>>,
}

impl View for ConfirmationSet {
    type V = Set<Seq<char>>;

    closed spec fn view(&self) -> Set<Seq<char>> {
        self.texts().to_set()
    }
}

impl ConfirmationSet {
    /// The members in the order in which they came.
    pub closed spec fn texts(&self) -> Seq<Seq<char>> {
        self.items@.map_values(|s: String| s@)
    }

    /// Whether the member at place `i` is found under its hash.
    spec fn indexed(&self, i: int) -> bool {
        let h = text_hash(self.items@[i]@);
        self.index@.contains_key(h) && self.index@[h]@.contains(i as usize)
    }

    /// No text occurs twice, every member is found under its hash, and
    /// every place that is kept under a hash is the place of a member.
    pub closed spec fn wf(&self) -> bool {
        &&& self.texts().no_duplicates()
        &&& forall|i: int| 0 <= i < self.items@.len() ==> self.indexed(i)
        &&& forall|h: u64, j: int|
            self.index@.contains_key(h) && 0 <= j < self.index@[h]@.len()
                ==> #[trigger] self.index@[h]@[j] < self.items@.len()
    }

    /// The members are those of `texts`, and there are as many.
    pub proof fn lemma_view(&self)
        requires
            self.wf(),
        ensures
            self@.finite(),
            self@.len() == self.texts().len(),
            forall|text: Seq<char>| self@.contains(text) <==> self.texts().contains(text),
    {
        self.texts().unique_seq_to_set();
        vstd::seq_lib::seq_to_set_is_finite(self.texts());
    }

    /// The empty set.
    pub fn new() -> (set: ConfirmationSet)
        ensures
            set.wf(),
            set@ == Set::<Seq<char>>::empty(),
            set.texts() == Seq::<Seq<char>>::empty(),
    {
        let set = ConfirmationSet { items: Vec::new(), index: HashMap::new() };
        proof {
            assert(set.texts() =~= Seq::<Seq<char>>::empty());
            assert(set@ =~= Set::<Seq<char>>::empty());
        }
        set
    }

    /// The number of members.
    pub fn len(&self) -> (n: usize)
        requires
            self.wf(),
        ensures
            n == self@.len(),
            n == self.texts().len(),
    {
        proof {
            self.lemma_view();
        }
        self.items.len()
    }

    /// Whether `text` is a member.
    pub fn contains(&self, text: &String) -> (found: bool)
        requires
            self.wf(),
        ensures
            found == self@.contains(text@),
    {
        let h = hash_of(text);
        let places = match self.index.get(&h) {
            Some(places) => places,
            None => {
                proof {
                    if self.texts().contains(text@) {
                        let i = choose|i: int| 0 <= i < self.texts().len() && self.texts()[i] == text@;
                        assert(self.indexed(i));
                    }
                }
                return false;
            },
        };
        let mut j: usize = 0;
        while j < places.len()
            invariant
                self.wf(),
                j <= places.len(),
                self.index@.contains_key(h),
                self.index@[h] == *places,
                forall|k: int| 0 <= k < j ==> self.texts()[places@[k] as int] != text@,
            decreases places.len() - j,
        {
            let place = places[j];
            assert(self.index@[h]@[j as int] < self.items@.len());
            if self.items[place] == *text {
                assert(self.texts()[place as int] == text@);
                return true;
            }
            j += 1;
        }
        proof {
            if self.texts().contains(text@) {
                let i = choose|i: int| 0 <= i < self.texts().len() && self.texts()[i] == text@;
                assert(self.items@.len() == self.items.len());
                let place = i as usize;
                assert(self.indexed(i));
                assert(self.items@[i]@ == text@);
                assert(places@.contains(place));
                let k = choose|k: int| 0 <= k < places@.len() && places@[k] == place;
                assert(self.texts()[places@[k] as int] == text@);
            }
        }
        false
    }

    /// Adds `text`. Says whether it was new.
    pub fn insert(&mut self, text: String) -> (fresh: bool)
        requires
            old(self).wf(),
        ensures
            final(self).wf(),
            final(self)@ == old(self)@.insert(text@),
            fresh == !old(self)@.contains(text@),
            final(self).texts() == (if fresh {
                old(self).texts().push(text@)
            } else {
                old(self).texts()
            }),
    {
        if self.contains(&text) {
            assert(self@.insert(text@) =~= self@);
            false
        } else {
            let h = hash_of(&text);
            let place = self.items.len();
            let ghost before = self.index@;
            let mut places = match self.index.remove(&h) {
                Some(places) => places,
                None => Vec::new(),
            };
            let ghost known = places@;
            places.push(place);
            self.index.insert(h, places);
            proof {
                self.texts().lemma_push_to_set_commute(text@);
                assert(self.items@.push(text).map_values(|s: String| s@) =~= self.texts().push(
                    text@,
                ));
                assert(self.index@ =~= before.insert(h, places));
                assert(before.contains_key(h) ==> before[h]@ == known);
            }
            self.items.push(text);
            proof {
                assert forall|i: int| 0 <= i < self.items@.len() implies self.indexed(i) by {
                    let hi = text_hash(self.items@[i]@);
                    if i == place {
                        assert(places@[known.len() as int] == place);
                    } else {
                        assert(old(self).indexed(i));
                        if hi == h {
                            let k = choose|k: int| 0 <= k < known.len() && known[k] == i as usize;
                            assert(places@[k] == i as usize);
                        }
                    }
                }
                assert forall|g: u64, j: int|
                    self.index@.contains_key(g) && 0 <= j < self.index@[g]@.len()
                        implies #[trigger] self.index@[g]@[j] < self.items@.len() by {
                    if g == h {
                        if j < known.len() {
                            assert(before[h]@[j] < place);
                        }
                    } else {
                        assert(before[g]@[j] < place);
                    }
                }
            }
            true
        }
    }

    /// Adds every member of `other`.
    pub fn extend(&mut self, other: ConfirmationSet)
        requires
            old(self).wf(),
        ensures
            final(self).wf(),
            final(self)@ == old(self)@.union(other@),
    {
        let ghost all = other.items@.map_values(|s: String| s@);
        proof {
            assert(all.take(0).to_set() =~= Set::<Seq<char>>::empty());
            assert(self@.union(Set::<Seq<char>>::empty()) =~= self@);
        }
        for text in it: other.items.into_iter()
            invariant
                self.wf(),
                it.seq().map_values(|s: String| s@) == all,
                self@ == old(self)@.union(all.take(it.index() as int).to_set()),
        {
            let ghost before = self@;
            let ghost n = it.index() as int;
            proof {
                assert(all[n] == text@);
                assert(all.take(n + 1) =~= all.take(n).push(text@));
                all.take(n).lemma_push_to_set_commute(text@);
                assert(before.insert(text@) =~= old(self)@.union(all.take(n + 1).to_set()));
            }
            self.insert(text);
        }
        proof {
            assert(all.take(all.len() as int) =~= all);
        }
    }

    /// Takes all members out: gives them as a set of their own and leaves
    /// this one empty.
    pub fn take(&mut self) -> (taken: ConfirmationSet)
        requires
            old(self).wf(),
        ensures
            final(self).wf(),
            final(self)@ == Set::<Seq<char>>::empty(),
            final(self).texts() == Seq::<Seq<char>>::empty(),
            taken.wf(),
            taken@ == old(self)@,
            taken.texts() == old(self).texts(),
    {
        let mut taken = ConfirmationSet::new();
        std::mem::swap(&mut self.items, &mut taken.items);
        std::mem::swap(&mut self.index, &mut taken.index);
        taken
    }

    /// Removes all members.
    pub fn clear(&mut self)
        ensures
            final(self).wf(),
            final(self)@ == Set::<Seq<char>>::empty(),
            final(self).texts() == Seq::<Seq<char>>::empty(),
    {
        self.items = Vec::new();
        self.index = HashMap::new();
        proof {
            assert(self.texts() =~= Seq::<Seq<char>>::empty());
            assert(self@ =~= Set::<Seq<char>>::empty());
        }
    }

    /// The members as a list, in the order in which they came.
    pub fn members(&self) -> (list: &Vec<String>)
        ensures
            list@.map_values(|s: String| s@) == self.texts(),
    {
        &self.items
    }
}

/// Joining sets of confirmations gives a set of confirmations.
pub proof fn lemma_union_of_confirmations(a: Set<Seq<char>>, b: Set<Seq<char>>)
    requires
        all_confirmations(a),
        all_confirmations(b),
    ensures
        all_confirmations(a.union(b)),
{
}

} // verus!
