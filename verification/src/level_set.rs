//! The desired level set: an unordered set of stable level identifiers.
//!
//! The set is held as a duplicate-free vector of strings and viewed as a
//! mathematical set of character sequences, so insertion order is
//! irrelevant to every contract written over it. Mutation is idempotent:
//! inserting a present identifier or removing an absent one leaves the
//! value untouched, so no redundant rebuild can follow from it.

use vstd::prelude::*;

verus! {

/// The set of identifiers a vector of strings denotes.
pub open spec fn id_set(ids: Seq<String>) -> Set<Seq<char>> {
    Set::new(|x: Seq<char>| exists|i: int| 0 <= i < ids.len() && ids[i]@ == x)
}

/// Pairwise-distinct identifiers.
pub open spec fn no_dup_ids(ids: Seq<String>) -> bool {
    forall|i: int, j: int| 0 <= i < j < ids.len() ==> ids[i]@ != ids[j]@
}

/// Appending one identifier inserts it into the denoted set.
pub proof fn lemma_id_set_push(ids: Seq<String>, s: String)
    ensures
        id_set(ids.push(s)) == id_set(ids).insert(s@),
{
    assert forall|x: Seq<char>| id_set(ids).insert(s@).contains(x) implies id_set(
        ids.push(s),
    ).contains(x) by {
        if x == s@ {
            assert(ids.push(s)[ids.len() as int]@ == x);
        } else {
            let i = choose|i: int| 0 <= i < ids.len() && ids[i]@ == x;
            assert(ids.push(s)[i]@ == x);
        }
    }
    assert(id_set(ids.push(s)) =~= id_set(ids).insert(s@));
}

/// A prefix extended by its next element.
pub proof fn lemma_take_push(ids: Seq<String>, i: int)
    requires
        0 <= i < ids.len(),
    ensures
        ids.take(i + 1) == ids.take(i).push(ids[i]),
{
    assert(ids.take(i + 1) =~= ids.take(i).push(ids[i]));
}

/// Whether a vector of strings holds a given identifier.
pub fn ids_contain(ids: &Vec<String>, iid: &String) -> (r: bool)
    ensures
        r == id_set(ids@).contains(iid@),
{
    let mut i: usize = 0;
    while i < ids.len()
        invariant
            i <= ids@.len(),
            forall|j: int| 0 <= j < i ==> ids@[j]@ != iid@,
        decreases ids@.len() - i,
    {
        if ids[i] == *iid {
            assert(id_set(ids@).contains(iid@));
            return true;
        }
        i = i + 1;
    }
    assert(!id_set(ids@).contains(iid@));
    false
}

/// The desired spawn state: which level identifiers should currently be
/// realized in the scene graph. Equality of meaning is set equality;
/// insertion order is irrelevant.
#[derive(Clone, Debug, PartialEq, Eq, Default)]
pub struct LevelSet {
    /// The identifiers, pairwise distinct.
    pub iids: Vec<String>,
}

impl View for LevelSet {
    type V = Set<Seq<char>>;

    open spec fn view(&self) -> Set<Seq<char>> {
        id_set(self.iids@)
    }
}

impl LevelSet {
    /// The representation holds no duplicate identifier.
    pub open spec fn wf(&self) -> bool {
        no_dup_ids(self.iids@)
    }

    /// The empty set.
    pub fn new() -> (r: LevelSet)
        ensures
            r.wf(),
            r@ == Set::<Seq<char>>::empty(),
    {
        let r = LevelSet { iids: Vec::new() };
        proof {
            assert(r@ =~= Set::<Seq<char>>::empty());
        }
        r
    }

    /// Builds the set the given identifiers denote, in any order and with
    /// duplicates collapsed.
    pub fn from_iids(ids: Vec<String>) -> (r: LevelSet)
        ensures
            r.wf(),
            r@ == id_set(ids@),
    {
        let mut r = LevelSet { iids: Vec::new() };
        proof {
            assert(r@ =~= Set::<Seq<char>>::empty());
        }
        let mut i: usize = 0;
        while i < ids.len()
            invariant
                i <= ids@.len(),
                r.wf(),
                r@ == id_set(ids@.take(i as int)),
            decreases ids@.len() - i,
        {
            let ghost prev = r@;
            let id = ids[i].clone();
            let ghost idv = id@;
            r.insert(id);
            proof {
                lemma_take_push(ids@, i as int);
                lemma_id_set_push(ids@.take(i as int), ids@[i as int]);
                assert(r@ == id_set(ids@.take(i as int)).insert(idv));
            }
            i = i + 1;
        }
        proof {
            assert(ids@.take(ids@.len() as int) =~= ids@);
        }
        r
    }

    /// How many identifiers the set holds.
    pub fn len(&self) -> (r: usize)
        ensures
            r == self.iids@.len(),
            (r == 0) ==> self@ == Set::<Seq<char>>::empty(),
    {
        proof {
            if self.iids@.len() == 0 {
                assert(self@ =~= Set::<Seq<char>>::empty());
            }
        }
        self.iids.len()
    }

    /// Whether the identifier is desired.
    pub fn contains(&self, iid: &String) -> (r: bool)
        ensures
            r == self@.contains(iid@),
    {
        ids_contain(&self.iids, iid)
    }

    /// Adds an identifier. Idempotent: inserting a present identifier
    /// leaves the set untouched, and the result says whether anything
    /// changed.
    pub fn insert(&mut self, iid: String) -> (r: bool)
        requires
            old(self).wf(),
        ensures
            final(self).wf(),
            final(self)@ == old(self)@.insert(iid@),
            r == !old(self)@.contains(iid@),
            old(self)@.contains(iid@) ==> *final(self) == *old(self),
    {
        if self.contains(&iid) {
            proof {
                assert(old(self)@ =~= old(self)@.insert(iid@));
            }
            false
        } else {
            proof {
                lemma_id_set_push(self.iids@, iid);
            }
            self.iids.push(iid);
            true
        }
    }

    /// Removes an identifier. Idempotent: removing an absent identifier
    /// leaves the set untouched, and the result says whether anything
    /// changed.
    pub fn remove(&mut self, iid: &String) -> (r: bool)
        requires
            old(self).wf(),
        ensures
            final(self).wf(),
            final(self)@ == old(self)@.remove(iid@),
            r == old(self)@.contains(iid@),
            !old(self)@.contains(iid@) ==> *final(self) == *old(self),
    {
        let ghost orig = self.iids@;
        let mut i: usize = 0;
        while i < self.iids.len()
            invariant
                i <= self.iids@.len(),
                self.iids@ == orig,
                orig == old(self).iids@,
                *self == *old(self),
                no_dup_ids(orig),
                forall|j: int| 0 <= j < i ==> orig[j]@ != iid@,
            decreases self.iids@.len() - i,
        {
            if self.iids[i] == *iid {
                self.iids.remove(i);
                proof {
                    let k = i as int;
                    assert(self.iids@ =~= orig.take(k) + orig.skip(k + 1));
                    assert forall|x: Seq<char>| id_set(self.iids@).contains(x) implies orig
                        [k]@ != x && id_set(orig).contains(x) by {
                        let j = choose|j: int|
                            0 <= j < self.iids@.len() && self.iids@[j]@ == x;
                        if j < k {
                            assert(orig[j]@ == x);
                        } else {
                            assert(orig[j + 1]@ == x);
                        }
                    }
                    assert forall|x: Seq<char>|
                        id_set(orig).contains(x) && x != iid@ implies id_set(
                        self.iids@,
                    ).contains(x) by {
                        let j = choose|j: int| 0 <= j < orig.len() && orig[j]@ == x;
                        if j < k {
                            assert(self.iids@[j]@ == x);
                        } else {
                            assert(self.iids@[j - 1]@ == x);
                        }
                    }
                    assert(id_set(self.iids@) =~= id_set(orig).remove(iid@));
                }
                return true;
            }
            i = i + 1;
        }
        proof {
            assert(!id_set(orig).contains(iid@));
            assert(id_set(orig) =~= id_set(orig).remove(iid@));
        }
        false
    }
}

} // verus!
