//! The fingerprints of a mod's package files, by file name.

use crate::filters::{lemma_filter_drops_one, lemma_filter_filter};
use crate::set_diff::{
    distinct, Element, index_of, lemma_distinct_len, lemma_distinct_models, lemma_members_empty,
    lemma_members_push, lemma_models_members, lemma_position, members, models, position, standing,
};
use vstd::prelude::*;

verus! {

/// A mapping from the file names of a mod's package files to their
/// fingerprints. No file name occurs twice. The mapping lists its entries
/// in the order in which their file names were first recorded.
#[derive(Debug)]
pub struct FileHashes {
    paths: Vec<String>,
    hashes: Vec<String>,
}

impl View for FileHashes {
    type V = Map<Seq<char>, Seq<char>>;

    /// The mapping from file name to fingerprint.
    closed spec fn view(&self) -> Map<Seq<char>, Seq<char>> {
        Map::new(
            |path: Seq<char>| members(self.paths@).contains(path),
            |path: Seq<char>| self.hashes@[position(self.paths@, path)]@,
        )
    }
}

/// The file names other than the given one, as a predicate.
pub open spec fn other_than(path: Seq<char>) -> spec_fn(Seq<char>) -> bool {
    |name: Seq<char>| name != path
}

impl FileHashes {
    /// Every file name has one fingerprint, and no file name occurs twice.
    /// Every mapping that this library hands out is well formed.
    pub closed spec fn wf(&self) -> bool {
        &&& self.paths.len() == self.hashes.len()
        &&& distinct(self.paths@)
    }

    /// The file names in the order in which the mapping lists them.
    pub closed spec fn keys(&self) -> Seq<Seq<char>> {
        models(self.paths@)
    }

    /// The entries in the order in which the mapping lists them.
    pub open spec fn listing(&self) -> Seq<(Seq<char>, Seq<char>)> {
        Seq::new(self.keys().len(), |i: int| (self.keys()[i], self@[self.keys()[i]]))
    }

    /// The mapping lists each of its file names once, and no other.
    pub proof fn lemma_keys(&self)
        requires
            self.wf(),
        ensures
            self.keys().no_duplicates(),
            forall|path: Seq<char>| self.keys().contains(path) <==> self@.contains_key(path),
            self@.dom().finite(),
            self@.dom().len() == self.keys().len(),
    {
        self.lemma_entries();
        lemma_distinct_models(self.paths@);
        lemma_models_members(self.paths@);
    }

    /// What the mapping holds at each of its indices.
    proof fn lemma_entries(self)
        requires
            self.wf(),
        ensures
            self@.dom() == members(self.paths@),
            self@.dom().finite(),
            self@.dom().len() == self.paths.len(),
            forall|i: int|
                0 <= i < self.paths.len() ==> self@.contains_key(#[trigger] self.paths[i]@)
                    && self@[self.paths[i]@] == self.hashes[i]@,
    {
        assert(self@.dom() =~= members(self.paths@));
        lemma_distinct_len(self.paths@);
        assert forall|i: int| 0 <= i < self.paths.len() implies self@.contains_key(
            #[trigger] self.paths[i]@,
        ) && self@[self.paths[i]@] == self.hashes[i]@ by {
            lemma_position(self.paths@, i);
        }
    }

    /// A mapping without entries.
    pub fn new() -> (empty: FileHashes)
        ensures
            empty.wf(),
            empty@ == Map::<Seq<char>, Seq<char>>::empty(),
            empty.keys() == Seq::<Seq<char>>::empty(),
    {
        let empty = FileHashes { paths: Vec::new(), hashes: Vec::new() };
        proof {
            lemma_members_empty(empty.paths@);
            assert(empty@ =~= Map::<Seq<char>, Seq<char>>::empty());
            assert(empty.keys() =~= Seq::<Seq<char>>::empty());
        }
        empty
    }

    /// The number of files.
    pub fn len(&self) -> (n: usize)
        requires
            self.wf(),
        ensures
            self@.dom().finite(),
            n == self@.dom().len(),
            n == self.keys().len(),
    {
        proof {
            self.lemma_entries();
        }
        self.paths.len()
    }

    /// Whether the mapping has no entries.
    pub fn is_empty(&self) -> (empty: bool)
        ensures
            empty == (self@ == Map::<Seq<char>, Seq<char>>::empty()),
    {
        proof {
            if self.paths.len() == 0 {
                assert(self@ =~= Map::<Seq<char>, Seq<char>>::empty());
            } else {
                assert(self.paths[0].model() == self.paths[0]@);
                assert(self@.contains_key(self.paths[0]@));
            }
        }
        self.paths.len() == 0
    }

    /// Whether a file of this name has an entry.
    pub fn contains_key(&self, path: &String) -> (found: bool)
        requires
            self.wf(),
        ensures
            found == self@.contains_key(path@),
    {
        proof {
            self.lemma_entries();
        }
        index_of(&self.paths, path).is_some()
    }

    /// The fingerprint recorded for a file name.
    pub fn get(&self, path: &String) -> (found: Option<&String>)
        requires
            self.wf(),
        ensures
            match found {
                Some(hash) => self@.contains_key(path@) && hash@ == self@[path@],
                None => !self@.contains_key(path@),
            },
    {
        proof {
            self.lemma_entries();
        }
        match index_of(&self.paths, path) {
            Some(i) => Some(&self.hashes[i]),
            None => None,
        }
    }

    /// Records `hash` for `path`, in place of what was recorded for it
    /// before. A file name that is new to the mapping is listed last.
    pub fn insert(&mut self, path: String, hash: String)
        requires
            old(self).wf(),
        ensures
            final(self).wf(),
            final(self)@ == old(self)@.insert(path@, hash@),
            final(self).keys() == if old(self)@.contains_key(path@) {
                old(self).keys()
            } else {
                old(self).keys().push(path@)
            },
    {
        proof {
            self.lemma_entries();
        }
        let ghost before = *self;
        match index_of(&self.paths, &path) {
            Some(i) => {
                self.hashes.set(i, hash);
                proof {
                    assert forall|k: Seq<char>| members(self.paths@).contains(k) implies (
                    #[trigger] self@[k]) == before@.insert(path@, hash@)[k] by {
                        let j = position(self.paths@, k);
                        lemma_position(self.paths@, i as int);
                    }
                    assert(self@ =~= before@.insert(path@, hash@));
                }
            },
            None => {
                self.paths.push(path);
                self.hashes.push(hash);
                proof {
                    lemma_members_push(before.paths@, path);
                    assert(self.paths@ =~= before.paths@.push(path));
                    assert(distinct(self.paths@));
                    assert forall|k: Seq<char>| members(self.paths@).contains(k) implies (
                    #[trigger] self@[k]) == before@.insert(path@, hash@)[k] by {
                        let j = position(self.paths@, k);
                        if k == path@ {
                            lemma_position(self.paths@, before.paths.len() as int);
                        } else {
                            assert(j < before.paths.len());
                            assert(before.paths[j]@ == k);
                            lemma_position(before.paths@, j);
                        }
                    }
                    assert(self@ =~= before@.insert(path@, hash@));
                    assert(self.keys() =~= before.keys().push(path@));
                }
            },
        }
    }

    /// Drops the entry of `path`, where there is one.
    pub fn remove(&mut self, path: &String)
        requires
            old(self).wf(),
        ensures
            final(self).wf(),
            final(self)@ == old(self)@.remove(path@),
            final(self).keys() == old(self).keys().filter(other_than(path@)),
    {
        proof {
            self.lemma_entries();
        }
        let ghost before = *self;
        match index_of(&self.paths, path) {
            Some(i) => {
                self.paths.remove(i);
                self.hashes.remove(i);
                proof {
                    let shift = |j: int| if j < i { j } else { j + 1 };
                    assert forall|j: int| 0 <= j < self.paths.len() implies #[trigger] self.paths[j]
                        == before.paths[shift(j)] && self.hashes[j] == before.hashes[shift(j)] by {}
                    assert(distinct(self.paths@)) by {
                        assert forall|a: int, b: int| 0 <= a < b < self.paths.len() implies (
                        #[trigger] self.paths[a]).model() != (#[trigger] self.paths[b]).model() by {
                            assert(self.paths[a] == before.paths[shift(a)]);
                            assert(self.paths[b] == before.paths[shift(b)]);
                        }
                    }
                    assert forall|k: Seq<char>|
                        members(self.paths@).contains(k) <==> before@.remove(path@).contains_key(
                            k,
                        ) by {
                        if members(self.paths@).contains(k) {
                            let j = position(self.paths@, k);
                            assert(before.paths[shift(j)]@ == k);
                            assert(shift(j) != i);
                        }
                        if before@.remove(path@).contains_key(k) {
                            let j = position(before.paths@, k);
                            assert(j != i);
                            let t = if j < i { j } else { j - 1 };
                            assert(self.paths[t]@ == k);
                        }
                    }
                    assert forall|k: Seq<char>| members(self.paths@).contains(k) implies (
                    #[trigger] self@[k]) == before@.remove(path@)[k] by {
                        let j = position(self.paths@, k);
                        assert(before.paths[shift(j)]@ == k);
                        lemma_position(before.paths@, shift(j));
                    }
                    assert(self@ =~= before@.remove(path@));
                    assert forall|j: int|
                        0 <= j < before.keys().len() && j != i implies other_than(path@)(
                        #[trigger] before.keys()[j],
                    ) by {
                        if j < i {
                            assert(before.paths[j].model() != before.paths[i as int].model());
                        } else {
                            assert(before.paths[i as int].model() != before.paths[j].model());
                        }
                    }
                    lemma_filter_drops_one(before.keys(), other_than(path@), i as int);
                    assert(self.keys() =~= before.keys().remove(i as int));
                }
            },
            None => {
                proof {
                    assert(self@ =~= before@.remove(path@));
                    lemma_models_members(self.paths@);
                    assert forall|j: int| 0 <= j < self.keys().len() implies other_than(path@)(
                        #[trigger] self.keys()[j],
                    ) by {
                        assert(self.keys().contains(self.keys()[j]));
                    }
                    crate::filters::lemma_filter_all(self.keys(), other_than(path@));
                }
            },
        }
    }

    /// Records every entry of `other`, in place of what was recorded for
    /// its file name before. File names that are new to the mapping are
    /// listed after the others, in the order of `other`.
    pub fn extend(&mut self, other: &FileHashes)
        requires
            old(self).wf(),
            other.wf(),
        ensures
            final(self).wf(),
            final(self)@ == old(self)@.union_prefer_right(other@),
            final(self).keys() == old(self).keys() + other.keys().filter(
                standing(old(self)@.dom(), false),
            ),
    {
        let ghost before = self@;
        let ghost before_keys = self.keys();
        let ghost fresh = standing(before.dom(), false);
        proof {
            other.lemma_entries();
            lemma_members_empty(other.paths@.take(0));
            assert(self@ =~= before.union_prefer_right(
                other@.restrict(members(other.paths@.take(0))),
            ));
            assert(other.keys().take(0).filter(fresh) =~= Seq::<Seq<char>>::empty()) by {
                reveal(Seq::filter);
            }
            assert(self.keys() =~= before_keys + other.keys().take(0).filter(fresh));
        }
        let mut i: usize = 0;
        while i < other.paths.len()
            invariant
                i <= other.paths.len(),
                other.wf(),
                self.wf(),
                fresh == standing(before.dom(), false),
                self@ == before.union_prefer_right(
                    other@.restrict(members(other.paths@.take(i as int))),
                ),
                self.keys() == before_keys + other.keys().take(i as int).filter(fresh),
            decreases other.paths.len() - i,
        {
            let ghost seen = other.paths@.take(i as int);
            proof {
                other.lemma_entries();
                lemma_members_push(seen, other.paths[i as int]);
                assert(other.paths@.take(i + 1) =~= seen.push(other.paths[i as int]));
                if members(seen).contains(other.paths[i as int].model()) {
                    let j = choose|j: int|
                        0 <= j < seen.len() && #[trigger] seen[j].model() == other.paths[i as int].model();
                    assert(other.paths[j].model() == other.paths[i as int].model());
                }
                assert(other.keys().take(i + 1) =~= other.keys().take(i as int).push(
                    other.paths[i as int]@,
                ));
                other.keys().take(i as int).lemma_filter_push(other.paths[i as int]@, fresh);
            }
            let ghost so_far = self@;
            let ghost keys_so_far = self.keys();
            self.insert(other.paths[i].clone(), other.hashes[i].clone());
            proof {
                assert(self@ =~= before.union_prefer_right(
                    other@.restrict(members(other.paths@.take(i + 1))),
                ));
                assert(so_far.contains_key(other.paths[i as int]@) == before.contains_key(
                    other.paths[i as int]@,
                ));
                assert(self.keys() =~= before_keys + other.keys().take(i + 1).filter(fresh));
            }
            i += 1;
        }
        proof {
            other.lemma_entries();
            assert(other.paths@.take(i as int) =~= other.paths@);
            assert(other@.restrict(members(other.paths@)) =~= other@);
            assert(other.keys().take(i as int) =~= other.keys());
        }
    }

    /// Drops the entry of every file name in `paths`.
    pub fn remove_all(&mut self, paths: &Vec<String>)
        requires
            old(self).wf(),
        ensures
            final(self).wf(),
            final(self)@ == old(self)@.remove_keys(members(paths@)),
            final(self).keys() == old(self).keys().filter(standing(members(paths@), false)),
    {
        let ghost before = self@;
        let ghost before_keys = self.keys();
        proof {
            lemma_members_empty(paths@.take(0));
            assert(self@ =~= before.remove_keys(members(paths@.take(0))));
            assert forall|j: int| 0 <= j < before_keys.len() implies standing(
                members(paths@.take(0)),
                false,
            )(#[trigger] before_keys[j]) by {}
            crate::filters::lemma_filter_all(
                before_keys,
                standing(members(paths@.take(0)), false),
            );
        }
        let mut i: usize = 0;
        while i < paths.len()
            invariant
                i <= paths.len(),
                self.wf(),
                self@ == before.remove_keys(members(paths@.take(i as int))),
                self.keys() == before_keys.filter(standing(members(paths@.take(i as int)), false)),
            decreases paths.len() - i,
        {
            proof {
                lemma_members_push(paths@.take(i as int), paths[i as int]);
                assert(paths@.take(i + 1) =~= paths@.take(i as int).push(paths[i as int]));
            }
            self.remove(&paths[i]);
            proof {
                assert(self@ =~= before.remove_keys(members(paths@.take(i + 1))));
                lemma_filter_filter(
                    before_keys,
                    standing(members(paths@.take(i as int)), false),
                    other_than(paths[i as int]@),
                    standing(members(paths@.take(i + 1)), false),
                );
            }
            i += 1;
        }
        proof {
            assert(paths@.take(i as int) =~= paths@);
        }
    }

    /// A copy of the mapping.
    pub fn duplicate(&self) -> (copy: FileHashes)
        requires
            self.wf(),
        ensures
            copy.wf(),
            copy@ == self@,
            copy.keys() == self.keys(),
    {
        let mut copy = FileHashes::new();
        copy.extend(self);
        proof {
            assert(copy@ =~= self@);
            assert forall|j: int| 0 <= j < self.keys().len() implies standing(
                Map::<Seq<char>, Seq<char>>::empty().dom(),
                false,
            )(#[trigger] self.keys()[j]) by {}
            crate::filters::lemma_filter_all(
                self.keys(),
                standing(Map::<Seq<char>, Seq<char>>::empty().dom(), false),
            );
            assert(copy.keys() =~= self.keys());
        }
        copy
    }

    /// The entries as pairs of file name and fingerprint, in the order in
    /// which the mapping lists them.
    pub fn entries(&self) -> (pairs: Vec<(String, String)>)
        requires
            self.wf(),
        ensures
            pairs.len() == self.listing().len(),
            forall|i: int|
                0 <= i < pairs.len() ==> (#[trigger] pairs[i]).0@ == self.listing()[i].0
                    && pairs[i].1@ == self.listing()[i].1,
            pairs.len() == self@.dom().len(),
            forall|i: int|
                0 <= i < pairs.len() ==> self@.contains_key(#[trigger] pairs[i].0@)
                    && self@[pairs[i].0@] == pairs[i].1@,
            forall|i: int, j: int|
                0 <= i < j < pairs.len() ==> #[trigger] pairs[i].0@ != #[trigger] pairs[j].0@,
            forall|path: Seq<char>|
                self@.contains_key(path) ==> exists|i: int|
                    0 <= i < pairs.len() && #[trigger] pairs[i].0@ == path,
    {
        proof {
            self.lemma_entries();
        }
        let mut pairs: Vec<(String, String)> = Vec::new();
        let mut i: usize = 0;
        while i < self.paths.len()
            invariant
                i <= self.paths.len(),
                self.paths.len() == self.hashes.len(),
                pairs.len() == i,
                forall|j: int|
                    0 <= j < i ==> (#[trigger] pairs[j]).0@ == self.paths[j]@ && pairs[j].1@
                        == self.hashes[j]@,
            decreases self.paths.len() - i,
        {
            pairs.push((self.paths[i].clone(), self.hashes[i].clone()));
            i += 1;
        }
        proof {
            assert forall|path: Seq<char>| self@.contains_key(path) implies exists|i: int|
                0 <= i < pairs.len() && #[trigger] pairs[i].0@ == path by {
                let j = position(self.paths@, path);
                assert(pairs[j].0@ == path);
            }
            assert forall|a: int, b: int| 0 <= a < b < pairs.len() implies #[trigger] pairs[a].0@
                != #[trigger] pairs[b].0@ by {
                assert(self.paths[a].model() != self.paths[b].model());
            }
        }
        pairs
    }

    /// The file names, in the order in which the mapping lists them.
    pub fn paths(&self) -> (names: Vec<String>)
        requires
            self.wf(),
        ensures
            models(names@) == self.keys(),
            distinct(names@),
            members(names@) == self@.dom(),
    {
        proof {
            self.lemma_entries();
        }
        let names = self.paths.clone();
        proof {
            assert(names@ =~= self.paths@);
        }
        names
    }
}

} // verus!
