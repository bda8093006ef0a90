//! Conditions on the rows of a table, and the selection of the rows that
//! meet one.

use crate::rows::{Model, ModHash, ModTagRelation, Row, Tag};
use crate::store::{Store, tagged, tagged_any};
use vstd::prelude::*;

verus! {

/// A condition on the rows of a table.
pub trait Criterion<T> {
    /// Whether a row meets the condition.
    spec fn holds(&self, row: T) -> bool;

    /// Whether a row meets the condition.
    fn test(&self, row: &T) -> (yes: bool)
        ensures
            yes == self.holds(*row),
    ;
}

/// The rows that meet a condition, as a predicate.
pub open spec fn meeting<T, C: Criterion<T>>(criterion: C) -> spec_fn(T) -> bool {
    |row: T| criterion.holds(row)
}

/// The rows of a table that meet a condition, in order.
pub fn select<T: Row, C: Criterion<T>>(rows: &Vec<T>, criterion: &C) -> (chosen: Vec<T>)
    ensures
        chosen@ == rows@.filter(meeting(*criterion)),
{
    let mut chosen: Vec<T> = Vec::new();
    let mut i: usize = 0;
    proof {
        assert(rows@.take(0).filter(meeting(*criterion)) =~= Seq::<T>::empty()) by {
            reveal(Seq::filter);
        }
    }
    while i < rows.len()
        invariant
            i <= rows.len(),
            chosen@ == rows@.take(i as int).filter(meeting(*criterion)),
        decreases rows.len() - i,
    {
        proof {
            assert(rows@.take(i + 1) =~= rows@.take(i as int).push(rows[i as int]));
            rows@.take(i as int).lemma_filter_push(rows[i as int], meeting(*criterion));
        }
        if criterion.test(&rows[i]) {
            chosen.push(rows[i].copy_row());
        }
        i += 1;
    }
    proof {
        assert(rows@.take(i as int) =~= rows@);
    }
    chosen
}

/// The rows that belong to another mod than the given one.
pub struct OtherMod {
    /// The mod whose rows are left out.
    pub mod_id: i32,
}

impl Criterion<Model> for OtherMod {
    open spec fn holds(&self, row: Model) -> bool {
        row.id != self.mod_id
    }

    fn test(&self, row: &Model) -> (yes: bool) {
        row.id != self.mod_id
    }
}

impl Criterion<ModHash> for OtherMod {
    open spec fn holds(&self, row: ModHash) -> bool {
        row.mod_id != self.mod_id
    }

    fn test(&self, row: &ModHash) -> (yes: bool) {
        row.mod_id != self.mod_id
    }
}

impl Criterion<ModTagRelation> for OtherMod {
    open spec fn holds(&self, row: ModTagRelation) -> bool {
        row.mod_id != self.mod_id
    }

    fn test(&self, row: &ModTagRelation) -> (yes: bool) {
        row.mod_id != self.mod_id
    }
}

/// The rows that belong to another tag than the given one.
pub struct OtherTag {
    /// The tag whose rows are left out.
    pub tag_id: i32,
}

impl Criterion<Tag> for OtherTag {
    open spec fn holds(&self, row: Tag) -> bool {
        row.id != self.tag_id
    }

    fn test(&self, row: &Tag) -> (yes: bool) {
        row.id != self.tag_id
    }
}

impl Criterion<ModTagRelation> for OtherTag {
    open spec fn holds(&self, row: ModTagRelation) -> bool {
        row.tag_id != self.tag_id
    }

    fn test(&self, row: &ModTagRelation) -> (yes: bool) {
        row.tag_id != self.tag_id
    }
}

/// The links other than the one between the given mod and tag.
pub struct OtherLink {
    /// The mod of the link that is left out.
    pub mod_id: i32,
    /// The tag of the link that is left out.
    pub tag_id: i32,
}

impl Criterion<ModTagRelation> for OtherLink {
    open spec fn holds(&self, row: ModTagRelation) -> bool {
        !(row.mod_id == self.mod_id && row.tag_id == self.tag_id)
    }

    fn test(&self, row: &ModTagRelation) -> (yes: bool) {
        !(row.mod_id == self.mod_id && row.tag_id == self.tag_id)
    }
}

/// The tags whose identity is among the given ones.
pub struct Used<'a> {
    /// The identities.
    pub ids: &'a Vec<i32>,
}

impl<'a> Criterion<Tag> for Used<'a> {
    open spec fn holds(&self, row: Tag) -> bool {
        self.ids@.contains(row.id)
    }

    fn test(&self, row: &Tag) -> (yes: bool) {
        let mut i: usize = 0;
        while i < self.ids.len()
            invariant
                i <= self.ids.len(),
                forall|j: int| 0 <= j < i ==> #[trigger] self.ids[j] != row.id,
            decreases self.ids.len() - i,
        {
            if self.ids[i] == row.id {
                return true;
            }
            i += 1;
        }
        false
    }
}

/// Whether a recorded fingerprint collides with a fingerprint about to be
/// recorded for the mod `mod_id`: it is the same fingerprint, recorded for
/// another mod.
pub open spec fn collides(row: ModHash, mod_id: i32, hash: Seq<char>) -> bool {
    row.hash@ == hash && row.mod_id != mod_id
}

/// The rows that collide with a fingerprint about to be recorded.
pub struct Colliding<'a> {
    /// The mod for which the fingerprint is about to be recorded.
    pub mod_id: i32,
    /// The fingerprint.
    pub hash: &'a String,
}

impl<'a> Criterion<ModHash> for Colliding<'a> {
    open spec fn holds(&self, row: ModHash) -> bool {
        collides(row, self.mod_id, self.hash@)
    }

    fn test(&self, row: &ModHash) -> (yes: bool) {
        row.hash == *self.hash && row.mod_id != self.mod_id
    }
}

/// Every row meets this condition.
pub struct Every {}

impl<T> Criterion<T> for Every {
    open spec fn holds(&self, row: T) -> bool {
        true
    }

    fn test(&self, row: &T) -> (yes: bool) {
        true
    }
}

/// The rows that collide with a fingerprint about to be recorded, as a
/// predicate.
pub open spec fn collides_with(mod_id: i32, hash: Seq<char>) -> spec_fn(ModHash) -> bool {
    |row: ModHash| collides(row, mod_id, hash)
}

/// The records of the mods that have one of the tags of the given labels.
pub struct TaggedAny<'a> {
    /// The store that holds the tags and the links.
    pub store: &'a Store,
    /// The labels.
    pub labels: &'a Vec<String>,
}

impl<'a> Criterion<Model> for TaggedAny<'a> {
    open spec fn holds(&self, row: Model) -> bool {
        tagged_any(self.store.tags@, self.store.relations@, row.id as int, self.labels@)
    }

    fn test(&self, row: &Model) -> (yes: bool) {
        let mut i: usize = 0;
        while i < self.labels.len()
            invariant
                i <= self.labels.len(),
                forall|j: int|
                    0 <= j < i ==> !tagged(
                        self.store.tags@,
                        self.store.relations@,
                        row.id as int,
                        (#[trigger] self.labels[j])@,
                    ),
            decreases self.labels.len() - i,
        {
            if self.store.is_tagged(row.id, &self.labels[i]) {
                return true;
            }
            i += 1;
        }
        false
    }
}

/// The records of the mods that are linked to a tag.
pub struct LinkedTo<'a> {
    /// The links.
    pub relations: &'a Vec<ModTagRelation>,
    /// The tag.
    pub tag_id: i32,
}

impl<'a> Criterion<Model> for LinkedTo<'a> {
    open spec fn holds(&self, row: Model) -> bool {
        self.relations@.contains(ModTagRelation { mod_id: row.id, tag_id: self.tag_id })
    }

    fn test(&self, row: &Model) -> (yes: bool) {
        let mut i: usize = 0;
        while i < self.relations.len()
            invariant
                i <= self.relations.len(),
                forall|j: int|
                    0 <= j < i ==> #[trigger] self.relations[j] != (ModTagRelation {
                        mod_id: row.id,
                        tag_id: self.tag_id,
                    }),
            decreases self.relations.len() - i,
        {
            if self.relations[i].mod_id == row.id && self.relations[i].tag_id == self.tag_id {
                return true;
            }
            i += 1;
        }
        false
    }
}

/// The tags whose label is among the given ones.
pub struct LabelAmong<'a> {
    /// The labels.
    pub labels: &'a Vec<String>,
}

impl<'a> Criterion<Tag> for LabelAmong<'a> {
    open spec fn holds(&self, row: Tag) -> bool {
        exists|i: int| 0 <= i < self.labels.len() && (#[trigger] self.labels[i])@ == row.tag@
    }

    fn test(&self, row: &Tag) -> (yes: bool) {
        let mut i: usize = 0;
        while i < self.labels.len()
            invariant
                i <= self.labels.len(),
                forall|j: int| 0 <= j < i ==> (#[trigger] self.labels[j])@ != row.tag@,
            decreases self.labels.len() - i,
        {
            if self.labels[i] == row.tag {
                return true;
            }
            i += 1;
        }
        false
    }
}

/// The tags that are linked to a mod.
pub struct TagOfMod<'a> {
    /// The links.
    pub relations: &'a Vec<ModTagRelation>,
    /// The mod.
    pub mod_id: i32,
}

impl<'a> Criterion<Tag> for TagOfMod<'a> {
    open spec fn holds(&self, row: Tag) -> bool {
        self.relations@.contains(ModTagRelation { mod_id: self.mod_id, tag_id: row.id })
    }

    fn test(&self, row: &Tag) -> (yes: bool) {
        let mut i: usize = 0;
        while i < self.relations.len()
            invariant
                i <= self.relations.len(),
                forall|j: int|
                    0 <= j < i ==> #[trigger] self.relations[j] != (ModTagRelation {
                        mod_id: self.mod_id,
                        tag_id: row.id,
                    }),
            decreases self.relations.len() - i,
        {
            if self.relations[i].mod_id == self.mod_id && self.relations[i].tag_id == row.id {
                return true;
            }
            i += 1;
        }
        false
    }
}

} // verus!
