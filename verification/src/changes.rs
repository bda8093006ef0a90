//! What has to be written to the database after the rows of the store have
//! changed: the rows to delete and the rows to save, table by table.

use crate::criteria::{Criterion, meeting, select};
use crate::filters::lemma_filter_rows;
use crate::rows::{Model, ModHash, ModTagRelation, Tag};
use crate::store::Store;
use vstd::prelude::*;

verus! {

/// Two records say the same.
pub open spec fn same_mod(a: Model, b: Model) -> bool {
    &&& a.id == b.id
    &&& a.name@ == b.name@
    &&& a.directory@ == b.directory@
    &&& a.source_url@ == b.source_url@
    &&& a.version@ == b.version@
    &&& a.updated == b.updated
}

/// Two tags say the same.
pub open spec fn same_tag(a: Tag, b: Tag) -> bool {
    a.id == b.id && a.tag@ == b.tag@
}

/// Two fingerprints are of the same file of the same mod.
pub open spec fn same_file(a: ModHash, b: ModHash) -> bool {
    a.mod_id == b.mod_id && a.file@ == b.file@
}

/// Two fingerprints say the same.
pub open spec fn same_hash(a: ModHash, b: ModHash) -> bool {
    same_file(a, b) && a.hash@ == b.hash@
}

/// The rows that have no counterpart in a table: no row of the table has
/// their key (`whole` unset), or no row of the table says the same
/// (`whole` set).
pub struct Without<'a, T> {
    /// The table.
    pub rows: &'a Vec<T>,
    /// Whether a counterpart has to say the same, or only to have the key.
    pub whole: bool,
}

impl<'a> Criterion<Model> for Without<'a, Model> {
    open spec fn holds(&self, row: Model) -> bool {
        forall|i: int|
            0 <= i < self.rows.len() ==> !(if self.whole {
                same_mod(#[trigger] self.rows[i], row)
            } else {
                self.rows[i].id == row.id
            })
    }

    fn test(&self, row: &Model) -> (yes: bool) {
        let mut i: usize = 0;
        while i < self.rows.len()
            invariant
                i <= self.rows.len(),
                forall|j: int|
                    0 <= j < i ==> !(if self.whole {
                        same_mod(#[trigger] self.rows[j], *row)
                    } else {
                        self.rows[j].id == row.id
                    }),
            decreases self.rows.len() - i,
        {
            let other = &self.rows[i];
            let found = other.id == row.id && (!self.whole || (other.name == row.name
                && other.directory == row.directory && other.source_url == row.source_url
                && other.version == row.version && other.updated == row.updated));
            if found {
                return false;
            }
            i += 1;
        }
        true
    }
}

impl<'a> Criterion<Tag> for Without<'a, Tag> {
    open spec fn holds(&self, row: Tag) -> bool {
        forall|i: int|
            0 <= i < self.rows.len() ==> !(if self.whole {
                same_tag(#[trigger] self.rows[i], row)
            } else {
                self.rows[i].id == row.id
            })
    }

    fn test(&self, row: &Tag) -> (yes: bool) {
        let mut i: usize = 0;
        while i < self.rows.len()
            invariant
                i <= self.rows.len(),
                forall|j: int|
                    0 <= j < i ==> !(if self.whole {
                        same_tag(#[trigger] self.rows[j], *row)
                    } else {
                        self.rows[j].id == row.id
                    }),
            decreases self.rows.len() - i,
        {
            let other = &self.rows[i];
            if other.id == row.id && (!self.whole || other.tag == row.tag) {
                return false;
            }
            i += 1;
        }
        true
    }
}

impl<'a> Criterion<ModHash> for Without<'a, ModHash> {
    open spec fn holds(&self, row: ModHash) -> bool {
        forall|i: int|
            0 <= i < self.rows.len() ==> !(if self.whole {
                same_hash(#[trigger] self.rows[i], row)
            } else {
                same_file(self.rows[i], row)
            })
    }

    fn test(&self, row: &ModHash) -> (yes: bool) {
        let mut i: usize = 0;
        while i < self.rows.len()
            invariant
                i <= self.rows.len(),
                forall|j: int|
                    0 <= j < i ==> !(if self.whole {
                        same_hash(#[trigger] self.rows[j], *row)
                    } else {
                        same_file(self.rows[j], *row)
                    }),
            decreases self.rows.len() - i,
        {
            let other = &self.rows[i];
            if other.mod_id == row.mod_id && other.file == row.file && (!self.whole || other.hash
                == row.hash) {
                return false;
            }
            i += 1;
        }
        true
    }
}

impl<'a> Criterion<ModTagRelation> for Without<'a, ModTagRelation> {
    open spec fn holds(&self, row: ModTagRelation) -> bool {
        forall|i: int| 0 <= i < self.rows.len() ==> #[trigger] self.rows[i] != row
    }

    fn test(&self, row: &ModTagRelation) -> (yes: bool) {
        let mut i: usize = 0;
        while i < self.rows.len()
            invariant
                i <= self.rows.len(),
                forall|j: int| 0 <= j < i ==> #[trigger] self.rows[j] != *row,
            decreases self.rows.len() - i,
        {
            if self.rows[i].mod_id == row.mod_id && self.rows[i].tag_id == row.tag_id {
                return false;
            }
            i += 1;
        }
        true
    }
}

/// The rows to delete from the database and the rows to save to it. A row
/// is deleted by its key and saved under its key, in place of the row that
/// has the key, if there is one.
#[derive(Debug)]
pub struct StoreChanges {
    /// Links that are no longer in the store.
    pub removed_relations: Vec<ModTagRelation>,
    /// Fingerprints of files that are no longer in the store.
    pub removed_hashes: Vec<ModHash>,
    /// Tags that are no longer in the store.
    pub removed_tags: Vec<Tag>,
    /// Records that are no longer in the store.
    pub removed_mods: Vec<Model>,
    /// Records that are new or say something else than before.
    pub saved_mods: Vec<Model>,
    /// Tags that are new or say something else than before.
    pub saved_tags: Vec<Tag>,
    /// Fingerprints that are new or say something else than before.
    pub saved_hashes: Vec<ModHash>,
    /// Links that are new.
    pub added_relations: Vec<ModTagRelation>,
}

impl StoreChanges {
    /// Whether nothing has to be written.
    pub fn is_empty(&self) -> (nothing: bool)
        ensures
            nothing == (self.removed_relations.len() == 0 && self.removed_hashes.len() == 0
                && self.removed_tags.len() == 0 && self.removed_mods.len() == 0
                && self.saved_mods.len() == 0 && self.saved_tags.len() == 0
                && self.saved_hashes.len() == 0 && self.added_relations.len() == 0),
    {
        self.removed_relations.len() == 0 && self.removed_hashes.len() == 0
            && self.removed_tags.len() == 0 && self.removed_mods.len() == 0
            && self.saved_mods.len() == 0 && self.saved_tags.len() == 0 && self.saved_hashes.len()
            == 0 && self.added_relations.len() == 0
    }
}

/// Compares the rows that the database holds, `before`, with the rows that
/// it shall hold, `after`. To delete are the rows of `before` whose key no
/// row of `after` has; to save are the rows of `after` that say something
/// that no row of `before` says.
pub fn changes(before: &Store, after: &Store) -> (delta: StoreChanges)
    ensures
        delta.removed_relations@ == before.relations@.filter(
            meeting(Without { rows: &after.relations, whole: false }),
        ),
        delta.removed_hashes@ == before.hashes@.filter(
            meeting(Without { rows: &after.hashes, whole: false }),
        ),
        delta.removed_tags@ == before.tags@.filter(
            meeting(Without { rows: &after.tags, whole: false }),
        ),
        delta.removed_mods@ == before.mods@.filter(
            meeting(Without { rows: &after.mods, whole: false }),
        ),
        delta.saved_mods@ == after.mods@.filter(
            meeting(Without { rows: &before.mods, whole: true }),
        ),
        delta.saved_tags@ == after.tags@.filter(
            meeting(Without { rows: &before.tags, whole: true }),
        ),
        delta.saved_hashes@ == after.hashes@.filter(
            meeting(Without { rows: &before.hashes, whole: true }),
        ),
        delta.added_relations@ == after.relations@.filter(
            meeting(Without { rows: &before.relations, whole: true }),
        ),
{
    StoreChanges {
        removed_relations: select(
            &before.relations,
            &Without { rows: &after.relations, whole: false },
        ),
        removed_hashes: select(&before.hashes, &Without { rows: &after.hashes, whole: false }),
        removed_tags: select(&before.tags, &Without { rows: &after.tags, whole: false }),
        removed_mods: select(&before.mods, &Without { rows: &after.mods, whole: false }),
        saved_mods: select(&after.mods, &Without { rows: &before.mods, whole: true }),
        saved_tags: select(&after.tags, &Without { rows: &before.tags, whole: true }),
        saved_hashes: select(&after.hashes, &Without { rows: &before.hashes, whole: true }),
        added_relations: select(
            &after.relations,
            &Without { rows: &before.relations, whole: true },
        ),
    }
}

/// A store that has not changed needs nothing written.
pub proof fn lemma_no_change_needs_no_write(store: Store)
    ensures
        store.relations@.filter(meeting(Without { rows: &store.relations, whole: false })).len()
            == 0,
        store.hashes@.filter(meeting(Without { rows: &store.hashes, whole: false })).len() == 0,
        store.tags@.filter(meeting(Without { rows: &store.tags, whole: false })).len() == 0,
        store.mods@.filter(meeting(Without { rows: &store.mods, whole: false })).len() == 0,
        store.mods@.filter(meeting(Without { rows: &store.mods, whole: true })).len() == 0,
        store.tags@.filter(meeting(Without { rows: &store.tags, whole: true })).len() == 0,
        store.hashes@.filter(meeting(Without { rows: &store.hashes, whole: true })).len() == 0,
        store.relations@.filter(meeting(Without { rows: &store.relations, whole: true })).len()
            == 0,
{
    assert forall|i: int| 0 <= i < store.relations.len() implies !meeting::<ModTagRelation, Without<ModTagRelation>>(
        Without { rows: &store.relations, whole: false },
    )(#[trigger] store.relations@[i]) by {
        let criterion = Without { rows: &store.relations, whole: false };
        assert(criterion.rows[i] == store.relations[i]);
    }
    lemma_none_without_itself(
        store.relations@,
        meeting(Without { rows: &store.relations, whole: false }),
    );
    assert forall|i: int| 0 <= i < store.relations.len() implies !meeting::<ModTagRelation, Without<ModTagRelation>>(
        Without { rows: &store.relations, whole: true },
    )(#[trigger] store.relations@[i]) by {
        let criterion = Without { rows: &store.relations, whole: true };
        assert(criterion.rows[i] == store.relations[i]);
    }
    lemma_none_without_itself(
        store.relations@,
        meeting(Without { rows: &store.relations, whole: true }),
    );
    assert forall|i: int| 0 <= i < store.hashes.len() implies !meeting::<ModHash, Without<ModHash>>(
        Without { rows: &store.hashes, whole: false },
    )(#[trigger] store.hashes@[i]) by {
        let criterion = Without { rows: &store.hashes, whole: false };
        assert(criterion.rows[i] == store.hashes[i]);
    }
    lemma_none_without_itself(
        store.hashes@,
        meeting(Without { rows: &store.hashes, whole: false }),
    );
    assert forall|i: int| 0 <= i < store.hashes.len() implies !meeting::<ModHash, Without<ModHash>>(
        Without { rows: &store.hashes, whole: true },
    )(#[trigger] store.hashes@[i]) by {
        let criterion = Without { rows: &store.hashes, whole: true };
        assert(criterion.rows[i] == store.hashes[i]);
    }
    lemma_none_without_itself(
        store.hashes@,
        meeting(Without { rows: &store.hashes, whole: true }),
    );
    assert forall|i: int| 0 <= i < store.tags.len() implies !meeting::<Tag, Without<Tag>>(
        Without { rows: &store.tags, whole: false },
    )(#[trigger] store.tags@[i]) by {
        let criterion = Without { rows: &store.tags, whole: false };
        assert(criterion.rows[i] == store.tags[i]);
    }
    lemma_none_without_itself(
        store.tags@,
        meeting(Without { rows: &store.tags, whole: false }),
    );
    assert forall|i: int| 0 <= i < store.tags.len() implies !meeting::<Tag, Without<Tag>>(
        Without { rows: &store.tags, whole: true },
    )(#[trigger] store.tags@[i]) by {
        let criterion = Without { rows: &store.tags, whole: true };
        assert(criterion.rows[i] == store.tags[i]);
    }
    lemma_none_without_itself(
        store.tags@,
        meeting(Without { rows: &store.tags, whole: true }),
    );
    assert forall|i: int| 0 <= i < store.mods.len() implies !meeting::<Model, Without<Model>>(
        Without { rows: &store.mods, whole: false },
    )(#[trigger] store.mods@[i]) by {
        let criterion = Without { rows: &store.mods, whole: false };
        assert(criterion.rows[i] == store.mods[i]);
    }
    lemma_none_without_itself(
        store.mods@,
        meeting(Without { rows: &store.mods, whole: false }),
    );
    assert forall|i: int| 0 <= i < store.mods.len() implies !meeting::<Model, Without<Model>>(
        Without { rows: &store.mods, whole: true },
    )(#[trigger] store.mods@[i]) by {
        let criterion = Without { rows: &store.mods, whole: true };
        assert(criterion.rows[i] == store.mods[i]);
    }
    lemma_none_without_itself(
        store.mods@,
        meeting(Without { rows: &store.mods, whole: true }),
    );
}

/// A selection that no row meets is empty.
proof fn lemma_none_without_itself<T>(rows: Seq<T>, wanted: spec_fn(T) -> bool)
    requires
        forall|i: int| 0 <= i < rows.len() ==> !wanted(#[trigger] rows[i]),
    ensures
        rows.filter(wanted).len() == 0,
{
    lemma_filter_rows(rows, wanted);
    if rows.filter(wanted).len() > 0 {
        let row = rows.filter(wanted)[0];
        assert(wanted(row));
        assert(rows.contains(row));
        let k = choose|k: int| 0 <= k < rows.len() && rows[k] == row;
        assert(!wanted(rows[k]));
    }
}

} // verus!
