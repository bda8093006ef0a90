//! Changes to the records of mods and to the fingerprints of their files.

use crate::criteria::{meeting, OtherMod, select};
use crate::file_hashes::FileHashes;
use crate::filters::{
    lemma_filter_all, lemma_filter_appended, lemma_filter_keeps_apart, lemma_filter_rows,
    lemma_filter_twice,
};
use crate::rows::{
    Collision, collision_texts, fresh_key, hashes_apart, Keyed, largest_key, lemma_largest_key,
    lemma_largest_key_push, links_apart, Model, ModHash, mods_apart, ModTagRelation, NewMod,
    StoreError, Tag, tags_apart,
};
use crate::set_diff::{distinct, is_distinct, lemma_members_empty, lemma_members_push, members};
use crate::store::{
    all_collisions, directory_of_other, has_directory, has_label, has_mod, has_name, has_tag,
    hashes_of, index_of_mod, labels_of, lemma_hashes_of_row, linked_in, name_of_other, Store,
    tag_linked, tagged,
};
use crate::tagging::{cleanup_tags, lemma_add_tag_labels, lemma_tag_id_is_fresh};
use vstd::prelude::*;

verus! {

/// What is left of consistent rows after some records were removed
/// together with their fingerprints and links is consistent.
pub proof fn lemma_without_mod(before: Store, after: Store, mod_id: i32)
    requires
        before.consistent(),
        after.mods@ == before.mods@.filter(meeting(OtherMod { mod_id })),
        after.hashes@ == before.hashes@.filter(meeting(OtherMod { mod_id })),
        after.relations@ == before.relations@.filter(meeting(OtherMod { mod_id })),
        after.tags@ == before.tags@,
    ensures
        after.consistent(),
{
    let other = OtherMod { mod_id };
    lemma_filter_rows(before.mods@, meeting(other));
    lemma_filter_rows(before.hashes@, meeting(other));
    lemma_filter_rows(before.relations@, meeting(other));
    lemma_filter_keeps_apart(before.mods@, meeting(other), |a: Model, b: Model| mods_apart(a, b));
    lemma_filter_keeps_apart(
        before.hashes@,
        meeting(other),
        |a: ModHash, b: ModHash| hashes_apart(a, b),
    );
    lemma_filter_keeps_apart(
        before.relations@,
        meeting(other),
        |a: ModTagRelation, b: ModTagRelation| links_apart(a, b),
    );
    assert forall|id: int| has_mod(before.mods@, id) && id != mod_id implies has_mod(
        after.mods@,
        id,
    ) by {
        let k = choose|k: int| 0 <= k < before.mods.len() && #[trigger] before.mods[k].id == id;
        assert(meeting(other)(before.mods[k]));
        assert(after.mods@.contains(before.mods[k]));
        let t = choose|t: int| 0 <= t < after.mods.len() && after.mods[t] == before.mods[k];
        assert(after.mods[t].id == id);
    }
    assert forall|i: int| 0 <= i < after.hashes.len() implies has_mod(
        after.mods@,
        (#[trigger] after.hashes[i]).mod_id as int,
    ) by {
        let row = after.hashes[i];
        assert(meeting(other)(after.hashes@[i]));
        assert(before.hashes@.contains(row));
        let k = choose|k: int| 0 <= k < before.hashes.len() && before.hashes[k] == row;
        assert(has_mod(before.mods@, before.hashes[k].mod_id as int));
    }
    assert forall|i: int| 0 <= i < after.relations.len() implies has_mod(
        after.mods@,
        (#[trigger] after.relations[i]).mod_id as int,
    ) && has_tag(after.tags@, after.relations[i].tag_id as int) by {
        let row = after.relations[i];
        assert(meeting(other)(after.relations@[i]));
        assert(before.relations@.contains(row));
        let k = choose|k: int| 0 <= k < before.relations.len() && before.relations[k] == row;
        assert(has_mod(before.mods@, before.relations[k].mod_id as int));
    }
}

/// Consistent rows with one more record, of a new identity, name and
/// directory, are consistent.
pub proof fn lemma_with_mod(before: Store, after: Store, record: Model)
    requires
        before.consistent(),
        !has_mod(before.mods@, record.id as int),
        !has_name(before.mods@, record.name@),
        !has_directory(before.mods@, record.directory@),
        after.mods@ == before.mods@.push(record),
        after.hashes@ == before.hashes@,
        after.relations@ == before.relations@,
        after.tags@ == before.tags@,
    ensures
        after.consistent(),
        before.wf() ==> after.wf(),
{
    assert forall|i: int, j: int| 0 <= i < j < after.mods.len() implies mods_apart(
        #[trigger] after.mods[i],
        #[trigger] after.mods[j],
    ) by {
        assert(after.mods[i] == before.mods[i]);
        if j < before.mods.len() {
            assert(after.mods[j] == before.mods[j]);
        }
    }
    assert forall|id: int| has_mod(before.mods@, id) implies has_mod(after.mods@, id) by {
        let k = choose|k: int| 0 <= k < before.mods.len() && #[trigger] before.mods[k].id == id;
        assert(after.mods[k].id == id);
    }
    assert forall|i: int| 0 <= i < after.relations.len() implies has_mod(
        after.mods@,
        (#[trigger] after.relations[i]).mod_id as int,
    ) && has_tag(after.tags@, after.relations[i].tag_id as int) by {
        assert(after.relations[i] == before.relations[i]);
    }
    assert forall|i: int| 0 <= i < after.hashes.len() implies has_mod(
        after.mods@,
        (#[trigger] after.hashes[i]).mod_id as int,
    ) by {
        assert(after.hashes[i] == before.hashes[i]);
    }
    assert forall|i: int, j: int| 0 <= i < j < after.tags.len() implies tags_apart(
        #[trigger] after.tags[i],
        #[trigger] after.tags[j],
    ) by {
        assert(after.tags[i] == before.tags[i] && after.tags[j] == before.tags[j]);
    }
    assert forall|i: int, j: int| 0 <= i < j < after.hashes.len() implies hashes_apart(
        #[trigger] after.hashes[i],
        #[trigger] after.hashes[j],
    ) by {
        assert(after.hashes[i] == before.hashes[i] && after.hashes[j] == before.hashes[j]);
    }
    assert forall|i: int, j: int| 0 <= i < j < after.relations.len() implies links_apart(
        #[trigger] after.relations[i],
        #[trigger] after.relations[j],
    ) by {
        assert(after.relations[i] == before.relations[i] && after.relations[j]
            == before.relations[j]);
    }
    if before.wf() {
        assert forall|i: int| 0 <= i < after.tags.len() implies tag_linked(
            after.relations@,
            (#[trigger] after.tags[i]).id as int,
        ) by {
            assert(after.tags[i] == before.tags[i]);
        }
    }
}

/// A record with the fields changed that an edit names, and with the time
/// of the edit.
pub open spec fn edited(
    record: Model,
    name: Option<String>,
    source_url: Option<String>,
    version: Option<String>,
    now: i64,
) -> Model {
    Model {
        id: record.id,
        name: match name {
            Some(text) => text,
            None => record.name,
        },
        directory: record.directory,
        source_url: match source_url {
            Some(text) => text,
            None => record.source_url,
        },
        version: match version {
            Some(text) => text,
            None => record.version,
        },
        updated: now,
    }
}

impl Store {
    /// Removes the record of a mod together with its fingerprints and its
    /// links, then drops the tags that have no link left. Says whether
    /// there was such a record.
    pub fn remove_mod(&mut self, mod_id: i32) -> (removed: bool)
        requires
            old(self).wf(),
        ensures
            final(self).wf(),
            removed == has_mod(old(self).mods@, mod_id as int),
            !has_mod(final(self).mods@, mod_id as int),
            final(self).mods@ == old(self).mods@.filter(meeting(OtherMod { mod_id })),
            final(self).hashes@ == old(self).hashes@.filter(meeting(OtherMod { mod_id })),
            final(self).relations@ == old(self).relations@.filter(meeting(OtherMod { mod_id })),
            final(self).tags@ == old(self).tags@.filter(linked_in(final(self).relations@)),
    {
        let removed = self.contains_mod(mod_id);
        let other = OtherMod { mod_id };
        let ghost before = *self;
        self.hashes = select(&self.hashes, &other);
        self.relations = select(&self.relations, &other);
        self.mods = select(&self.mods, &other);
        proof {
            lemma_without_mod(before, *self, mod_id);
            lemma_filter_rows(before.mods@, meeting(other));
            if has_mod(self.mods@, mod_id as int) {
                let k = choose|k: int|
                    0 <= k < self.mods.len() && #[trigger] self.mods[k].id == mod_id as int;
                assert(meeting(other)(self.mods@[k]));
            }
        }
        cleanup_tags(self);
        removed
    }

    /// Records the fingerprints of a mod's files in place of those that
    /// were recorded for it. Says whether there is such a mod; where there
    /// is none, nothing changes.
    pub fn update_hashes(&mut self, mod_id: i32, hashes: &FileHashes) -> (updated: bool)
        requires
            old(self).wf(),
            hashes.wf(),
        ensures
            final(self).wf(),
            updated == has_mod(old(self).mods@, mod_id as int),
            final(self).mods == old(self).mods,
            final(self).tags == old(self).tags,
            final(self).relations == old(self).relations,
            updated ==> hashes_of(final(self).hashes@, mod_id as int) == hashes@,
            updated ==> final(self).hashes@.filter(meeting(OtherMod { mod_id }))
                == old(self).hashes@.filter(meeting(OtherMod { mod_id })),
            !updated ==> final(self).hashes == old(self).hashes,
    {
        if !self.contains_mod(mod_id) {
            return false;
        }
        let other = OtherMod { mod_id };
        let ghost before = *self;
        let ghost wanted: spec_fn(ModHash) -> bool = meeting(other);
        let entries = hashes.entries();
        self.hashes = select(&self.hashes, &other);
        let ghost kept = self.hashes@;
        proof {
            lemma_filter_rows(before.hashes@, wanted);
            lemma_filter_keeps_apart(
                before.hashes@,
                wanted,
                |a: ModHash, b: ModHash| hashes_apart(a, b),
            );
            assert forall|i: int| 0 <= i < kept.len() implies has_mod(
                self.mods@,
                (#[trigger] kept[i]).mod_id as int,
            ) by {
                assert(before.hashes@.contains(kept[i]));
                let k = choose|k: int| 0 <= k < before.hashes.len() && before.hashes[k] == kept[i];
                assert(has_mod(before.mods@, before.hashes[k].mod_id as int));
            }
        }
        let mut i: usize = 0;
        while i < entries.len()
            invariant
                i <= entries.len(),
                self.mods == before.mods,
                self.tags == before.tags,
                self.relations == before.relations,
                has_mod(self.mods@, mod_id as int),
                self.hashes.len() == kept.len() + i,
                forall|j: int| 0 <= j < kept.len() ==> #[trigger] self.hashes[j] == kept[j],
                forall|j: int|
                    0 <= j < i ==> (#[trigger] self.hashes[kept.len() + j]).mod_id == mod_id
                        && self.hashes[kept.len() + j].file@ == entries[j].0@ && self.hashes[kept.len()
                        + j].hash@ == entries[j].1@,
            decreases entries.len() - i,
        {
            self.hashes.push(
                ModHash { mod_id, file: entries[i].0.clone(), hash: entries[i].1.clone() },
            );
            i += 1;
        }
        proof {
            let rows = self.hashes@;
            assert forall|a: int, b: int| 0 <= a < b < rows.len() implies hashes_apart(
                #[trigger] rows[a],
                #[trigger] rows[b],
            ) by {
                if b < kept.len() {
                    assert(rows[a] == kept[a] && rows[b] == kept[b]);
                } else if a < kept.len() {
                    assert(rows[a] == kept[a]);
                    assert(wanted(kept[a]));
                    assert(rows[kept.len() + (b - kept.len())].mod_id == mod_id);
                } else {
                    assert(rows[kept.len() + (a - kept.len())].file@ == entries[a - kept.len()].0@);
                    assert(rows[kept.len() + (b - kept.len())].file@ == entries[b - kept.len()].0@);
                }
            }
            assert forall|j: int| 0 <= j < rows.len() implies has_mod(
                self.mods@,
                (#[trigger] rows[j]).mod_id as int,
            ) by {
                if j < kept.len() {
                    assert(rows[j] == kept[j]);
                } else {
                    assert(rows[kept.len() + (j - kept.len())].mod_id == mod_id);
                }
            }
            assert(self.consistent());
            assert forall|file: Seq<char>| hashes_of(rows, mod_id as int).contains_key(file)
                <==> hashes@.contains_key(file) by {
                if hashes_of(rows, mod_id as int).contains_key(file) {
                    let k = choose|k: int|
                        0 <= k < rows.len() && (#[trigger] rows[k]).mod_id == mod_id && rows[k].file@
                            == file;
                    if k < kept.len() {
                        assert(rows[k] == kept[k]);
                        assert(wanted(kept[k]));
                    } else {
                        assert(rows[kept.len() + (k - kept.len())].file@ == entries[k
                            - kept.len()].0@);
                        assert(hashes@.contains_key(entries[k - kept.len()].0@));
                    }
                }
                if hashes@.contains_key(file) {
                    let e = choose|e: int| 0 <= e < entries.len() && #[trigger] entries[e].0@ == file;
                    assert(rows[kept.len() + e].mod_id == mod_id && rows[kept.len() + e].file@
                        == file);
                }
            }
            assert forall|file: Seq<char>| hashes@.contains_key(file) implies hashes_of(
                rows,
                mod_id as int,
            )[file] == hashes@[file] by {
                let e = choose|e: int| 0 <= e < entries.len() && #[trigger] entries[e].0@ == file;
                assert(rows[kept.len() + e].mod_id == mod_id && rows[kept.len() + e].file@ == file);
                lemma_hashes_of_row(rows, kept.len() + e);
                assert(hashes@[entries[e].0@] == entries[e].1@);
            }
            assert(hashes_of(rows, mod_id as int) =~= hashes@);
            assert forall|j: int| kept.len() <= j < rows.len() implies !wanted(
                #[trigger] rows[j],
            ) by {
                assert(rows[kept.len() + (j - kept.len())].mod_id == mod_id);
            }
            lemma_filter_appended(kept, rows, wanted);
            lemma_filter_twice(before.hashes@, wanted);
        }
        true
    }

    /// Adds a mod: its record, under an identity one above the largest in
    /// use, the links to its tags, and the fingerprints of its files. Tags
    /// that do not exist yet are made. The store refuses a mod whose name
    /// or directory another record has; then, and where the identities run
    /// out, nothing changes.
    pub fn add_mod(&mut self, new_mod: &NewMod) -> (outcome: Result<
        (i32, Vec<Collision>),
        StoreError,
    >)
        requires
            old(self).wf(),
            new_mod.hashes.wf(),
        ensures
            final(self).wf(),
            (!has_name(old(self).mods@, new_mod.name@) && !has_directory(
                old(self).mods@,
                new_mod.directory@,
            ) && largest_key(old(self).mods@) < i32::MAX && largest_key(old(self).tags@)
                + new_mod.tags.len() < i32::MAX) ==> outcome is Ok,
            match outcome {
                Ok((id, collisions)) => {
                    &&& collision_texts(collisions@) == all_collisions(
                        old(self).mods@,
                        old(self).hashes@,
                        id,
                        new_mod.name@,
                        new_mod.hashes.listing(),
                    )
                    &&& !has_name(old(self).mods@, new_mod.name@)
                    &&& !has_directory(old(self).mods@, new_mod.directory@)
                    &&& id == largest_key(old(self).mods@) + 1
                    &&& final(self).mods@ == old(self).mods@.push(new_mod.record(id))
                    &&& hashes_of(final(self).hashes@, id as int) == new_mod.hashes@
                    &&& final(self).hashes@.filter(meeting(OtherMod { mod_id: id }))
                        == old(self).hashes@
                    &&& labels_of(final(self).tags@, final(self).relations@, id as int)
                        == members(new_mod.tags@)
                    &&& final(self).relations@.filter(meeting(OtherMod { mod_id: id }))
                        == old(self).relations@
                    &&& forall|other: int|
                        other != id ==> labels_of(
                            final(self).tags@,
                            final(self).relations@,
                            other,
                        ) == labels_of(old(self).tags@, old(self).relations@, other)
                },
                Err(error) => {
                    &&& *final(self) == *old(self)
                    &&& error == if has_name(old(self).mods@, new_mod.name@) {
                        StoreError::NameTaken
                    } else if has_directory(old(self).mods@, new_mod.directory@) {
                        StoreError::DirectoryTaken
                    } else {
                        StoreError::OutOfIds
                    }
                },
            },
    {
        if self.contains_name(&new_mod.name) {
            return Err(StoreError::NameTaken);
        }
        if self.contains_directory(&new_mod.directory) {
            return Err(StoreError::DirectoryTaken);
        }
        let id = match fresh_key(&self.mods) {
            Some(id) => id,
            None => {
                return Err(StoreError::OutOfIds);
            },
        };
        let ghost before = *self;
        let collisions = self.detect_collisions(id, &new_mod.name, &new_mod.hashes);
        let ghost wanted_link: spec_fn(ModTagRelation) -> bool = meeting(OtherMod { mod_id: id });
        let ghost wanted_hash: spec_fn(ModHash) -> bool = meeting(OtherMod { mod_id: id });
        let mut draft = self.duplicate();
        let ghost copied = draft;
        let record = Model {
            id,
            name: new_mod.name.clone(),
            directory: new_mod.directory.clone(),
            source_url: new_mod.source_url.clone(),
            version: new_mod.version.clone(),
            updated: new_mod.updated,
        };
        proof {
            lemma_largest_key(self.mods@);
            if has_mod(self.mods@, id as int) {
                let k = choose|k: int|
                    0 <= k < self.mods.len() && #[trigger] self.mods[k].id == id as int;
                assert(self.mods[k].key() <= largest_key(self.mods@));
            }
            assert(copied.consistent());
            assert(copied.wf());
        }
        draft.mods.push(record);
        proof {
            lemma_with_mod(copied, draft, record);
            assert forall|i: int| 0 <= i < draft.relations.len() implies wanted_link(
                #[trigger] draft.relations@[i],
            ) by {
                assert(has_mod(before.mods@, before.relations[i].mod_id as int));
            }
            lemma_filter_all(draft.relations@, wanted_link);
            assert forall|label: Seq<char>| !tagged(
                draft.tags@,
                draft.relations@,
                id as int,
                label,
            ) by {
                if tagged(draft.tags@, draft.relations@, id as int, label) {
                    let (t, r) = choose|t: int, r: int|
                        0 <= t < draft.tags.len() && 0 <= r < draft.relations.len() && (
                        #[trigger] draft.tags[t]).tag@ == label && (
                        #[trigger] draft.relations[r]).mod_id == id as int
                            && draft.relations[r].tag_id == draft.tags[t].id;
                    assert(has_mod(before.mods@, before.relations[r].mod_id as int));
                }
            }
            lemma_members_empty(new_mod.tags@.take(0));
            assert(labels_of(draft.tags@, draft.relations@, id as int) =~= members(
                new_mod.tags@.take(0),
            ));
        }
        let mut i: usize = 0;
        while i < new_mod.tags.len()
            invariant
                i <= new_mod.tags.len(),
                draft.wf(),
                before.wf(),
                draft.mods@ == before.mods@.push(record),
                record.id == id,
                *self == before,
                collision_texts(collisions@) == all_collisions(
                    before.mods@,
                    before.hashes@,
                    id,
                    new_mod.name@,
                    new_mod.hashes.listing(),
                ),
                !has_name(before.mods@, new_mod.name@),
                !has_directory(before.mods@, new_mod.directory@),
                draft.hashes@ == before.hashes@,
                wanted_link == meeting::<ModTagRelation, OtherMod>(OtherMod { mod_id: id }),
                draft.relations@.filter(wanted_link) == before.relations@,
                labels_of(draft.tags@, draft.relations@, id as int) == members(
                    new_mod.tags@.take(i as int),
                ),
                forall|other: int|
                    other != id ==> labels_of(draft.tags@, draft.relations@, other) == labels_of(
                        before.tags@,
                        before.relations@,
                        other,
                    ),
                largest_key(draft.tags@) <= largest_key(before.tags@) + i,
            decreases new_mod.tags.len() - i,
        {
            let ghost earlier = draft;
            proof {
                assert(draft.mods[before.mods.len() as int].id == id);
                assert(has_mod(draft.mods@, id as int));
            }
            match draft.add_tag(id, &new_mod.tags[i]) {
                Err(_) => {
                    return Err(StoreError::OutOfIds);
                },
                Ok(tag_id) => {
                    proof {
                        let link = ModTagRelation { mod_id: id, tag_id };
                        let label = new_mod.tags[i as int]@;
                        if !has_label(earlier.tags@, label) {
                            assert(draft.tags@.drop_last() =~= earlier.tags@);
                            lemma_largest_key(earlier.tags@);
                            lemma_largest_key_push(
                                earlier.tags@,
                                Tag { id: tag_id, tag: new_mod.tags[i as int] },
                            );
                            lemma_tag_id_is_fresh(earlier, draft, tag_id);
                        }
                        lemma_add_tag_labels(earlier, draft, id, tag_id, label);
                        if !earlier.relations@.contains(link) {
                            earlier.relations@.lemma_filter_push(link, wanted_link);
                        }
                        lemma_members_push(new_mod.tags@.take(i as int), new_mod.tags[i as int]);
                        assert(new_mod.tags@.take(i + 1) =~= new_mod.tags@.take(i as int).push(
                            new_mod.tags[i as int],
                        ));
                    }
                },
            }
            i += 1;
        }
        proof {
            assert(new_mod.tags@.take(i as int) =~= new_mod.tags@);
            assert(draft.mods[before.mods.len() as int].id == id);
        }
        let ghost linked = draft;
        let updated = draft.update_hashes(id, &new_mod.hashes);
        proof {
            assert forall|j: int| 0 <= j < before.hashes.len() implies wanted_hash(
                #[trigger] before.hashes@[j],
            ) by {
                assert(has_mod(before.mods@, before.hashes[j].mod_id as int));
            }
            lemma_filter_all(before.hashes@, wanted_hash);
        }
        *self = draft;
        Ok((id, collisions))
    }

    /// Puts a record in the place of the record that has its identity. The
    /// store refuses a record whose name or directory another record has,
    /// and one whose identity no record has; then nothing changes.
    pub fn update_mod(&mut self, record: Model) -> (outcome: Result<(), StoreError>)
        requires
            old(self).wf(),
        ensures
            final(self).wf(),
            final(self).hashes == old(self).hashes,
            final(self).tags == old(self).tags,
            final(self).relations == old(self).relations,
            match outcome {
                Ok(_) => {
                    &&& has_mod(old(self).mods@, record.id as int)
                    &&& !name_of_other(old(self).mods@, record.id as int, record.name@)
                    &&& !directory_of_other(old(self).mods@, record.id as int, record.directory@)
                    &&& final(self).mods@ == old(self).mods@.update(
                        index_of_mod(old(self).mods@, record.id as int),
                        record,
                    )
                },
                Err(error) => {
                    &&& *final(self) == *old(self)
                    &&& error == if !has_mod(old(self).mods@, record.id as int) {
                        StoreError::UnknownMod
                    } else if name_of_other(old(self).mods@, record.id as int, record.name@) {
                        StoreError::NameTaken
                    } else {
                        StoreError::DirectoryTaken
                    }
                    &&& has_mod(old(self).mods@, record.id as int) ==> name_of_other(
                        old(self).mods@,
                        record.id as int,
                        record.name@,
                    ) || directory_of_other(old(self).mods@, record.id as int, record.directory@)
                },
            },
    {
        let mut place: Option<usize> = None;
        let mut name_taken = false;
        let mut directory_taken = false;
        let mut i: usize = 0;
        while i < self.mods.len()
            invariant
                i <= self.mods.len(),
                *self == *old(self),
                match place {
                    Some(k) => k < i && self.mods[k as int].id == record.id,
                    None => forall|j: int| 0 <= j < i ==> (#[trigger] self.mods[j]).id != record.id,
                },
                name_taken == name_of_other(
                    self.mods@.take(i as int),
                    record.id as int,
                    record.name@,
                ),
                directory_taken == directory_of_other(
                    self.mods@.take(i as int),
                    record.id as int,
                    record.directory@,
                ),
            decreases self.mods.len() - i,
        {
            let ghost seen = self.mods@.take(i as int);
            let ghost more = self.mods@.take(i + 1);
            let row = &self.mods[i];
            if row.id == record.id {
                place = Some(i);
            } else {
                if row.name == record.name {
                    name_taken = true;
                }
                if row.directory == record.directory {
                    directory_taken = true;
                }
            }
            proof {
                assert forall|j: int| 0 <= j < i implies #[trigger] more[j] == seen[j] by {}
                if name_of_other(seen, record.id as int, record.name@) {
                    let j = choose|j: int|
                        0 <= j < seen.len() && (#[trigger] seen[j]).id != record.id as int
                            && seen[j].name@ == record.name@;
                    assert(more[j].id != record.id && more[j].name@ == record.name@);
                }
                if directory_of_other(seen, record.id as int, record.directory@) {
                    let j = choose|j: int|
                        0 <= j < seen.len() && (#[trigger] seen[j]).id != record.id as int
                            && seen[j].directory@ == record.directory@;
                    assert(more[j].id != record.id && more[j].directory@ == record.directory@);
                }
                if name_of_other(more, record.id as int, record.name@) {
                    let j = choose|j: int|
                        0 <= j < more.len() && (#[trigger] more[j]).id != record.id as int
                            && more[j].name@ == record.name@;
                    if j < i {
                        assert(seen[j].id != record.id && seen[j].name@ == record.name@);
                    }
                }
                if directory_of_other(more, record.id as int, record.directory@) {
                    let j = choose|j: int|
                        0 <= j < more.len() && (#[trigger] more[j]).id != record.id as int
                            && more[j].directory@ == record.directory@;
                    if j < i {
                        assert(seen[j].id != record.id && seen[j].directory@ == record.directory@);
                    }
                }
                assert(more[i as int] == self.mods[i as int]);
            }
            i += 1;
        }
        proof {
            assert(self.mods@.take(i as int) =~= self.mods@);
        }
        let k = match place {
            Some(k) => k,
            None => {
                return Err(StoreError::UnknownMod);
            },
        };
        if name_taken {
            return Err(StoreError::NameTaken);
        }
        if directory_taken {
            return Err(StoreError::DirectoryTaken);
        }
        let ghost before = *self;
        proof {
            let chosen = index_of_mod(before.mods@, record.id as int);
            if chosen < k {
                assert(mods_apart(before.mods[chosen], before.mods[k as int]));
            } else if k < chosen {
                assert(mods_apart(before.mods[k as int], before.mods[chosen]));
            }
        }
        self.mods.set(k, record);
        proof {
            assert forall|a: int, b: int| 0 <= a < b < self.mods.len() implies mods_apart(
                #[trigger] self.mods[a],
                #[trigger] self.mods[b],
            ) by {
                assert(mods_apart(before.mods[a], before.mods[b]));
                if a == k {
                    assert(before.mods[b].id != record.id);
                } else if b == k {
                    assert(before.mods[a].id != record.id);
                }
            }
            assert forall|id: int| has_mod(before.mods@, id) implies has_mod(self.mods@, id) by {
                let j = choose|j: int| 0 <= j < before.mods.len() && #[trigger] before.mods[j].id
                    == id;
                assert(self.mods[j].id == id);
            }
        }
        Ok(())
    }

    /// Records the result of a scan for a mod: puts `to_save` in the place
    /// of the mod's record, and the fingerprints in the place of those
    /// recorded for the mod. Hands back a warning for every fingerprint
    /// that another mod has already; the warnings do not keep the
    /// fingerprints from being recorded.
    pub fn update_mod_from_scan(&mut self, to_save: Model, hashes: &FileHashes) -> (outcome: Result<
        Vec<Collision>,
        StoreError,
    >)
        requires
            old(self).wf(),
            hashes.wf(),
        ensures
            final(self).wf(),
            final(self).tags == old(self).tags,
            final(self).relations == old(self).relations,
            (has_mod(old(self).mods@, to_save.id as int) && !name_of_other(
                old(self).mods@,
                to_save.id as int,
                to_save.name@,
            ) && !directory_of_other(old(self).mods@, to_save.id as int, to_save.directory@))
                ==> outcome is Ok,
            match outcome {
                Ok(collisions) => {
                    &&& collision_texts(collisions@) == all_collisions(
                        old(self).mods@,
                        old(self).hashes@,
                        to_save.id,
                        to_save.name@,
                        hashes.listing(),
                    )
                    &&& has_mod(old(self).mods@, to_save.id as int)
                    &&& final(self).mods@ == old(self).mods@.update(
                        index_of_mod(old(self).mods@, to_save.id as int),
                        to_save,
                    )
                    &&& hashes_of(final(self).hashes@, to_save.id as int) == hashes@
                    &&& final(self).hashes@.filter(meeting(OtherMod { mod_id: to_save.id }))
                        == old(self).hashes@.filter(meeting(OtherMod { mod_id: to_save.id }))
                },
                Err(error) => {
                    &&& *final(self) == *old(self)
                    &&& error == if !has_mod(old(self).mods@, to_save.id as int) {
                        StoreError::UnknownMod
                    } else if name_of_other(old(self).mods@, to_save.id as int, to_save.name@) {
                        StoreError::NameTaken
                    } else {
                        StoreError::DirectoryTaken
                    }
                    &&& error == StoreError::DirectoryTaken ==> directory_of_other(
                        old(self).mods@,
                        to_save.id as int,
                        to_save.directory@,
                    )
                },
            },
    {
        let mod_id = to_save.id;
        let ghost before = *self;
        let collisions = self.detect_collisions(mod_id, &to_save.name, hashes);
        match self.update_mod(to_save) {
            Err(error) => Err(error),
            Ok(_) => {
                proof {
                    let k = index_of_mod(before.mods@, mod_id as int);
                    assert(self.mods[k].id == mod_id);
                }
                let updated = self.update_hashes(mod_id, hashes);
                Ok(collisions)
            },
        }
    }
}

/// Whether a change of a mod's name is refused: the name is given and
/// another record has it.
pub open spec fn name_refused(mods: Seq<Model>, id: i32, name: Option<String>) -> bool {
    name matches Some(text) && name_of_other(mods, id as int, text@)
}

/// Whether a list of tags is refused: it names a label twice.
pub open spec fn tags_refused(tags: Option<Vec<String>>) -> bool {
    tags matches Some(labels) && !distinct(labels@)
}

/// What an edit of a mod does: how the store after it, and what it hands
/// back, follow from the store before it and from what was asked.
pub open spec fn edit_outcome(
    before: Store,
    after: Store,
    id: i32,
    name: Option<String>,
    source_url: Option<String>,
    tags: Option<Vec<String>>,
    version: Option<String>,
    now: i64,
    outcome: Result<bool, StoreError>,
) -> bool {
    &&& (has_mod(before.mods@, id as int) && !name_refused(before.mods@, id, name)
        && !tags_refused(tags) && (tags matches Some(labels) ==> largest_key(before.tags@)
        + labels.len() < i32::MAX)) ==> outcome is Ok
    &&& match outcome {
        Ok(found) => {
            &&& found == has_mod(before.mods@, id as int)
            &&& !found ==> after == before
            &&& found ==> {
                &&& !name_refused(before.mods@, id, name)
                &&& !tags_refused(tags)
                &&& after.mods@ == before.mods@.update(
                    index_of_mod(before.mods@, id as int),
                    edited(
                        before.mods@[index_of_mod(before.mods@, id as int)],
                        name,
                        source_url,
                        version,
                        now,
                    ),
                )
                &&& after.hashes@ == before.hashes@
                &&& tags is None ==> after.tags@ == before.tags@ && after.relations@
                    == before.relations@
                &&& labels_of(after.tags@, after.relations@, id as int) == match tags {
                    Some(labels) => members(labels@),
                    None => labels_of(before.tags@, before.relations@, id as int),
                }
                &&& forall|other: int|
                    other != id ==> labels_of(after.tags@, after.relations@, other) == labels_of(
                        before.tags@,
                        before.relations@,
                        other,
                    )
            }
        },
        Err(error) => {
            &&& after == before
            &&& has_mod(before.mods@, id as int)
            &&& error == if name_refused(before.mods@, id, name) {
                StoreError::NameTaken
            } else if tags_refused(tags) {
                StoreError::RepeatedTag
            } else {
                StoreError::OutOfIds
            }
            &&& error == StoreError::OutOfIds ==> (tags matches Some(labels) && largest_key(
                before.tags@,
            ) + labels.len() >= i32::MAX)
        },
    }
}

/// Changes the fields of a mod that are given, and sets the time of its
/// last change. Where tags are given, the mod gets them in place of the
/// tags it has, and tags without links are dropped. Says whether there
/// is such a mod. The store refuses a name that another record has and a
/// list of tags that names a label twice; then, and where the identities
/// run out, nothing changes.
pub fn edit(
    store: &mut Store,
    id: i32,
    name: Option<String>,
    source_url: Option<String>,
    tags: Option<Vec<String>>,
    version: Option<String>,
    now: i64,
) -> (outcome: Result<bool, StoreError>)
    requires
        old(store).wf(),
    ensures
        final(store).wf(),
        edit_outcome(*old(store), *final(store), id, name, source_url, tags, version, now, outcome),
{
    let ghost before = *store;
    let ghost place = index_of_mod(before.mods@, id as int);
    let record = match store.find_mod(id) {
        None => {
            return Ok(false);
        },
        Some(current) => {
            proof {
                let k = choose|k: int| 0 <= k < store.mods.len() && store.mods[k] == *current;
                if k < place {
                    assert(mods_apart(store.mods[k], store.mods[place]));
                } else if place < k {
                    assert(mods_apart(store.mods[place], store.mods[k]));
                }
            }
            Model {
                id,
                name: match &name {
                    Some(text) => text.clone(),
                    None => current.name.clone(),
                },
                directory: current.directory.clone(),
                source_url: match &source_url {
                    Some(text) => text.clone(),
                    None => current.source_url.clone(),
                },
                version: match &version {
                    Some(text) => text.clone(),
                    None => current.version.clone(),
                },
                updated: now,
            }
        },
    };
    proof {
        assert(record == edited(before.mods@[place], name, source_url, version, now));
        if directory_of_other(before.mods@, id as int, record.directory@) {
            let j = choose|j: int|
                0 <= j < before.mods.len() && (#[trigger] before.mods[j]).id != id as int
                    && before.mods[j].directory@ == record.directory@;
            if j < place {
                assert(mods_apart(before.mods[j], before.mods[place]));
            } else if place < j {
                assert(mods_apart(before.mods[place], before.mods[j]));
            }
        }
        if name is None && name_of_other(before.mods@, id as int, record.name@) {
            let j = choose|j: int|
                0 <= j < before.mods.len() && (#[trigger] before.mods[j]).id != id as int
                    && before.mods[j].name@ == record.name@;
            if j < place {
                assert(mods_apart(before.mods[j], before.mods[place]));
            } else if place < j {
                assert(mods_apart(before.mods[place], before.mods[j]));
            }
        }
    }
    let mut draft = store.duplicate();
    proof {
        assert(draft.wf());
        assert(index_of_mod(draft.mods@, id as int) == place);
    }
    match draft.update_mod(record) {
        Err(_) => {
            return Err(StoreError::NameTaken);
        },
        Ok(_) => {},
    }
    let ghost renamed = draft;
    proof {
        assert(draft.mods[place].id == id);
        assert(labels_of(draft.tags@, draft.relations@, id as int) =~= labels_of(
            before.tags@,
            before.relations@,
            id as int,
        ));
        assert forall|other: int| other != id implies labels_of(
            draft.tags@,
            draft.relations@,
            other,
        ) == labels_of(before.tags@, before.relations@, other) by {
            assert(labels_of(draft.tags@, draft.relations@, other) =~= labels_of(
                before.tags@,
                before.relations@,
                other,
            ));
        }
    }
    match &tags {
        Some(labels) => {
            if !is_distinct(labels) {
                return Err(StoreError::RepeatedTag);
            }
            match draft.set_tags(id, labels) {
                Err(_) => {
                    return Err(StoreError::OutOfIds);
                },
                Ok(_) => {},
            }
        },
        None => {},
    }
    *store = draft;
    Ok(true)
}

} // verus!
