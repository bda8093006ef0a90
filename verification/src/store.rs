//! The store: the rows of all mods, fingerprints, tags and links, what
//! makes them fit together, and what can be asked of them.

use crate::criteria::{
    collides_with, Colliding, Every, LabelAmong, LinkedTo, meeting, select, TaggedAny, TagOfMod,
};
use crate::file_hashes::FileHashes;
use crate::filters::{lemma_filter_all, lemma_filter_keeps_apart, lemma_filter_rows};
use crate::rows::{
    all_apart, Collision, collision_texts, CollisionText, hashes_apart, links_apart, Mod, Model,
    ModHash, mods_apart, ModTagRelation, Tag, tags_apart,
};
use crate::set_diff::{
    distinct, Element, first_occurrences, lemma_first_occurrences_push, lemma_members_empty,
    members, models, push_once, standing,
};
use vstd::prelude::*;

verus! {

/// Whether a record of this identity is among the given ones.
pub open spec fn has_mod(mods: Seq<Model>, id: int) -> bool {
    exists|i: int| 0 <= i < mods.len() && #[trigger] mods[i].id == id
}

/// Whether a tag of this identity is among the given ones.
pub open spec fn has_tag(tags: Seq<Tag>, id: int) -> bool {
    exists|i: int| 0 <= i < tags.len() && #[trigger] tags[i].id == id
}

/// Whether one of the given links is a link to the tag of this identity.
pub open spec fn tag_linked(relations: Seq<ModTagRelation>, tag_id: int) -> bool {
    exists|i: int| 0 <= i < relations.len() && #[trigger] relations[i].tag_id == tag_id
}

/// The tags that have a link among the given ones, as a predicate.
pub open spec fn linked_in(relations: Seq<ModTagRelation>) -> spec_fn(Tag) -> bool {
    |tag: Tag| tag_linked(relations, tag.id as int)
}

/// The rows of the store.
#[derive(Debug)]
pub struct Store {
    /// The records of the mods.
    pub mods: Vec<Model>,
    /// The fingerprints of their files.
    pub hashes: Vec<ModHash>,
    /// The tags.
    pub tags: Vec<Tag>,
    /// The links between mods and tags.
    pub relations: Vec<ModTagRelation>,
}

/// Whether one of the tags has the label.
pub open spec fn has_label(tags: Seq<Tag>, label: Seq<char>) -> bool {
    exists|i: int| 0 <= i < tags.len() && (#[trigger] tags[i]).tag@ == label
}

/// The name of the mod of an identity.
pub open spec fn name_of_mod(mods: Seq<Model>, mod_id: int) -> Seq<char> {
    mods[index_of_mod(mods, mod_id)].name@
}

/// The warnings that a fingerprint about to be recorded gives rise to: one
/// for each recorded fingerprint of another mod that equals it, in the
/// order of the rows.
pub open spec fn collisions_with(
    mods: Seq<Model>,
    rows: Seq<ModHash>,
    mod_id: i32,
    name: Seq<char>,
    file: Seq<char>,
    hash: Seq<char>,
) -> Seq<CollisionText> {
    let hits = rows.filter(collides_with(mod_id, hash));
    Seq::new(
        hits.len(),
        |i: int|
            CollisionText {
                hash,
                colliding_mod: name,
                colliding_file: file,
                existing_mod: name_of_mod(mods, hits[i].mod_id as int),
                existing_file: hits[i].file@,
            },
    )
}

/// The warnings that the fingerprints of a listing give rise to, in the
/// order of the listing.
pub open spec fn all_collisions(
    mods: Seq<Model>,
    rows: Seq<ModHash>,
    mod_id: i32,
    name: Seq<char>,
    listing: Seq<(Seq<char>, Seq<char>)>,
) -> Seq<CollisionText>
    decreases listing.len(),
{
    if listing.len() == 0 {
        Seq::empty()
    } else {
        all_collisions(mods, rows, mod_id, name, listing.drop_last()) + collisions_with(
            mods,
            rows,
            mod_id,
            name,
            listing.last().0,
            listing.last().1,
        )
    }
}

/// The fingerprints recorded for the files of a mod, by file name.
pub open spec fn hashes_of(hashes: Seq<ModHash>, mod_id: int) -> Map<Seq<char>, Seq<char>> {
    Map::new(
        |file: Seq<char>|
            exists|i: int|
                0 <= i < hashes.len() && (#[trigger] hashes[i]).mod_id == mod_id && hashes[i].file@
                    == file,
        |file: Seq<char>|
            hashes[choose|i: int|
                0 <= i < hashes.len() && (#[trigger] hashes[i]).mod_id == mod_id && hashes[i].file@
                    == file].hash@,
    )
}

/// Where a mod has one fingerprint for a file at most, the fingerprint
/// recorded for a file is that of the file's row.
pub proof fn lemma_hashes_of_row(hashes: Seq<ModHash>, i: int)
    requires
        0 <= i < hashes.len(),
        forall|a: int, b: int|
            0 <= a < b < hashes.len() ==> hashes_apart(#[trigger] hashes[a], #[trigger] hashes[b]),
    ensures
        hashes_of(hashes, hashes[i].mod_id as int).contains_key(hashes[i].file@),
        hashes_of(hashes, hashes[i].mod_id as int)[hashes[i].file@] == hashes[i].hash@,
{
    let mod_id = hashes[i].mod_id as int;
    let file = hashes[i].file@;
    let k = choose|k: int|
        0 <= k < hashes.len() && (#[trigger] hashes[k]).mod_id == mod_id && hashes[k].file@ == file;
    if k < i {
        assert(hashes_apart(hashes[k], hashes[i]));
    } else if i < k {
        assert(hashes_apart(hashes[i], hashes[k]));
    }
}

/// Whether a mod has a tag: some link joins the mod with a tag of this
/// label.
pub open spec fn tagged(
    tags: Seq<Tag>,
    relations: Seq<ModTagRelation>,
    mod_id: int,
    label: Seq<char>,
) -> bool {
    exists|t: int, r: int|
        0 <= t < tags.len() && 0 <= r < relations.len() && (#[trigger] tags[t]).tag@ == label && (
        #[trigger] relations[r]).mod_id == mod_id && relations[r].tag_id == tags[t].id
}

/// The labels of the tags of a mod.
pub open spec fn labels_of(tags: Seq<Tag>, relations: Seq<ModTagRelation>, mod_id: int) -> Set<
    Seq<char>,
> {
    Set::new(|label: Seq<char>| tagged(tags, relations, mod_id, label))
}

/// The mods that have the tag of a label.
pub open spec fn mods_tagged(
    tags: Seq<Tag>,
    relations: Seq<ModTagRelation>,
    label: Seq<char>,
) -> Set<int> {
    Set::new(|mod_id: int| tagged(tags, relations, mod_id, label))
}

/// The labels of a sequence of tags, in order.
pub open spec fn tag_labels(tags: Seq<Tag>) -> Seq<Seq<char>> {
    Seq::new(tags.len(), |i: int| tags[i].tag@)
}

/// Whether one of the records has the name.
pub open spec fn has_name(mods: Seq<Model>, name: Seq<char>) -> bool {
    exists|i: int| 0 <= i < mods.len() && (#[trigger] mods[i]).name@ == name
}

/// Whether one of the records has the directory.
pub open spec fn has_directory(mods: Seq<Model>, directory: Seq<char>) -> bool {
    exists|i: int| 0 <= i < mods.len() && (#[trigger] mods[i]).directory@ == directory
}

/// The mods that a sequence of links names, in order.
pub open spec fn linked_mods(relations: Seq<ModTagRelation>) -> Seq<int> {
    Seq::new(relations.len(), |i: int| relations[i].mod_id as int)
}

/// Whether a mod has one of the tags of the given labels.
pub open spec fn tagged_any(
    tags: Seq<Tag>,
    relations: Seq<ModTagRelation>,
    mod_id: int,
    labels: Seq<String>,
) -> bool {
    exists|i: int| 0 <= i < labels.len() && tagged(tags, relations, mod_id, (#[trigger] labels[i])@)
}

/// Whether another record than that of the given identity has the name.
pub open spec fn name_of_other(mods: Seq<Model>, id: int, name: Seq<char>) -> bool {
    exists|i: int| 0 <= i < mods.len() && (#[trigger] mods[i]).id != id && mods[i].name@ == name
}

/// Whether another record than that of the given identity has the
/// directory.
pub open spec fn directory_of_other(mods: Seq<Model>, id: int, directory: Seq<char>) -> bool {
    exists|i: int|
        0 <= i < mods.len() && (#[trigger] mods[i]).id != id && mods[i].directory@ == directory
}

/// The index of the record of an identity.
pub open spec fn index_of_mod(mods: Seq<Model>, id: int) -> int {
    choose|i: int| 0 <= i < mods.len() && #[trigger] mods[i].id == id
}

impl Store {
    /// The rows fit together: no two records share an identity, a name or
    /// a directory; no two tags share an identity or a label; every
    /// fingerprint belongs to a record, and a record has one fingerprint
    /// for a file at most; every link joins a record and a tag, and no link
    /// occurs twice.
    pub open spec fn consistent(&self) -> bool {
        &&& forall|i: int, j: int|
            0 <= i < j < self.mods.len() ==> mods_apart(
                #[trigger] self.mods[i],
                #[trigger] self.mods[j],
            )
        &&& forall|i: int, j: int|
            0 <= i < j < self.tags.len() ==> tags_apart(
                #[trigger] self.tags[i],
                #[trigger] self.tags[j],
            )
        &&& forall|i: int, j: int|
            0 <= i < j < self.hashes.len() ==> hashes_apart(
                #[trigger] self.hashes[i],
                #[trigger] self.hashes[j],
            )
        &&& forall|i: int, j: int|
            0 <= i < j < self.relations.len() ==> links_apart(
                #[trigger] self.relations[i],
                #[trigger] self.relations[j],
            )
        &&& forall|i: int|
            0 <= i < self.hashes.len() ==> has_mod(
                self.mods@,
                (#[trigger] self.hashes[i]).mod_id as int,
            )
        &&& forall|i: int|
            0 <= i < self.relations.len() ==> has_mod(
                self.mods@,
                (#[trigger] self.relations[i]).mod_id as int,
            ) && has_tag(self.tags@, self.relations[i].tag_id as int)
    }

    /// The rows fit together, and every tag has a link: a tag without
    /// links does not stay in the store.
    pub open spec fn wf(&self) -> bool {
        &&& self.consistent()
        &&& forall|i: int|
            0 <= i < self.tags.len() ==> tag_linked(
                self.relations@,
                (#[trigger] self.tags[i]).id as int,
            )
    }

    /// A store without rows.
    pub fn new() -> (store: Store)
        ensures
            store.wf(),
            store.mods@ == Seq::<Model>::empty(),
            store.hashes@ == Seq::<ModHash>::empty(),
            store.tags@ == Seq::<Tag>::empty(),
            store.relations@ == Seq::<ModTagRelation>::empty(),
    {
        Store { mods: Vec::new(), hashes: Vec::new(), tags: Vec::new(), relations: Vec::new() }
    }

    /// Whether the store has a record of this identity.
    pub fn contains_mod(&self, mod_id: i32) -> (found: bool)
        ensures
            found == has_mod(self.mods@, mod_id as int),
    {
        let mut i: usize = 0;
        while i < self.mods.len()
            invariant
                i <= self.mods.len(),
                forall|j: int| 0 <= j < i ==> (#[trigger] self.mods[j]).id != mod_id,
            decreases self.mods.len() - i,
        {
            if self.mods[i].id == mod_id {
                return true;
            }
            i += 1;
        }
        false
    }

    /// The identity of the tag with this label, if there is one.
    pub fn find_tag(&self, label: &String) -> (found: Option<i32>)
        ensures
            match found {
                Some(id) => exists|i: int|
                    0 <= i < self.tags.len() && (#[trigger] self.tags[i]).id == id
                        && self.tags[i].tag@ == label@,
                None => !has_label(self.tags@, label@),
            },
    {
        let mut i: usize = 0;
        while i < self.tags.len()
            invariant
                i <= self.tags.len(),
                forall|j: int| 0 <= j < i ==> (#[trigger] self.tags[j]).tag@ != label@,
            decreases self.tags.len() - i,
        {
            if self.tags[i].tag == *label {
                return Some(self.tags[i].id);
            }
            i += 1;
        }
        None
    }

    /// Whether the store has a tag of this identity.
    pub fn contains_tag(&self, tag_id: i32) -> (found: bool)
        ensures
            found == has_tag(self.tags@, tag_id as int),
    {
        let mut i: usize = 0;
        while i < self.tags.len()
            invariant
                i <= self.tags.len(),
                forall|j: int| 0 <= j < i ==> (#[trigger] self.tags[j]).id != tag_id,
            decreases self.tags.len() - i,
        {
            if self.tags[i].id == tag_id {
                return true;
            }
            i += 1;
        }
        false
    }

    /// Whether the store has this link.
    pub fn contains_link(&self, link: ModTagRelation) -> (found: bool)
        ensures
            found == self.relations@.contains(link),
    {
        let mut i: usize = 0;
        while i < self.relations.len()
            invariant
                i <= self.relations.len(),
                forall|j: int| 0 <= j < i ==> #[trigger] self.relations[j] != link,
            decreases self.relations.len() - i,
        {
            if self.relations[i].mod_id == link.mod_id && self.relations[i].tag_id == link.tag_id {
                return true;
            }
            i += 1;
        }
        false
    }

    /// A copy of the store.
    pub fn duplicate(&self) -> (copy: Store)
        ensures
            copy.mods@ == self.mods@,
            copy.hashes@ == self.hashes@,
            copy.tags@ == self.tags@,
            copy.relations@ == self.relations@,
    {
        let every = Every {  };
        proof {
            lemma_filter_all(self.mods@, meeting(every));
            lemma_filter_all(self.hashes@, meeting(every));
            lemma_filter_all(self.tags@, meeting(every));
            lemma_filter_all(self.relations@, meeting(every));
        }
        Store {
            mods: select(&self.mods, &every),
            hashes: select(&self.hashes, &every),
            tags: select(&self.tags, &every),
            relations: select(&self.relations, &every),
        }
    }

    /// The record of this identity, if there is one.
    pub fn find_mod(&self, mod_id: i32) -> (found: Option<&Model>)
        ensures
            match found {
                Some(record) => record.id == mod_id && self.mods@.contains(*record),
                None => !has_mod(self.mods@, mod_id as int),
            },
    {
        let mut i: usize = 0;
        while i < self.mods.len()
            invariant
                i <= self.mods.len(),
                forall|j: int| 0 <= j < i ==> (#[trigger] self.mods[j]).id != mod_id,
            decreases self.mods.len() - i,
        {
            if self.mods[i].id == mod_id {
                return Some(&self.mods[i]);
            }
            i += 1;
        }
        None
    }

    /// Looks for fingerprints of other mods that equal a fingerprint about
    /// to be recorded for the file `file` of the mod `mod_id`, whose name
    /// is `name`. Finding some is no error: each is handed back as a
    /// warning, in the order of the rows, and nothing is changed.
    pub fn detect_collision(
        &self,
        mod_id: i32,
        name: &String,
        file: &String,
        hash: &String,
    ) -> (found: Vec<Collision>)
        requires
            self.consistent(),
        ensures
            collision_texts(found@) == collisions_with(
                self.mods@,
                self.hashes@,
                mod_id,
                name@,
                file@,
                hash@,
            ),
    {
        let criterion = Colliding { mod_id, hash };
        let rows = select(&self.hashes, &criterion);
        proof {
            assert(meeting(criterion) =~= collides_with(mod_id, hash@));
            lemma_filter_rows(self.hashes@, collides_with(mod_id, hash@));
        }
        let mut found: Vec<Collision> = Vec::new();
        let mut i: usize = 0;
        while i < rows.len()
            invariant
                i <= rows.len(),
                found.len() == i,
                self.consistent(),
                rows@ == self.hashes@.filter(collides_with(mod_id, hash@)),
                forall|j: int| 0 <= j < rows.len() ==> self.hashes@.contains(#[trigger] rows[j]),
                forall|j: int|
                    0 <= j < i ==> (#[trigger] found[j])@ == (CollisionText {
                        hash: hash@,
                        colliding_mod: name@,
                        colliding_file: file@,
                        existing_mod: name_of_mod(self.mods@, rows[j].mod_id as int),
                        existing_file: rows[j].file@,
                    }),
            decreases rows.len() - i,
        {
            let row = &rows[i];
            proof {
                assert(self.hashes@.contains(rows[i as int]));
                let k = choose|k: int|
                    0 <= k < self.hashes.len() && self.hashes[k] == rows[i as int];
                assert(has_mod(self.mods@, self.hashes[k].mod_id as int));
            }
            match self.find_mod(row.mod_id) {
                Some(owner) => {
                    proof {
                        let k = choose|k: int| 0 <= k < self.mods.len() && self.mods[k] == *owner;
                        let chosen = index_of_mod(self.mods@, row.mod_id as int);
                        if k < chosen {
                            assert(mods_apart(self.mods[k], self.mods[chosen]));
                        } else if chosen < k {
                            assert(mods_apart(self.mods[chosen], self.mods[k]));
                        }
                    }
                    found.push(
                        Collision {
                            hash: hash.clone(),
                            colliding_mod: name.clone(),
                            colliding_file: file.clone(),
                            existing_mod: owner.name.clone(),
                            existing_file: row.file.clone(),
                        },
                    );
                },
                None => {
                    proof {
                        assert(false);
                    }
                },
            }
            i += 1;
        }
        proof {
            assert(collision_texts(found@) =~= collisions_with(
                self.mods@,
                self.hashes@,
                mod_id,
                name@,
                file@,
                hash@,
            ));
        }
        found
    }

    /// Looks, for every fingerprint of `hashes`, for fingerprints of other
    /// mods that equal it, as they are recorded now. The warnings come in
    /// the order in which `hashes` lists its files.
    pub fn detect_collisions(&self, mod_id: i32, name: &String, hashes: &FileHashes) -> (found:
        Vec<Collision>)
        requires
            self.consistent(),
            hashes.wf(),
        ensures
            collision_texts(found@) == all_collisions(
                self.mods@,
                self.hashes@,
                mod_id,
                name@,
                hashes.listing(),
            ),
    {
        let entries = hashes.entries();
        let mut found: Vec<Collision> = Vec::new();
        let mut i: usize = 0;
        proof {
            assert(hashes.listing().take(0) =~= Seq::<(Seq<char>, Seq<char>)>::empty());
            assert(collision_texts(found@) =~= all_collisions(
                self.mods@,
                self.hashes@,
                mod_id,
                name@,
                hashes.listing().take(0),
            ));
        }
        while i < entries.len()
            invariant
                i <= entries.len(),
                self.consistent(),
                entries.len() == hashes.listing().len(),
                forall|j: int|
                    0 <= j < entries.len() ==> (#[trigger] entries[j]).0@ == hashes.listing()[j].0
                        && entries[j].1@ == hashes.listing()[j].1,
                collision_texts(found@) == all_collisions(
                    self.mods@,
                    self.hashes@,
                    mod_id,
                    name@,
                    hashes.listing().take(i as int),
                ),
            decreases entries.len() - i,
        {
            let ghost so_far = found@;
            let mut more = self.detect_collision(mod_id, name, &entries[i].0, &entries[i].1);
            let ghost added = more@;
            found.append(&mut more);
            proof {
                assert(hashes.listing().take(i + 1).drop_last() =~= hashes.listing().take(i as int));
                assert(hashes.listing().take(i + 1).last() == hashes.listing()[i as int]);
                assert(collision_texts(so_far + added) =~= collision_texts(so_far)
                    + collision_texts(added));
            }
            i += 1;
        }
        proof {
            assert(hashes.listing().take(i as int) =~= hashes.listing());
        }
        found
    }

    /// Whether a record has this name.
    pub fn contains_name(&self, name: &String) -> (found: bool)
        ensures
            found == has_name(self.mods@, name@),
    {
        let mut i: usize = 0;
        while i < self.mods.len()
            invariant
                i <= self.mods.len(),
                forall|j: int| 0 <= j < i ==> (#[trigger] self.mods[j]).name@ != name@,
            decreases self.mods.len() - i,
        {
            if self.mods[i].name == *name {
                return true;
            }
            i += 1;
        }
        false
    }

    /// Whether a record has this directory.
    pub fn contains_directory(&self, directory: &String) -> (found: bool)
        ensures
            found == has_directory(self.mods@, directory@),
    {
        let mut i: usize = 0;
        while i < self.mods.len()
            invariant
                i <= self.mods.len(),
                forall|j: int| 0 <= j < i ==> (#[trigger] self.mods[j]).directory@ != directory@,
            decreases self.mods.len() - i,
        {
            if self.mods[i].directory == *directory {
                return true;
            }
            i += 1;
        }
        false
    }

    /// The label of the tag of this identity, if there is one.
    pub fn find_label(&self, tag_id: i32) -> (found: Option<&String>)
        ensures
            match found {
                Some(label) => exists|i: int|
                    0 <= i < self.tags.len() && (#[trigger] self.tags[i]).id == tag_id
                        && self.tags[i].tag == *label,
                None => !has_tag(self.tags@, tag_id as int),
            },
    {
        let mut i: usize = 0;
        while i < self.tags.len()
            invariant
                i <= self.tags.len(),
                forall|j: int| 0 <= j < i ==> (#[trigger] self.tags[j]).id != tag_id,
            decreases self.tags.len() - i,
        {
            if self.tags[i].id == tag_id {
                return Some(&self.tags[i].tag);
            }
            i += 1;
        }
        None
    }

    /// Whether a mod has the tag of this label.
    pub fn is_tagged(&self, mod_id: i32, label: &String) -> (yes: bool)
        ensures
            yes == tagged(self.tags@, self.relations@, mod_id as int, label@),
    {
        let mut t: usize = 0;
        while t < self.tags.len()
            invariant
                t <= self.tags.len(),
                forall|a: int, r: int|
                    0 <= a < t && 0 <= r < self.relations.len() ==> !((
                    #[trigger] self.tags[a]).tag@ == label@ && (#[trigger] self.relations[r]).mod_id
                        == mod_id && self.relations[r].tag_id == self.tags[a].id),
            decreases self.tags.len() - t,
        {
            if self.tags[t].tag == *label {
                let mut r: usize = 0;
                while r < self.relations.len()
                    invariant
                        r <= self.relations.len(),
                        t < self.tags.len(),
                        self.tags[t as int].tag@ == label@,
                        forall|b: int|
                            0 <= b < r ==> !((#[trigger] self.relations[b]).mod_id == mod_id
                                && self.relations[b].tag_id == self.tags[t as int].id),
                    decreases self.relations.len() - r,
                {
                    if self.relations[r].mod_id == mod_id && self.relations[r].tag_id
                        == self.tags[t].id {
                        return true;
                    }
                    r += 1;
                }
            }
            t += 1;
        }
        false
    }

    /// The records of the mods that are linked to a tag, in the order of
    /// the records.
    pub fn get_mods_for_tag(&self, tag_id: i32) -> (mods: Vec<Model>)
        ensures
            mods@ == self.mods@.filter(
                meeting(LinkedTo { relations: &self.relations, tag_id }),
            ),
    {
        let criterion = LinkedTo { relations: &self.relations, tag_id };
        select(&self.mods, &criterion)
    }

    /// The identities of the mods that have the tag of a label, each once,
    /// in the order in which the links name them first.
    pub fn members_of_tag(&self, label: &String) -> (ids: Vec<i32>)
        ensures
            models(ids@) == first_occurrences(
                linked_mods(self.relations@).filter(
                    standing(mods_tagged(self.tags@, self.relations@, label@), true),
                ),
            ),
            distinct(ids@),
            members(ids@) == mods_tagged(self.tags@, self.relations@, label@),
    {
        let mut ids: Vec<i32> = Vec::new();
        let mut i: usize = 0;
        let ghost wanted = standing(mods_tagged(self.tags@, self.relations@, label@), true);
        proof {
            lemma_members_empty(ids@);
            assert(linked_mods(self.relations@.take(0)).filter(wanted) =~= Seq::<int>::empty()) by {
                reveal(Seq::filter);
            }
            assert(models(ids@) =~= first_occurrences(
                linked_mods(self.relations@.take(0)).filter(wanted),
            ));
        }
        while i < self.relations.len()
            invariant
                i <= self.relations.len(),
                distinct(ids@),
                wanted == standing(mods_tagged(self.tags@, self.relations@, label@), true),
                models(ids@) == first_occurrences(
                    linked_mods(self.relations@.take(i as int)).filter(wanted),
                ),
                forall|j: int|
                    0 <= j < ids.len() ==> tagged(
                        self.tags@,
                        self.relations@,
                        #[trigger] ids[j] as int,
                        label@,
                    ),
                forall|j: int|
                    0 <= j < i && tagged(
                        self.tags@,
                        self.relations@,
                        (#[trigger] self.relations[j]).mod_id as int,
                        label@,
                    ) ==> members(ids@).contains(self.relations[j].mod_id as int),
            decreases self.relations.len() - i,
        {
            let mod_id = self.relations[i].mod_id;
            let ghost seen = linked_mods(self.relations@.take(i as int));
            proof {
                assert(linked_mods(self.relations@.take(i + 1)) =~= seen.push(mod_id as int));
                seen.lemma_filter_push(mod_id as int, wanted);
                lemma_first_occurrences_push(seen.filter(wanted), mod_id as int);
            }
            let ghost before = ids@;
            let yes = self.is_tagged(mod_id, label);
            if yes {
                push_once(&mut ids, mod_id);
            }
            proof {
                assert forall|j: int| 0 <= j < ids.len() implies tagged(
                    self.tags@,
                    self.relations@,
                    #[trigger] ids[j] as int,
                    label@,
                ) by {
                    assert(models(ids@)[j] == ids[j] as int);
                    if j < before.len() {
                        assert(models(before)[j] == before[j] as int);
                        assert(tagged(self.tags@, self.relations@, before[j] as int, label@));
                        assert(models(ids@)[j] == models(before)[j]);
                    } else {
                        assert(yes);
                        assert(models(ids@) == models(before).push(mod_id as int));
                        assert(models(before).len() == before.len());
                        assert(models(ids@).len() == ids.len());
                        assert(j == before.len());
                        assert(models(ids@)[j] == mod_id as int);
                    }
                }
            }
            i += 1;
        }
        proof {
            assert(self.relations@.take(i as int) =~= self.relations@);
            assert forall|m: int| members(ids@).contains(m) <==> mods_tagged(
                self.tags@,
                self.relations@,
                label@,
            ).contains(m) by {
                if members(ids@).contains(m) {
                    let j = choose|j: int| 0 <= j < ids.len() && #[trigger] ids[j].model() == m;
                    assert(tagged(self.tags@, self.relations@, ids[j] as int, label@));
                }
                if tagged(self.tags@, self.relations@, m, label@) {
                    let (t, r) = choose|t: int, r: int|
                        0 <= t < self.tags.len() && 0 <= r < self.relations.len() && (
                        #[trigger] self.tags[t]).tag@ == label@ && (
                        #[trigger] self.relations[r]).mod_id == m && self.relations[r].tag_id
                            == self.tags[t].id;
                    assert(members(ids@).contains(self.relations[r].mod_id as int));
                }
            }
            assert(members(ids@) =~= mods_tagged(self.tags@, self.relations@, label@));
        }
        ids
    }

    /// The tags to list: all of them, or where labels are given, those
    /// with one of the labels; in the order of the tags.
    pub fn list_tags(&self, labels: &Option<Vec<String>>) -> (tags: Vec<Tag>)
        ensures
            tags@ == match labels {
                Some(wanted) => self.tags@.filter(meeting(LabelAmong { labels: wanted })),
                None => self.tags@,
            },
    {
        match labels {
            Some(wanted) => select(&self.tags, &LabelAmong { labels: wanted }),
            None => {
                proof {
                    lemma_filter_all(self.tags@, meeting(Every {  }));
                }
                select(&self.tags, &Every {  })
            },
        }
    }

    /// Whether the rows fit together.
    pub fn is_consistent(&self) -> (yes: bool)
        ensures
            yes == self.consistent(),
    {
        if !(all_apart(&self.mods) && all_apart(&self.tags) && all_apart(&self.hashes)
            && all_apart(&self.relations)) {
            return false;
        }
        let mut h: usize = 0;
        while h < self.hashes.len()
            invariant
                h <= self.hashes.len(),
                forall|i: int|
                    0 <= i < h ==> has_mod(self.mods@, (#[trigger] self.hashes[i]).mod_id as int),
            decreases self.hashes.len() - h,
        {
            if !self.contains_mod(self.hashes[h].mod_id) {
                return false;
            }
            h += 1;
        }
        let mut r: usize = 0;
        while r < self.relations.len()
            invariant
                r <= self.relations.len(),
                forall|i: int|
                    0 <= i < r ==> has_mod(
                        self.mods@,
                        (#[trigger] self.relations[i]).mod_id as int,
                    ) && has_tag(self.tags@, self.relations[i].tag_id as int),
            decreases self.relations.len() - r,
        {
            if !(self.contains_mod(self.relations[r].mod_id) && self.contains_tag(
                self.relations[r].tag_id,
            )) {
                return false;
            }
            r += 1;
        }
        true
    }

    /// Whether the rows fit together and every tag has a link.
    pub fn is_well_formed(&self) -> (yes: bool)
        ensures
            yes == self.wf(),
    {
        if !self.is_consistent() {
            return false;
        }
        let mut t: usize = 0;
        while t < self.tags.len()
            invariant
                t <= self.tags.len(),
                forall|i: int|
                    0 <= i < t ==> tag_linked(self.relations@, (#[trigger] self.tags[i]).id as int),
            decreases self.tags.len() - t,
        {
            let id = self.tags[t].id;
            let mut linked = false;
            let mut r: usize = 0;
            while r < self.relations.len() && !linked
                invariant
                    r <= self.relations.len(),
                    linked ==> tag_linked(self.relations@, id as int),
                    !linked ==> forall|j: int|
                        0 <= j < r ==> (#[trigger] self.relations[j]).tag_id != id,
                decreases self.relations.len() - r,
            {
                if self.relations[r].tag_id == id {
                    linked = true;
                }
                r += 1;
            }
            if !linked {
                return false;
            }
            t += 1;
        }
        true
    }

    /// The tags of a mod, in the order of the tags.
    pub fn get_tag_rows_for_mod(&self, mod_id: i32) -> (tags: Vec<Tag>)
        ensures
            tags@ == self.tags@.filter(
                meeting(TagOfMod { relations: &self.relations, mod_id }),
            ),
    {
        select(&self.tags, &TagOfMod { relations: &self.relations, mod_id })
    }

    /// The mod of an identity with its fingerprints and its tags, if the
    /// store has a record of it.
    pub fn get_mod(&self, mod_id: i32) -> (found: Option<Mod>)
        requires
            self.consistent(),
        ensures
            match found {
                Some(whole) => {
                    &&& whole.id == mod_id
                    &&& self.mods@.contains(whole.record())
                    &&& whole.file_hashes.wf()
                    &&& whole.file_hashes@ == hashes_of(self.hashes@, mod_id as int)
                    &&& models(whole.tags@) == tag_labels(
                        self.tags@.filter(
                            meeting(TagOfMod { relations: &self.relations, mod_id }),
                        ),
                    )
                    &&& members(whole.tags@) == labels_of(
                        self.tags@,
                        self.relations@,
                        mod_id as int,
                    )
                },
                None => !has_mod(self.mods@, mod_id as int),
            },
    {
        match self.find_mod(mod_id) {
            Some(record) => Some(
                Mod {
                    id: record.id,
                    name: record.name.clone(),
                    directory: record.directory.clone(),
                    source_url: record.source_url.clone(),
                    version: record.version.clone(),
                    updated: record.updated,
                    file_hashes: get_hashes_for_mod(self, mod_id),
                    tags: get_tags_for_mod(self, mod_id),
                },
            ),
            None => None,
        }
    }
}

/// The records of the mods to list: all of them, or where labels are
/// given, those that have one of the tags of the labels; in the order of
/// the records.
pub fn list(store: &Store, labels: &Option<Vec<String>>) -> (mods: Vec<Model>)
    ensures
        mods@ == match labels {
            Some(wanted) => store.mods@.filter(meeting(TaggedAny { store, labels: wanted })),
            None => store.mods@,
        },
{
    match labels {
        Some(wanted) => get_mods_for_tags(store, wanted),
        None => {
            proof {
                lemma_filter_all(store.mods@, meeting(Every {  }));
            }
            select(&store.mods, &Every {  })
        },
    }
}

/// The fingerprints recorded for the files of a mod.
pub fn get_hashes_for_mod(store: &Store, mod_id: i32) -> (hashes: FileHashes)
    requires
        store.consistent(),
    ensures
        hashes.wf(),
        hashes@ == hashes_of(store.hashes@, mod_id as int),
{
    let mut hashes = FileHashes::new();
    let mut i: usize = 0;
    proof {
        assert(hashes@ =~= hashes_of(store.hashes@.take(0), mod_id as int));
    }
    while i < store.hashes.len()
        invariant
            i <= store.hashes.len(),
            store.consistent(),
            hashes.wf(),
            hashes@ == hashes_of(store.hashes@.take(i as int), mod_id as int),
        decreases store.hashes.len() - i,
    {
        let row = &store.hashes[i];
        let ghost seen = store.hashes@.take(i as int);
        let ghost more = store.hashes@.take(i + 1);
        let ghost so_far = hashes@;
        if row.mod_id == mod_id {
            hashes.insert(row.file.clone(), row.hash.clone());
        }
        proof {
            assert forall|a: int, b: int| 0 <= a < b < more.len() implies hashes_apart(
                #[trigger] more[a],
                #[trigger] more[b],
            ) by {
                assert(more[a] == store.hashes[a] && more[b] == store.hashes[b]);
            }
            assert forall|file: Seq<char>| hashes@.contains_key(file) <==> hashes_of(
                more,
                mod_id as int,
            ).contains_key(file) by {
                if hashes@.contains_key(file) {
                    if so_far.contains_key(file) {
                        let k = choose|k: int|
                            0 <= k < seen.len() && (#[trigger] seen[k]).mod_id == mod_id
                                && seen[k].file@ == file;
                        assert(more[k].mod_id == mod_id && more[k].file@ == file);
                    } else {
                        assert(more[i as int].mod_id == mod_id && more[i as int].file@ == file);
                    }
                }
                if hashes_of(more, mod_id as int).contains_key(file) {
                    let k = choose|k: int|
                        0 <= k < more.len() && (#[trigger] more[k]).mod_id == mod_id
                            && more[k].file@ == file;
                    if k < i {
                        assert(seen[k].mod_id == mod_id && seen[k].file@ == file);
                    }
                }
            }
            assert forall|file: Seq<char>| hashes@.contains_key(file) implies hashes@[file]
                == hashes_of(more, mod_id as int)[file] by {
                let k = choose|k: int|
                    0 <= k < more.len() && (#[trigger] more[k]).mod_id == mod_id
                        && more[k].file@ == file;
                lemma_hashes_of_row(more, k);
                if k < i {
                    assert(seen[k] == more[k]);
                    assert forall|a: int, b: int| 0 <= a < b < seen.len() implies hashes_apart(
                        #[trigger] seen[a],
                        #[trigger] seen[b],
                    ) by {
                        assert(seen[a] == store.hashes[a] && seen[b] == store.hashes[b]);
                    }
                    lemma_hashes_of_row(seen, k);
                    if row.mod_id == mod_id && row.file@ == file {
                        assert(hashes_apart(more[k], more[i as int]));
                    }
                }
            }
            assert(hashes@ =~= hashes_of(more, mod_id as int));
        }
        i += 1;
    }
    proof {
        assert(store.hashes@.take(i as int) =~= store.hashes@);
    }
    hashes
}

/// The labels of the tags of a mod, in the order of the tags.
pub fn get_tags_for_mod(store: &Store, mod_id: i32) -> (labels: Vec<String>)
    requires
        store.consistent(),
    ensures
        models(labels@) == tag_labels(
            store.tags@.filter(meeting(TagOfMod { relations: &store.relations, mod_id })),
        ),
        distinct(labels@),
        members(labels@) == labels_of(store.tags@, store.relations@, mod_id as int),
{
    let rows = store.get_tag_rows_for_mod(mod_id);
    let ghost wanted: spec_fn(Tag) -> bool = meeting(
        TagOfMod { relations: &store.relations, mod_id },
    );
    let mut labels: Vec<String> = Vec::new();
    let mut i: usize = 0;
    while i < rows.len()
        invariant
            i <= rows.len(),
            labels.len() == i,
            forall|j: int| 0 <= j < i ==> (#[trigger] labels[j])@ == rows[j].tag@,
        decreases rows.len() - i,
    {
        labels.push(rows[i].tag.clone());
        i += 1;
    }
    proof {
        assert(models(labels@) =~= tag_labels(rows@));
        lemma_filter_rows(store.tags@, wanted);
        lemma_filter_keeps_apart(store.tags@, wanted, |a: Tag, b: Tag| tags_apart(a, b));
        assert forall|a: int, b: int| 0 <= a < b < labels.len() implies (
        #[trigger] labels[a]).model() != (#[trigger] labels[b]).model() by {
            assert(tags_apart(rows[a], rows[b]));
        }
        assert forall|label: Seq<char>|
            members(labels@).contains(label) <==> tagged(
                store.tags@,
                store.relations@,
                mod_id as int,
                label,
            ) by {
            if members(labels@).contains(label) {
                let j = choose|j: int| 0 <= j < labels.len() && #[trigger] labels[j].model()
                    == label;
                assert(wanted(rows@[j]));
                assert(store.tags@.contains(rows[j]));
                let t = choose|t: int| 0 <= t < store.tags.len() && store.tags[t] == rows[j];
                let link = ModTagRelation { mod_id, tag_id: rows[j].id };
                let r = choose|r: int|
                    0 <= r < store.relations.len() && store.relations[r] == link;
                assert(store.tags[t].tag@ == label && store.relations[r].mod_id == mod_id as int
                    && store.relations[r].tag_id == store.tags[t].id);
            }
            if tagged(store.tags@, store.relations@, mod_id as int, label) {
                let (t, r) = choose|t: int, r: int|
                    0 <= t < store.tags.len() && 0 <= r < store.relations.len() && (
                    #[trigger] store.tags[t]).tag@ == label && (
                    #[trigger] store.relations[r]).mod_id == mod_id as int
                        && store.relations[r].tag_id == store.tags[t].id;
                assert(store.relations[r] == (ModTagRelation {
                    mod_id,
                    tag_id: store.tags[t].id,
                }));
                assert(wanted(store.tags[t]));
                assert(rows@.contains(store.tags[t]));
                let j = choose|j: int| 0 <= j < rows.len() && rows[j] == store.tags[t];
                assert(labels[j].model() == label);
            }
        }
        assert(members(labels@) =~= labels_of(store.tags@, store.relations@, mod_id as int));
    }
    labels
}

/// The records of the mods that have one of the tags of the given
/// labels, in the order of the records.
pub fn get_mods_for_tags(store: &Store, tags: &Vec<String>) -> (mods: Vec<Model>)
    ensures
        mods@ == store.mods@.filter(meeting(TaggedAny { store, labels: tags })),
{
    let criterion = TaggedAny { store, labels: tags };
    select(&store.mods, &criterion)
}

} // verus!
