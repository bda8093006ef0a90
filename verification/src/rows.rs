//! The rows of the store: mods, the fingerprints of their files, tags, and
//! the links between mods and tags.

use crate::file_hashes::FileHashes;
use vstd::prelude::*;

verus! {

/// The record of a mod.
#[derive(Debug)]
pub struct Model {
    /// Identity of the record.
    pub id: i32,
    /// Name shown to the user.
    pub name: String,
    /// Directory of the mod, relative to the mod folder.
    pub directory: String,
    /// Where the mod was obtained.
    pub source_url: String,
    /// Version label; it has no order.
    pub version: String,
    /// When the record was last changed, in microseconds since the epoch.
    pub updated: i64,
}

impl Model {
    /// A copy of the record.
    pub fn duplicate(&self) -> (copy: Model)
        ensures
            copy == *self,
    {
        Model {
            id: self.id,
            name: self.name.clone(),
            directory: self.directory.clone(),
            source_url: self.source_url.clone(),
            version: self.version.clone(),
            updated: self.updated,
        }
    }
}

/// The fingerprint recorded for one file of a mod.
#[derive(Debug)]
pub struct ModHash {
    /// The mod that the file belongs to.
    pub mod_id: i32,
    /// File name, relative to the mod's directory.
    pub file: String,
    /// Fingerprint of the file's content.
    pub hash: String,
}

/// A tag.
#[derive(Debug)]
pub struct Tag {
    /// Identity of the tag.
    pub id: i32,
    /// Label of the tag.
    pub tag: String,
}

/// A link between a mod and a tag.
#[derive(Debug, Clone, Copy, PartialEq, Eq, Structural)]
pub struct ModTagRelation {
    /// The linked mod.
    pub mod_id: i32,
    /// The linked tag.
    pub tag_id: i32,
}

/// A row that can be copied.
pub trait Row: Sized {
    /// A copy of the row.
    fn copy_row(&self) -> (copy: Self)
        ensures
            copy == *self,
    ;
}

impl Row for Model {
    fn copy_row(&self) -> (copy: Self) {
        self.duplicate()
    }
}

impl Row for ModHash {
    fn copy_row(&self) -> (copy: Self) {
        ModHash { mod_id: self.mod_id, file: self.file.clone(), hash: self.hash.clone() }
    }
}

impl Row for Tag {
    fn copy_row(&self) -> (copy: Self) {
        Tag { id: self.id, tag: self.tag.clone() }
    }
}

impl Row for ModTagRelation {
    fn copy_row(&self) -> (copy: Self) {
        *self
    }
}

/// Two records differ in identity, name and directory.
pub open spec fn mods_apart(a: Model, b: Model) -> bool {
    a.id != b.id && a.name@ != b.name@ && a.directory@ != b.directory@
}

/// Two tags differ in identity and label.
pub open spec fn tags_apart(a: Tag, b: Tag) -> bool {
    a.id != b.id && a.tag@ != b.tag@
}

/// Two fingerprints are not of the same file of the same mod.
pub open spec fn hashes_apart(a: ModHash, b: ModHash) -> bool {
    !(a.mod_id == b.mod_id && a.file@ == b.file@)
}

/// Two links differ.
pub open spec fn links_apart(a: ModTagRelation, b: ModTagRelation) -> bool {
    a != b
}

/// A row with an identity that the store assigns.
pub trait Keyed: Row {
    /// The identity of the row.
    spec fn key(&self) -> int;

    /// The identity of the row.
    fn key_value(&self) -> (k: i32)
        ensures
            k == self.key(),
    ;
}

impl Keyed for Model {
    open spec fn key(&self) -> int {
        self.id as int
    }

    fn key_value(&self) -> (k: i32) {
        self.id
    }
}

impl Keyed for Tag {
    open spec fn key(&self) -> int {
        self.id as int
    }

    fn key_value(&self) -> (k: i32) {
        self.id
    }
}

/// The largest identity among the rows, and zero where none is positive.
pub open spec fn largest_key<T: Keyed>(rows: Seq<T>) -> int
    decreases rows.len(),
{
    if rows.len() == 0 {
        0
    } else {
        let rest = largest_key(rows.drop_last());
        if rows.last().key() > rest {
            rows.last().key()
        } else {
            rest
        }
    }
}

/// No row has an identity above the largest.
pub proof fn lemma_largest_key<T: Keyed>(rows: Seq<T>)
    ensures
        largest_key(rows) >= 0,
        forall|i: int| 0 <= i < rows.len() ==> (#[trigger] rows[i]).key() <= largest_key(rows),
    decreases rows.len(),
{
    if rows.len() > 0 {
        lemma_largest_key(rows.drop_last());
        assert forall|i: int| 0 <= i < rows.len() implies (#[trigger] rows[i]).key()
            <= largest_key(rows) by {
            if i < rows.len() - 1 {
                assert(rows.drop_last()[i] == rows[i]);
            }
        }
    }
}

/// The identity that the next row gets: one above the largest in use. There
/// is none where the largest identity that can be written is in use.
pub fn fresh_key<T: Keyed>(rows: &Vec<T>) -> (fresh: Option<i32>)
    ensures
        match fresh {
            Some(id) => id == largest_key(rows@) + 1,
            None => largest_key(rows@) == i32::MAX,
        },
{
    let mut largest: i32 = 0;
    let mut i: usize = 0;
    while i < rows.len()
        invariant
            i <= rows.len(),
            largest == largest_key(rows@.take(i as int)),
        decreases rows.len() - i,
    {
        proof {
            assert(rows@.take(i + 1).drop_last() =~= rows@.take(i as int));
        }
        let key = rows[i].key_value();
        if key > largest {
            largest = key;
        }
        i += 1;
    }
    proof {
        assert(rows@.take(i as int) =~= rows@);
    }
    if largest == i32::MAX {
        None
    } else {
        Some(largest + 1)
    }
}

/// Why the store refuses a change. A change that is refused leaves the
/// store as it was.
#[derive(Debug, Clone, Copy, PartialEq, Eq, Structural)]
pub enum StoreError {
    /// No record has the identity that the change names.
    UnknownMod,
    /// Another record has the name.
    NameTaken,
    /// Another record has the directory.
    DirectoryTaken,
    /// No identity is left for a new row.
    OutOfIds,
    /// A list of tags names a label twice.
    RepeatedTag,
    /// No tag has the label that the change names.
    UnknownTag,
}

/// A row of the store's fingerprints that collides with a fingerprint
/// about to be recorded, with the name of the mod it belongs to.
#[derive(Debug)]
pub struct Collision {
    /// The fingerprint that both files have.
    pub hash: String,
    /// Name of the mod whose file is about to be recorded.
    pub colliding_mod: String,
    /// The file that is about to be recorded.
    pub colliding_file: String,
    /// Name of the mod that has a file with the fingerprint already.
    pub existing_mod: String,
    /// That file.
    pub existing_file: String,
}

/// What a collision warning says.
pub struct CollisionText {
    /// The fingerprint that both files have.
    pub hash: Seq<char>,
    /// Name of the mod whose file is about to be recorded.
    pub colliding_mod: Seq<char>,
    /// The file that is about to be recorded.
    pub colliding_file: Seq<char>,
    /// Name of the mod that has a file with the fingerprint already.
    pub existing_mod: Seq<char>,
    /// That file.
    pub existing_file: Seq<char>,
}

impl View for Collision {
    type V = CollisionText;

    open spec fn view(&self) -> CollisionText {
        CollisionText {
            hash: self.hash@,
            colliding_mod: self.colliding_mod@,
            colliding_file: self.colliding_file@,
            existing_mod: self.existing_mod@,
            existing_file: self.existing_file@,
        }
    }
}

/// What a sequence of collision warnings says.
pub open spec fn collision_texts(found: Seq<Collision>) -> Seq<CollisionText> {
    Seq::new(found.len(), |i: int| found[i]@)
}

/// The data of a mod that is to be added to the store.
#[derive(Debug)]
pub struct NewMod {
    /// Name shown to the user.
    pub name: String,
    /// Directory of the mod, relative to the mod folder.
    pub directory: String,
    /// Where the mod was obtained.
    pub source_url: String,
    /// Version label.
    pub version: String,
    /// When the record is made, in microseconds since the epoch.
    pub updated: i64,
    /// Labels of the mod's tags.
    pub tags: Vec<String>,
    /// Fingerprints of the mod's files.
    pub hashes: FileHashes,
}

impl NewMod {
    /// The record that the mod gets under an identity.
    pub open spec fn record(&self, id: i32) -> Model {
        Model {
            id,
            name: self.name,
            directory: self.directory,
            source_url: self.source_url,
            version: self.version,
            updated: self.updated,
        }
    }
}

/// A table with one more row has a largest identity that is the larger
/// of the row's and the table's.
pub proof fn lemma_largest_key_push<T: Keyed>(rows: Seq<T>, row: T)
    ensures
        largest_key(rows.push(row)) == if row.key() > largest_key(rows) {
            row.key()
        } else {
            largest_key(rows)
        },
{
    assert(rows.push(row).drop_last() =~= rows);
}

/// Rows of which no two may stand in one table.
pub trait Distinguishable: Sized {
    /// Whether two rows may stand in one table.
    spec fn apart(a: Self, b: Self) -> bool;

    /// Whether two rows may stand in one table.
    fn differs_from(&self, other: &Self) -> (yes: bool)
        ensures
            yes == Self::apart(*self, *other),
    ;
}

impl Distinguishable for Model {
    open spec fn apart(a: Self, b: Self) -> bool {
        mods_apart(a, b)
    }

    fn differs_from(&self, other: &Self) -> (yes: bool) {
        self.id != other.id && self.name != other.name && self.directory != other.directory
    }
}

impl Distinguishable for Tag {
    open spec fn apart(a: Self, b: Self) -> bool {
        tags_apart(a, b)
    }

    fn differs_from(&self, other: &Self) -> (yes: bool) {
        self.id != other.id && self.tag != other.tag
    }
}

impl Distinguishable for ModHash {
    open spec fn apart(a: Self, b: Self) -> bool {
        hashes_apart(a, b)
    }

    fn differs_from(&self, other: &Self) -> (yes: bool) {
        !(self.mod_id == other.mod_id && self.file == other.file)
    }
}

impl Distinguishable for ModTagRelation {
    open spec fn apart(a: Self, b: Self) -> bool {
        links_apart(a, b)
    }

    fn differs_from(&self, other: &Self) -> (yes: bool) {
        !(self.mod_id == other.mod_id && self.tag_id == other.tag_id)
    }
}

/// Whether every two rows of a table may stand in one table.
pub fn all_apart<T: Distinguishable>(rows: &Vec<T>) -> (yes: bool)
    ensures
        yes == forall|i: int, j: int|
            0 <= i < j < rows.len() ==> T::apart(#[trigger] rows[i], #[trigger] rows[j]),
{
    let mut j: usize = 0;
    while j < rows.len()
        invariant
            j <= rows.len(),
            forall|a: int, b: int|
                0 <= a < b < j ==> T::apart(#[trigger] rows[a], #[trigger] rows[b]),
        decreases rows.len() - j,
    {
        let mut i: usize = 0;
        while i < j
            invariant
                i <= j < rows.len(),
                forall|a: int| 0 <= a < i ==> T::apart(#[trigger] rows[a], rows[j as int]),
            decreases j - i,
        {
            if !rows[i].differs_from(&rows[j]) {
                return false;
            }
            i += 1;
        }
        j += 1;
    }
    true
}

/// A mod with all that is recorded for it.
#[derive(Debug)]
pub struct Mod {
    /// Identity of the record.
    pub id: i32,
    /// Name shown to the user.
    pub name: String,
    /// Directory of the mod, relative to the mod folder.
    pub directory: String,
    /// Where the mod was obtained.
    pub source_url: String,
    /// Version label.
    pub version: String,
    /// When the record was last changed, in microseconds since the epoch.
    pub updated: i64,
    /// Fingerprints of the mod's files.
    pub file_hashes: FileHashes,
    /// Labels of the mod's tags.
    pub tags: Vec<String>,
}

impl Mod {
    /// The record of the mod.
    pub open spec fn record(&self) -> Model {
        Model {
            id: self.id,
            name: self.name,
            directory: self.directory,
            source_url: self.source_url,
            version: self.version,
            updated: self.updated,
        }
    }
}

} // verus!
