//! The inventory scanner: which entries of a directory count, and the
//! fingerprints of a mod's package files.

use crate::file_hashes::FileHashes;
use crate::fingerprint::{fingerprint, fingerprint_text, xxh3_64_digest};
use crate::set_diff::{
    distinct, Element, first_occurrences, lemma_first_occurrences_push, members, models, push_once,
};
use crate::text::{chars_of, ends_with, has_suffix};
use vstd::prelude::*;

verus! {

/// An entry of a directory, as a listing of the directory gives it.
#[derive(Debug)]
pub struct DirEntry {
    /// The entry's name: the last component of its path.
    pub name: String,
    /// Whether the entry is a regular file.
    pub is_file: bool,
    /// Whether the entry is a directory.
    pub is_dir: bool,
}

/// A package file with its content.
#[derive(Debug)]
pub struct PackageFile {
    /// The file's name, relative to the mod's directory.
    pub name: String,
    /// The bytes of the file.
    pub data: Vec<u8>,
}

/// Whether a file name has the given extension: the name ends with a dot and
/// the extension, and something stands before the dot. A name that only
/// begins with a dot has no extension.
pub open spec fn has_extension(name: Seq<char>, extension: Seq<char>) -> bool {
    &&& name.len() > extension.len() + 1
    &&& ends_with(name, seq!['.'] + extension)
}

/// Whether a file name is that of a hidden file: it begins with a dot.
pub open spec fn hidden_name(name: Seq<char>) -> bool {
    name.len() > 0 && name[0] == '.'
}

/// Whether a file name is that of a package file: its extension is `package`
/// or `ts4script`, and the file is not hidden.
pub open spec fn package_name(name: Seq<char>) -> bool {
    !hidden_name(name) && (has_extension(name, "package"@) || has_extension(
        name,
        "ts4script"@,
    ))
}

/// Whether a file name is that of a package file.
pub fn is_package_name(name: &str) -> (yes: bool)
    ensures
        yes == package_name(name@),
{
    let chars = chars_of(name);
    if chars.len() > 0 && chars[0] == '.' {
        return false;
    }
    let package = chars_of(".package");
    let script = chars_of(".ts4script");
    proof {
        reveal_strlit(".package");
        reveal_strlit("package");
        reveal_strlit(".ts4script");
        reveal_strlit("ts4script");
        assert(".package"@ =~= seq!['.'] + "package"@);
        assert(".ts4script"@ =~= seq!['.'] + "ts4script"@);
    }
    (chars.len() > package.len() && has_suffix(&chars, &package)) || (chars.len() > script.len()
        && has_suffix(&chars, &script))
}

/// Whether a directory entry is a package file of a mod: a regular file
/// that is not hidden and has the name of a package file.
pub open spec fn package_entry(entry: DirEntry) -> bool {
    entry.is_file && package_name(entry.name@)
}

/// The package files among directory entries, as a predicate.
pub open spec fn is_package_entry() -> spec_fn(DirEntry) -> bool {
    |entry: DirEntry| package_entry(entry)
}

/// The names of a sequence of directory entries, in order.
pub open spec fn entry_names(entries: Seq<DirEntry>) -> Seq<Seq<char>> {
    Seq::new(entries.len(), |i: int| entries[i].name@)
}

/// The names of the entries of a directory that meet a condition, each
/// once, in the order of the entries.
fn select_names(entries: &Vec<DirEntry>, packages: bool) -> (names: Vec<String>)
    ensures
        distinct(names@),
        models(names@) == first_occurrences(
            entry_names(
                entries@.filter(
                    if packages {
                        is_package_entry()
                    } else {
                        is_mod_directory()
                    },
                ),
            ),
        ),
{
    let reserved = String::from_str("mod_data");
    let mut names: Vec<String> = Vec::new();
    let mut i: usize = 0;
    let ghost wanted = if packages {
        is_package_entry()
    } else {
        is_mod_directory()
    };
    proof {
        assert(entries@.take(0).filter(wanted) =~= Seq::<DirEntry>::empty()) by {
            reveal(Seq::filter);
        }
        assert(models(names@) =~= first_occurrences(
            entry_names(entries@.take(0).filter(wanted)),
        ));
    }
    while i < entries.len()
        invariant
            i <= entries.len(),
            reserved@ == reserved_directory(),
            wanted == if packages {
                is_package_entry()
            } else {
                is_mod_directory()
            },
            distinct(names@),
            models(names@) == first_occurrences(
                entry_names(entries@.take(i as int).filter(wanted)),
            ),
        decreases entries.len() - i,
    {
        let entry = &entries[i];
        let ghost seen = entries@.take(i as int);
        proof {
            assert(entries@.take(i + 1) =~= seen.push(entries[i as int]));
            seen.lemma_filter_push(entries[i as int], wanted);
            assert(entry_names(seen.filter(wanted).push(entries[i as int])) =~= entry_names(
                seen.filter(wanted),
            ).push(entry.name@));
            lemma_first_occurrences_push(entry_names(seen.filter(wanted)), entry.name@);
        }
        let chosen = if packages {
            entry.is_file && is_package_name(entry.name.as_str())
        } else {
            entry.is_dir && !entry.name.same(&reserved)
        };
        if chosen {
            push_once(&mut names, entry.name.clone());
        }
        i += 1;
    }
    proof {
        assert(entries@.take(i as int) =~= entries@);
    }
    names
}

/// The names of the package files among the entries of a mod's directory,
/// each once, in the order of the entries. Directories and files of other
/// kinds are left out.
pub fn select_package_files(entries: &Vec<DirEntry>) -> (names: Vec<String>)
    ensures
        distinct(names@),
        models(names@) == first_occurrences(entry_names(entries@.filter(is_package_entry()))),
{
    select_names(entries, true)
}

/// The fingerprints of a sequence of files by name. Where a name occurs
/// twice, the later file counts.
pub open spec fn scanned_hashes(files: Seq<PackageFile>) -> Map<Seq<char>, Seq<char>>
    decreases files.len(),
{
    if files.len() == 0 {
        Map::empty()
    } else {
        scanned_hashes(files.drop_last()).insert(
            files.last().name@,
            fingerprint_text(xxh3_64_digest(files.last().data@)),
        )
    }
}

/// The names of a sequence of files, in order.
pub open spec fn file_names(files: Seq<PackageFile>) -> Seq<Seq<char>> {
    Seq::new(files.len(), |i: int| files[i].name@)
}

/// Computes the fingerprint of every package file of a mod. Returns the
/// file names, each once and in the order of the files, and the mapping
/// from file name to fingerprint, which lists them in the same order.
pub fn get_file_hashes(files: &Vec<PackageFile>) -> (scanned: (Vec<String>, FileHashes))
    ensures
        scanned.1.wf(),
        scanned.1@ == scanned_hashes(files@),
        scanned.1.keys() == first_occurrences(file_names(files@)),
        models(scanned.0@) == scanned.1.keys(),
        distinct(scanned.0@),
        members(scanned.0@) == scanned.1@.dom(),
{
    let mut hashes = FileHashes::new();
    let mut i: usize = 0;
    proof {
        assert(files@.take(0) =~= Seq::<PackageFile>::empty());
        assert(hashes.keys() =~= first_occurrences(file_names(files@.take(0))));
    }
    while i < files.len()
        invariant
            i <= files.len(),
            hashes.wf(),
            hashes@ == scanned_hashes(files@.take(i as int)),
            hashes.keys() == first_occurrences(file_names(files@.take(i as int))),
        decreases files.len() - i,
    {
        let file = &files[i];
        proof {
            assert(files@.take(i + 1).drop_last() =~= files@.take(i as int));
            assert(file_names(files@.take(i + 1)) =~= file_names(files@.take(i as int)).push(
                file.name@,
            ));
            lemma_first_occurrences_push(file_names(files@.take(i as int)), file.name@);
            hashes.lemma_keys();
        }
        hashes.insert(file.name.clone(), fingerprint(file.data.as_slice()));
        i += 1;
    }
    proof {
        assert(files@.take(i as int) =~= files@);
    }
    let names = hashes.paths();
    (names, hashes)
}

/// The directory below the mod folder that holds no mod.
pub open spec fn reserved_directory() -> Seq<char> {
    "mod_data"@
}

/// Whether a directory entry of the mod folder is the directory of a mod:
/// a directory other than the reserved one.
pub open spec fn mod_directory(entry: DirEntry) -> bool {
    entry.is_dir && entry.name@ != reserved_directory()
}

/// The mod directories among directory entries, as a predicate.
pub open spec fn is_mod_directory() -> spec_fn(DirEntry) -> bool {
    |entry: DirEntry| mod_directory(entry)
}

/// The names of the mod directories among the entries of the mod folder,
/// each once, in the order of the entries.
pub fn select_mod_directories(entries: &Vec<DirEntry>) -> (names: Vec<String>)
    ensures
        distinct(names@),
        models(names@) == first_occurrences(entry_names(entries@.filter(is_mod_directory()))),
{
    select_names(entries, false)
}

} // verus!
