//! The directory reconciler: compares the mod directories on disk with the
//! directories that the store records, and decides what a scan does with
//! each.

use crate::file_hashes::FileHashes;
use crate::rows::Model;
use crate::set_diff::{
    difference, distinct, Element, first_occurrences, members, models, set_diff, standing,
};
use crate::verification::{
    apply_verification, resynced, resynced_keys, VerificationPassed, VerificationValues,
};
use vstd::prelude::*;

verus! {

/// Directories on disk that the store does not record.
pub open spec fn new_directories(on_disk: Set<Seq<char>>, recorded: Set<Seq<char>>) -> Set<
    Seq<char>,
> {
    on_disk.difference(recorded)
}

/// Recorded directories that are no longer on disk.
pub open spec fn missing_directories(on_disk: Set<Seq<char>>, recorded: Set<Seq<char>>) -> Set<
    Seq<char>,
> {
    recorded.difference(on_disk)
}

/// Recorded directories that are on disk.
pub open spec fn existing_directories(on_disk: Set<Seq<char>>, recorded: Set<Seq<char>>) -> Set<
    Seq<char>,
> {
    recorded.intersect(on_disk)
}

/// The state of every directory that is on disk or recorded.
#[derive(Debug)]
pub struct DirectoryStates {
    /// Directories on disk that the store does not record.
    pub new_mods: Vec<String>,
    /// Recorded directories that are no longer on disk.
    pub missing_mods: Vec<String>,
    /// Recorded directories that are on disk.
    pub mods_to_scan: Vec<String>,
}

/// Sorts the directories on disk and the recorded directories into new,
/// missing and existing ones. Each directory is named once.
pub fn classify_directories(on_disk: &Vec<String>, recorded: &Vec<String>) -> (states:
    DirectoryStates)
    ensures
        models(states.new_mods@) == first_occurrences(
            models(on_disk@).filter(standing(members(recorded@), false)),
        ),
        models(states.missing_mods@) == first_occurrences(
            models(recorded@).filter(standing(members(on_disk@), false)),
        ),
        models(states.mods_to_scan@) == first_occurrences(
            models(recorded@).filter(standing(members(on_disk@), true)),
        ),
        distinct(states.new_mods@),
        distinct(states.missing_mods@),
        distinct(states.mods_to_scan@),
        members(states.new_mods@) == new_directories(members(on_disk@), members(recorded@)),
        members(states.missing_mods@) == missing_directories(
            members(on_disk@),
            members(recorded@),
        ),
        members(states.mods_to_scan@) == existing_directories(
            members(on_disk@),
            members(recorded@),
        ),
{
    let diff = set_diff(recorded, on_disk);
    DirectoryStates { new_mods: diff.added, missing_mods: diff.removed, mods_to_scan: diff.common }
}

/// The three states divide the directories among them: every directory that
/// is on disk or recorded is new, missing or existing, and has one state
/// only.
pub proof fn lemma_directory_states_partition(on_disk: Set<Seq<char>>, recorded: Set<Seq<char>>)
    ensures
        new_directories(on_disk, recorded).union(missing_directories(on_disk, recorded)).union(
            existing_directories(on_disk, recorded),
        ) == on_disk.union(recorded),
        new_directories(on_disk, recorded).disjoint(missing_directories(on_disk, recorded)),
        new_directories(on_disk, recorded).disjoint(existing_directories(on_disk, recorded)),
        missing_directories(on_disk, recorded).disjoint(existing_directories(on_disk, recorded)),
{
    assert(new_directories(on_disk, recorded).union(
        missing_directories(on_disk, recorded),
    ).union(existing_directories(on_disk, recorded)) =~= on_disk.union(recorded));
}

/// The directories of a sequence of records.
pub open spec fn directories(mods: Seq<Model>) -> Set<Seq<char>> {
    Set::new(
        |directory: Seq<char>|
            exists|i: int| 0 <= i < mods.len() && #[trigger] mods[i].directory@ == directory,
    )
}

/// What a scan does with a directory that the store does not record.
#[derive(Debug, Clone, Copy, PartialEq, Eq, Structural)]
pub enum NewModAction {
    /// Ask the user for the mod's data and add a record.
    Add,
    /// Only tell the user that the mod was found.
    Report,
}

/// What a scan does with a record whose directory is gone.
#[derive(Debug, Clone, Copy, PartialEq, Eq, Structural)]
pub enum MissingModAction {
    /// Ask the user whether to remove the record.
    AskRemoval,
    /// Only tell the user that the mod is missing.
    Report,
}

/// What one scan pass has to do.
#[derive(Debug)]
pub struct ScanPlan {
    /// Directories on disk that the store does not record.
    pub new_mods: Vec<String>,
    /// What to do with each new directory.
    pub new_mod_action: NewModAction,
    /// Records whose directory is no longer on disk.
    pub missing_mods: Vec<Model>,
    /// What to do with each such record.
    pub missing_mod_action: MissingModAction,
    /// Records whose files are to be verified.
    pub mods_to_scan: Vec<Model>,
}

/// Whether the directory of a record is among those on disk.
pub open spec fn is_on_disk(on_disk: Seq<String>) -> spec_fn(Model) -> bool {
    |record: Model| members(on_disk).contains(record.directory@)
}

/// Whether the directory of a record is not among those on disk.
pub open spec fn is_gone(on_disk: Seq<String>) -> spec_fn(Model) -> bool {
    |record: Model| !members(on_disk).contains(record.directory@)
}

/// Plans a scan pass over the mod folder: `on_disk` names its
/// subdirectories, `mods` are the records of the store. New directories are
/// added and missing records offered for removal only where `fix` is set;
/// existing mods are verified only where `verify` or `hash_update` is set.
pub fn scan(
    on_disk: &Vec<String>,
    mods: &Vec<Model>,
    verify: bool,
    fix: bool,
    hash_update: bool,
) -> (plan: ScanPlan)
    ensures
        models(plan.new_mods@) == first_occurrences(
            models(on_disk@).filter(standing(directories(mods@), false)),
        ),
        distinct(plan.new_mods@),
        members(plan.new_mods@) == new_directories(members(on_disk@), directories(mods@)),
        plan.new_mod_action == if fix {
            NewModAction::Add
        } else {
            NewModAction::Report
        },
        plan.missing_mods@ == mods@.filter(is_gone(on_disk@)),
        plan.missing_mod_action == if fix {
            MissingModAction::AskRemoval
        } else {
            MissingModAction::Report
        },
        plan.mods_to_scan@ == if verify || hash_update {
            mods@.filter(is_on_disk(on_disk@))
        } else {
            Seq::empty()
        },
{
    let mut recorded: Vec<String> = Vec::new();
    let mut missing_mods: Vec<Model> = Vec::new();
    let mut mods_to_scan: Vec<Model> = Vec::new();
    let check = verify || hash_update;
    let mut i: usize = 0;
    proof {
        assert(mods@.take(0).filter(is_gone(on_disk@)) =~= Seq::<Model>::empty()) by {
            reveal(Seq::filter);
        }
        assert(mods@.take(0).filter(is_on_disk(on_disk@)) =~= Seq::<Model>::empty()) by {
            reveal(Seq::filter);
        }
    }
    while i < mods.len()
        invariant
            i <= mods.len(),
            recorded.len() == i,
            forall|j: int| 0 <= j < i ==> (#[trigger] recorded[j])@ == mods[j].directory@,
            missing_mods@ == mods@.take(i as int).filter(is_gone(on_disk@)),
            mods_to_scan@ == if check {
                mods@.take(i as int).filter(is_on_disk(on_disk@))
            } else {
                Seq::empty()
            },
        decreases mods.len() - i,
    {
        let record = &mods[i];
        proof {
            assert(mods@.take(i + 1) =~= mods@.take(i as int).push(mods[i as int]));
            mods@.take(i as int).lemma_filter_push(mods[i as int], is_gone(on_disk@));
            mods@.take(i as int).lemma_filter_push(mods[i as int], is_on_disk(on_disk@));
        }
        recorded.push(record.directory.clone());
        if crate::set_diff::contains(on_disk, &record.directory) {
            if check {
                mods_to_scan.push(record.duplicate());
            }
        } else {
            missing_mods.push(record.duplicate());
        }
        i += 1;
    }
    proof {
        assert(mods@.take(i as int) =~= mods@);
        assert(members(recorded@) =~= directories(mods@)) by {
            assert forall|d: Seq<char>| members(recorded@).contains(d) <==> directories(
                mods@,
            ).contains(d) by {
                if members(recorded@).contains(d) {
                    let j = choose|j: int| 0 <= j < recorded.len() && #[trigger] recorded[j].model()
                        == d;
                    assert(mods[j].directory@ == d);
                }
                if directories(mods@).contains(d) {
                    let j = choose|j: int| 0 <= j < mods.len() && #[trigger] mods[j].directory@
                        == d;
                    assert(recorded[j].model() == d);
                }
            }
        }
    }
    ScanPlan {
        new_mods: difference(on_disk, &recorded),
        new_mod_action: if fix {
            NewModAction::Add
        } else {
            NewModAction::Report
        },
        missing_mods,
        missing_mod_action: if fix {
            MissingModAction::AskRemoval
        } else {
            MissingModAction::Report
        },
        mods_to_scan,
    }
}

/// What a scan does with an existing mod once its files have been verified.
#[derive(Debug)]
pub enum VerifiedAction {
    /// Verification passed: nothing changes.
    Validated,
    /// Verification failed and nothing may be changed: only report it.
    ReportFailure,
    /// Verification failed: after the user's consent, ask for the source and
    /// the version, then replace the recorded fingerprints by these.
    UpdateWithPrompts(FileHashes),
    /// Verification failed: replace the recorded fingerprints by these
    /// without asking. What is on disk is taken as the truth, so tampering
    /// cannot be told from an update.
    SyncHashes(FileHashes),
}

impl VerifiedAction {
    /// The fingerprints that the action records, where it records any.
    pub open spec fn new_hashes(self) -> Option<FileHashes> {
        match self {
            VerifiedAction::UpdateWithPrompts(hashes) => Some(hashes),
            VerifiedAction::SyncHashes(hashes) => Some(hashes),
            _ => None,
        }
    }
}

/// Decides what a scan does with an existing mod whose recorded fingerprints
/// `hashes` were verified with the result `report`.
pub fn after_verification(
    hashes: FileHashes,
    report: &VerificationValues,
    fix: bool,
    hash_update: bool,
) -> (action: VerifiedAction)
    requires
        hashes.wf(),
        report.wf(),
    ensures
        report.passed() ==> action is Validated,
        !report.passed() && !fix && !hash_update ==> action is ReportFailure,
        !report.passed() && hash_update ==> action is SyncHashes,
        !report.passed() && fix && !hash_update ==> action is UpdateWithPrompts,
        action.new_hashes() matches Some(updated) ==> updated.wf() && updated@ == resynced(
            hashes@,
            report@,
        ) && updated.keys() == resynced_keys(hashes.keys(), hashes@, *report),
{
    if report.verification_passed() {
        VerifiedAction::Validated
    } else if hash_update {
        let mut updated = hashes;
        apply_verification(&mut updated, report);
        VerifiedAction::SyncHashes(updated)
    } else if fix {
        let mut updated = hashes;
        apply_verification(&mut updated, report);
        VerifiedAction::UpdateWithPrompts(updated)
    } else {
        VerifiedAction::ReportFailure
    }
}

} // verus!
