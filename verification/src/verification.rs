//! The verification engine: compares the fingerprints recorded for a mod with
//! those of the files that are on disk now.

use crate::file_hashes::FileHashes;
use crate::filters::lemma_filter_no_duplicates;
use crate::set_diff::{
    distinct, Element, lemma_first_occurrences_of_distinct, lemma_members_empty, lemma_members_push,
    members, models, set_diff, standing,
};
use vstd::prelude::*;

verus! {

/// Files recorded and present with the recorded fingerprint.
pub open spec fn matching_files(
    recorded: Map<Seq<char>, Seq<char>>,
    current: Map<Seq<char>, Seq<char>>,
) -> Set<Seq<char>> {
    Set::new(
        |path: Seq<char>|
            recorded.contains_key(path) && current.contains_key(path) && recorded[path]
                == current[path],
    )
}

/// Files recorded and present with another fingerprint.
pub open spec fn changed_paths(
    recorded: Map<Seq<char>, Seq<char>>,
    current: Map<Seq<char>, Seq<char>>,
) -> Set<Seq<char>> {
    Set::new(
        |path: Seq<char>|
            recorded.contains_key(path) && current.contains_key(path) && recorded[path]
                != current[path],
    )
}

/// Files recorded and present with another fingerprint, with the fingerprint
/// they have now.
pub open spec fn changed_files(
    recorded: Map<Seq<char>, Seq<char>>,
    current: Map<Seq<char>, Seq<char>>,
) -> Map<Seq<char>, Seq<char>> {
    current.restrict(changed_paths(recorded, current))
}

/// Files recorded and no longer present.
pub open spec fn missing_files(
    recorded: Map<Seq<char>, Seq<char>>,
    current: Map<Seq<char>, Seq<char>>,
) -> Set<Seq<char>> {
    recorded.dom().difference(current.dom())
}

/// Files present and not recorded, with their fingerprints.
pub open spec fn new_files(
    recorded: Map<Seq<char>, Seq<char>>,
    current: Map<Seq<char>, Seq<char>>,
) -> Map<Seq<char>, Seq<char>> {
    current.remove_keys(recorded.dom())
}

/// What a verification report says, as sets and mappings.
pub struct VerificationModel {
    /// Files present and not recorded, with their fingerprints.
    pub new_files: Map<Seq<char>, Seq<char>>,
    /// Files recorded and no longer present.
    pub missing_files: Set<Seq<char>>,
    /// Files recorded and present with the recorded fingerprint.
    pub matching_files: Set<Seq<char>>,
    /// Files recorded and present with another fingerprint, with the
    /// fingerprint they have now.
    pub changed_files: Map<Seq<char>, Seq<char>>,
}

/// The report that verification owes for a recorded and a current mapping.
pub open spec fn classify(
    recorded: Map<Seq<char>, Seq<char>>,
    current: Map<Seq<char>, Seq<char>>,
) -> VerificationModel {
    VerificationModel {
        new_files: new_files(recorded, current),
        missing_files: missing_files(recorded, current),
        matching_files: matching_files(recorded, current),
        changed_files: changed_files(recorded, current),
    }
}

/// The recorded mapping brought up to date by a report: entries of missing
/// files dropped, the fingerprints of changed and new files taken over.
pub open spec fn resynced(
    recorded: Map<Seq<char>, Seq<char>>,
    report: VerificationModel,
) -> Map<Seq<char>, Seq<char>> {
    recorded.remove_keys(report.missing_files).union_prefer_right(
        report.changed_files,
    ).union_prefer_right(report.new_files)
}

/// The order in which a mapping that was brought up to date lists its file
/// names: the names that it listed before and that are not missing, in
/// their order; then the changed files that it did not list; then the new
/// files that it did not list.
pub open spec fn resynced_keys(
    keys: Seq<Seq<char>>,
    recorded: Map<Seq<char>, Seq<char>>,
    report: VerificationValues,
) -> Seq<Seq<char>> {
    let kept = recorded.remove_keys(members(report.missing_files@));
    let with_changed = kept.union_prefer_right(report.changed_files@);
    keys.filter(standing(members(report.missing_files@), false))
        + report.changed_files.keys().filter(standing(kept.dom(), false))
        + report.new_files.keys().filter(standing(with_changed.dom(), false))
}

/// The result of verifying one mod.
#[derive(Debug)]
pub struct VerificationValues {
    /// Files present and not recorded, with their fingerprints.
    pub new_files: FileHashes,
    /// Files recorded and no longer present.
    pub missing_files: Vec<String>,
    /// Files recorded and present with the recorded fingerprint.
    pub matching_files: Vec<String>,
    /// Files recorded and present with another fingerprint, with the
    /// fingerprint they have now.
    pub changed_files: FileHashes,
}

impl View for VerificationValues {
    type V = VerificationModel;

    open spec fn view(&self) -> VerificationModel {
        VerificationModel {
            new_files: self.new_files@,
            missing_files: members(self.missing_files@),
            matching_files: members(self.matching_files@),
            changed_files: self.changed_files@,
        }
    }
}

impl VerificationValues {
    /// Both mappings are well formed and no list names a file twice.
    pub open spec fn wf(&self) -> bool {
        &&& self.new_files.wf()
        &&& self.changed_files.wf()
        &&& distinct(self.missing_files@)
        &&& distinct(self.matching_files@)
    }
}

/// Something that verification either passes or fails.
pub trait VerificationPassed {
    /// Nothing is new, nothing is missing and nothing has changed.
    spec fn passed(&self) -> bool;

    /// Whether verification passed.
    fn verification_passed(&self) -> (passed: bool)
        ensures
            passed == self.passed(),
    ;
}

impl VerificationPassed for VerificationValues {
    open spec fn passed(&self) -> bool {
        &&& self@.new_files == Map::<Seq<char>, Seq<char>>::empty()
        &&& self@.missing_files == Set::<Seq<char>>::empty()
        &&& self@.changed_files == Map::<Seq<char>, Seq<char>>::empty()
    }

    fn verification_passed(&self) -> (passed: bool) {
        proof {
            if self.missing_files.len() == 0 {
                lemma_members_empty(self.missing_files@);
            } else {
                assert(members(self.missing_files@).contains(self.missing_files[0].model()));
            }
        }
        self.new_files.is_empty() && self.missing_files.len() == 0 && self.changed_files.is_empty()
    }
}

/// The file names whose fingerprint is the same in both mappings, as a
/// predicate.
pub open spec fn agreeing(
    recorded: Map<Seq<char>, Seq<char>>,
    current: Map<Seq<char>, Seq<char>>,
) -> spec_fn(Seq<char>) -> bool {
    |path: Seq<char>| recorded[path] == current[path]
}

/// The file names whose fingerprint differs between the mappings, as a
/// predicate.
pub open spec fn differing(
    recorded: Map<Seq<char>, Seq<char>>,
    current: Map<Seq<char>, Seq<char>>,
) -> spec_fn(Seq<char>) -> bool {
    |path: Seq<char>| recorded[path] != current[path]
}

/// What the report of a verification says: each group holds what the
/// comparison of the two mappings puts in it, and names its files in the
/// order in which the recorded mapping lists them, or, for the new files,
/// in the order in which the current mapping lists them.
pub open spec fn is_report_of(
    report: VerificationValues,
    hashes: FileHashes,
    current: FileHashes,
) -> bool {
    &&& report@ == classify(hashes@, current@)
    &&& models(report.missing_files@) == hashes.keys().filter(standing(current@.dom(), false))
    &&& models(report.matching_files@) == hashes.keys().filter(
        standing(current@.dom(), true),
    ).filter(agreeing(hashes@, current@))
    &&& report.new_files.keys() == current.keys().filter(standing(hashes@.dom(), false))
    &&& report.changed_files.keys() == hashes.keys().filter(
        standing(current@.dom(), true),
    ).filter(differing(hashes@, current@))
}

/// Compares the fingerprints recorded for a mod with those of the files
/// present now, and puts every file name of either mapping in one of four
/// groups. The groups name recorded files in the order in which they are
/// recorded, and new files in the order in which they are present.
pub fn verify_files(hashes: &FileHashes, current: &FileHashes) -> (report: VerificationValues)
    requires
        hashes.wf(),
        current.wf(),
    ensures
        report.wf(),
        is_report_of(report, *hashes, *current),
{
    let recorded_paths = hashes.paths();
    let current_paths = current.paths();
    let diff = set_diff(&recorded_paths, &current_paths);
    proof {
        hashes.lemma_keys();
        current.lemma_keys();
        lemma_filter_no_duplicates(hashes.keys(), standing(current@.dom(), false));
        lemma_filter_no_duplicates(hashes.keys(), standing(current@.dom(), true));
        lemma_filter_no_duplicates(current.keys(), standing(hashes@.dom(), false));
        lemma_first_occurrences_of_distinct(
            hashes.keys().filter(standing(current@.dom(), false)),
        );
        lemma_first_occurrences_of_distinct(hashes.keys().filter(standing(current@.dom(), true)));
        lemma_first_occurrences_of_distinct(
            current.keys().filter(standing(hashes@.dom(), false)),
        );
    }

    let mut new_files = FileHashes::new();
    let mut i: usize = 0;
    proof {
        lemma_members_empty(diff.added@.take(0));
        assert(new_files@ =~= current@.restrict(members(diff.added@.take(0))));
        assert(new_files.keys() =~= models(diff.added@.take(0)));
    }
    while i < diff.added.len()
        invariant
            i <= diff.added.len(),
            current.wf(),
            new_files.wf(),
            distinct(diff.added@),
            members(diff.added@) == current@.dom().difference(hashes@.dom()),
            new_files@ == current@.restrict(members(diff.added@.take(i as int))),
            new_files.keys() == models(diff.added@.take(i as int)),
        decreases diff.added.len() - i,
    {
        let path = &diff.added[i];
        let ghost seen = diff.added@.take(i as int);
        proof {
            assert(members(diff.added@).contains(path.model()));
            lemma_members_push(seen, diff.added[i as int]);
            assert(diff.added@.take(i + 1) =~= seen.push(diff.added[i as int]));
            if members(seen).contains(path.model()) {
                let j = choose|j: int| 0 <= j < seen.len() && #[trigger] seen[j].model()
                    == path.model();
                assert(diff.added[j].model() == diff.added[i as int].model());
            }
            assert(models(diff.added@.take(i + 1)) =~= models(seen).push(path@));
        }
        match current.get(path) {
            Some(hash) => {
                new_files.insert(path.clone(), hash.clone());
            },
            None => {},
        }
        proof {
            assert(new_files@ =~= current@.restrict(members(diff.added@.take(i + 1))));
        }
        i += 1;
    }
    proof {
        assert(diff.added@.take(i as int) =~= diff.added@);
        assert(new_files@ =~= self::new_files(hashes@, current@));
    }

    let mut matching: Vec<String> = Vec::new();
    let mut changed = FileHashes::new();
    let mut k: usize = 0;
    let ghost same = agreeing(hashes@, current@);
    let ghost other = differing(hashes@, current@);
    proof {
        lemma_members_empty(diff.common@.take(0));
        lemma_members_empty(matching@);
        assert(changed@ =~= current@.restrict(
            members(diff.common@.take(0)).intersect(changed_paths(hashes@, current@)),
        ));
        assert(members(matching@) =~= members(diff.common@.take(0)).intersect(
            matching_files(hashes@, current@),
        ));
        assert(models(diff.common@.take(0)).filter(same) =~= Seq::<Seq<char>>::empty()) by {
            reveal(Seq::filter);
        }
        assert(models(diff.common@.take(0)).filter(other) =~= Seq::<Seq<char>>::empty()) by {
            reveal(Seq::filter);
        }
        assert(models(matching@) =~= models(diff.common@.take(0)).filter(same));
    }
    while k < diff.common.len()
        invariant
            k <= diff.common.len(),
            hashes.wf(),
            current.wf(),
            changed.wf(),
            distinct(diff.common@),
            distinct(matching@),
            same == agreeing(hashes@, current@),
            other == differing(hashes@, current@),
            members(diff.common@) == hashes@.dom().intersect(current@.dom()),
            members(matching@) == members(diff.common@.take(k as int)).intersect(
                matching_files(hashes@, current@),
            ),
            changed@ == current@.restrict(
                members(diff.common@.take(k as int)).intersect(changed_paths(hashes@, current@)),
            ),
            models(matching@) == models(diff.common@.take(k as int)).filter(same),
            changed.keys() == models(diff.common@.take(k as int)).filter(other),
        decreases diff.common.len() - k,
    {
        let path = &diff.common[k];
        let ghost seen = diff.common@.take(k as int);
        let ghost matched = matching@;
        proof {
            assert(members(diff.common@).contains(path.model()));
            lemma_members_push(seen, diff.common[k as int]);
            assert(diff.common@.take(k + 1) =~= seen.push(diff.common[k as int]));
            if members(seen).contains(path.model()) {
                let j = choose|j: int| 0 <= j < seen.len() && #[trigger] seen[j].model()
                    == path.model();
                assert(diff.common[j].model() == diff.common[k as int].model());
            }
            assert(models(diff.common@.take(k + 1)) =~= models(seen).push(path@));
            models(seen).lemma_filter_push(path@, same);
            models(seen).lemma_filter_push(path@, other);
        }
        match (hashes.get(path), current.get(path)) {
            (Some(recorded_hash), Some(current_hash)) => {
                if recorded_hash.same(current_hash) {
                    matching.push(path.clone());
                    proof {
                        lemma_members_push(matched, matching@[matched.len() as int]);
                        assert(matching@ =~= matched.push(matching@[matched.len() as int]));
                        assert forall|a: int| 0 <= a < matched.len() implies (
                        #[trigger] matched[a]).model() != path.model() by {
                            assert(members(matched).contains(matched[a].model()));
                        }
                        assert(models(matching@) =~= models(matched).push(path@));
                    }
                } else {
                    changed.insert(path.clone(), current_hash.clone());
                }
            },
            _ => {},
        }
        proof {
            assert(members(matching@) =~= members(diff.common@.take(k + 1)).intersect(
                matching_files(hashes@, current@),
            ));
            assert(changed@ =~= current@.restrict(
                members(diff.common@.take(k + 1)).intersect(changed_paths(hashes@, current@)),
            ));
        }
        k += 1;
    }
    proof {
        assert(diff.common@.take(k as int) =~= diff.common@);
        assert(members(matching@) =~= matching_files(hashes@, current@));
        assert(changed@ =~= changed_files(hashes@, current@));
        assert(members(diff.removed@) =~= missing_files(hashes@, current@));
    }
    VerificationValues {
        new_files,
        missing_files: diff.removed,
        matching_files: matching,
        changed_files: changed,
    }
}

/// Brings the recorded fingerprints up to date with a report: drops the
/// entries of missing files and takes over the fingerprints of changed and
/// new files.
pub fn apply_verification(hashes: &mut FileHashes, report: &VerificationValues)
    requires
        old(hashes).wf(),
        report.wf(),
    ensures
        final(hashes).wf(),
        final(hashes)@ == resynced(old(hashes)@, report@),
        final(hashes).keys() == resynced_keys(old(hashes).keys(), old(hashes)@, *report),
{
    hashes.remove_all(&report.missing_files);
    hashes.extend(&report.changed_files);
    hashes.extend(&report.new_files);
}

/// The key sets of a report's four groups.
pub open spec fn groups(report: VerificationModel) -> Seq<Set<Seq<char>>> {
    seq![
        report.matching_files,
        report.changed_files.dom(),
        report.missing_files,
        report.new_files.dom(),
    ]
}

/// The four groups of a report divide the file names of both mappings among
/// them: every file name that is recorded or present is in one group, and in
/// no second one.
pub proof fn lemma_groups_partition(
    recorded: Map<Seq<char>, Seq<char>>,
    current: Map<Seq<char>, Seq<char>>,
)
    ensures
        forall|path: Seq<char>|
            (recorded.contains_key(path) || current.contains_key(path)) <==> exists|g: int|
                0 <= g < 4 && #[trigger] groups(classify(recorded, current))[g].contains(path),
        forall|path: Seq<char>, g: int, h: int|
            0 <= g < 4 && 0 <= h < 4 && #[trigger] groups(classify(recorded, current))[g].contains(
                path,
            ) && #[trigger] groups(classify(recorded, current))[h].contains(path) ==> g == h,
{
    let parts = groups(classify(recorded, current));
    assert forall|path: Seq<char>|
        (recorded.contains_key(path) || current.contains_key(path)) implies exists|g: int|
        0 <= g < 4 && #[trigger] parts[g].contains(path) by {
        if recorded.contains_key(path) && current.contains_key(path) {
            if recorded[path] == current[path] {
                assert(parts[0].contains(path));
            } else {
                assert(parts[1].contains(path));
            }
        } else if recorded.contains_key(path) {
            assert(parts[2].contains(path));
        } else {
            assert(parts[3].contains(path));
        }
    }
}

/// Verification passes exactly when both mappings are the same.
pub proof fn lemma_passes_iff_equal(
    recorded: Map<Seq<char>, Seq<char>>,
    current: Map<Seq<char>, Seq<char>>,
)
    ensures
        (classify(recorded, current).new_files == Map::<Seq<char>, Seq<char>>::empty()
            && classify(recorded, current).missing_files == Set::<Seq<char>>::empty()
            && classify(recorded, current).changed_files == Map::<
            Seq<char>,
            Seq<char>,
        >::empty()) <==> recorded == current,
{
    let report = classify(recorded, current);
    if recorded == current {
        assert(report.new_files =~= Map::<Seq<char>, Seq<char>>::empty());
        assert(report.missing_files =~= Set::<Seq<char>>::empty());
        assert(report.changed_files =~= Map::<Seq<char>, Seq<char>>::empty());
    }
    if report.new_files == Map::<Seq<char>, Seq<char>>::empty() && report.missing_files
        == Set::<Seq<char>>::empty() && report.changed_files == Map::<
        Seq<char>,
        Seq<char>,
    >::empty() {
        assert forall|path: Seq<char>| recorded.contains_key(path) == current.contains_key(
            path,
        ) by {
            if recorded.contains_key(path) && !current.contains_key(path) {
                assert(report.missing_files.contains(path));
            }
            if current.contains_key(path) && !recorded.contains_key(path) {
                assert(report.new_files.contains_key(path));
            }
        }
        assert forall|path: Seq<char>| recorded.contains_key(path) implies recorded[path]
            == current[path] by {
            if recorded[path] != current[path] {
                assert(changed_paths(recorded, current).contains(path));
                assert(report.changed_files.contains_key(path));
            }
        }
        assert(recorded =~= current);
    }
}

/// Two verifications of the same recorded mapping against the same files
/// give the same report: the same files in each group, in the same order,
/// with the same fingerprints, and the same verdict.
pub proof fn lemma_verification_repeatable(
    hashes: FileHashes,
    current: FileHashes,
    first: VerificationValues,
    second: VerificationValues,
)
    requires
        is_report_of(first, hashes, current),
        is_report_of(second, hashes, current),
    ensures
        models(first.matching_files@) == models(second.matching_files@),
        models(first.missing_files@) == models(second.missing_files@),
        first.new_files.listing() == second.new_files.listing(),
        first.changed_files.listing() == second.changed_files.listing(),
        first@ == second@,
        first.passed() == second.passed(),
{
    assert(first.new_files.listing() =~= second.new_files.listing());
    assert(first.changed_files.listing() =~= second.changed_files.listing());
}

/// Bringing the recorded mapping up to date with a report makes it equal to
/// what is present, so that the next verification passes with every file
/// matching.
pub proof fn lemma_resync_converges(
    recorded: Map<Seq<char>, Seq<char>>,
    current: Map<Seq<char>, Seq<char>>,
)
    ensures
        resynced(recorded, classify(recorded, current)) == current,
        classify(current, current).matching_files == current.dom(),
        classify(current, current).new_files == Map::<Seq<char>, Seq<char>>::empty(),
        classify(current, current).missing_files == Set::<Seq<char>>::empty(),
        classify(current, current).changed_files == Map::<Seq<char>, Seq<char>>::empty(),
{
    let report = classify(recorded, current);
    let after = resynced(recorded, report);
    assert forall|path: Seq<char>| after.contains_key(path) == current.contains_key(path) by {
        if current.contains_key(path) && recorded.contains_key(path) && recorded[path]
            != current[path] {
            assert(changed_paths(recorded, current).contains(path));
        }
    }
    assert forall|path: Seq<char>| after.contains_key(path) implies after[path]
        == current[path] by {
        if recorded.contains_key(path) && recorded[path] != current[path] {
            assert(changed_paths(recorded, current).contains(path));
        }
    }
    assert(after =~= current);
    lemma_passes_iff_equal(current, current);
    assert(classify(current, current).matching_files =~= current.dom());
}

} // verus!
