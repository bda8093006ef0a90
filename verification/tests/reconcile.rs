use sims4modorganizer::file_hashes::FileHashes;
use sims4modorganizer::reconcile::{
    after_verification, classify_directories, scan, MissingModAction, NewModAction, VerifiedAction,
};
use sims4modorganizer::rows::Model;
use sims4modorganizer::verification::verify_files;

fn names(list: &[&str]) -> Vec<String> {
    list.iter().map(|n| n.to_string()).collect()
}

fn sorted(mut list: Vec<String>) -> Vec<String> {
    list.sort();
    list
}

fn record(id: i32, directory: &str) -> Model {
    Model {
        id,
        name: format!("Mod {}", id),
        directory: directory.to_string(),
        source_url: "https://example.net".to_string(),
        version: "1".to_string(),
        updated: 0,
    }
}

fn mapping(pairs: &[(&str, &str)]) -> FileHashes {
    let mut hashes = FileHashes::new();
    for (path, hash) in pairs {
        hashes.insert(path.to_string(), hash.to_string());
    }
    hashes
}

fn ids(mods: &Vec<Model>) -> Vec<i32> {
    mods.iter().map(|m| m.id).collect()
}

#[test]
fn directories_are_new_missing_or_existing() {
    let states = classify_directories(&names(&["a", "b", "c"]), &names(&["b", "c", "d"]));
    assert_eq!(states.new_mods, names(&["a"]));
    assert_eq!(states.missing_mods, names(&["d"]));
    assert_eq!(sorted(states.mods_to_scan), names(&["b", "c"]));
}

#[test]
fn every_directory_has_exactly_one_state() {
    let on_disk = names(&["x", "y", "z", "w"]);
    let recorded = names(&["y", "q", "w", "r"]);
    let states = classify_directories(&on_disk, &recorded);
    let mut all = states.new_mods.clone();
    all.extend(states.missing_mods.clone());
    all.extend(states.mods_to_scan.clone());
    assert_eq!(sorted(all), names(&["q", "r", "w", "x", "y", "z"]));
}

#[test]
fn nothing_on_disk_and_nothing_recorded() {
    let states = classify_directories(&vec![], &vec![]);
    assert!(states.new_mods.is_empty());
    assert!(states.missing_mods.is_empty());
    assert!(states.mods_to_scan.is_empty());
}

#[test]
fn report_only_scan_changes_nothing_and_verifies_nothing() {
    let mods = vec![record(1, "kept"), record(2, "gone")];
    let plan = scan(&names(&["kept", "fresh"]), &mods, false, false, false);
    assert_eq!(plan.new_mods, names(&["fresh"]));
    assert_eq!(plan.new_mod_action, NewModAction::Report);
    assert_eq!(ids(&plan.missing_mods), vec![2]);
    assert_eq!(plan.missing_mod_action, MissingModAction::Report);
    assert!(plan.mods_to_scan.is_empty());
}

#[test]
fn fixing_scan_adds_and_asks() {
    let mods = vec![record(1, "kept"), record(2, "gone"), record(3, "also kept")];
    let plan = scan(&names(&["also kept", "kept", "fresh"]), &mods, true, true, false);
    assert_eq!(plan.new_mods, names(&["fresh"]));
    assert_eq!(plan.new_mod_action, NewModAction::Add);
    assert_eq!(ids(&plan.missing_mods), vec![2]);
    assert_eq!(plan.missing_mods[0].directory, "gone");
    assert_eq!(plan.missing_mod_action, MissingModAction::AskRemoval);
    assert_eq!(ids(&plan.mods_to_scan), vec![1, 3]);
}

#[test]
fn hash_update_alone_verifies_existing_mods() {
    let mods = vec![record(1, "kept")];
    let plan = scan(&names(&["kept"]), &mods, false, false, true);
    assert_eq!(ids(&plan.mods_to_scan), vec![1]);
    assert_eq!(plan.new_mod_action, NewModAction::Report);
    assert_eq!(plan.missing_mod_action, MissingModAction::Report);
}

#[test]
fn passing_verification_is_validated_in_every_mode() {
    let recorded = mapping(&[("a.package", "h1")]);
    let report = verify_files(&recorded, &mapping(&[("a.package", "h1")]));
    for (fix, hash_update) in [(false, false), (true, false), (false, true), (true, true)] {
        let action = after_verification(recorded.duplicate(), &report, fix, hash_update);
        assert!(matches!(action, VerifiedAction::Validated));
    }
}

#[test]
fn failed_verification_is_only_reported_without_fix() {
    let recorded = mapping(&[("a.package", "h1")]);
    let report = verify_files(&recorded, &mapping(&[("a.package", "h2")]));
    let action = after_verification(recorded, &report, false, false);
    assert!(matches!(action, VerifiedAction::ReportFailure));
}

#[test]
fn failed_verification_with_fix_updates_after_prompts() {
    let recorded = mapping(&[("same", "1"), ("changed", "2"), ("missing", "3")]);
    let scanned = mapping(&[("same", "1"), ("changed", "20"), ("new", "4")]);
    let report = verify_files(&recorded, &scanned);
    match after_verification(recorded, &report, true, false) {
        VerifiedAction::UpdateWithPrompts(hashes) => {
            let mut entries = hashes.entries();
            entries.sort();
            let mut expected = scanned.entries();
            expected.sort();
            assert_eq!(entries, expected);
        }
        _ => panic!("expected an update with prompts"),
    }
}

#[test]
fn failed_verification_with_hash_update_syncs_without_prompts() {
    let recorded = mapping(&[("a.package", "h1")]);
    let scanned = mapping(&[("a.package", "h9"), ("b.package", "h2")]);
    let report = verify_files(&recorded, &scanned);
    for fix in [false, true] {
        match after_verification(recorded.duplicate(), &report, fix, true) {
            VerifiedAction::SyncHashes(hashes) => {
                assert_eq!(hashes.get(&"a.package".to_string()), Some(&"h9".to_string()));
                assert_eq!(hashes.get(&"b.package".to_string()), Some(&"h2".to_string()));
                assert_eq!(hashes.len(), 2);
            }
            _ => panic!("expected a hash sync"),
        }
    }
}
