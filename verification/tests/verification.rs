use sims4modorganizer::file_hashes::FileHashes;
use sims4modorganizer::verification::{
    apply_verification, verify_files, VerificationPassed, VerificationValues,
};

fn mapping(pairs: &[(&str, &str)]) -> FileHashes {
    let mut hashes = FileHashes::new();
    for (path, hash) in pairs {
        hashes.insert(path.to_string(), hash.to_string());
    }
    hashes
}

fn sorted(mut names: Vec<String>) -> Vec<String> {
    names.sort();
    names
}

fn sorted_entries(hashes: &FileHashes) -> Vec<(String, String)> {
    let mut entries = hashes.entries();
    entries.sort();
    entries
}

fn pair(path: &str, hash: &str) -> (String, String) {
    (path.to_string(), hash.to_string())
}

#[test]
fn new_file_is_reported_and_fails_verification() {
    let recorded = mapping(&[("a.package", "h1")]);
    let scanned = mapping(&[("a.package", "h1"), ("b.package", "h2")]);
    let report = verify_files(&recorded, &scanned);
    assert_eq!(report.matching_files, vec!["a.package".to_string()]);
    assert_eq!(sorted_entries(&report.new_files), vec![pair("b.package", "h2")]);
    assert!(report.missing_files.is_empty());
    assert!(report.changed_files.is_empty());
    assert!(!report.verification_passed());
}

#[test]
fn changed_file_is_reported_with_its_current_hash() {
    let recorded = mapping(&[("a.package", "h1")]);
    let scanned = mapping(&[("a.package", "h9")]);
    let report = verify_files(&recorded, &scanned);
    assert_eq!(sorted_entries(&report.changed_files), vec![pair("a.package", "h9")]);
    assert!(report.matching_files.is_empty());
    assert!(report.missing_files.is_empty());
    assert!(report.new_files.is_empty());
    assert!(!report.verification_passed());
}

#[test]
fn empty_mappings_pass_with_empty_groups() {
    let report = verify_files(&FileHashes::new(), &FileHashes::new());
    assert!(report.matching_files.is_empty());
    assert!(report.missing_files.is_empty());
    assert!(report.new_files.is_empty());
    assert!(report.changed_files.is_empty());
    assert!(report.verification_passed());
}

#[test]
fn missing_file_is_reported() {
    let recorded = mapping(&[("a.package", "h1"), ("gone.ts4script", "h3")]);
    let scanned = mapping(&[("a.package", "h1")]);
    let report = verify_files(&recorded, &scanned);
    assert_eq!(report.missing_files, vec!["gone.ts4script".to_string()]);
    assert_eq!(report.matching_files, vec!["a.package".to_string()]);
    assert!(report.new_files.is_empty());
    assert!(report.changed_files.is_empty());
    assert!(!report.verification_passed());
}

#[test]
fn matching_only_passes() {
    let recorded = mapping(&[("a.package", "h1"), ("b.package", "h2")]);
    let scanned = mapping(&[("b.package", "h2"), ("a.package", "h1")]);
    let report = verify_files(&recorded, &scanned);
    assert_eq!(
        sorted(report.matching_files.clone()),
        vec!["a.package".to_string(), "b.package".to_string()]
    );
    assert!(report.verification_passed());
}

#[test]
fn every_path_falls_in_exactly_one_group() {
    let recorded = mapping(&[("same", "1"), ("changed", "2"), ("missing", "3")]);
    let scanned = mapping(&[("same", "1"), ("changed", "20"), ("new", "4")]);
    let report = verify_files(&recorded, &scanned);
    let mut all = report.matching_files.clone();
    all.extend(report.missing_files.clone());
    all.extend(report.new_files.paths());
    all.extend(report.changed_files.paths());
    assert_eq!(
        sorted(all),
        vec![
            "changed".to_string(),
            "missing".to_string(),
            "new".to_string(),
            "same".to_string()
        ]
    );
    assert_eq!(report.matching_files, vec!["same".to_string()]);
    assert_eq!(report.missing_files, vec!["missing".to_string()]);
    assert_eq!(sorted_entries(&report.new_files), vec![pair("new", "4")]);
    assert_eq!(sorted_entries(&report.changed_files), vec![pair("changed", "20")]);
}

#[test]
fn verification_passed_needs_all_three_groups_empty() {
    let only_matching = VerificationValues {
        new_files: FileHashes::new(),
        missing_files: vec![],
        matching_files: vec!["a".to_string()],
        changed_files: FileHashes::new(),
    };
    assert!(only_matching.verification_passed());
    let with_new = VerificationValues {
        new_files: mapping(&[("n", "1")]),
        missing_files: vec![],
        matching_files: vec![],
        changed_files: FileHashes::new(),
    };
    assert!(!with_new.verification_passed());
    let with_missing = VerificationValues {
        new_files: FileHashes::new(),
        missing_files: vec!["m".to_string()],
        matching_files: vec![],
        changed_files: FileHashes::new(),
    };
    assert!(!with_missing.verification_passed());
    let with_changed = VerificationValues {
        new_files: FileHashes::new(),
        missing_files: vec![],
        matching_files: vec![],
        changed_files: mapping(&[("c", "1")]),
    };
    assert!(!with_changed.verification_passed());
}

#[test]
fn verifying_twice_gives_the_same_report() {
    let recorded = mapping(&[("same", "1"), ("changed", "2"), ("missing", "3")]);
    let scanned = mapping(&[("same", "1"), ("changed", "20"), ("new", "4")]);
    let first = verify_files(&recorded, &scanned);
    let second = verify_files(&recorded, &scanned);
    assert_eq!(first.matching_files, second.matching_files);
    assert_eq!(first.missing_files, second.missing_files);
    assert_eq!(sorted_entries(&first.new_files), sorted_entries(&second.new_files));
    assert_eq!(sorted_entries(&first.changed_files), sorted_entries(&second.changed_files));
    assert_eq!(first.verification_passed(), second.verification_passed());
}

#[test]
fn applying_a_report_makes_the_next_verification_pass() {
    let mut recorded = mapping(&[("same", "1"), ("changed", "2"), ("missing", "3")]);
    let scanned = mapping(&[("same", "1"), ("changed", "20"), ("new", "4")]);
    let report = verify_files(&recorded, &scanned);
    apply_verification(&mut recorded, &report);
    assert_eq!(sorted_entries(&recorded), sorted_entries(&scanned));
    let again = verify_files(&recorded, &scanned);
    assert!(again.verification_passed());
    assert_eq!(sorted(again.matching_files), sorted(scanned.paths()));
}

#[test]
fn file_hashes_insert_replaces_and_remove_drops() {
    let mut hashes = FileHashes::new();
    assert!(hashes.is_empty());
    hashes.insert("a".to_string(), "1".to_string());
    hashes.insert("b".to_string(), "2".to_string());
    hashes.insert("a".to_string(), "3".to_string());
    assert_eq!(hashes.len(), 2);
    assert_eq!(hashes.get(&"a".to_string()), Some(&"3".to_string()));
    assert_eq!(hashes.get(&"b".to_string()), Some(&"2".to_string()));
    assert_eq!(hashes.get(&"c".to_string()), None);
    assert!(hashes.contains_key(&"b".to_string()));
    hashes.remove(&"a".to_string());
    assert!(!hashes.contains_key(&"a".to_string()));
    assert_eq!(hashes.len(), 1);
    hashes.remove(&"zzz".to_string());
    assert_eq!(hashes.len(), 1);
    let copy = hashes.duplicate();
    assert_eq!(sorted_entries(&copy), vec![pair("b", "2")]);
}

#[test]
fn file_hashes_bulk_operations() {
    let mut hashes = mapping(&[("a", "1"), ("b", "2"), ("c", "3")]);
    hashes.remove_all(&vec!["a".to_string(), "x".to_string(), "c".to_string()]);
    assert_eq!(sorted_entries(&hashes), vec![pair("b", "2")]);
    hashes.extend(&mapping(&[("b", "9"), ("d", "4")]));
    assert_eq!(sorted_entries(&hashes), vec![pair("b", "9"), pair("d", "4")]);
}

#[test]
fn groups_keep_the_order_of_the_mappings() {
    let recorded = mapping(&[("d", "1"), ("b", "2"), ("e", "3"), ("a", "4"), ("c", "5"), ("f", "6")]);
    let scanned = mapping(&[("z", "9"), ("c", "5"), ("a", "40"), ("y", "8"), ("d", "1"), ("e", "30")]);
    let report = verify_files(&recorded, &scanned);
    assert_eq!(report.missing_files, vec!["b".to_string(), "f".to_string()]);
    assert_eq!(report.matching_files, vec!["d".to_string(), "c".to_string()]);
    assert_eq!(report.new_files.entries(), vec![pair("z", "9"), pair("y", "8")]);
    assert_eq!(report.changed_files.entries(), vec![pair("e", "30"), pair("a", "40")]);
    let mut updated = recorded.duplicate();
    apply_verification(&mut updated, &report);
    assert_eq!(
        updated.entries(),
        vec![pair("d", "1"), pair("e", "30"), pair("a", "40"), pair("c", "5"), pair("z", "9"), pair("y", "8")]
    );
}

#[test]
fn a_mapping_lists_its_entries_in_the_order_of_first_insertion() {
    let mut hashes = FileHashes::new();
    hashes.insert("b".to_string(), "1".to_string());
    hashes.insert("a".to_string(), "2".to_string());
    hashes.insert("c".to_string(), "3".to_string());
    hashes.insert("a".to_string(), "4".to_string());
    assert_eq!(hashes.paths(), vec!["b".to_string(), "a".to_string(), "c".to_string()]);
    assert_eq!(hashes.entries(), vec![pair("b", "1"), pair("a", "4"), pair("c", "3")]);
    hashes.remove(&"b".to_string());
    assert_eq!(hashes.paths(), vec!["a".to_string(), "c".to_string()]);
    hashes.extend(&mapping(&[("x", "7"), ("a", "8"), ("b", "9")]));
    assert_eq!(hashes.entries(), vec![pair("a", "8"), pair("c", "3"), pair("x", "7"), pair("b", "9")]);
    hashes.remove_all(&vec!["c".to_string(), "b".to_string(), "q".to_string()]);
    assert_eq!(hashes.entries(), vec![pair("a", "8"), pair("x", "7")]);
    assert_eq!(hashes.duplicate().entries(), hashes.entries());
}
