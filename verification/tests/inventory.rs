use sims4modorganizer::fingerprint::fingerprint;
use sims4modorganizer::inventory::{
    get_file_hashes, is_package_name, select_mod_directories, select_package_files, DirEntry,
    PackageFile,
};

fn file(name: &str) -> DirEntry {
    DirEntry { name: name.to_string(), is_file: true, is_dir: false }
}

fn dir(name: &str) -> DirEntry {
    DirEntry { name: name.to_string(), is_file: false, is_dir: true }
}

fn names(list: &[&str]) -> Vec<String> {
    list.iter().map(|n| n.to_string()).collect()
}

#[test]
fn package_and_script_files_are_recognised() {
    assert!(is_package_name("hair.package"));
    assert!(is_package_name("tuning.ts4script"));
    assert!(is_package_name("archive.tar.package"));
    assert!(is_package_name("é.package"));
    assert!(is_package_name("a..package"));
}

#[test]
fn other_names_are_not_package_files() {
    assert!(!is_package_name("readme.txt"));
    assert!(!is_package_name("package"));
    assert!(!is_package_name(".package"));
    assert!(!is_package_name(".ts4script"));
    assert!(!is_package_name("..package"));
    assert!(!is_package_name(".hidden.package"));
    assert!(!is_package_name(".hair.ts4script"));
    assert!(!is_package_name("hair.package.bak"));
    assert!(!is_package_name("hair.PACKAGE"));
    assert!(!is_package_name("hairpackage"));
    assert!(!is_package_name("hair.package "));
    assert!(!is_package_name(""));
}

#[test]
fn visible_package_names_agree_with_path_extension() {
    for name in [
        "a.package", ".package", "..package", "a.b.ts4script", "ts4script", "x.ts4script.",
        "a.packages", "a.package", "b.txt", "noext", ". .package", ".x.package", " .package",
    ] {
        let extension = std::path::Path::new(name).extension().and_then(|e| e.to_str());
        let expected = !name.starts_with('.')
            && (extension == Some("package") || extension == Some("ts4script"));
        assert_eq!(is_package_name(name), expected, "{}", name);
    }
}

#[test]
fn only_regular_package_files_are_selected() {
    let entries = vec![
        file("hair.package"),
        dir("nested.package"),
        file("notes.txt"),
        file(".package"),
        file(".hidden.package"),
        file("script.ts4script"),
        DirEntry { name: "socket.package".to_string(), is_file: false, is_dir: false },
    ];
    assert_eq!(select_package_files(&entries), names(&["hair.package", "script.ts4script"]));
    assert!(select_package_files(&vec![]).is_empty());
}

#[test]
fn file_hashes_are_the_fingerprints_by_name() {
    let files = vec![
        PackageFile { name: "a.package".to_string(), data: b"first".to_vec() },
        PackageFile { name: "b.ts4script".to_string(), data: vec![] },
    ];
    let (paths, hashes) = get_file_hashes(&files);
    assert_eq!(paths, names(&["a.package", "b.ts4script"]));
    assert_eq!(hashes.len(), 2);
    assert_eq!(hashes.get(&"a.package".to_string()), Some(&fingerprint(b"first")));
    assert_eq!(hashes.get(&"b.ts4script".to_string()), Some(&"0x2d06800538d394c2".to_string()));
}

#[test]
fn a_later_file_of_the_same_name_counts() {
    let files = vec![
        PackageFile { name: "a.package".to_string(), data: b"old".to_vec() },
        PackageFile { name: "a.package".to_string(), data: b"new".to_vec() },
    ];
    let (paths, hashes) = get_file_hashes(&files);
    assert_eq!(paths, names(&["a.package"]));
    assert_eq!(hashes.get(&"a.package".to_string()), Some(&fingerprint(b"new")));
}

#[test]
fn no_files_give_an_empty_mapping() {
    let (paths, hashes) = get_file_hashes(&vec![]);
    assert!(paths.is_empty());
    assert!(hashes.is_empty());
}

#[test]
fn mod_directories_leave_out_files_and_the_reserved_directory() {
    let entries = vec![
        dir("Hair"),
        file("Resource.cfg"),
        dir("mod_data"),
        dir("Clothes"),
        dir("mod_data2"),
    ];
    assert_eq!(select_mod_directories(&entries), names(&["Hair", "Clothes", "mod_data2"]));
}

#[test]
fn selections_keep_the_order_of_the_entries() {
    let entries = vec![
        file("z.package"),
        dir("Zoo"),
        file("a.ts4script"),
        dir("Alpha"),
        file("z.package"),
        dir("Zoo"),
        file("m.package"),
    ];
    assert_eq!(
        select_package_files(&entries),
        names(&["z.package", "a.ts4script", "m.package"])
    );
    assert_eq!(select_mod_directories(&entries), names(&["Zoo", "Alpha"]));
}
