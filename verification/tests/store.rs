use sims4modorganizer::file_hashes::FileHashes;
use sims4modorganizer::rows::{fresh_key, ModHash, ModTagRelation, Model, NewMod, StoreError, Tag};
use sims4modorganizer::records::edit;
use sims4modorganizer::store::{
    get_hashes_for_mod, get_mods_for_tags, get_tags_for_mod, list, Store,
};
use sims4modorganizer::tagging::{
    cleanup_tags, get_or_create_tag_id, linked_tag_ids, working_store,
};

fn mapping(pairs: &[(&str, &str)]) -> FileHashes {
    let mut hashes = FileHashes::new();
    for (path, hash) in pairs {
        hashes.insert(path.to_string(), hash.to_string());
    }
    hashes
}

fn names(list: &[&str]) -> Vec<String> {
    list.iter().map(|n| n.to_string()).collect()
}

fn sorted(mut list: Vec<String>) -> Vec<String> {
    list.sort();
    list
}

fn new_mod(name: &str, tags: &[&str], hashes: &[(&str, &str)]) -> NewMod {
    NewMod {
        name: name.to_string(),
        directory: format!("{} dir", name),
        source_url: format!("https://example.net/{}", name),
        version: "1.0".to_string(),
        updated: 1000,
        tags: names(tags),
        hashes: mapping(hashes),
    }
}

fn add(store: &mut Store, new_mod: &NewMod) -> Result<i32, StoreError> {
    store.add_mod(new_mod).map(|added| added.0)
}

fn tag_labels(store: &Store) -> Vec<String> {
    sorted(store.tags.iter().map(|t| t.tag.clone()).collect())
}

fn links(store: &Store) -> Vec<(i32, i32)> {
    let mut all: Vec<(i32, i32)> = store.relations.iter().map(|r| (r.mod_id, r.tag_id)).collect();
    all.sort();
    all
}

fn sample() -> Store {
    let mut store = Store::new();
    assert_eq!(add(&mut store, &new_mod("Hair", &["Body", "Patreon"], &[("h.package", "0x01")])), Ok(1));
    assert_eq!(
        add(&mut store, &new_mod("Boots", &["Body"], &[("b.package", "0x02"), ("b.ts4script", "0x03")])),
        Ok(2)
    );
    assert_eq!(add(&mut store, &new_mod("Plain", &[], &[])), Ok(3));
    store
}

fn check_invariants(store: &Store) {
    for (i, a) in store.mods.iter().enumerate() {
        for b in store.mods.iter().skip(i + 1) {
            assert_ne!(a.id, b.id);
            assert_ne!(a.name, b.name);
            assert_ne!(a.directory, b.directory);
        }
    }
    for (i, a) in store.tags.iter().enumerate() {
        for b in store.tags.iter().skip(i + 1) {
            assert_ne!(a.id, b.id);
            assert_ne!(a.tag, b.tag);
        }
        assert!(store.relations.iter().any(|r| r.tag_id == a.id), "orphaned tag {}", a.tag);
    }
    for hash in store.hashes.iter() {
        assert!(store.mods.iter().any(|m| m.id == hash.mod_id));
    }
    for link in store.relations.iter() {
        assert!(store.mods.iter().any(|m| m.id == link.mod_id));
        assert!(store.tags.iter().any(|t| t.id == link.tag_id));
    }
}

#[test]
fn adding_mods_records_rows_tags_and_hashes() {
    let store = sample();
    check_invariants(&store);
    assert_eq!(store.mods.len(), 3);
    assert_eq!(store.mods[0].name, "Hair");
    assert_eq!(store.mods[0].directory, "Hair dir");
    assert_eq!(store.mods[0].source_url, "https://example.net/Hair");
    assert_eq!(store.mods[0].version, "1.0");
    assert_eq!(store.mods[0].updated, 1000);
    assert_eq!(tag_labels(&store), names(&["Body", "Patreon"]));
    assert_eq!(sorted(get_tags_for_mod(&store, 1)), names(&["Body", "Patreon"]));
    assert_eq!(get_tags_for_mod(&store, 2), names(&["Body"]));
    assert!(get_tags_for_mod(&store, 3).is_empty());
    assert_eq!(get_hashes_for_mod(&store, 1).get(&"h.package".to_string()), Some(&"0x01".to_string()));
    assert_eq!(get_hashes_for_mod(&store, 2).len(), 2);
    assert!(get_hashes_for_mod(&store, 3).is_empty());
    assert!(get_hashes_for_mod(&store, 99).is_empty());
}

#[test]
fn a_taken_name_or_directory_is_refused_and_changes_nothing() {
    let mut store = sample();
    let mut same_name = new_mod("Hair", &["New"], &[("x.package", "0x09")]);
    same_name.directory = "elsewhere".to_string();
    assert_eq!(add(&mut store, &same_name), Err(StoreError::NameTaken));
    let mut same_directory = new_mod("Other", &["New"], &[]);
    same_directory.directory = "Boots dir".to_string();
    assert_eq!(add(&mut store, &same_directory), Err(StoreError::DirectoryTaken));
    assert_eq!(store.mods.len(), 3);
    assert_eq!(tag_labels(&store), names(&["Body", "Patreon"]));
    assert_eq!(store.hashes.len(), 3);
    check_invariants(&store);
}

#[test]
fn identities_are_one_above_the_largest() {
    let mut store = sample();
    assert!(store.remove_mod(2));
    assert_eq!(add(&mut store, &new_mod("Next", &[], &[])), Ok(4));
    assert_eq!(fresh_key(&store.mods), Some(5));
    assert_eq!(fresh_key(&Vec::<Tag>::new()), Some(1));
    let full = vec![Tag { id: i32::MAX, tag: "last".to_string() }];
    assert_eq!(fresh_key(&full), None);
    let negative = vec![Tag { id: -5, tag: "odd".to_string() }];
    assert_eq!(fresh_key(&negative), Some(1));
}

#[test]
fn running_out_of_identities_changes_nothing() {
    let mut store = sample();
    store.mods[2].id = i32::MAX;
    assert_eq!(add(&mut store, &new_mod("Next", &["T"], &[])), Err(StoreError::OutOfIds));
    assert_eq!(store.mods.len(), 3);
    assert_eq!(tag_labels(&store), names(&["Body", "Patreon"]));
    let mut tags_full = sample();
    tags_full.tags[1].id = i32::MAX;
    tags_full.relations[1].tag_id = i32::MAX;
    assert_eq!(add(&mut tags_full, &new_mod("Next", &["Body", "T"], &[])), Err(StoreError::OutOfIds));
    assert_eq!(tags_full.mods.len(), 3);
    assert_eq!(tags_full.relations.len(), 3);
    assert_eq!(tags_full.add_tag(1, &"T".to_string()), Err(StoreError::OutOfIds));
    assert_eq!(add(&mut tags_full, &new_mod("Next", &["Body"], &[])), Ok(4));
}

#[test]
fn removing_a_mod_removes_its_hashes_links_and_orphaned_tags() {
    let mut store = sample();
    assert!(store.remove_mod(1));
    check_invariants(&store);
    assert_eq!(store.mods.iter().map(|m| m.id).collect::<Vec<_>>(), vec![2, 3]);
    assert!(store.hashes.iter().all(|h| h.mod_id != 1));
    assert_eq!(store.hashes.len(), 2);
    assert_eq!(tag_labels(&store), names(&["Body"]));
    assert!(!store.remove_mod(1));
    assert!(!store.contains_mod(1));
    assert!(store.remove_mod(2));
    assert!(store.tags.is_empty());
    assert!(store.relations.is_empty());
    check_invariants(&store);
}

#[test]
fn removing_the_last_link_of_a_tag_drops_the_tag() {
    let mut store = sample();
    let patreon = store.find_tag(&"Patreon".to_string()).unwrap();
    let body = store.find_tag(&"Body".to_string()).unwrap();
    store.unlink(1, patreon);
    assert_eq!(tag_labels(&store), names(&["Body"]));
    assert_eq!(store.find_tag(&"Patreon".to_string()), None);
    store.unlink(1, body);
    assert_eq!(tag_labels(&store), names(&["Body"]));
    assert_eq!(get_tags_for_mod(&store, 2), names(&["Body"]));
    store.unlink(2, body);
    assert!(store.tags.is_empty());
    check_invariants(&store);
}

#[test]
fn unlinking_what_is_not_linked_changes_nothing() {
    let mut store = sample();
    store.unlink(3, 1);
    store.unlink(1, 77);
    assert_eq!(links(&store), links(&sample()));
    assert_eq!(tag_labels(&store), names(&["Body", "Patreon"]));
}

#[test]
fn cleanup_drops_exactly_the_tags_without_links() {
    let mut store = sample();
    store.tags.push(Tag { id: 50, tag: "Unused".to_string() });
    store.tags.insert(0, Tag { id: 51, tag: "Also unused".to_string() });
    cleanup_tags(&mut store);
    assert_eq!(store.tags.iter().map(|t| t.tag.clone()).collect::<Vec<_>>(), names(&["Body", "Patreon"]));
    check_invariants(&store);
    let mut empty = Store::new();
    empty.tags.push(Tag { id: 1, tag: "Unused".to_string() });
    cleanup_tags(&mut empty);
    assert!(empty.tags.is_empty());
}

#[test]
fn deleting_a_tag_removes_its_links_and_no_mod() {
    let mut store = sample();
    let body = store.find_tag(&"Body".to_string()).unwrap();
    assert!(store.delete_tag(body));
    check_invariants(&store);
    assert_eq!(tag_labels(&store), names(&["Patreon"]));
    assert_eq!(store.mods.len(), 3);
    assert_eq!(get_tags_for_mod(&store, 1), names(&["Patreon"]));
    assert!(get_tags_for_mod(&store, 2).is_empty());
    assert!(!store.delete_tag(body));
    assert!(!store.delete_tag(1234));
}

#[test]
fn tags_are_made_on_first_use() {
    let mut store = sample();
    let body = store.find_tag(&"Body".to_string()).unwrap();
    assert_eq!(get_or_create_tag_id(&mut store, &"Body".to_string()), Ok(body));
    assert_eq!(store.tags.len(), 2);
    assert_eq!(get_or_create_tag_id(&mut store, &"Fresh".to_string()), Ok(3));
    assert_eq!(store.tags.len(), 3);
    assert_eq!(store.find_label(3), Some(&"Fresh".to_string()));
    assert_eq!(store.find_label(44), None);
    assert!(store.contains_tag(3));
}

#[test]
fn adding_a_tag_to_a_mod() {
    let mut store = sample();
    let body = store.find_tag(&"Body".to_string()).unwrap();
    assert_eq!(store.add_tag(3, &"Body".to_string()), Ok(body));
    assert_eq!(get_tags_for_mod(&store, 3), names(&["Body"]));
    let before = links(&store);
    assert_eq!(store.add_tag(3, &"Body".to_string()), Ok(body));
    assert_eq!(links(&store), before);
    assert_eq!(store.add_tag(3, &"New".to_string()), Ok(3));
    assert_eq!(sorted(get_tags_for_mod(&store, 3)), names(&["Body", "New"]));
    assert!(store.contains_link(ModTagRelation { mod_id: 3, tag_id: 3 }));
    assert_eq!(store.add_tag(42, &"New".to_string()), Err(StoreError::UnknownMod));
    check_invariants(&store);
}

#[test]
fn setting_the_tags_of_a_mod_replaces_them() {
    let mut store = sample();
    assert_eq!(store.set_tags(1, &names(&["Body", "Shiny"])), Ok(()));
    check_invariants(&store);
    assert_eq!(sorted(get_tags_for_mod(&store, 1)), names(&["Body", "Shiny"]));
    assert_eq!(get_tags_for_mod(&store, 2), names(&["Body"]));
    assert_eq!(tag_labels(&store), names(&["Body", "Shiny"]));
    assert_eq!(store.set_tags(1, &vec![]), Ok(()));
    assert!(get_tags_for_mod(&store, 1).is_empty());
    assert_eq!(tag_labels(&store), names(&["Body"]));
    assert_eq!(store.set_tags(9, &names(&["x"])), Err(StoreError::UnknownMod));
}

#[test]
fn bulk_tag_links_and_unlinks_to_reach_the_selection() {
    let mut store = sample();
    let diff = store.bulk_tag(&"Body".to_string(), &vec![2, 3]).unwrap();
    assert_eq!(diff.to_link, vec![3]);
    assert_eq!(diff.to_unlink, vec![1]);
    check_invariants(&store);
    let mut members = store.members_of_tag(&"Body".to_string());
    members.sort();
    assert_eq!(members, vec![2, 3]);
    assert_eq!(store.members_of_tag(&"Patreon".to_string()), vec![1]);
    let same = store.bulk_tag(&"Body".to_string(), &vec![3, 2]).unwrap();
    assert!(same.is_empty());
}

#[test]
fn bulk_tag_with_a_new_label_and_with_no_selection() {
    let mut store = sample();
    let diff = store.bulk_tag(&"Fresh".to_string(), &vec![3]).unwrap();
    assert_eq!(diff.to_link, vec![3]);
    assert!(diff.to_unlink.is_empty());
    assert_eq!(get_tags_for_mod(&store, 3), names(&["Fresh"]));
    let gone = store.bulk_tag(&"Body".to_string(), &vec![]).unwrap();
    assert!(gone.to_link.is_empty());
    let mut unlinked = gone.to_unlink.clone();
    unlinked.sort();
    assert_eq!(unlinked, vec![1, 2]);
    assert_eq!(tag_labels(&store), names(&["Fresh", "Patreon"]));
    let nothing = store.bulk_tag(&"Never used".to_string(), &vec![]).unwrap();
    assert!(nothing.is_empty());
    assert_eq!(tag_labels(&store), names(&["Fresh", "Patreon"]));
    check_invariants(&store);
}

#[test]
fn bulk_tag_of_an_unknown_mod_changes_nothing() {
    let mut store = sample();
    assert_eq!(store.bulk_tag(&"Body".to_string(), &vec![2, 99]).err(), Some(StoreError::UnknownMod));
    assert_eq!(links(&store), links(&sample()));
    assert_eq!(tag_labels(&store), names(&["Body", "Patreon"]));
}

#[test]
fn editing_a_mod_changes_the_given_fields() {
    let mut store = sample();
    let outcome = edit(&mut store, 1, Some("Curls".to_string()), None, None, Some("2.0".to_string()), 5000);
    assert_eq!(outcome, Ok(true));
    let record = store.find_mod(1).unwrap();
    assert_eq!(record.name, "Curls");
    assert_eq!(record.version, "2.0");
    assert_eq!(record.source_url, "https://example.net/Hair");
    assert_eq!(record.directory, "Hair dir");
    assert_eq!(record.updated, 5000);
    assert_eq!(sorted(get_tags_for_mod(&store, 1)), names(&["Body", "Patreon"]));
    assert_eq!(edit(&mut store, 1, None, Some("https://x.y".to_string()), Some(names(&["Only"])), None, 6000), Ok(true));
    assert_eq!(store.find_mod(1).unwrap().source_url, "https://x.y");
    assert_eq!(store.find_mod(1).unwrap().updated, 6000);
    assert_eq!(get_tags_for_mod(&store, 1), names(&["Only"]));
    assert_eq!(tag_labels(&store), names(&["Body", "Only"]));
    check_invariants(&store);
}

#[test]
fn editing_an_unknown_mod_or_to_a_taken_name_changes_nothing() {
    let mut store = sample();
    assert_eq!(edit(&mut store, 77, Some("x".to_string()), None, None, None, 1), Ok(false));
    assert_eq!(
        edit(&mut store, 1, Some("Boots".to_string()), None, Some(names(&["T"])), None, 1),
        Err(StoreError::NameTaken)
    );
    assert_eq!(store.find_mod(1).unwrap().name, "Hair");
    assert_eq!(store.find_mod(1).unwrap().updated, 1000);
    assert_eq!(tag_labels(&store), names(&["Body", "Patreon"]));
    assert_eq!(edit(&mut store, 1, Some("Hair".to_string()), None, None, None, 2), Ok(true));
}

#[test]
fn updating_a_record() {
    let mut store = sample();
    let mut record = store.find_mod(2).unwrap().duplicate();
    record.version = "9".to_string();
    assert_eq!(store.update_mod(record), Ok(()));
    assert_eq!(store.mods[1].version, "9");
    let mut taken = store.find_mod(2).unwrap().duplicate();
    taken.directory = "Hair dir".to_string();
    assert_eq!(store.update_mod(taken), Err(StoreError::DirectoryTaken));
    let mut unknown = store.find_mod(2).unwrap().duplicate();
    unknown.id = 31;
    assert_eq!(store.update_mod(unknown), Err(StoreError::UnknownMod));
    assert!(store.contains_name(&"Boots".to_string()));
    assert!(store.contains_directory(&"Boots dir".to_string()));
    assert!(!store.contains_name(&"Boots dir".to_string()));
}

#[test]
fn a_scan_result_replaces_record_and_hashes() {
    let mut store = sample();
    let mut record = store.find_mod(2).unwrap().duplicate();
    record.version = "2".to_string();
    record.updated = 7000;
    let hashes = mapping(&[("b.package", "0x22"), ("c.package", "0x04")]);
    assert_eq!(store.update_mod_from_scan(record, &hashes).map(|found| found.len()), Ok(0));
    check_invariants(&store);
    let recorded = get_hashes_for_mod(&store, 2);
    assert_eq!(recorded.len(), 2);
    assert_eq!(recorded.get(&"b.package".to_string()), Some(&"0x22".to_string()));
    assert_eq!(recorded.get(&"c.package".to_string()), Some(&"0x04".to_string()));
    assert_eq!(recorded.get(&"b.ts4script".to_string()), None);
    assert_eq!(get_hashes_for_mod(&store, 1).len(), 1);
    assert_eq!(store.find_mod(2).unwrap().version, "2");
    assert!(!store.update_hashes(40, &hashes));
    assert!(store.update_hashes(3, &hashes));
    assert_eq!(get_hashes_for_mod(&store, 3).len(), 2);
}

#[test]
fn collisions_with_other_mods_are_reported() {
    let store = sample();
    let found = store.detect_collision(3, &"Plain".to_string(), &"p.package".to_string(), &"0x02".to_string());
    assert_eq!(found.len(), 1);
    assert_eq!(found[0].hash, "0x02");
    assert_eq!(found[0].colliding_mod, "Plain");
    assert_eq!(found[0].colliding_file, "p.package");
    assert_eq!(found[0].existing_mod, "Boots");
    assert_eq!(found[0].existing_file, "b.package");
}

#[test]
fn the_same_mod_and_unknown_hashes_do_not_collide() {
    let mut store = sample();
    assert!(store
        .detect_collision(2, &"Boots".to_string(), &"copy.package".to_string(), &"0x02".to_string())
        .is_empty());
    assert!(store
        .detect_collision(3, &"Plain".to_string(), &"p.package".to_string(), &"0xff".to_string())
        .is_empty());
    store.hashes.push(ModHash { mod_id: 1, file: "dup.package".to_string(), hash: "0x02".to_string() });
    let found = store.detect_collision(3, &"Plain".to_string(), &"p.package".to_string(), &"0x02".to_string());
    assert_eq!(found.len(), 2);
    assert_eq!(found[0].existing_mod, "Boots");
    assert_eq!(found[1].existing_mod, "Hair");
    assert_eq!(store.hashes.len(), 4);
}

#[test]
fn mods_by_tags() {
    let store = sample();
    let body = store.find_tag(&"Body".to_string()).unwrap();
    let ids = |mods: Vec<Model>| mods.iter().map(|m| m.id).collect::<Vec<_>>();
    assert_eq!(ids(get_mods_for_tags(&store, &names(&["Body"]))), vec![1, 2]);
    assert_eq!(ids(get_mods_for_tags(&store, &names(&["Patreon"]))), vec![1]);
    assert_eq!(ids(get_mods_for_tags(&store, &names(&["Patreon", "Body"]))), vec![1, 2]);
    assert!(get_mods_for_tags(&store, &names(&["Unknown"])).is_empty());
    assert!(get_mods_for_tags(&store, &vec![]).is_empty());
    assert_eq!(ids(store.get_mods_for_tag(body)), vec![1, 2]);
    assert!(store.get_mods_for_tag(77).is_empty());
    assert!(store.is_tagged(1, &"Patreon".to_string()));
    assert!(!store.is_tagged(2, &"Patreon".to_string()));
}

#[test]
fn a_copy_has_the_same_rows() {
    let store = sample();
    let copy = store.duplicate();
    assert_eq!(format!("{:?}", copy.mods), format!("{:?}", store.mods));
    assert_eq!(format!("{:?}", copy.hashes), format!("{:?}", store.hashes));
    assert_eq!(format!("{:?}", copy.tags), format!("{:?}", store.tags));
    assert_eq!(copy.relations, store.relations);
}

#[test]
fn listing_tags_with_and_without_a_filter() {
    let store = sample();
    let labels = |tags: Vec<Tag>| tags.iter().map(|t| t.tag.clone()).collect::<Vec<_>>();
    assert_eq!(labels(store.list_tags(&None)), names(&["Body", "Patreon"]));
    assert_eq!(labels(store.list_tags(&Some(names(&["Patreon", "Unknown"])))), names(&["Patreon"]));
    assert!(store.list_tags(&Some(vec![])).is_empty());
    assert_eq!(labels(store.get_tag_rows_for_mod(1)), names(&["Body", "Patreon"]));
    assert_eq!(labels(store.get_tag_rows_for_mod(2)), names(&["Body"]));
    assert!(store.get_tag_rows_for_mod(3).is_empty());
}

#[test]
fn tags_of_a_mod_come_in_the_order_of_the_tags() {
    let mut store = sample();
    store.add_tag(3, &"Patreon".to_string()).unwrap();
    store.add_tag(3, &"Zebra".to_string()).unwrap();
    store.add_tag(3, &"Body".to_string()).unwrap();
    assert_eq!(get_tags_for_mod(&store, 3), names(&["Body", "Patreon", "Zebra"]));
    assert_eq!(store.members_of_tag(&"Body".to_string()), vec![1, 2, 3]);
    assert_eq!(store.members_of_tag(&"Zebra".to_string()), vec![3]);
    assert!(store.members_of_tag(&"Unknown".to_string()).is_empty());
}

#[test]
fn the_whole_of_a_mod() {
    let store = sample();
    let whole = store.get_mod(2).unwrap();
    assert_eq!(whole.id, 2);
    assert_eq!(whole.name, "Boots");
    assert_eq!(whole.directory, "Boots dir");
    assert_eq!(whole.source_url, "https://example.net/Boots");
    assert_eq!(whole.version, "1.0");
    assert_eq!(whole.updated, 1000);
    assert_eq!(whole.tags, names(&["Body"]));
    assert_eq!(whole.file_hashes.len(), 2);
    assert_eq!(whole.file_hashes.get(&"b.ts4script".to_string()), Some(&"0x03".to_string()));
    assert!(store.get_mod(9).is_none());
}

#[test]
fn rows_that_fit_together_are_recognised() {
    let store = sample();
    assert!(store.is_consistent());
    assert!(store.is_well_formed());
    assert!(Store::new().is_well_formed());
    let mut orphan = sample();
    orphan.tags.push(Tag { id: 9, tag: "Unused".to_string() });
    assert!(orphan.is_consistent());
    assert!(!orphan.is_well_formed());
    cleanup_tags(&mut orphan);
    assert!(orphan.is_well_formed());
}

#[test]
fn rows_that_do_not_fit_together_are_recognised() {
    let mut same_id = sample();
    same_id.mods[1].id = 1;
    assert!(!same_id.is_consistent());
    let mut same_name = sample();
    same_name.mods[1].name = "Hair".to_string();
    assert!(!same_name.is_consistent());
    let mut same_directory = sample();
    same_directory.mods[2].directory = "Hair dir".to_string();
    assert!(!same_directory.is_consistent());
    let mut same_label = sample();
    same_label.tags[1].tag = "Body".to_string();
    assert!(!same_label.is_consistent());
    let mut same_tag_id = sample();
    same_tag_id.tags[1].id = same_tag_id.tags[0].id;
    assert!(!same_tag_id.is_consistent());
    let mut stray_hash = sample();
    stray_hash.hashes.push(ModHash { mod_id: 40, file: "x".to_string(), hash: "y".to_string() });
    assert!(!stray_hash.is_consistent());
    let mut same_file = sample();
    same_file.hashes.push(ModHash { mod_id: 1, file: "h.package".to_string(), hash: "0x0f".to_string() });
    assert!(!same_file.is_consistent());
    let mut stray_link = sample();
    stray_link.relations.push(ModTagRelation { mod_id: 40, tag_id: 1 });
    assert!(!stray_link.is_consistent());
    let mut stray_tag_link = sample();
    stray_tag_link.relations.push(ModTagRelation { mod_id: 1, tag_id: 40 });
    assert!(!stray_tag_link.is_consistent());
    let mut twice = sample();
    twice.relations.push(twice.relations[0]);
    assert!(!twice.is_consistent());
    assert!(!twice.is_well_formed());
}

#[test]
fn the_mods_that_a_listing_shows() {
    let store = sample();
    let ids = |mods: Vec<Model>| mods.iter().map(|m| m.id).collect::<Vec<_>>();
    assert_eq!(ids(list(&store, &None)), vec![1, 2, 3]);
    assert_eq!(ids(list(&store, &Some(names(&["Patreon"])))), vec![1]);
    assert_eq!(ids(list(&store, &Some(names(&["Body", "Unknown"])))), vec![1, 2]);
    assert!(list(&store, &Some(vec![])).is_empty());
    assert!(list(&Store::new(), &None).is_empty());
}

#[test]
fn linked_tags_are_named_once() {
    let mut store = sample();
    assert_eq!(linked_tag_ids(&store), vec![1, 2]);
    store.add_tag(3, &"Patreon".to_string()).unwrap();
    store.add_tag(3, &"Body".to_string()).unwrap();
    assert_eq!(store.relations.len(), 5);
    assert_eq!(linked_tag_ids(&store), vec![1, 2]);
    let mut reversed = Store::new();
    for tag_id in [7, 3, 7, 7, 5, 3] {
        reversed.relations.push(ModTagRelation { mod_id: 1, tag_id });
    }
    assert_eq!(linked_tag_ids(&reversed), vec![7, 3, 5]);
    assert!(linked_tag_ids(&Store::new()).is_empty());
}

#[test]
fn adding_a_mod_warns_of_shared_fingerprints_and_still_records_them() {
    let mut store = sample();
    let copy = new_mod("Copy", &[], &[("c1.package", "0x02"), ("own.package", "0x0a"), ("c2.package", "0x01")]);
    let (id, collisions) = store.add_mod(&copy).unwrap();
    assert_eq!(id, 4);
    assert_eq!(collisions.len(), 2);
    assert_eq!(collisions[0].hash, "0x02");
    assert_eq!(collisions[0].colliding_mod, "Copy");
    assert_eq!(collisions[0].colliding_file, "c1.package");
    assert_eq!(collisions[0].existing_mod, "Boots");
    assert_eq!(collisions[0].existing_file, "b.package");
    assert_eq!(collisions[1].hash, "0x01");
    assert_eq!(collisions[1].colliding_file, "c2.package");
    assert_eq!(collisions[1].existing_mod, "Hair");
    assert_eq!(get_hashes_for_mod(&store, 4).len(), 3);
    check_invariants(&store);
    let found = store.detect_collisions(9, &"Other".to_string(), &mapping(&[("x", "0x0a"), ("y", "0x99")]));
    assert_eq!(found.len(), 1);
    assert_eq!(found[0].existing_mod, "Copy");
    assert_eq!(found[0].existing_file, "own.package");
}

#[test]
fn a_scan_result_warns_of_fingerprints_of_other_mods_only() {
    let mut store = sample();
    let record = store.find_mod(2).unwrap().duplicate();
    let hashes = mapping(&[("b.package", "0x02"), ("stolen.package", "0x01")]);
    let collisions = store.update_mod_from_scan(record, &hashes).unwrap();
    assert_eq!(collisions.len(), 1);
    assert_eq!(collisions[0].colliding_mod, "Boots");
    assert_eq!(collisions[0].colliding_file, "stolen.package");
    assert_eq!(collisions[0].existing_mod, "Hair");
    assert_eq!(collisions[0].existing_file, "h.package");
    assert_eq!(get_hashes_for_mod(&store, 2).len(), 2);
}

#[test]
fn editing_with_a_label_named_twice_is_refused_and_changes_nothing() {
    let mut store = sample();
    let before = format!("{:?}", store);
    assert_eq!(
        edit(&mut store, 1, Some("Curls".to_string()), None, Some(names(&["A", "B", "A"])), None, 9),
        Err(StoreError::RepeatedTag)
    );
    assert_eq!(format!("{:?}", store), before);
    assert_eq!(
        edit(&mut store, 1, Some("Boots".to_string()), None, Some(names(&["A", "A"])), None, 9),
        Err(StoreError::NameTaken)
    );
    assert_eq!(format!("{:?}", store), before);
    assert_eq!(edit(&mut store, 77, None, None, Some(names(&["A", "A"])), None, 9), Ok(false));
    assert_eq!(format!("{:?}", store), before);
    assert_eq!(edit(&mut store, 1, None, None, Some(names(&["A", "B"])), None, 9), Ok(true));
    assert_eq!(get_tags_for_mod(&store, 1), names(&["A", "B"]));
}

#[test]
fn editing_when_the_identities_of_tags_have_run_out() {
    let mut store = sample();
    store.tags[1].id = i32::MAX;
    store.relations[1].tag_id = i32::MAX;
    let before = format!("{:?}", store);
    assert_eq!(
        edit(&mut store, 1, Some("Curls".to_string()), None, Some(names(&["Fresh"])), None, 9),
        Err(StoreError::OutOfIds)
    );
    assert_eq!(format!("{:?}", store), before);
    assert_eq!(edit(&mut store, 1, Some("Curls".to_string()), None, None, None, 9), Ok(true));
    assert_eq!(edit(&mut store, 1, None, None, Some(names(&["Body"])), None, 9), Ok(true));
}

#[test]
fn a_scan_result_is_refused_only_for_a_taken_name_or_directory() {
    let mut store = sample();
    let hashes = mapping(&[("x.package", "0x0b")]);
    let mut taken = store.find_mod(2).unwrap().duplicate();
    taken.name = "Hair".to_string();
    assert_eq!(store.update_mod_from_scan(taken, &hashes).err(), Some(StoreError::NameTaken));
    let mut moved = store.find_mod(2).unwrap().duplicate();
    moved.directory = "Hair dir".to_string();
    assert_eq!(store.update_mod_from_scan(moved, &hashes).err(), Some(StoreError::DirectoryTaken));
    let mut unknown = store.find_mod(2).unwrap().duplicate();
    unknown.id = 50;
    assert_eq!(store.update_mod_from_scan(unknown, &hashes).err(), Some(StoreError::UnknownMod));
    assert_eq!(get_hashes_for_mod(&store, 2).len(), 2);
    let same = store.find_mod(2).unwrap().duplicate();
    assert!(store.update_mod_from_scan(same, &hashes).is_ok());
    assert_eq!(get_hashes_for_mod(&store, 2).len(), 1);
}

#[test]
fn deleting_a_tag_by_its_label() {
    let mut store = sample();
    let body = store.find_tag(&"Body".to_string()).unwrap();
    assert_eq!(store.delete_label(&"Body".to_string()), Ok(body));
    check_invariants(&store);
    assert_eq!(tag_labels(&store), names(&["Patreon"]));
    assert_eq!(store.mods.len(), 3);
    assert_eq!(links(&store), vec![(1, 2)]);
    let before = format!("{:?}", store);
    assert_eq!(store.delete_label(&"Body".to_string()), Err(StoreError::UnknownTag));
    assert_eq!(store.delete_label(&"Never".to_string()), Err(StoreError::UnknownTag));
    assert_eq!(format!("{:?}", store), before);
}

#[test]
fn the_working_store_leaves_out_tags_without_links() {
    let mut rows = sample();
    rows.tags.insert(1, Tag { id: 9, tag: "Unused".to_string() });
    let working = working_store(&rows).unwrap();
    assert!(working.is_well_formed());
    assert_eq!(tag_labels(&working), names(&["Body", "Patreon"]));
    assert_eq!(links(&working), links(&rows));
    assert_eq!(format!("{:?}", working.mods), format!("{:?}", rows.mods));
    assert_eq!(format!("{:?}", working.hashes), format!("{:?}", rows.hashes));
    assert_eq!(rows.tags.len(), 3);
    let sound = working_store(&sample()).unwrap();
    assert_eq!(format!("{:?}", sound), format!("{:?}", sample()));
    rows.relations.push(ModTagRelation { mod_id: 77, tag_id: 1 });
    assert!(working_store(&rows).is_none());
}
