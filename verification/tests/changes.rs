use sims4modorganizer::changes::changes;
use sims4modorganizer::file_hashes::FileHashes;
use sims4modorganizer::rows::{ModTagRelation, NewMod};
use sims4modorganizer::records::edit;
use sims4modorganizer::store::Store;

fn mapping(pairs: &[(&str, &str)]) -> FileHashes {
    let mut hashes = FileHashes::new();
    for (path, hash) in pairs {
        hashes.insert(path.to_string(), hash.to_string());
    }
    hashes
}

fn new_mod(name: &str, tags: &[&str], hashes: &[(&str, &str)]) -> NewMod {
    NewMod {
        name: name.to_string(),
        directory: format!("{} dir", name),
        source_url: "https://example.net".to_string(),
        version: "1".to_string(),
        updated: 10,
        tags: tags.iter().map(|t| t.to_string()).collect(),
        hashes: mapping(hashes),
    }
}

fn sample() -> Store {
    let mut store = Store::new();
    store.add_mod(&new_mod("Hair", &["Body", "Patreon"], &[("h.package", "0x01")])).unwrap();
    store.add_mod(&new_mod("Boots", &["Body"], &[("b.package", "0x02")])).unwrap();
    store
}

#[test]
fn an_unchanged_store_needs_no_write() {
    let store = sample();
    let delta = changes(&store, &store.duplicate());
    assert!(delta.is_empty());
    assert!(changes(&Store::new(), &Store::new()).is_empty());
}

#[test]
fn a_new_store_is_saved_whole() {
    let store = sample();
    let delta = changes(&Store::new(), &store);
    assert!(!delta.is_empty());
    assert_eq!(delta.saved_mods.len(), 2);
    assert_eq!(delta.saved_tags.len(), 2);
    assert_eq!(delta.saved_hashes.len(), 2);
    assert_eq!(delta.added_relations.len(), 3);
    assert!(delta.removed_mods.is_empty());
    assert!(delta.removed_tags.is_empty());
    assert!(delta.removed_hashes.is_empty());
    assert!(delta.removed_relations.is_empty());
}

#[test]
fn removing_a_mod_deletes_its_rows() {
    let before = sample();
    let mut after = before.duplicate();
    after.remove_mod(1);
    let delta = changes(&before, &after);
    assert_eq!(delta.removed_mods.iter().map(|m| m.id).collect::<Vec<_>>(), vec![1]);
    assert_eq!(delta.removed_hashes.len(), 1);
    assert_eq!(delta.removed_hashes[0].file, "h.package");
    assert_eq!(delta.removed_tags.iter().map(|t| t.tag.clone()).collect::<Vec<_>>(), vec!["Patreon"]);
    assert_eq!(
        delta.removed_relations,
        vec![ModTagRelation { mod_id: 1, tag_id: 1 }, ModTagRelation { mod_id: 1, tag_id: 2 }]
    );
    assert!(delta.saved_mods.is_empty());
    assert!(delta.saved_tags.is_empty());
    assert!(delta.saved_hashes.is_empty());
    assert!(delta.added_relations.is_empty());
}

#[test]
fn changed_rows_are_saved_and_not_deleted() {
    let before = sample();
    let mut after = before.duplicate();
    edit(&mut after, 2, Some("Shoes".to_string()), None, None, None, 99).unwrap();
    after.update_hashes(2, &mapping(&[("b.package", "0x22"), ("c.package", "0x03")]));
    let delta = changes(&before, &after);
    assert_eq!(delta.saved_mods.len(), 1);
    assert_eq!(delta.saved_mods[0].name, "Shoes");
    assert_eq!(delta.saved_mods[0].updated, 99);
    assert!(delta.removed_mods.is_empty());
    let mut saved: Vec<(String, String)> =
        delta.saved_hashes.iter().map(|h| (h.file.clone(), h.hash.clone())).collect();
    saved.sort();
    assert_eq!(
        saved,
        vec![
            ("b.package".to_string(), "0x22".to_string()),
            ("c.package".to_string(), "0x03".to_string())
        ]
    );
    assert!(delta.removed_hashes.is_empty());
    assert!(delta.removed_relations.is_empty());
    assert!(delta.added_relations.is_empty());
}

#[test]
fn bulk_tagging_adds_and_removes_links() {
    let before = sample();
    let mut after = before.duplicate();
    after.bulk_tag(&"Patreon".to_string(), &vec![2]).unwrap();
    let delta = changes(&before, &after);
    assert_eq!(delta.added_relations, vec![ModTagRelation { mod_id: 2, tag_id: 2 }]);
    assert_eq!(delta.removed_relations, vec![ModTagRelation { mod_id: 1, tag_id: 2 }]);
    assert!(delta.saved_tags.is_empty());
    assert!(delta.removed_tags.is_empty());
    assert!(delta.saved_mods.is_empty());
}
