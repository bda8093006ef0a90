use sims4modorganizer::menu::{
    edit_mod_options, edit_tags_options, main_menu_options, mod_list_options, tag_list_options,
    EditMenuAction, MenuEffect, MenuEvent, MenuState, MenuStep,
};
use sims4modorganizer::rows::{Model, StoreError, Tag};
use sims4modorganizer::file_hashes::FileHashes;
use sims4modorganizer::menu::{apply_effect, options_for, Applied};
use sims4modorganizer::rows::NewMod;
use sims4modorganizer::store::Store;

fn record(id: i32, name: &str) -> Model {
    Model {
        id,
        name: name.to_string(),
        directory: format!("dir{}", id),
        source_url: "https://example.net/mod".to_string(),
        version: "1".to_string(),
        updated: 0,
    }
}

fn labels(options: &Vec<EditMenuAction>) -> Vec<String> {
    options.iter().map(|o| o.label()).collect()
}

fn at(current: EditMenuAction) -> MenuState {
    MenuState { current, previous: EditMenuAction::AllModList }
}

fn show(state: &EditMenuAction) -> String {
    format!("{:?}", state)
}

#[test]
fn labels_of_the_entries() {
    assert_eq!(EditMenuAction::MainMenu.label(), "Back to main menu");
    assert_eq!(EditMenuAction::TagList.label(), "Mods by tag");
    assert_eq!(EditMenuAction::TagModList("Body".to_string(), 3).label(), "Body");
    assert_eq!(EditMenuAction::AllModList.label(), "All mods");
    assert_eq!(EditMenuAction::EditMod("Nice Hair".to_string(), 12).label(), "Nice Hair (12)");
    assert_eq!(EditMenuAction::EditMod("x".to_string(), -3).label(), "x (-3)");
    assert_eq!(EditMenuAction::EditModName(record(1, "Hair")).label(), "Name: Hair");
    assert_eq!(
        EditMenuAction::EditModSource(record(1, "Hair")).label(),
        "Source: https://example.net/mod"
    );
    assert_eq!(EditMenuAction::EditModTags(record(1, "Hair")).label(), "Edit tags for Hair");
    assert_eq!(EditMenuAction::AddTag(record(1, "Hair")).label(), "Add tag");
    assert_eq!(
        EditMenuAction::DeleteTag(record(1, "Hair"), "Body".to_string(), 2).label(),
        "Delete tag Body"
    );
    assert_eq!(EditMenuAction::BulkTag.label(), "Bulk tag mods");
    assert_eq!(EditMenuAction::ScanNoVerify.label(), "Scan for new/deleted mods");
    assert_eq!(EditMenuAction::ScanVerify.label(), "Scan for new/deleted/updated mods");
    assert_eq!(EditMenuAction::Quit.label(), "Quit");
}

#[test]
fn titles_and_empty_messages() {
    assert_eq!(EditMenuAction::MainMenu.title(), "Main Menu:");
    assert_eq!(EditMenuAction::TagList.title(), "Mods by tag:");
    assert_eq!(EditMenuAction::TagModList("Body".to_string(), 3).title(), "Mods for tag Body:");
    assert_eq!(EditMenuAction::AllModList.title(), "All Mods:");
    assert_eq!(EditMenuAction::EditMod("Hair".to_string(), 1).title(), "Edit mod Hair:");
    assert_eq!(EditMenuAction::EditModName(record(1, "Hair")).title(), "Mod name:");
    assert_eq!(EditMenuAction::EditModSource(record(1, "Hair")).title(), "Source URL:");
    assert_eq!(EditMenuAction::EditModTags(record(1, "Hair")).title(), "Edit tags for Hair:");
    assert_eq!(EditMenuAction::AddTag(record(1, "Hair")).title(), "Enter tag:");
    assert_eq!(
        EditMenuAction::DeleteTag(record(1, "Hair"), "Body".to_string(), 2).title(),
        "Remove tag 'Body' from Hair?"
    );
    assert_eq!(EditMenuAction::BulkTag.title(), "Enter a tag:");
    assert_eq!(EditMenuAction::Quit.title(), "Exiting...");
    assert_eq!(EditMenuAction::TagList.empty_message(), "No tags found!");
    assert_eq!(
        EditMenuAction::TagModList("Body".to_string(), 3).empty_message(),
        "There are no mods tagged Body!"
    );
    assert_eq!(EditMenuAction::AllModList.empty_message(), "There are no mods in the database!");
    assert_eq!(EditMenuAction::BulkTag.empty_message(), "No mods in database to tag!");
    assert_eq!(EditMenuAction::MainMenu.empty_message(), "");
}

#[test]
fn steps_of_the_states() {
    assert_eq!(EditMenuAction::MainMenu.step(), MenuStep::Select);
    assert_eq!(EditMenuAction::EditMod("a".to_string(), 1).step(), MenuStep::Select);
    assert_eq!(EditMenuAction::EditModName(record(1, "a")).step(), MenuStep::EnterText);
    assert_eq!(EditMenuAction::EditModSource(record(1, "a")).step(), MenuStep::EnterUrl);
    assert_eq!(EditMenuAction::AddTag(record(1, "a")).step(), MenuStep::EnterText);
    assert_eq!(EditMenuAction::BulkTag.step(), MenuStep::EnterText);
    assert_eq!(
        EditMenuAction::DeleteTag(record(1, "a"), "t".to_string(), 1).step(),
        MenuStep::Confirm
    );
    assert_eq!(EditMenuAction::ScanNoVerify.step(), MenuStep::Scan { verify: false });
    assert_eq!(EditMenuAction::ScanVerify.step(), MenuStep::Scan { verify: true });
    assert_eq!(EditMenuAction::Quit.step(), MenuStep::Stop);
}

#[test]
fn menus_offer_their_entries_in_order() {
    assert_eq!(
        labels(&main_menu_options()),
        vec![
            "Mods by tag",
            "All mods",
            "Bulk tag mods",
            "Scan for new/deleted mods",
            "Scan for new/deleted/updated mods",
            "Quit"
        ]
    );
    let tags = vec![Tag { id: 1, tag: "Body".to_string() }, Tag { id: 5, tag: "Hair".to_string() }];
    assert_eq!(
        show(&tag_list_options(&tags)[1]),
        show(&EditMenuAction::TagModList("Hair".to_string(), 5))
    );
    assert_eq!(labels(&tag_list_options(&tags)), vec!["Body", "Hair"]);
    let mods = vec![record(1, "One"), record(2, "Two")];
    assert_eq!(labels(&mod_list_options(&mods)), vec!["One (1)", "Two (2)"]);
    assert_eq!(
        labels(&edit_mod_options(&record(1, "One"), &EditMenuAction::AllModList)),
        vec!["Name: One", "Source: https://example.net/mod", "Edit tags for One", "All mods"]
    );
    assert_eq!(
        labels(&edit_tags_options(&record(1, "One"), &tags)),
        vec!["Delete tag Body", "Delete tag Hair", "Add tag"]
    );
    assert_eq!(labels(&edit_tags_options(&record(1, "One"), &vec![])), vec!["Add tag"]);
}

#[test]
fn the_menu_starts_at_the_main_menu() {
    let state = MenuState::start();
    assert!(matches!(state.current, EditMenuAction::MainMenu));
    assert!(matches!(state.previous, EditMenuAction::AllModList));
    assert!(!state.is_finished());
}

#[test]
fn cancelling_leads_one_level_up_and_changes_nothing() {
    let cases = vec![
        (EditMenuAction::MainMenu, EditMenuAction::Quit),
        (EditMenuAction::TagList, EditMenuAction::MainMenu),
        (EditMenuAction::TagModList("Body".to_string(), 1), EditMenuAction::TagList),
        (EditMenuAction::AllModList, EditMenuAction::MainMenu),
        (EditMenuAction::EditMod("One".to_string(), 1), EditMenuAction::AllModList),
        (EditMenuAction::EditModName(record(1, "One")), EditMenuAction::EditMod("One".to_string(), 1)),
        (
            EditMenuAction::EditModSource(record(1, "One")),
            EditMenuAction::EditMod("One".to_string(), 1),
        ),
        (EditMenuAction::EditModTags(record(1, "One")), EditMenuAction::EditMod("One".to_string(), 1)),
        (EditMenuAction::AddTag(record(1, "One")), EditMenuAction::EditModTags(record(1, "One"))),
        (
            EditMenuAction::DeleteTag(record(1, "One"), "Body".to_string(), 2),
            EditMenuAction::EditModTags(record(1, "One")),
        ),
        (EditMenuAction::BulkTag, EditMenuAction::MainMenu),
        (EditMenuAction::Quit, EditMenuAction::Quit),
    ];
    for (from, to) in cases {
        let (next, effect) = at(from.duplicate()).next_state(MenuEvent::Cancelled);
        assert_eq!(show(&next.current), show(&to), "from {:?}", from);
        assert!(matches!(effect, MenuEffect::Nothing));
        let (next, effect) = at(from.duplicate()).next_state(MenuEvent::NothingToShow);
        assert_eq!(show(&next.current), show(&to), "from {:?}", from);
        assert!(matches!(effect, MenuEffect::Nothing));
    }
}

#[test]
fn a_chosen_entry_is_entered() {
    let (next, effect) = MenuState::start().next_state(MenuEvent::Chosen(EditMenuAction::TagList));
    assert!(matches!(next.current, EditMenuAction::TagList));
    assert!(matches!(effect, MenuEffect::Nothing));
    let (next, _) = next.next_state(MenuEvent::Chosen(EditMenuAction::TagModList("Body".to_string(), 1)));
    assert_eq!(show(&next.current), show(&EditMenuAction::TagModList("Body".to_string(), 1)));
    let (next, _) = next.next_state(MenuEvent::Chosen(EditMenuAction::EditMod("One".to_string(), 1)));
    assert_eq!(show(&next.current), show(&EditMenuAction::EditMod("One".to_string(), 1)));
    let (next, _) = next.next_state(MenuEvent::Cancelled);
    assert!(matches!(next.current, EditMenuAction::AllModList));
}

#[test]
fn a_choice_is_ignored_where_nothing_is_offered() {
    let (next, effect) = at(EditMenuAction::BulkTag).next_state(MenuEvent::Chosen(EditMenuAction::Quit));
    assert!(matches!(next.current, EditMenuAction::BulkTag));
    assert!(matches!(effect, MenuEffect::Nothing));
    let (next, _) = at(EditMenuAction::Quit).next_state(MenuEvent::Chosen(EditMenuAction::MainMenu));
    assert!(next.is_finished());
}

#[test]
fn renaming_a_mod() {
    let state = at(EditMenuAction::EditModName(record(4, "Old")));
    let (next, effect) = state.next_state(MenuEvent::Entered("New".to_string()));
    assert_eq!(show(&next.current), show(&EditMenuAction::EditMod("New".to_string(), 4)));
    match effect {
        MenuEffect::Rename { mod_id, name } => {
            assert_eq!(mod_id, 4);
            assert_eq!(name, "New");
        }
        other => panic!("unexpected effect {:?}", other),
    }
}

#[test]
fn changing_the_source_of_a_mod() {
    let state = at(EditMenuAction::EditModSource(record(4, "Hair")));
    let (next, effect) = state.next_state(MenuEvent::Entered("https://new.example".to_string()));
    assert_eq!(show(&next.current), show(&EditMenuAction::EditMod("Hair".to_string(), 4)));
    match effect {
        MenuEffect::SetSource { mod_id, source_url } => {
            assert_eq!(mod_id, 4);
            assert_eq!(source_url, "https://new.example");
        }
        other => panic!("unexpected effect {:?}", other),
    }
}

#[test]
fn adding_and_deleting_a_tag() {
    let (next, effect) =
        at(EditMenuAction::AddTag(record(4, "Hair"))).next_state(MenuEvent::Entered("Body".to_string()));
    assert_eq!(show(&next.current), show(&EditMenuAction::EditModTags(record(4, "Hair"))));
    match effect {
        MenuEffect::AddTag { mod_id, tag } => {
            assert_eq!(mod_id, 4);
            assert_eq!(tag, "Body");
        }
        other => panic!("unexpected effect {:?}", other),
    }
    let delete = EditMenuAction::DeleteTag(record(4, "Hair"), "Body".to_string(), 9);
    let (next, effect) = at(delete.duplicate()).next_state(MenuEvent::Answered(true));
    assert_eq!(show(&next.current), show(&EditMenuAction::EditModTags(record(4, "Hair"))));
    match effect {
        MenuEffect::RemoveTag { mod_id, tag_id } => {
            assert_eq!(mod_id, 4);
            assert_eq!(tag_id, 9);
        }
        other => panic!("unexpected effect {:?}", other),
    }
    let (next, effect) = at(delete).next_state(MenuEvent::Answered(false));
    assert_eq!(show(&next.current), show(&EditMenuAction::EditModTags(record(4, "Hair"))));
    assert!(matches!(effect, MenuEffect::Nothing));
}

#[test]
fn bulk_tagging_stays_until_cancelled() {
    let (next, effect) = at(EditMenuAction::BulkTag).next_state(MenuEvent::Entered("Body".to_string()));
    assert!(matches!(next.current, EditMenuAction::BulkTag));
    match effect {
        MenuEffect::BulkTag { tag } => assert_eq!(tag, "Body"),
        other => panic!("unexpected effect {:?}", other),
    }
    let (next, _) = next.next_state(MenuEvent::Cancelled);
    assert!(matches!(next.current, EditMenuAction::MainMenu));
}

#[test]
fn scans_return_to_the_main_menu() {
    for scan in [EditMenuAction::ScanNoVerify, EditMenuAction::ScanVerify] {
        let (next, effect) = at(scan).next_state(MenuEvent::Finished);
        assert!(matches!(next.current, EditMenuAction::MainMenu));
        assert!(matches!(effect, MenuEffect::Nothing));
    }
    let (next, _) = at(EditMenuAction::TagList).next_state(MenuEvent::Finished);
    assert!(matches!(next.current, EditMenuAction::TagList));
}

#[test]
fn the_way_back_from_a_mod_is_the_list_of_all_mods() {
    let state = MenuState { current: EditMenuAction::AllModList, previous: EditMenuAction::TagList };
    let (next, _) = state.next_state(MenuEvent::Chosen(EditMenuAction::EditMod("One".to_string(), 1)));
    assert!(matches!(next.previous, EditMenuAction::AllModList));
    let state = MenuState { current: EditMenuAction::AllModList, previous: EditMenuAction::TagList };
    let (next, _) = state.next_state(MenuEvent::NothingToShow);
    assert!(matches!(next.previous, EditMenuAction::TagList));
    let state = MenuState {
        current: EditMenuAction::EditMod("One".to_string(), 1),
        previous: EditMenuAction::TagList,
    };
    let (next, _) = state.next_state(MenuEvent::Cancelled);
    assert!(matches!(next.current, EditMenuAction::TagList));
}

#[test]
fn quitting_from_the_main_menu_finishes() {
    let (next, _) = MenuState::start().next_state(MenuEvent::Chosen(EditMenuAction::Quit));
    assert!(next.is_finished());
    let (next, effect) = next.next_state(MenuEvent::Entered("x".to_string()));
    assert!(next.is_finished());
    assert!(matches!(effect, MenuEffect::Nothing));
}

#[test]
fn options_come_from_the_rows_of_the_store() {
    let mut store = Store::new();
    for (name, tags) in [("One", vec!["Body", "Hair"]), ("Two", vec!["Hair"]), ("Three", vec![])] {
        store
            .add_mod(&NewMod {
                name: name.to_string(),
                directory: name.to_string(),
                source_url: "https://example.net/mod".to_string(),
                version: "1".to_string(),
                updated: 0,
                tags: tags.iter().map(|t| t.to_string()).collect(),
                hashes: FileHashes::new(),
            })
            .unwrap();
    }
    assert_eq!(labels(&options_for(&at(EditMenuAction::MainMenu), &store)).len(), 6);
    assert_eq!(labels(&options_for(&at(EditMenuAction::TagList), &store)), vec!["Body", "Hair"]);
    assert_eq!(
        labels(&options_for(&at(EditMenuAction::AllModList), &store)),
        vec!["One (1)", "Two (2)", "Three (3)"]
    );
    assert_eq!(
        labels(&options_for(&at(EditMenuAction::TagModList("Hair".to_string(), 2)), &store)),
        vec!["One (1)", "Two (2)"]
    );
    assert!(options_for(&at(EditMenuAction::TagModList("Gone".to_string(), 9)), &store).is_empty());
    assert_eq!(
        labels(&options_for(&at(EditMenuAction::EditMod("Two".to_string(), 2)), &store)),
        vec!["Name: Two", "Source: https://example.net/mod", "Edit tags for Two", "All mods"]
    );
    assert!(options_for(&at(EditMenuAction::EditMod("Nobody".to_string(), 9)), &store).is_empty());
    let one = store.find_mod(1).unwrap().duplicate();
    assert_eq!(
        labels(&options_for(&at(EditMenuAction::EditModTags(one)), &store)),
        vec!["Delete tag Body", "Delete tag Hair", "Add tag"]
    );
    let three = store.find_mod(3).unwrap().duplicate();
    assert_eq!(
        labels(&options_for(&at(EditMenuAction::EditModTags(three)), &store)),
        vec!["Add tag"]
    );
    assert!(options_for(&at(EditMenuAction::BulkTag), &store).is_empty());
    assert!(options_for(&at(EditMenuAction::Quit), &store).is_empty());
    assert!(options_for(&at(EditMenuAction::TagList), &Store::new()).is_empty());
}

fn stocked() -> Store {
    let mut store = Store::new();
    for (name, tags) in [("One", vec!["Body", "Hair"]), ("Two", vec!["Hair"])] {
        store
            .add_mod(&NewMod {
                name: name.to_string(),
                directory: name.to_string(),
                source_url: "https://example.net/mod".to_string(),
                version: "1".to_string(),
                updated: 0,
                tags: tags.iter().map(|t| t.to_string()).collect(),
                hashes: FileHashes::new(),
            })
            .unwrap();
    }
    store
}

#[test]
fn effects_without_a_change() {
    let mut store = stocked();
    let before = format!("{:?}", store);
    assert!(matches!(apply_effect(&mut store, MenuEffect::Nothing, 5), Ok(Applied::Done)));
    match apply_effect(&mut store, MenuEffect::BulkTag { tag: "Body".to_string() }, 5) {
        Ok(Applied::ChooseMods(tag)) => assert_eq!(tag, "Body"),
        other => panic!("unexpected outcome {:?}", other),
    }
    let has_it = MenuEffect::AddTag { mod_id: 1, tag: "Hair".to_string() };
    assert!(matches!(apply_effect(&mut store, has_it, 5), Ok(Applied::Done)));
    assert_eq!(format!("{:?}", store), before);
}

#[test]
fn renaming_and_changing_the_source_set_the_time() {
    let mut store = stocked();
    let rename = MenuEffect::Rename { mod_id: 1, name: "First".to_string() };
    assert!(matches!(apply_effect(&mut store, rename, 50), Ok(Applied::Done)));
    assert_eq!(store.find_mod(1).unwrap().name, "First");
    assert_eq!(store.find_mod(1).unwrap().updated, 50);
    let source = MenuEffect::SetSource { mod_id: 2, source_url: "https://new.example".to_string() };
    assert!(matches!(apply_effect(&mut store, source, 60), Ok(Applied::Done)));
    assert_eq!(store.find_mod(2).unwrap().source_url, "https://new.example");
    assert_eq!(store.find_mod(2).unwrap().updated, 60);
    assert_eq!(store.find_mod(2).unwrap().name, "Two");
    let before = format!("{:?}", store);
    let taken = MenuEffect::Rename { mod_id: 2, name: "First".to_string() };
    assert!(matches!(apply_effect(&mut store, taken, 70), Err(StoreError::NameTaken)));
    assert_eq!(format!("{:?}", store), before);
    let unknown = MenuEffect::Rename { mod_id: 9, name: "Ninth".to_string() };
    assert!(matches!(apply_effect(&mut store, unknown, 70), Ok(Applied::Done)));
    assert_eq!(format!("{:?}", store), before);
}

#[test]
fn removing_a_tag_unlinks_collects_and_sets_the_time() {
    let mut store = stocked();
    let body = store.find_tag(&"Body".to_string()).unwrap();
    let hair = store.find_tag(&"Hair".to_string()).unwrap();
    let remove = MenuEffect::RemoveTag { mod_id: 1, tag_id: body };
    assert!(matches!(apply_effect(&mut store, remove, 80), Ok(Applied::Done)));
    assert_eq!(store.find_tag(&"Body".to_string()), None);
    assert_eq!(store.find_mod(1).unwrap().updated, 80);
    assert_eq!(store.find_mod(2).unwrap().updated, 0);
    let remove = MenuEffect::RemoveTag { mod_id: 1, tag_id: hair };
    assert!(matches!(apply_effect(&mut store, remove, 90), Ok(Applied::Done)));
    assert_eq!(store.find_tag(&"Hair".to_string()), Some(hair));
    assert_eq!(store.members_of_tag(&"Hair".to_string()), vec![2]);
    assert_eq!(store.find_mod(1).unwrap().updated, 90);
    assert!(store.is_well_formed());
}

#[test]
fn adding_a_tag_links_it_and_sets_the_time() {
    let mut store = stocked();
    let add = MenuEffect::AddTag { mod_id: 2, tag: "Fresh".to_string() };
    assert!(matches!(apply_effect(&mut store, add, 30), Ok(Applied::Done)));
    assert!(store.is_tagged(2, &"Fresh".to_string()));
    assert_eq!(store.find_mod(2).unwrap().updated, 30);
    let add = MenuEffect::AddTag { mod_id: 2, tag: "Body".to_string() };
    assert!(matches!(apply_effect(&mut store, add, 40), Ok(Applied::Done)));
    assert_eq!(store.members_of_tag(&"Body".to_string()), vec![1, 2]);
    assert_eq!(store.find_mod(2).unwrap().updated, 40);
    let before = format!("{:?}", store);
    let unknown = MenuEffect::AddTag { mod_id: 9, tag: "Fresh".to_string() };
    assert!(matches!(apply_effect(&mut store, unknown, 50), Err(StoreError::UnknownMod)));
    assert_eq!(format!("{:?}", store), before);
    assert!(store.is_well_formed());
}
