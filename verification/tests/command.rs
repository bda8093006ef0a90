use sims4modorganizer::command::{Command, CommandError};

fn edit(
    interactive: bool,
    mod_id: Option<i32>,
    name: Option<&str>,
    tags: Option<Vec<String>>,
) -> Command {
    Command::Edit {
        interactive,
        mod_id,
        name: name.map(|n| n.to_string()),
        source_url: None,
        tags,
        mod_version: None,
    }
}

#[test]
fn scan_rejects_fix_together_with_sync_hashes() {
    let both = Command::Scan { verify: false, fix: true, sync_hashes: true };
    assert_eq!(both.check(), Err(CommandError::FixWithSyncHashes));
    assert_eq!(Command::Scan { verify: true, fix: true, sync_hashes: false }.check(), Ok(()));
    assert_eq!(Command::Scan { verify: true, fix: false, sync_hashes: true }.check(), Ok(()));
    assert_eq!(Command::Scan { verify: false, fix: false, sync_hashes: false }.check(), Ok(()));
}

#[test]
fn tags_rejects_delete_together_with_show() {
    let both = Command::Tags { delete: Some("Body".to_string()), tags: Some(vec![]) };
    assert_eq!(both.check(), Err(CommandError::DeleteWithShowTags));
    assert_eq!(Command::Tags { delete: Some("Body".to_string()), tags: None }.check(), Ok(()));
    assert_eq!(Command::Tags { delete: None, tags: Some(vec!["a".to_string()]) }.check(), Ok(()));
    assert_eq!(Command::Tags { delete: None, tags: None }.check(), Ok(()));
}

#[test]
fn edit_without_menu_needs_a_mod_and_a_field() {
    assert_eq!(edit(false, None, Some("n"), None).check(), Err(CommandError::MissingModId));
    assert_eq!(edit(false, None, None, None).check(), Err(CommandError::MissingModId));
    assert_eq!(edit(false, Some(3), None, None).check(), Err(CommandError::NothingToEdit));
    assert_eq!(edit(false, Some(3), Some("n"), None).check(), Ok(()));
    assert_eq!(edit(false, Some(3), None, Some(vec![])).check(), Ok(()));
}

#[test]
fn interactive_edit_takes_no_other_option() {
    assert_eq!(edit(true, None, None, None).check(), Ok(()));
    assert_eq!(
        edit(true, Some(1), None, None).check(),
        Err(CommandError::InteractiveWithArguments)
    );
    assert_eq!(
        edit(true, None, Some("n"), None).check(),
        Err(CommandError::InteractiveWithArguments)
    );
}

#[test]
fn other_commands_are_always_accepted() {
    assert_eq!(Command::Initialize { force: true }.check(), Ok(()));
    assert_eq!(Command::List { tags: None, verify: true, details: true }.check(), Ok(()));
    assert_eq!(Command::OpenModDir.check(), Ok(()));
}

#[test]
fn command_error_messages() {
    assert_eq!(
        CommandError::FixWithSyncHashes.message(),
        "Interactive fix and hash sync are mutually exclusive."
    );
    assert_eq!(
        CommandError::DeleteWithShowTags.message(),
        "Delete and show tag options are mutually exclusive."
    );
    assert_eq!(CommandError::MissingModId.message(), "Mod ID required to edit non-interactively");
    assert_eq!(
        CommandError::NothingToEdit.message(),
        "At least one field to edit must be provided"
    );
    assert_eq!(
        CommandError::InteractiveWithArguments.message(),
        "Interactive mode is not compatible with other arguments"
    );
}
