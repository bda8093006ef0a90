//! The commands of the program and the rules on how their options combine.

use vstd::prelude::*;

verus! {

/// What the program is asked to do.
#[derive(Debug)]
pub enum Command {
    /// Initializes the database.
    Initialize {
        /// Replace an existing database, if found.
        force: bool,
    },
    /// Lists currently registered mods.
    List {
        /// Only show mods matching the given tags.
        tags: Option<Vec<String>>,
        /// Verify file data and show results.
        verify: bool,
        /// Show detailed information.
        details: bool,
    },
    /// Scans for out of date or new mods in the mod directory.
    Scan {
        /// Verify file data for existing mods.
        verify: bool,
        /// Interactively update the database for detected changes.
        fix: bool,
        /// Update file hash data without changing mod metadata (dangerous).
        sync_hashes: bool,
    },
    /// View and delete tags.
    Tags {
        /// Deletes a given tag. Does not delete any mods.
        delete: Option<String>,
        /// Only show given tags.
        tags: Option<Vec<String>>,
    },
    /// Edit mod information and tags.
    Edit {
        /// Edit interactively. Cannot be used with other options.
        interactive: bool,
        /// Mod ID to edit.
        mod_id: Option<i32>,
        /// Mod name to edit.
        name: Option<String>,
        /// Source URL to set.
        source_url: Option<String>,
        /// Tags to set.
        tags: Option<Vec<String>>,
        /// Version to set.
        mod_version: Option<String>,
    },
    /// Open the mod directory in a file explorer.
    OpenModDir,
}

/// Why a command cannot be carried out as given.
#[derive(Debug, Clone, Copy, PartialEq, Eq, Structural)]
pub enum CommandError {
    /// A scan was asked both to fix interactively and to sync hashes.
    FixWithSyncHashes,
    /// The tags command was asked both to delete a tag and to show tags.
    DeleteWithShowTags,
    /// An edit without the interactive menu names no mod.
    MissingModId,
    /// An edit without the interactive menu changes no field.
    NothingToEdit,
    /// An interactive edit was given other options.
    InteractiveWithArguments,
}

impl CommandError {
    /// The message shown to the user.
    pub open spec fn text(self) -> Seq<char> {
        match self {
            CommandError::FixWithSyncHashes => "Interactive fix and hash sync are mutually exclusive."@,
            CommandError::DeleteWithShowTags => "Delete and show tag options are mutually exclusive."@,
            CommandError::MissingModId => "Mod ID required to edit non-interactively"@,
            CommandError::NothingToEdit => "At least one field to edit must be provided"@,
            CommandError::InteractiveWithArguments => "Interactive mode is not compatible with other arguments"@,
        }
    }

    /// The message shown to the user.
    pub fn message(&self) -> (text: &'static str)
        ensures
            text@ == self.text(),
    {
        match self {
            CommandError::FixWithSyncHashes => "Interactive fix and hash sync are mutually exclusive.",
            CommandError::DeleteWithShowTags => "Delete and show tag options are mutually exclusive.",
            CommandError::MissingModId => "Mod ID required to edit non-interactively",
            CommandError::NothingToEdit => "At least one field to edit must be provided",
            CommandError::InteractiveWithArguments => "Interactive mode is not compatible with other arguments",
        }
    }
}

impl Command {
    /// The rule that the command breaks, if it breaks one.
    pub open spec fn rejection(&self) -> Option<CommandError> {
        match self {
            Command::Scan { verify, fix, sync_hashes } => if *fix && *sync_hashes {
                Some(CommandError::FixWithSyncHashes)
            } else {
                None
            },
            Command::Tags { delete, tags } => if delete is Some && tags is Some {
                Some(CommandError::DeleteWithShowTags)
            } else {
                None
            },
            Command::Edit { interactive, mod_id, name, source_url, tags, mod_version } => {
                if *interactive {
                    if mod_id is Some || name is Some || source_url is Some || tags is Some
                        || mod_version is Some {
                        Some(CommandError::InteractiveWithArguments)
                    } else {
                        None
                    }
                } else if mod_id is None {
                    Some(CommandError::MissingModId)
                } else if name is None && source_url is None && tags is None && mod_version is None {
                    Some(CommandError::NothingToEdit)
                } else {
                    None
                }
            },
            _ => None,
        }
    }

    /// Checks that the options of the command can be used together.
    pub fn check(&self) -> (outcome: Result<(), CommandError>)
        ensures
            match outcome {
                Ok(_) => self.rejection() is None,
                Err(error) => self.rejection() == Some(error),
            },
    {
        match self {
            Command::Scan { verify: _, fix, sync_hashes } => {
                if *fix && *sync_hashes {
                    return Err(CommandError::FixWithSyncHashes);
                }
            },
            Command::Tags { delete, tags } => {
                if delete.is_some() && tags.is_some() {
                    return Err(CommandError::DeleteWithShowTags);
                }
            },
            Command::Edit { interactive, mod_id, name, source_url, tags, mod_version } => {
                let any_field = name.is_some() || source_url.is_some() || tags.is_some()
                    || mod_version.is_some();
                if *interactive {
                    if mod_id.is_some() || any_field {
                        return Err(CommandError::InteractiveWithArguments);
                    }
                } else if mod_id.is_none() {
                    return Err(CommandError::MissingModId);
                } else if !any_field {
                    return Err(CommandError::NothingToEdit);
                }
            },
            _ => {},
        }
        Ok(())
    }
}

} // verus!
