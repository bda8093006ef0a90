//! The interactive edit menu as a state machine: its states, what the
//! program does in each, and where the user's answer leads. The machine
//! itself asks nothing and changes nothing; the caller shows the prompts and
//! carries out the effects.

use crate::criteria::{meeting, OtherLink};
use crate::records::{edit, edit_outcome, edited};
use crate::rows::{Model, StoreError, Tag};
use crate::store::{has_mod, index_of_mod, linked_in, Store, tagged};
use crate::tagging::add_tag_outcome;
use crate::text::{decimal_text, push_decimal};
use vstd::prelude::*;
use vstd::string::*;

verus! {

/// A state of the edit menu. Each state is also an entry that a menu can
/// offer: choosing the entry enters the state.
#[derive(Debug)]
pub enum EditMenuAction {
    /// The main menu.
    MainMenu,
    /// The list of tags.
    TagList,
    /// The mods that have the tag of this label and identity.
    TagModList(String, i32),
    /// The list of all mods.
    AllModList,
    /// The menu of the mod of this name and identity.
    EditMod(String, i32),
    /// Asking for a new name of a mod.
    EditModName(Model),
    /// Asking for a new source of a mod.
    EditModSource(Model),
    /// The tags of a mod.
    EditModTags(Model),
    /// Asking for a tag to add to a mod.
    AddTag(Model),
    /// Asking whether to remove the tag of this label and identity from a mod.
    DeleteTag(Model, String, i32),
    /// Asking for a tag to put on many mods at once.
    BulkTag,
    /// Scanning for new and deleted mods.
    ScanNoVerify,
    /// Scanning for new, deleted and updated mods.
    ScanVerify,
    /// Leaving the menu.
    Quit,
}

/// What the program does in a state.
#[derive(Debug, Clone, Copy, PartialEq, Eq, Structural)]
pub enum MenuStep {
    /// Offer a list of entries to choose one from.
    Select,
    /// Ask for a line of text.
    EnterText,
    /// Ask for a source URL.
    EnterUrl,
    /// Ask a yes/no question; the default answer is no.
    Confirm,
    /// Run a scan that fixes what it finds, with or without verifying the
    /// files of existing mods.
    Scan { verify: bool },
    /// Stop.
    Stop,
}

/// What came of a step.
#[derive(Debug)]
pub enum MenuEvent {
    /// The user left the prompt without an answer.
    Cancelled,
    /// There was nothing to offer or to work on.
    NothingToShow,
    /// The user chose this entry.
    Chosen(EditMenuAction),
    /// The user entered this text.
    Entered(String),
    /// The user answered a yes/no question.
    Answered(bool),
    /// The scan has run.
    Finished,
}

/// What the caller has to change in the store after a step.
#[derive(Debug)]
pub enum MenuEffect {
    /// Nothing.
    Nothing,
    /// Give the mod a new name.
    Rename { mod_id: i32, name: String },
    /// Give the mod a new source.
    SetSource { mod_id: i32, source_url: String },
    /// Remove the link between the mod and the tag, then drop the tag if it
    /// has no link left.
    RemoveTag { mod_id: i32, tag_id: i32 },
    /// Link the mod to the tag of this label, unless it is linked already.
    AddTag { mod_id: i32, tag: String },
    /// Let the user choose the mods that shall have the tag of this label,
    /// and link and unlink accordingly.
    BulkTag { tag: String },
}

/// The state of the menu: where the user is, and the list that the menu of
/// a mod leads back to.
#[derive(Debug)]
pub struct MenuState {
    /// The state that the user is in.
    pub current: EditMenuAction,
    /// The list from which the user last went to a mod.
    pub previous: EditMenuAction,
}

impl EditMenuAction {
    /// The text that stands for the entry in a menu.
    pub open spec fn label_text(self) -> Seq<char> {
        match self {
            EditMenuAction::MainMenu => "Back to main menu"@,
            EditMenuAction::TagList => "Mods by tag"@,
            EditMenuAction::TagModList(tag, _) => tag@,
            EditMenuAction::AllModList => "All mods"@,
            EditMenuAction::EditMod(name, id) => name@ + " ("@ + decimal_text(id as int) + ")"@,
            EditMenuAction::EditModName(record) => "Name: "@ + record.name@,
            EditMenuAction::EditModSource(record) => "Source: "@ + record.source_url@,
            EditMenuAction::EditModTags(record) => "Edit tags for "@ + record.name@,
            EditMenuAction::AddTag(_) => "Add tag"@,
            EditMenuAction::DeleteTag(_, tag, _) => "Delete tag "@ + tag@,
            EditMenuAction::BulkTag => "Bulk tag mods"@,
            EditMenuAction::ScanNoVerify => "Scan for new/deleted mods"@,
            EditMenuAction::ScanVerify => "Scan for new/deleted/updated mods"@,
            EditMenuAction::Quit => "Quit"@,
        }
    }

    /// The text that stands for the entry in a menu.
    pub fn label(&self) -> (text: String)
        ensures
            text@ == self.label_text(),
    {
        match self {
            EditMenuAction::MainMenu => String::from_str("Back to main menu"),
            EditMenuAction::TagList => String::from_str("Mods by tag"),
            EditMenuAction::TagModList(tag, _) => tag.clone(),
            EditMenuAction::AllModList => String::from_str("All mods"),
            EditMenuAction::EditMod(name, id) => {
                let mut text = name.clone();
                text.append(" (");
                push_decimal(&mut text, *id as i64);
                text.append(")");
                text
            },
            EditMenuAction::EditModName(record) => {
                String::from_str("Name: ").concat(record.name.as_str())
            },
            EditMenuAction::EditModSource(record) => {
                String::from_str("Source: ").concat(record.source_url.as_str())
            },
            EditMenuAction::EditModTags(record) => {
                String::from_str("Edit tags for ").concat(record.name.as_str())
            },
            EditMenuAction::AddTag(_) => String::from_str("Add tag"),
            EditMenuAction::DeleteTag(_, tag, _) => {
                String::from_str("Delete tag ").concat(tag.as_str())
            },
            EditMenuAction::BulkTag => String::from_str("Bulk tag mods"),
            EditMenuAction::ScanNoVerify => String::from_str("Scan for new/deleted mods"),
            EditMenuAction::ScanVerify => String::from_str("Scan for new/deleted/updated mods"),
            EditMenuAction::Quit => String::from_str("Quit"),
        }
    }

    /// A copy of the state.
    pub fn duplicate(&self) -> (copy: EditMenuAction)
        ensures
            copy == *self,
    {
        match self {
            EditMenuAction::MainMenu => EditMenuAction::MainMenu,
            EditMenuAction::TagList => EditMenuAction::TagList,
            EditMenuAction::TagModList(tag, id) => EditMenuAction::TagModList(tag.clone(), *id),
            EditMenuAction::AllModList => EditMenuAction::AllModList,
            EditMenuAction::EditMod(name, id) => EditMenuAction::EditMod(name.clone(), *id),
            EditMenuAction::EditModName(record) => EditMenuAction::EditModName(record.duplicate()),
            EditMenuAction::EditModSource(record) => EditMenuAction::EditModSource(
                record.duplicate(),
            ),
            EditMenuAction::EditModTags(record) => EditMenuAction::EditModTags(record.duplicate()),
            EditMenuAction::AddTag(record) => EditMenuAction::AddTag(record.duplicate()),
            EditMenuAction::DeleteTag(record, tag, id) => EditMenuAction::DeleteTag(
                record.duplicate(),
                tag.clone(),
                *id,
            ),
            EditMenuAction::BulkTag => EditMenuAction::BulkTag,
            EditMenuAction::ScanNoVerify => EditMenuAction::ScanNoVerify,
            EditMenuAction::ScanVerify => EditMenuAction::ScanVerify,
            EditMenuAction::Quit => EditMenuAction::Quit,
        }
    }

    /// What the program does in this state.
    pub open spec fn step_of(self) -> MenuStep {
        match self {
            EditMenuAction::MainMenu => MenuStep::Select,
            EditMenuAction::TagList => MenuStep::Select,
            EditMenuAction::TagModList(_, _) => MenuStep::Select,
            EditMenuAction::AllModList => MenuStep::Select,
            EditMenuAction::EditMod(_, _) => MenuStep::Select,
            EditMenuAction::EditModTags(_) => MenuStep::Select,
            EditMenuAction::EditModName(_) => MenuStep::EnterText,
            EditMenuAction::AddTag(_) => MenuStep::EnterText,
            EditMenuAction::BulkTag => MenuStep::EnterText,
            EditMenuAction::EditModSource(_) => MenuStep::EnterUrl,
            EditMenuAction::DeleteTag(_, _, _) => MenuStep::Confirm,
            EditMenuAction::ScanNoVerify => MenuStep::Scan { verify: false },
            EditMenuAction::ScanVerify => MenuStep::Scan { verify: true },
            EditMenuAction::Quit => MenuStep::Stop,
        }
    }

    /// What the program does in this state.
    pub fn step(&self) -> (step: MenuStep)
        ensures
            step == self.step_of(),
    {
        match self {
            EditMenuAction::MainMenu => MenuStep::Select,
            EditMenuAction::TagList => MenuStep::Select,
            EditMenuAction::TagModList(_, _) => MenuStep::Select,
            EditMenuAction::AllModList => MenuStep::Select,
            EditMenuAction::EditMod(_, _) => MenuStep::Select,
            EditMenuAction::EditModTags(_) => MenuStep::Select,
            EditMenuAction::EditModName(_) => MenuStep::EnterText,
            EditMenuAction::AddTag(_) => MenuStep::EnterText,
            EditMenuAction::BulkTag => MenuStep::EnterText,
            EditMenuAction::EditModSource(_) => MenuStep::EnterUrl,
            EditMenuAction::DeleteTag(_, _, _) => MenuStep::Confirm,
            EditMenuAction::ScanNoVerify => MenuStep::Scan { verify: false },
            EditMenuAction::ScanVerify => MenuStep::Scan { verify: true },
            EditMenuAction::Quit => MenuStep::Stop,
        }
    }

    /// The title of the prompt that the state shows, for the states that
    /// show one.
    pub open spec fn title_text(self) -> Seq<char> {
        match self {
            EditMenuAction::MainMenu => "Main Menu:"@,
            EditMenuAction::TagList => "Mods by tag:"@,
            EditMenuAction::TagModList(tag, _) => "Mods for tag "@ + tag@ + ":"@,
            EditMenuAction::AllModList => "All Mods:"@,
            EditMenuAction::EditMod(name, _) => "Edit mod "@ + name@ + ":"@,
            EditMenuAction::EditModName(_) => "Mod name:"@,
            EditMenuAction::EditModSource(_) => "Source URL:"@,
            EditMenuAction::EditModTags(record) => "Edit tags for "@ + record.name@ + ":"@,
            EditMenuAction::AddTag(_) => "Enter tag:"@,
            EditMenuAction::DeleteTag(record, tag, _) => "Remove tag '"@ + tag@ + "' from "@
                + record.name@ + "?"@,
            EditMenuAction::BulkTag => "Enter a tag:"@,
            EditMenuAction::ScanNoVerify => Seq::empty(),
            EditMenuAction::ScanVerify => Seq::empty(),
            EditMenuAction::Quit => "Exiting..."@,
        }
    }

    /// The title of the prompt that the state shows.
    pub fn title(&self) -> (text: String)
        ensures
            text@ == self.title_text(),
    {
        match self {
            EditMenuAction::MainMenu => String::from_str("Main Menu:"),
            EditMenuAction::TagList => String::from_str("Mods by tag:"),
            EditMenuAction::TagModList(tag, _) => {
                String::from_str("Mods for tag ").concat(tag.as_str()).concat(":")
            },
            EditMenuAction::AllModList => String::from_str("All Mods:"),
            EditMenuAction::EditMod(name, _) => {
                String::from_str("Edit mod ").concat(name.as_str()).concat(":")
            },
            EditMenuAction::EditModName(_) => String::from_str("Mod name:"),
            EditMenuAction::EditModSource(_) => String::from_str("Source URL:"),
            EditMenuAction::EditModTags(record) => {
                String::from_str("Edit tags for ").concat(record.name.as_str()).concat(":")
            },
            EditMenuAction::AddTag(_) => String::from_str("Enter tag:"),
            EditMenuAction::DeleteTag(record, tag, _) => {
                String::from_str("Remove tag '").concat(tag.as_str()).concat("' from ").concat(
                    record.name.as_str(),
                ).concat("?")
            },
            EditMenuAction::BulkTag => String::from_str("Enter a tag:"),
            EditMenuAction::ScanNoVerify => String::new(),
            EditMenuAction::ScanVerify => String::new(),
            EditMenuAction::Quit => String::from_str("Exiting..."),
        }
    }

    /// What the user is told where the state has nothing to offer, for the
    /// states that can be empty.
    pub open spec fn empty_text(self) -> Seq<char> {
        match self {
            EditMenuAction::TagList => "No tags found!"@,
            EditMenuAction::TagModList(tag, _) => "There are no mods tagged "@ + tag@ + "!"@,
            EditMenuAction::AllModList => "There are no mods in the database!"@,
            EditMenuAction::BulkTag => "No mods in database to tag!"@,
            _ => Seq::empty(),
        }
    }

    /// What the user is told where the state has nothing to offer.
    pub fn empty_message(&self) -> (text: String)
        ensures
            text@ == self.empty_text(),
    {
        match self {
            EditMenuAction::TagList => String::from_str("No tags found!"),
            EditMenuAction::TagModList(tag, _) => {
                String::from_str("There are no mods tagged ").concat(tag.as_str()).concat("!")
            },
            EditMenuAction::AllModList => String::from_str("There are no mods in the database!"),
            EditMenuAction::BulkTag => String::from_str("No mods in database to tag!"),
            _ => String::new(),
        }
    }
}

/// The entries of the main menu.
pub fn main_menu_options() -> (options: Vec<EditMenuAction>)
    ensures
        options@ == seq![
            EditMenuAction::TagList,
            EditMenuAction::AllModList,
            EditMenuAction::BulkTag,
            EditMenuAction::ScanNoVerify,
            EditMenuAction::ScanVerify,
            EditMenuAction::Quit,
        ],
{
    let mut options: Vec<EditMenuAction> = Vec::new();
    options.push(EditMenuAction::TagList);
    options.push(EditMenuAction::AllModList);
    options.push(EditMenuAction::BulkTag);
    options.push(EditMenuAction::ScanNoVerify);
    options.push(EditMenuAction::ScanVerify);
    options.push(EditMenuAction::Quit);
    proof {
        assert(options@ =~= seq![
            EditMenuAction::TagList,
            EditMenuAction::AllModList,
            EditMenuAction::BulkTag,
            EditMenuAction::ScanNoVerify,
            EditMenuAction::ScanVerify,
            EditMenuAction::Quit,
        ]);
    }
    options
}

/// The entries of the list of tags: one for each tag, in order.
pub fn tag_list_options(tags: &Vec<Tag>) -> (options: Vec<EditMenuAction>)
    ensures
        options.len() == tags.len(),
        forall|i: int|
            0 <= i < tags.len() ==> #[trigger] options[i] == EditMenuAction::TagModList(
                tags[i].tag,
                tags[i].id,
            ),
{
    let mut options: Vec<EditMenuAction> = Vec::new();
    let mut i: usize = 0;
    while i < tags.len()
        invariant
            i <= tags.len(),
            options.len() == i,
            forall|j: int|
                0 <= j < i ==> #[trigger] options[j] == EditMenuAction::TagModList(
                    tags[j].tag,
                    tags[j].id,
                ),
        decreases tags.len() - i,
    {
        options.push(EditMenuAction::TagModList(tags[i].tag.clone(), tags[i].id));
        i += 1;
    }
    options
}

/// The entries of a list of mods: one for each mod, in order.
pub fn mod_list_options(mods: &Vec<Model>) -> (options: Vec<EditMenuAction>)
    ensures
        options.len() == mods.len(),
        forall|i: int|
            0 <= i < mods.len() ==> #[trigger] options[i] == EditMenuAction::EditMod(
                mods[i].name,
                mods[i].id,
            ),
{
    let mut options: Vec<EditMenuAction> = Vec::new();
    let mut i: usize = 0;
    while i < mods.len()
        invariant
            i <= mods.len(),
            options.len() == i,
            forall|j: int|
                0 <= j < i ==> #[trigger] options[j] == EditMenuAction::EditMod(
                    mods[j].name,
                    mods[j].id,
                ),
        decreases mods.len() - i,
    {
        options.push(EditMenuAction::EditMod(mods[i].name.clone(), mods[i].id));
        i += 1;
    }
    options
}

/// The entries of the menu of a mod: its name, its source, its tags, and
/// the way back to the list that the user came from.
pub fn edit_mod_options(record: &Model, previous: &EditMenuAction) -> (options: Vec<
    EditMenuAction,
>)
    ensures
        options@ == seq![
            EditMenuAction::EditModName(*record),
            EditMenuAction::EditModSource(*record),
            EditMenuAction::EditModTags(*record),
            *previous,
        ],
{
    let mut options: Vec<EditMenuAction> = Vec::new();
    options.push(EditMenuAction::EditModName(record.duplicate()));
    options.push(EditMenuAction::EditModSource(record.duplicate()));
    options.push(EditMenuAction::EditModTags(record.duplicate()));
    options.push(previous.duplicate());
    proof {
        assert(options@ =~= seq![
            EditMenuAction::EditModName(*record),
            EditMenuAction::EditModSource(*record),
            EditMenuAction::EditModTags(*record),
            *previous,
        ]);
    }
    options
}

/// The entries of the tags of a mod: one to delete each of its tags, in
/// order, then one to add a tag.
pub fn edit_tags_options(record: &Model, tags: &Vec<Tag>) -> (options: Vec<EditMenuAction>)
    ensures
        options.len() == tags.len() + 1,
        forall|i: int|
            0 <= i < tags.len() ==> #[trigger] options[i] == EditMenuAction::DeleteTag(
                *record,
                tags[i].tag,
                tags[i].id,
            ),
        options[tags.len() as int] == EditMenuAction::AddTag(*record),
{
    let mut options: Vec<EditMenuAction> = Vec::new();
    let mut i: usize = 0;
    while i < tags.len()
        invariant
            i <= tags.len(),
            options.len() == i,
            forall|j: int|
                0 <= j < i ==> #[trigger] options[j] == EditMenuAction::DeleteTag(
                    *record,
                    tags[j].tag,
                    tags[j].id,
                ),
        decreases tags.len() - i,
    {
        options.push(
            EditMenuAction::DeleteTag(record.duplicate(), tags[i].tag.clone(), tags[i].id),
        );
        i += 1;
    }
    options.push(EditMenuAction::AddTag(record.duplicate()));
    options
}

impl MenuState {
    /// The state in which the menu starts: the main menu, with the list of
    /// all mods as the way back from a mod.
    pub fn start() -> (state: MenuState)
        ensures
            state == (MenuState {
                current: EditMenuAction::MainMenu,
                previous: EditMenuAction::AllModList,
            }),
    {
        MenuState { current: EditMenuAction::MainMenu, previous: EditMenuAction::AllModList }
    }

    /// Whether the menu has been left.
    pub fn is_finished(&self) -> (finished: bool)
        ensures
            finished == (self.current is Quit),
    {
        match self.current {
            EditMenuAction::Quit => true,
            _ => false,
        }
    }

    /// Where the user gets by leaving the prompt of the current state
    /// without an answer: one level up.
    pub open spec fn way_back(self) -> EditMenuAction {
        match self.current {
            EditMenuAction::MainMenu => EditMenuAction::Quit,
            EditMenuAction::TagList => EditMenuAction::MainMenu,
            EditMenuAction::TagModList(_, _) => EditMenuAction::TagList,
            EditMenuAction::AllModList => EditMenuAction::MainMenu,
            EditMenuAction::EditMod(_, _) => self.previous,
            EditMenuAction::EditModName(record) => EditMenuAction::EditMod(record.name, record.id),
            EditMenuAction::EditModSource(record) => EditMenuAction::EditMod(
                record.name,
                record.id,
            ),
            EditMenuAction::EditModTags(record) => EditMenuAction::EditMod(record.name, record.id),
            EditMenuAction::AddTag(record) => EditMenuAction::EditModTags(record),
            EditMenuAction::DeleteTag(record, _, _) => EditMenuAction::EditModTags(record),
            EditMenuAction::BulkTag => EditMenuAction::MainMenu,
            EditMenuAction::ScanNoVerify => EditMenuAction::MainMenu,
            EditMenuAction::ScanVerify => EditMenuAction::MainMenu,
            EditMenuAction::Quit => EditMenuAction::Quit,
        }
    }

    /// The list that the menu of a mod leads back to after this step: the
    /// list of all mods once the user has seen it, else what it was.
    pub open spec fn next_previous(self, event: MenuEvent) -> EditMenuAction {
        if self.current is AllModList && (event is Chosen || event is Cancelled) {
            EditMenuAction::AllModList
        } else {
            self.previous
        }
    }

    /// The state that follows the current one on an event. An event that
    /// the current state does not await leaves the state as it is.
    pub open spec fn next_current(self, event: MenuEvent) -> EditMenuAction {
        match event {
            MenuEvent::Cancelled => self.way_back(),
            MenuEvent::NothingToShow => self.way_back(),
            MenuEvent::Chosen(entry) => if self.current.step_of() == MenuStep::Select {
                entry
            } else {
                self.current
            },
            MenuEvent::Entered(text) => match self.current {
                EditMenuAction::EditModName(record) => EditMenuAction::EditMod(text, record.id),
                EditMenuAction::EditModSource(record) => EditMenuAction::EditMod(
                    record.name,
                    record.id,
                ),
                EditMenuAction::AddTag(record) => EditMenuAction::EditModTags(record),
                _ => self.current,
            },
            MenuEvent::Answered(_) => match self.current {
                EditMenuAction::DeleteTag(record, _, _) => EditMenuAction::EditModTags(record),
                _ => self.current,
            },
            MenuEvent::Finished => match self.current {
                EditMenuAction::ScanNoVerify => EditMenuAction::MainMenu,
                EditMenuAction::ScanVerify => EditMenuAction::MainMenu,
                _ => self.current,
            },
        }
    }

    /// What the caller has to change in the store on an event.
    pub open spec fn effect_of(self, event: MenuEvent) -> MenuEffect {
        match (self.current, event) {
            (EditMenuAction::EditModName(record), MenuEvent::Entered(text)) => MenuEffect::Rename {
                mod_id: record.id,
                name: text,
            },
            (
                EditMenuAction::EditModSource(record),
                MenuEvent::Entered(text),
            ) => MenuEffect::SetSource { mod_id: record.id, source_url: text },
            (EditMenuAction::AddTag(record), MenuEvent::Entered(text)) => MenuEffect::AddTag {
                mod_id: record.id,
                tag: text,
            },
            (EditMenuAction::BulkTag, MenuEvent::Entered(text)) => MenuEffect::BulkTag {
                tag: text,
            },
            (
                EditMenuAction::DeleteTag(record, _, tag_id),
                MenuEvent::Answered(yes),
            ) => if yes {
                MenuEffect::RemoveTag { mod_id: record.id, tag_id: tag_id }
            } else {
                MenuEffect::Nothing
            },
            _ => MenuEffect::Nothing,
        }
    }

    /// The state after an event.
    pub open spec fn after(self, event: MenuEvent) -> MenuState {
        MenuState { current: self.next_current(event), previous: self.next_previous(event) }
    }

    /// Takes the menu from its state to the next on an event, and says what
    /// the caller has to change in the store.
    pub fn next_state(self, event: MenuEvent) -> (next: (MenuState, MenuEffect))
        ensures
            next.0 == self.after(event),
            next.1 == self.effect_of(event),
    {
        let MenuState { current, previous } = self;
        match event {
            MenuEvent::Cancelled => {
                let at_all_mods = match current {
                    EditMenuAction::AllModList => true,
                    _ => false,
                };
                let state = MenuState { current, previous };
                let back = state.go_back();
                if at_all_mods {
                    (
                        MenuState { current: back.current, previous: EditMenuAction::AllModList },
                        MenuEffect::Nothing,
                    )
                } else {
                    (back, MenuEffect::Nothing)
                }
            },
            MenuEvent::NothingToShow => {
                let state = MenuState { current, previous };
                (state.go_back(), MenuEffect::Nothing)
            },
            MenuEvent::Chosen(entry) => match current {
                EditMenuAction::AllModList => (
                    MenuState { current: entry, previous: EditMenuAction::AllModList },
                    MenuEffect::Nothing,
                ),
                EditMenuAction::MainMenu => (
                    MenuState { current: entry, previous },
                    MenuEffect::Nothing,
                ),
                EditMenuAction::TagList => (
                    MenuState { current: entry, previous },
                    MenuEffect::Nothing,
                ),
                EditMenuAction::TagModList(_, _) => (
                    MenuState { current: entry, previous },
                    MenuEffect::Nothing,
                ),
                EditMenuAction::EditMod(_, _) => (
                    MenuState { current: entry, previous },
                    MenuEffect::Nothing,
                ),
                EditMenuAction::EditModTags(_) => (
                    MenuState { current: entry, previous },
                    MenuEffect::Nothing,
                ),
                other => (MenuState { current: other, previous }, MenuEffect::Nothing),
            },
            MenuEvent::Entered(text) => match current {
                EditMenuAction::EditModName(record) => {
                    let id = record.id;
                    (
                        MenuState { current: EditMenuAction::EditMod(text.clone(), id), previous },
                        MenuEffect::Rename { mod_id: id, name: text },
                    )
                },
                EditMenuAction::EditModSource(record) => {
                    let id = record.id;
                    (
                        MenuState { current: EditMenuAction::EditMod(record.name, id), previous },
                        MenuEffect::SetSource { mod_id: id, source_url: text },
                    )
                },
                EditMenuAction::AddTag(record) => {
                    let id = record.id;
                    (
                        MenuState { current: EditMenuAction::EditModTags(record), previous },
                        MenuEffect::AddTag { mod_id: id, tag: text },
                    )
                },
                EditMenuAction::BulkTag => (
                    MenuState { current: EditMenuAction::BulkTag, previous },
                    MenuEffect::BulkTag { tag: text },
                ),
                other => (MenuState { current: other, previous }, MenuEffect::Nothing),
            },
            MenuEvent::Answered(yes) => match current {
                EditMenuAction::DeleteTag(record, _, tag_id) => {
                    let id = record.id;
                    let effect = if yes {
                        MenuEffect::RemoveTag { mod_id: id, tag_id }
                    } else {
                        MenuEffect::Nothing
                    };
                    (MenuState { current: EditMenuAction::EditModTags(record), previous }, effect)
                },
                other => (MenuState { current: other, previous }, MenuEffect::Nothing),
            },
            MenuEvent::Finished => match current {
                EditMenuAction::ScanNoVerify => (
                    MenuState { current: EditMenuAction::MainMenu, previous },
                    MenuEffect::Nothing,
                ),
                EditMenuAction::ScanVerify => (
                    MenuState { current: EditMenuAction::MainMenu, previous },
                    MenuEffect::Nothing,
                ),
                other => (MenuState { current: other, previous }, MenuEffect::Nothing),
            },
        }
    }

    /// Goes one level up.
    fn go_back(self) -> (state: MenuState)
        ensures
            state.current == self.way_back(),
            state.previous == self.previous,
    {
        let MenuState { current, previous } = self;
        match current {
            EditMenuAction::MainMenu => MenuState { current: EditMenuAction::Quit, previous },
            EditMenuAction::TagList => MenuState { current: EditMenuAction::MainMenu, previous },
            EditMenuAction::TagModList(_, _) => MenuState {
                current: EditMenuAction::TagList,
                previous,
            },
            EditMenuAction::AllModList => MenuState { current: EditMenuAction::MainMenu, previous },
            EditMenuAction::EditMod(_, _) => {
                let back = previous.duplicate();
                MenuState { current: back, previous }
            },
            EditMenuAction::EditModName(record) => MenuState {
                current: EditMenuAction::EditMod(record.name, record.id),
                previous,
            },
            EditMenuAction::EditModSource(record) => MenuState {
                current: EditMenuAction::EditMod(record.name, record.id),
                previous,
            },
            EditMenuAction::EditModTags(record) => MenuState {
                current: EditMenuAction::EditMod(record.name, record.id),
                previous,
            },
            EditMenuAction::AddTag(record) => MenuState {
                current: EditMenuAction::EditModTags(record),
                previous,
            },
            EditMenuAction::DeleteTag(record, _, _) => MenuState {
                current: EditMenuAction::EditModTags(record),
                previous,
            },
            EditMenuAction::BulkTag => MenuState { current: EditMenuAction::MainMenu, previous },
            EditMenuAction::ScanNoVerify => MenuState {
                current: EditMenuAction::MainMenu,
                previous,
            },
            EditMenuAction::ScanVerify => MenuState { current: EditMenuAction::MainMenu, previous },
            EditMenuAction::Quit => MenuState { current: EditMenuAction::Quit, previous },
        }
    }
}

/// Leaving a prompt without an answer, an empty list and a declined
/// question change nothing in the store.
pub proof fn lemma_cancel_changes_nothing(state: MenuState)
    ensures
        state.effect_of(MenuEvent::Cancelled) is Nothing,
        state.effect_of(MenuEvent::NothingToShow) is Nothing,
        state.effect_of(MenuEvent::Answered(false)) is Nothing,
{
}

/// Once the menu has been left, no event leads back into it or changes the
/// store.
pub proof fn lemma_quit_is_final(state: MenuState, event: MenuEvent)
    requires
        state.current is Quit,
    ensures
        state.after(event).current is Quit,
        state.effect_of(event) is Nothing,
{
}

/// The store changes only on an entered text or on a yes: every other
/// event leaves it as it is.
pub proof fn lemma_effects_need_an_answer(state: MenuState, event: MenuEvent)
    requires
        !(state.effect_of(event) is Nothing),
    ensures
        event is Entered || event == MenuEvent::Answered(true),
        state.current.step_of() == MenuStep::EnterText || state.current.step_of()
            == MenuStep::EnterUrl || state.current.step_of() == MenuStep::Confirm,
{
}

/// Whether the state offers a list of entries that is taken from the
/// store.
pub open spec fn offers_rows(state: EditMenuAction) -> bool {
    state is TagList || state is TagModList || state is AllModList || state is EditMod
        || state is EditModTags
}

/// The entries that a state offers, given the rows of the store: the
/// entries of the main menu, the tags, the mods of a tag, all mods, the
/// menu of a mod, or the tags of a mod. A state that offers no list has no
/// entries, and neither has the menu of a mod that the store does not hold.
pub fn options_for(state: &MenuState, store: &Store) -> (options: Vec<EditMenuAction>)
    ensures
        state.current is MainMenu ==> options@ == seq![
            EditMenuAction::TagList,
            EditMenuAction::AllModList,
            EditMenuAction::BulkTag,
            EditMenuAction::ScanNoVerify,
            EditMenuAction::ScanVerify,
            EditMenuAction::Quit,
        ],
        state.current is TagList ==> options.len() == store.tags.len() && forall|i: int|
            0 <= i < store.tags.len() ==> #[trigger] options[i] == EditMenuAction::TagModList(
                store.tags[i].tag,
                store.tags[i].id,
            ),
        state.current is AllModList ==> options.len() == store.mods.len() && forall|i: int|
            0 <= i < store.mods.len() ==> #[trigger] options[i] == EditMenuAction::EditMod(
                store.mods[i].name,
                store.mods[i].id,
            ),
        state.current matches EditMenuAction::EditMod(_, id) ==> (if has_mod(
            store.mods@,
            id as int,
        ) {
            &&& options.len() == 4
            &&& options[0] matches EditMenuAction::EditModName(record) && record.id == id
                && store.mods@.contains(record)
            &&& options[1] matches EditMenuAction::EditModSource(record) && record.id == id
                && store.mods@.contains(record)
            &&& options[2] matches EditMenuAction::EditModTags(record) && record.id == id
                && store.mods@.contains(record)
            &&& options[3] == state.previous
        } else {
            options.len() == 0
        }),
        state.current matches EditMenuAction::TagModList(_, id) ==> {
            let mods = store.mods@.filter(
                crate::criteria::meeting(
                    crate::criteria::LinkedTo { relations: &store.relations, tag_id: id },
                ),
            );
            options.len() == mods.len() && forall|i: int|
                0 <= i < mods.len() ==> #[trigger] options[i] == EditMenuAction::EditMod(
                    mods[i].name,
                    mods[i].id,
                )
        },
        state.current matches EditMenuAction::EditModTags(record) ==> {
            let tags = store.tags@.filter(
                crate::criteria::meeting(
                    crate::criteria::TagOfMod { relations: &store.relations, mod_id: record.id },
                ),
            );
            &&& options.len() == tags.len() + 1
            &&& forall|i: int|
                0 <= i < tags.len() ==> #[trigger] options[i] == EditMenuAction::DeleteTag(
                    record,
                    tags[i].tag,
                    tags[i].id,
                )
            &&& options[tags.len() as int] == EditMenuAction::AddTag(record)
        },
        !(state.current is MainMenu) && !offers_rows(state.current) ==> options.len() == 0,
{
    match &state.current {
        EditMenuAction::MainMenu => main_menu_options(),
        EditMenuAction::TagList => tag_list_options(&store.tags),
        EditMenuAction::TagModList(_, id) => mod_list_options(&store.get_mods_for_tag(*id)),
        EditMenuAction::AllModList => mod_list_options(&store.mods),
        EditMenuAction::EditMod(_, id) => match store.find_mod(*id) {
            Some(record) => edit_mod_options(record, &state.previous),
            None => Vec::new(),
        },
        EditMenuAction::EditModTags(record) => edit_tags_options(
            record,
            &store.get_tag_rows_for_mod(record.id),
        ),
        _ => Vec::new(),
    }
}

/// What is left for the caller to do after an effect has been carried out.
#[derive(Debug)]
pub enum Applied {
    /// Nothing.
    Done,
    /// Let the user choose the mods that shall have the tag of this label,
    /// then make them its members.
    ChooseMods(String),
}

/// The records with the time of the last change of one of them set, where
/// there is a record of that identity.
pub open spec fn touched_mods(mods: Seq<Model>, mod_id: i32, now: i64) -> Seq<Model> {
    if has_mod(mods, mod_id as int) {
        mods.update(
            index_of_mod(mods, mod_id as int),
            edited(mods[index_of_mod(mods, mod_id as int)], None, None, None, now),
        )
    } else {
        mods
    }
}

/// What the edit of a mod handed back, where carrying out an effect ended
/// as given.
pub open spec fn as_edit_result(outcome: Result<Applied, StoreError>, found: bool) -> Result<
    bool,
    StoreError,
> {
    match outcome {
        Ok(_) => Ok(found),
        Err(error) => Err(error),
    }
}

/// What carrying out an effect does to the store.
///
/// - Nothing is changed for no effect and for a bulk tag, which the user
///   has yet to choose the mods for.
/// - A new name or source is an edit of the mod.
/// - Removing a tag removes the link, drops the tags without links and
///   sets the time of the mod's last change.
/// - Adding a tag that the mod has changes nothing; else the mod is linked
///   to the tag, which is made where there is none, and the time of the
///   mod's last change is set.
pub open spec fn effect_applied(
    before: Store,
    after: Store,
    effect: MenuEffect,
    now: i64,
    outcome: Result<Applied, StoreError>,
) -> bool {
    match effect {
        MenuEffect::Nothing => after == before && outcome == Ok::<Applied, StoreError>(
            Applied::Done,
        ),
        MenuEffect::BulkTag { tag } => after == before && outcome == Ok::<Applied, StoreError>(
            Applied::ChooseMods(tag),
        ),
        MenuEffect::Rename { mod_id, name } => {
            &&& outcome is Ok ==> outcome == Ok::<Applied, StoreError>(Applied::Done)
            &&& edit_outcome(
                before,
                after,
                mod_id,
                Some(name),
                None,
                None,
                None,
                now,
                as_edit_result(outcome, has_mod(before.mods@, mod_id as int)),
            )
        },
        MenuEffect::SetSource { mod_id, source_url } => {
            &&& outcome is Ok ==> outcome == Ok::<Applied, StoreError>(Applied::Done)
            &&& edit_outcome(
                before,
                after,
                mod_id,
                None,
                Some(source_url),
                None,
                None,
                now,
                as_edit_result(outcome, has_mod(before.mods@, mod_id as int)),
            )
        },
        MenuEffect::RemoveTag { mod_id, tag_id } => {
            &&& outcome == Ok::<Applied, StoreError>(Applied::Done)
            &&& after.relations@ == before.relations@.filter(meeting(OtherLink { mod_id, tag_id }))
            &&& after.tags@ == before.tags@.filter(linked_in(after.relations@))
            &&& after.hashes@ == before.hashes@
            &&& after.mods@ == touched_mods(before.mods@, mod_id, now)
        },
        MenuEffect::AddTag { mod_id, tag } => if tagged(
            before.tags@,
            before.relations@,
            mod_id as int,
            tag@,
        ) {
            after == before && outcome == Ok::<Applied, StoreError>(Applied::Done)
        } else {
            exists|linked: Result<i32, StoreError>|
                #[trigger] add_tag_outcome(before, after, mod_id, tag, linked) && match linked {
                    Ok(_) => {
                        &&& outcome == Ok::<Applied, StoreError>(Applied::Done)
                        &&& after.mods@ == touched_mods(before.mods@, mod_id, now)
                        &&& after.hashes@ == before.hashes@
                    },
                    Err(error) => outcome == Err::<Applied, StoreError>(error),
                }
        },
    }
}

/// Carries out in the store what a step of the menu asks for. `now` is the
/// time of the change. Where the store refuses the change, nothing
/// changes.
pub fn apply_effect(store: &mut Store, effect: MenuEffect, now: i64) -> (outcome: Result<
    Applied,
    StoreError,
>)
    requires
        old(store).wf(),
    ensures
        final(store).wf(),
        outcome is Err ==> *final(store) == *old(store),
        effect_applied(*old(store), *final(store), effect, now, outcome),
{
    let ghost before = *store;
    match effect {
        MenuEffect::Nothing => Ok(Applied::Done),
        MenuEffect::BulkTag { tag } => Ok(Applied::ChooseMods(tag)),
        MenuEffect::Rename { mod_id, name } => {
            match edit(store, mod_id, Some(name), None, None, None, now) {
                Ok(_) => Ok(Applied::Done),
                Err(error) => Err(error),
            }
        },
        MenuEffect::SetSource { mod_id, source_url } => {
            match edit(store, mod_id, None, Some(source_url), None, None, now) {
                Ok(_) => Ok(Applied::Done),
                Err(error) => Err(error),
            }
        },
        MenuEffect::RemoveTag { mod_id, tag_id } => {
            store.unlink(mod_id, tag_id);
            let ghost unlinked = *store;
            let touched = edit(store, mod_id, None, None, None, None, now);
            proof {
                assert(touched is Ok);
                assert(unlinked.mods@ == before.mods@);
            }
            Ok(Applied::Done)
        },
        MenuEffect::AddTag { mod_id, tag } => {
            if store.is_tagged(mod_id, &tag) {
                Ok(Applied::Done)
            } else {
                match store.add_tag(mod_id, &tag) {
                    Err(error) => {
                        proof {
                            assert(add_tag_outcome(
                                before,
                                *store,
                                mod_id,
                                tag,
                                Err::<i32, StoreError>(error),
                            ));
                        }
                        Err(error)
                    },
                    Ok(tag_id) => {
                        let ghost linked = *store;
                        let touched = edit(store, mod_id, None, None, None, None, now);
                        proof {
                            assert(touched is Ok);
                            assert(linked.mods@ == before.mods@);
                            assert(store.tags@ == linked.tags@);
                            assert(store.relations@ == linked.relations@);
                            let i = choose|i: int|
                                0 <= i < linked.tags.len() && (#[trigger] linked.tags[i]).id
                                    == tag_id && linked.tags[i].tag@ == tag@;
                            assert(store.tags[i].id == tag_id && store.tags[i].tag@ == tag@);
                            assert(add_tag_outcome(
                                before,
                                *store,
                                mod_id,
                                tag,
                                Ok::<i32, StoreError>(tag_id),
                            ));
                        }
                        Ok(Applied::Done)
                    },
                }
            }
        },
    }
}

} // verus!
