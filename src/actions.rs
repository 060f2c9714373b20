//! The actions of the context menus of directory listings.
use vstd::prelude::*;
use crate::location::{bytes_eq, Location};

verus! {

/// Opens an entry with its default application.
pub struct OpenDefaultAction;

/// Lets the user choose the application that opens an entry.
pub struct OpenChooserAction;

/// Creates a folder in the listed directory.
pub struct NewFolderAction;

/// Renames an entry.
pub struct RenameAction;

/// Moves the selected entries to the trash.
pub struct TrashSelectionAction;

/// Moves the selected entries out of the trash, back where they were.
pub struct RestoreSelectionFromTrashAction;

/// Moves one entry to the trash.
pub struct TrashFileAction;

impl OpenDefaultAction {
    pub const NAME: &'static str = "open-default";
}

impl OpenChooserAction {
    pub const NAME: &'static str = "open-chooser";
}

impl NewFolderAction {
    pub const NAME: &'static str = "new-folder";
}

impl RenameAction {
    pub const NAME: &'static str = "rename";
}

impl TrashSelectionAction {
    pub const NAME: &'static str = "trash-selection";
}

impl RestoreSelectionFromTrashAction {
    pub const NAME: &'static str = "restore-selection-from-trash";
}

impl TrashFileAction {
    pub const NAME: &'static str = "trash-file";
}

/// An item of an entry's context menu.
#[derive(PartialEq, Eq, Structural, Clone, Copy, Debug)]
pub enum EntryAction {
    OpenDefault,
    OpenChooser,
    Rename,
    TrashSelection,
    RestoreSelectionFromTrash,
}

/// The address space of the trash.
pub open spec fn trash_scheme() -> Seq<u8> {
    seq![116u8, 114u8, 97u8, 115u8, 104u8]
}

/// The items of the context menu of an entry at `file`: open, open with, rename, then either
/// move to the trash or, for an entry in the trash, restore.
pub open spec fn entry_menu(file: crate::location::LocationView) -> Seq<EntryAction> {
    seq![
        EntryAction::OpenDefault,
        EntryAction::OpenChooser,
        EntryAction::Rename,
        if file.scheme == trash_scheme() {
            EntryAction::RestoreSelectionFromTrash
        } else {
            EntryAction::TrashSelection
        },
    ]
}

/// The items of the context menu of the entry at `file`.
pub fn entry_menu_actions(file: &Location) -> (r: Vec<EntryAction>)
    ensures
        r@ == entry_menu(file@),
{
    let trash: Vec<u8> = vec![116u8, 114u8, 97u8, 115u8, 104u8];
    assert(trash@ =~= trash_scheme());
    let last = if bytes_eq(&file.scheme, &trash) {
        EntryAction::RestoreSelectionFromTrash
    } else {
        EntryAction::TrashSelection
    };
    let r = vec![EntryAction::OpenDefault, EntryAction::OpenChooser, EntryAction::Rename, last];
    assert(r@ =~= entry_menu(file@));
    r
}

/// The error that renaming an entry to `name` meets before anything is tried: a name cannot be
/// empty.
pub fn new_name_error(name: &str) -> (r: Option<String>)
    ensures
        match r {
            Some(e) => name@.len() == 0 && e@ == "File name cannot be empty."@,
            None => name@.len() > 0,
        },
{
    if name.unicode_len() == 0 {
        Some(String::from_str("File name cannot be empty."))
    } else {
        None
    }
}

} // verus!
