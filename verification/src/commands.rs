//! The operations that the application around the note store calls.
//!
//! Each takes a picture of the disk. For one note the picture needs to show
//! only the places where the note may lie; for the listing and for the full
//! scan it shows the vault; for backlinks [`crate::backlinks::plan_reading`]
//! says which of the two is needed.

use crate::backlinks::{backlinks_found, find_backlinks, runs_view, SearchRun};
use crate::order::{arranged, Hit};
use crate::disk::{exists_at, Disk, Forest};
use crate::error::{message_of, NoteError};
use crate::frontmatter::opt_str_view;
use crate::notes::{
    content, get_content, get_title, title, update_note, updated, NoteWrite,
};
use crate::scan::{all_notes, get_all_notes, FoundNote};
use crate::text::pairs_view;
use vstd::prelude::*;

verus! {

/// A note of the vault.
#[derive(Clone, Debug, PartialEq, Eq)]
pub struct NoteInfo {
    pub title: String,
    pub absolute_path: String,
    pub relative_path: String,
}

/// A note that links to another.
#[derive(Clone, Debug, PartialEq, Eq)]
pub struct BacklinkInfo {
    pub title: String,
    pub relative_path: String,
}

/// The mathematical form of a [`NoteInfo`]: title, absolute path, relative
/// path.
pub type NoteInfoView = (Seq<char>, Seq<char>, Seq<char>);

impl View for NoteInfo {
    type V = NoteInfoView;

    open spec fn view(&self) -> NoteInfoView {
        (self.title@, self.absolute_path@, self.relative_path@)
    }
}

impl View for BacklinkInfo {
    type V = Hit;

    /// The relative path and the title.
    open spec fn view(&self) -> Hit {
        (self.relative_path@, self.title@)
    }
}

/// The mathematical forms of a list of notes.
pub open spec fn notes_view(notes: Seq<NoteInfo>) -> Seq<NoteInfoView> {
    notes.map_values(|n: NoteInfo| n@)
}

/// The mathematical forms of a list of backlinks.
pub open spec fn backlinks_view(links: Seq<BacklinkInfo>) -> Seq<Hit> {
    links.map_values(|b: BacklinkInfo| b@)
}

/// Why a question for backlinks is turned down before anything is searched:
/// the relative path is empty, the vault directory is empty, or nothing
/// stands at the vault directory.
pub open spec fn rejection(relative_path: Seq<char>, vault_directory: Seq<char>, vault_exists: bool)
    -> Option<Seq<char>> {
    if relative_path.len() == 0 {
        Some("Relative path is empty"@)
    } else if vault_directory.len() == 0 {
        Some("Vault directory is empty"@)
    } else if !vault_exists {
        Some("Vault directory does not exist: "@ + vault_directory)
    } else {
        None
    }
}

/// The note that the listing shows for a note of the scan.
pub open spec fn listed(disk: Forest, vault_directory: Seq<char>) -> spec_fn(FoundNote)
    -> NoteInfoView {
    |note: FoundNote|
        (title(disk, Some(note.0), Some(note.1), Some(vault_directory)), note.0, note.1)
}

/// What an update that failed is reported as.
pub open spec fn update_failure(error: NoteError) -> Seq<char> {
    "Failed to update note: "@ + message_of(error)
}

/// Looks at a question for backlinks before anything is read or searched.
/// `vault_exists` says whether something stands at the vault directory.
pub fn check_backlinks_request(relative_path: &str, vault_directory: &str, vault_exists: bool)
    -> (r: Result<(), String>)
    ensures
        match rejection(relative_path@, vault_directory@, vault_exists) {
            Some(message) => r is Err && r->Err_0@ == message,
            None => r is Ok,
        },
{
    if relative_path.is_empty() {
        return Err("Relative path is empty".to_owned());
    }
    if vault_directory.is_empty() {
        return Err("Vault directory is empty".to_owned());
    }
    if !vault_exists {
        return Err("Vault directory does not exist: ".to_owned().concat(vault_directory));
    }
    Ok(())
}

/// The notes that link to the note at `relative_path`, sorted by path.
///
/// The question is turned down, and nothing is searched, where the relative
/// path or the vault directory is empty or nothing stands at the vault
/// directory.
pub fn get_backlinks(
    disk: &Disk,
    relative_path: &str,
    vault_directory: &str,
    runs: &Vec<SearchRun>,
) -> (r: Result<Vec<BacklinkInfo>, String>)
    ensures
        match rejection(relative_path@, vault_directory@, exists_at(disk@, vault_directory@)) {
            Some(message) => r is Err && r->Err_0@ == message,
            None => r is Ok && arranged(
                backlinks_view(r->Ok_0@),
                backlinks_found(disk@, runs_view(runs@), relative_path@, vault_directory@),
            ) && forall|i: int|
                0 <= i < r->Ok_0.len() ==> (#[trigger] r->Ok_0@[i]).relative_path@
                    != relative_path@,
        },
{
    let vault_exists = disk.has(vault_directory);
    if let Err(message) = check_backlinks_request(relative_path, vault_directory, vault_exists) {
        return Err(message);
    }
    let links = find_backlinks(disk, relative_path, vault_directory, runs);
    let ghost found = pairs_view(links@);
    let mut result: Vec<BacklinkInfo> = Vec::new();
    let mut i: usize = 0;
    while i < links.len()
        invariant
            i <= links.len(),
            result.len() == i,
            found == pairs_view(links@),
            forall|j: int| 0 <= j < i ==> (#[trigger] result@[j])@ == found[j],
        decreases links.len() - i,
    {
        result.push(
            BacklinkInfo { title: links[i].1.clone(), relative_path: links[i].0.clone() },
        );
        i = i + 1;
    }
    assert(backlinks_view(result@) =~= found);
    assert forall|i: int| 0 <= i < result.len() implies (#[trigger] result@[i]).relative_path@
        != relative_path@ by {
        assert(result@[i]@ == found[i]);
    }
    Ok(result)
}

/// Every note of the vault, with its title, in the order of the scan.
pub fn get_notes(disk: &Disk, vault_directory: &str) -> (r: Vec<NoteInfo>)
    ensures
        notes_view(r@) == all_notes(disk@, vault_directory@).map_values(
            listed(disk@, vault_directory@),
        ),
{
    let notes = get_all_notes(disk, vault_directory);
    let ghost all = pairs_view(notes@);
    let mut result: Vec<NoteInfo> = Vec::new();
    let mut i: usize = 0;
    while i < notes.len()
        invariant
            i <= notes.len(),
            result.len() == i,
            all == pairs_view(notes@),
            forall|j: int|
                0 <= j < i ==> (#[trigger] result@[j])@ == listed(disk@, vault_directory@)(
                    all[j],
                ),
        decreases notes.len() - i,
    {
        let note_title = get_title(
            disk,
            Some(notes[i].0.as_str()),
            Some(notes[i].1.as_str()),
            Some(vault_directory),
        );
        result.push(
            NoteInfo {
                title: note_title,
                absolute_path: notes[i].0.clone(),
                relative_path: notes[i].1.clone(),
            },
        );
        i = i + 1;
    }
    result
}

/// The body of the note at `relative_path` in the vault.
pub fn get_note_content(disk: &Disk, relative_path: &str, vault_directory: &str) -> (r: String)
    ensures
        r@ == content(disk@, None, Some(relative_path@), Some(vault_directory@)),
{
    get_content(disk, None, Some(relative_path), Some(vault_directory))
}

/// The title of the note at `relative_path` in the vault.
pub fn get_note_title(disk: &Disk, relative_path: &str, vault_directory: &str) -> (r: String)
    ensures
        r@ == title(disk@, None, Some(relative_path@), Some(vault_directory@)),
{
    get_title(disk, None, Some(relative_path), Some(vault_directory))
}

/// Gives a note a new body. The result says what is to be written, or why the
/// note could not be updated.
pub fn update_note_content(
    disk: &Disk,
    absolute_path: Option<&str>,
    relative_path: Option<&str>,
    vault_directory: &str,
    new_content: &str,
) -> (r: Result<NoteWrite, String>)
    ensures
        match updated(
            disk@,
            opt_str_view(absolute_path),
            opt_str_view(relative_path),
            Some(vault_directory@),
            new_content@,
        ) {
            Ok(write) => r is Ok && r->Ok_0@ == write,
            Err(e) => r is Err && r->Err_0@ == update_failure(e),
        },
{
    match update_note(disk, absolute_path, relative_path, Some(vault_directory), new_content) {
        Ok(write) => Ok(write),
        Err(e) => Err("Failed to update note: ".to_owned().concat(e.message().as_str())),
    }
}

} // verus!
