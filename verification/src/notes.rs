//! Notes: where a note lies, what it holds, what it is called, and what is to
//! be written when its body changes.

use crate::disk::{exists_at, find, text_at, Disk, Entry, Forest};
use crate::error::NoteError;
use crate::frontmatter::{
    extract_frontmatter_and_content, lemma_block_survives, lemma_split_stable, opt_str_view,
    render, rendered, split,
};
use crate::metadata::{metadata_of, parse_frontmatter, title_in, title_of, MetaValue, MetaView};
use crate::path::{file_stem, file_stem_of, join, join_path};
use vstd::prelude::*;

verus! {

/// Where a note lies.
///
/// The absolute path, if one is given and something stands there. Otherwise
/// the relative path under the vault directory, if both are given and
/// something stands there. A relative path without a vault directory is an
/// invalid input; anything else is not found.
pub open spec fn resolved(
    disk: Forest,
    absolute_path: Option<Seq<char>>,
    relative_path: Option<Seq<char>>,
    vault_directory: Option<Seq<char>>,
) -> Result<Seq<char>, NoteError> {
    if absolute_path is Some && exists_at(disk, absolute_path->0) {
        Ok(absolute_path->0)
    } else {
        match relative_path {
            Some(rel) => match vault_directory {
                Some(vault) => if exists_at(disk, join(vault, rel)) {
                    Ok(join(vault, rel))
                } else {
                    Err(NoteError::NotFound)
                },
                None => Err(NoteError::InvalidInput),
            },
            None => Err(NoteError::NotFound),
        }
    }
}

/// The text of the file at `path`: not found where nothing stands there, an
/// I/O error where what stands there has no text that could be read.
pub open spec fn read_at(disk: Forest, path: Seq<char>) -> Result<Seq<char>, NoteError> {
    match find(disk, path) {
        Some(_) => match text_at(disk, path) {
            Some(text) => Ok(text),
            None => Err(NoteError::Io),
        },
        None => Err(NoteError::NotFound),
    }
}

/// The text of a note, if the note can be resolved and read.
pub open spec fn note_text(
    disk: Forest,
    absolute_path: Option<Seq<char>>,
    relative_path: Option<Seq<char>>,
    vault_directory: Option<Seq<char>>,
) -> Result<Seq<char>, NoteError> {
    match resolved(disk, absolute_path, relative_path, vault_directory) {
        Ok(path) => read_at(disk, path),
        Err(e) => Err(e),
    }
}

/// The body of a note: its text without the metadata block, or nothing where
/// the note cannot be resolved or read.
pub open spec fn content(
    disk: Forest,
    absolute_path: Option<Seq<char>>,
    relative_path: Option<Seq<char>>,
    vault_directory: Option<Seq<char>>,
) -> Seq<char> {
    match note_text(disk, absolute_path, relative_path, vault_directory) {
        Ok(text) => split(text).1,
        Err(_) => Seq::empty(),
    }
}

/// The metadata of a note, if the note can be resolved and read and has a
/// metadata block.
pub open spec fn frontmatter_at(
    disk: Forest,
    absolute_path: Option<Seq<char>>,
    relative_path: Option<Seq<char>>,
    vault_directory: Option<Seq<char>>,
) -> Option<MetaView> {
    match note_text(disk, absolute_path, relative_path, vault_directory) {
        Ok(text) => match split(text).0 {
            Some(block) => Some(metadata_of(block)),
            None => None,
        },
        Err(_) => None,
    }
}

/// The title that the metadata of a note gives, if it gives one.
pub open spec fn metadata_title(metadata: Option<MetaView>) -> Option<Seq<char>> {
    match metadata {
        Some(value) => title_in(value),
        None => None,
    }
}

/// The title that the place of a note gives: the stem of its file name, or
/// nothing where the note cannot be resolved or its path has no file name.
pub open spec fn stem_title(place: Result<Seq<char>, NoteError>) -> Seq<char> {
    match place {
        Ok(path) => match file_stem(path) {
            Some(stem) => stem,
            None => Seq::empty(),
        },
        Err(_) => Seq::empty(),
    }
}

/// The title of a note: the text under `title` in its metadata, else the stem
/// of its file name, else nothing.
pub open spec fn title(
    disk: Forest,
    absolute_path: Option<Seq<char>>,
    relative_path: Option<Seq<char>>,
    vault_directory: Option<Seq<char>>,
) -> Seq<char> {
    match metadata_title(frontmatter_at(disk, absolute_path, relative_path, vault_directory)) {
        Some(t) => t,
        None => stem_title(resolved(disk, absolute_path, relative_path, vault_directory)),
    }
}

/// What is to be written where, when a note is given the body `new_body`:
/// at the place of the note, its metadata block as it stands and the new
/// body.
pub open spec fn updated(
    disk: Forest,
    absolute_path: Option<Seq<char>>,
    relative_path: Option<Seq<char>>,
    vault_directory: Option<Seq<char>>,
    new_body: Seq<char>,
) -> Result<(Seq<char>, Seq<char>), NoteError> {
    match resolved(disk, absolute_path, relative_path, vault_directory) {
        Ok(path) => match read_at(disk, path) {
            Ok(text) => Ok((path, rendered(split(text).0, new_body))),
            Err(e) => Err(e),
        },
        Err(e) => Err(e),
    }
}

/// A file to be written: the whole text, in place of what the file holds.
#[derive(Clone, Debug, PartialEq, Eq)]
pub struct NoteWrite {
    pub path: String,
    pub text: String,
}

impl View for NoteWrite {
    type V = (Seq<char>, Seq<char>);

    /// The path and the text.
    open spec fn view(&self) -> (Seq<char>, Seq<char>) {
        (self.path@, self.text@)
    }
}

/// Finds where a note lies.
pub fn resolve_note_path(
    disk: &Disk,
    absolute_path: Option<&str>,
    relative_path: Option<&str>,
    vault_directory: Option<&str>,
) -> (r: Result<String, NoteError>)
    ensures
        match r {
            Ok(path) => resolved(
                disk@,
                opt_str_view(absolute_path),
                opt_str_view(relative_path),
                opt_str_view(vault_directory),
            ) == Ok::<Seq<char>, NoteError>(path@),
            Err(e) => resolved(
                disk@,
                opt_str_view(absolute_path),
                opt_str_view(relative_path),
                opt_str_view(vault_directory),
            ) == Err::<Seq<char>, NoteError>(e),
        },
{
    if let Some(abs) = absolute_path {
        if disk.has(abs) {
            return Ok(abs.to_owned());
        }
    }
    match relative_path {
        Some(rel) => match vault_directory {
            Some(vault) => {
                let full = join_path(vault, rel);
                if disk.has(full.as_str()) {
                    Ok(full)
                } else {
                    Err(NoteError::NotFound)
                }
            },
            None => Err(NoteError::InvalidInput),
        },
        None => Err(NoteError::NotFound),
    }
}

/// Reads the text of the file at `path`.
pub fn read_file_content(disk: &Disk, path: &str) -> (r: Result<String, NoteError>)
    ensures
        match r {
            Ok(text) => read_at(disk@, path@) == Ok::<Seq<char>, NoteError>(text@),
            Err(e) => read_at(disk@, path@) == Err::<Seq<char>, NoteError>(e),
        },
{
    match disk.entry_at(path) {
        Some(entry) => match entry {
            Entry::File { text: Some(t), .. } => Ok(t.clone()),
            _ => Err(NoteError::Io),
        },
        None => Err(NoteError::NotFound),
    }
}

/// Reads the text of a note.
pub fn read_note(
    disk: &Disk,
    absolute_path: Option<&str>,
    relative_path: Option<&str>,
    vault_directory: Option<&str>,
) -> (r: Result<String, NoteError>)
    ensures
        match r {
            Ok(text) => note_text(
                disk@,
                opt_str_view(absolute_path),
                opt_str_view(relative_path),
                opt_str_view(vault_directory),
            ) == Ok::<Seq<char>, NoteError>(text@),
            Err(e) => note_text(
                disk@,
                opt_str_view(absolute_path),
                opt_str_view(relative_path),
                opt_str_view(vault_directory),
            ) == Err::<Seq<char>, NoteError>(e),
        },
{
    match resolve_note_path(disk, absolute_path, relative_path, vault_directory) {
        Ok(path) => read_file_content(disk, path.as_str()),
        Err(e) => Err(e),
    }
}

/// The text of a note without its metadata block; empty where the note cannot
/// be resolved or read.
pub fn strip_frontmatter(
    disk: &Disk,
    absolute_path: Option<&str>,
    relative_path: Option<&str>,
    vault_directory: Option<&str>,
) -> (r: String)
    ensures
        r@ == content(
            disk@,
            opt_str_view(absolute_path),
            opt_str_view(relative_path),
            opt_str_view(vault_directory),
        ),
{
    match read_note(disk, absolute_path, relative_path, vault_directory) {
        Ok(text) => extract_frontmatter_and_content(text.as_str()).1,
        Err(_) => String::new(),
    }
}

/// The metadata of a note, if the note can be resolved and read and has a
/// metadata block. A block that is not valid YAML stands for an empty
/// mapping.
pub fn get_frontmatter(
    disk: &Disk,
    absolute_path: Option<&str>,
    relative_path: Option<&str>,
    vault_directory: Option<&str>,
) -> (r: Option<MetaValue>)
    ensures
        match r {
            Some(value) => frontmatter_at(
                disk@,
                opt_str_view(absolute_path),
                opt_str_view(relative_path),
                opt_str_view(vault_directory),
            ) == Some(value@),
            None => frontmatter_at(
                disk@,
                opt_str_view(absolute_path),
                opt_str_view(relative_path),
                opt_str_view(vault_directory),
            ) is None,
        },
{
    match read_note(disk, absolute_path, relative_path, vault_directory) {
        Ok(text) => match extract_frontmatter_and_content(text.as_str()).0 {
            Some(block) => Some(parse_frontmatter(block.as_str())),
            None => None,
        },
        Err(_) => None,
    }
}

/// The title of a note, given its metadata and its place: the text under
/// `title` in the metadata, else the stem of the file name, else nothing.
pub fn choose_title(metadata: Option<&MetaValue>, place: Result<&str, NoteError>) -> (r: String)
    ensures
        r@ == match metadata_title(
            match metadata {
                Some(value) => Some(value@),
                None => None,
            },
        ) {
            Some(t) => t,
            None => stem_title(
                match place {
                    Ok(path) => Ok(path@),
                    Err(e) => Err(e),
                },
            ),
        },
{
    if let Some(value) = metadata {
        if let Some(t) = title_of(value) {
            return t;
        }
    }
    if let Ok(path) = place {
        if let Some(stem) = file_stem_of(path) {
            return stem;
        }
    }
    String::new()
}

/// The title of a note.
pub fn get_title(
    disk: &Disk,
    absolute_path: Option<&str>,
    relative_path: Option<&str>,
    vault_directory: Option<&str>,
) -> (r: String)
    ensures
        r@ == title(
            disk@,
            opt_str_view(absolute_path),
            opt_str_view(relative_path),
            opt_str_view(vault_directory),
        ),
{
    let metadata = get_frontmatter(disk, absolute_path, relative_path, vault_directory);
    let place = resolve_note_path(disk, absolute_path, relative_path, vault_directory);
    match place {
        Ok(path) => choose_title(metadata.as_ref(), Ok(path.as_str())),
        Err(e) => choose_title(metadata.as_ref(), Err(e)),
    }
}

/// The body of a note.
pub fn get_content(
    disk: &Disk,
    absolute_path: Option<&str>,
    relative_path: Option<&str>,
    vault_directory: Option<&str>,
) -> (r: String)
    ensures
        r@ == content(
            disk@,
            opt_str_view(absolute_path),
            opt_str_view(relative_path),
            opt_str_view(vault_directory),
        ),
{
    strip_frontmatter(disk, absolute_path, relative_path, vault_directory)
}

/// Gives a note a new body and keeps its metadata block. Nothing is written
/// here: the result says which file is to hold which text.
pub fn update_note(
    disk: &Disk,
    absolute_path: Option<&str>,
    relative_path: Option<&str>,
    vault_directory: Option<&str>,
    new_content: &str,
) -> (r: Result<NoteWrite, NoteError>)
    ensures
        match r {
            Ok(write) => updated(
                disk@,
                opt_str_view(absolute_path),
                opt_str_view(relative_path),
                opt_str_view(vault_directory),
                new_content@,
            ) == Ok::<(Seq<char>, Seq<char>), NoteError>(write@),
            Err(e) => updated(
                disk@,
                opt_str_view(absolute_path),
                opt_str_view(relative_path),
                opt_str_view(vault_directory),
                new_content@,
            ) == Err::<(Seq<char>, Seq<char>), NoteError>(e),
        },
{
    let path = match resolve_note_path(disk, absolute_path, relative_path, vault_directory) {
        Ok(p) => p,
        Err(e) => {
            return Err(e);
        },
    };
    let current = match read_file_content(disk, path.as_str()) {
        Ok(t) => t,
        Err(e) => {
            return Err(e);
        },
    };
    let (frontmatter, _) = extract_frontmatter_and_content(current.as_str());
    let text = match &frontmatter {
        Some(block) => render(Some(block.as_str()), new_content),
        None => render(None, new_content),
    };
    Ok(NoteWrite { path, text })
}

/// Whether two pictures show the same at `path`: in both something stands
/// there or in neither, and the same text can be read there.
pub open spec fn same_at(a: Forest, b: Forest, path: Seq<char>) -> bool {
    exists_at(a, path) == exists_at(b, path) && text_at(a, path) == text_at(b, path)
}

/// Law. What is told of a note depends on the disk only through the places
/// where the note may lie: its absolute path, and its relative path under
/// the vault directory. Two pictures that show the same at both tell the
/// same of the note.
pub proof fn lemma_note_reads_only_its_places(
    a: Forest,
    b: Forest,
    absolute_path: Option<Seq<char>>,
    relative_path: Option<Seq<char>>,
    vault_directory: Option<Seq<char>>,
)
    requires
        absolute_path is Some ==> same_at(a, b, absolute_path->0),
        relative_path is Some && vault_directory is Some ==> same_at(
            a,
            b,
            join(vault_directory->0, relative_path->0),
        ),
    ensures
        resolved(a, absolute_path, relative_path, vault_directory) == resolved(
            b,
            absolute_path,
            relative_path,
            vault_directory,
        ),
        note_text(a, absolute_path, relative_path, vault_directory) == note_text(
            b,
            absolute_path,
            relative_path,
            vault_directory,
        ),
        content(a, absolute_path, relative_path, vault_directory) == content(
            b,
            absolute_path,
            relative_path,
            vault_directory,
        ),
        title(a, absolute_path, relative_path, vault_directory) == title(
            b,
            absolute_path,
            relative_path,
            vault_directory,
        ),
        forall|new_body: Seq<char>|
            updated(a, absolute_path, relative_path, vault_directory, new_body) == updated(
                b,
                absolute_path,
                relative_path,
                vault_directory,
                new_body,
            ),
{
}

/// Law. The title of a note whose metadata holds a text under `title` is that
/// text. The title of a note that can be resolved and whose metadata holds
/// none, or that has no metadata block, is the stem of its file name.
pub proof fn lemma_title(
    disk: Forest,
    absolute_path: Option<Seq<char>>,
    relative_path: Option<Seq<char>>,
    vault_directory: Option<Seq<char>>,
)
    ensures
        ({
            let metadata = frontmatter_at(disk, absolute_path, relative_path, vault_directory);
            let place = resolved(disk, absolute_path, relative_path, vault_directory);
            let t = title(disk, absolute_path, relative_path, vault_directory);
            &&& forall|x: Seq<char>|
                metadata is Some && title_in(metadata->0) == Some(x) ==> t == x
            &&& (metadata is None || title_in(metadata->0) is None) && place is Ok && file_stem(
                place->Ok_0,
            ) is Some ==> Some(t) == file_stem(place->Ok_0)
        }),
{
}

/// Law. Giving a note the body it has changes neither its metadata block nor
/// its body: the text to be written splits into the parts that the text on
/// disk splits into.
pub proof fn lemma_update_with_own_content(
    disk: Forest,
    absolute_path: Option<Seq<char>>,
    relative_path: Option<Seq<char>>,
    vault_directory: Option<Seq<char>>,
)
    ensures
        ({
            let body = content(disk, absolute_path, relative_path, vault_directory);
            let before = note_text(disk, absolute_path, relative_path, vault_directory);
            match updated(disk, absolute_path, relative_path, vault_directory, body) {
                Ok(write) => before is Ok && split(write.1) == split(before->Ok_0),
                Err(e) => before == Err::<Seq<char>, NoteError>(e),
            }
        }),
{
    let before = note_text(disk, absolute_path, relative_path, vault_directory);
    if before is Ok {
        lemma_split_stable(before->Ok_0);
    }
}

/// Law. A note that has a metadata block keeps it, character for character,
/// through every update, whatever the new body holds.
pub proof fn lemma_update_keeps_block(
    disk: Forest,
    absolute_path: Option<Seq<char>>,
    relative_path: Option<Seq<char>>,
    vault_directory: Option<Seq<char>>,
    new_body: Seq<char>,
)
    ensures
        ({
            let before = note_text(disk, absolute_path, relative_path, vault_directory);
            match updated(disk, absolute_path, relative_path, vault_directory, new_body) {
                Ok(write) => before is Ok && (split(before->Ok_0).0 is Some ==> split(write.1).0
                    == split(before->Ok_0).0) && (split(before->Ok_0).0 is None ==> write.1
                    == new_body),
                Err(e) => before == Err::<Seq<char>, NoteError>(e),
            }
        }),
{
    let before = note_text(disk, absolute_path, relative_path, vault_directory);
    if before is Ok {
        lemma_block_survives(before->Ok_0, new_body);
    }
}

} // verus!
