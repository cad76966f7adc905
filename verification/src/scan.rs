//! The vault scanner: every markdown file below a directory, each with its
//! absolute path and its path as seen from the vault.

use crate::disk::{
    answers_to, exists_at, find_in, lemma_children, listing_at, name_of, nodes_of, path_of, Disk,
    Entry, Forest, Node,
};
use crate::error::NoteError;
use crate::path::{
    file_name, file_name_of, get_relative_path, is_markdown, is_markdown_path, join, join_path,
    lemma_relative_of_joined, relative_to,
};
use crate::text::pairs_view;
use vstd::prelude::*;

verus! {

/// A regular file as the walk meets it: its path, and its canonical path
/// where that is known.
pub type FoundFile = (Seq<char>, Option<Seq<char>>);

/// A note as the scanner reports it: its absolute path and its relative path.
pub type FoundNote = (Seq<char>, Seq<char>);

/// The absolute path of a file: its canonical path, or the path under which
/// the walk met it where no canonical path is known.
pub open spec fn absolute_of(file: FoundFile) -> Seq<char> {
    match file.1 {
        Some(c) => c,
        None => file.0,
    }
}

/// The relative path of a file: its path as seen from the vault directory,
/// or its bare file name where it does not lie in it.
pub open spec fn relative_of(path: Seq<char>, base: Seq<char>) -> Seq<char> {
    match relative_to(path, base) {
        Some(rel) => rel,
        None => match file_name(path) {
            Some(name) => name,
            None => Seq::empty(),
        },
    }
}

/// The note that a file is reported as.
pub open spec fn note_of(file: FoundFile, base: Seq<char>) -> FoundNote {
    (absolute_of(file), relative_of(file.0, base))
}

/// The regular files among `entries` from position `n` on and in every
/// directory below them, in the order of the walk: entry by entry, each
/// directory's files in the place of the directory.
pub open spec fn files_in(entries: Seq<Node>, dir: Seq<char>, n: int) -> Seq<FoundFile>
    decreases entries, entries.len() - n,
{
    if n < 0 || n >= entries.len() {
        Seq::empty()
    } else {
        let own = join(dir, name_of(entries[n]));
        let here = match entries[n] {
            Node::File { canonical, .. } => seq![(own, canonical)],
            Node::Dir { children: Some(c), .. } => files_in(c, own, 0),
            _ => Seq::empty(),
        };
        here + files_in(entries, dir, n + 1)
    }
}

/// Whether every directory among `entries` from position `n` on, and every
/// directory below them, could be listed.
pub open spec fn all_listed(entries: Seq<Node>, n: int) -> bool
    decreases entries, entries.len() - n,
{
    if n < 0 || n >= entries.len() {
        true
    } else {
        let here = match entries[n] {
            Node::Dir { children: Some(c), .. } => all_listed(c, 0),
            Node::Dir { children: None, .. } => false,
            _ => true,
        };
        here && all_listed(entries, n + 1)
    }
}

/// The notes that a walk over `entries` from position `n` on collects, where
/// `entries` is what the directory `dir` holds and `base` is the vault
/// directory; `None` where a directory on the way cannot be listed.
pub open spec fn notes_in(entries: Seq<Node>, dir: Seq<char>, base: Seq<char>, n: int) -> Option<
    Seq<FoundNote>,
>
    decreases entries, entries.len() - n,
{
    if n < 0 || n >= entries.len() {
        Some(Seq::empty())
    } else {
        let own = join(dir, name_of(entries[n]));
        let here = match entries[n] {
            Node::File { canonical, .. } => if is_markdown(own) {
                Some(seq![note_of((own, canonical), base)])
            } else {
                Some(Seq::empty())
            },
            Node::Dir { children: Some(c), .. } => notes_in(c, own, base, 0),
            Node::Dir { children: None, .. } => None,
            Node::Other { .. } => Some(Seq::empty()),
        };
        match (here, notes_in(entries, dir, base, n + 1)) {
            (Some(a), Some(b)) => Some(a + b),
            _ => None,
        }
    }
}

/// The notes of a vault: what a walk from the vault directory collects, or
/// nothing where the vault directory is no directory that can be listed or a
/// directory below it cannot be listed.
pub open spec fn all_notes(disk: Forest, vault_directory: Seq<char>) -> Seq<FoundNote> {
    match listing_at(disk, vault_directory) {
        Some(entries) => match notes_in(entries, vault_directory, vault_directory, 0) {
            Some(notes) => notes,
            None => Seq::empty(),
        },
        None => Seq::empty(),
    }
}

/// The files that are markdown files.
pub open spec fn markdown_only() -> spec_fn(FoundFile) -> bool {
    |file: FoundFile| is_markdown(file.0)
}

/// The note that each file is reported as.
pub open spec fn as_note(base: Seq<char>) -> spec_fn(FoundFile) -> FoundNote {
    |file: FoundFile| note_of(file, base)
}

/// Law. A walk reports exactly the markdown files: its notes are the regular
/// files of the tree, at whatever depth, that have the extension `md`, each
/// once and in the order of the walk; and it fails exactly where a directory
/// cannot be listed.
pub proof fn lemma_walk_is_exact(entries: Seq<Node>, dir: Seq<char>, base: Seq<char>, n: int)
    requires
        0 <= n,
    ensures
        notes_in(entries, dir, base, n) is Some <==> all_listed(entries, n),
        notes_in(entries, dir, base, n) matches Some(notes) ==> notes == files_in(
            entries,
            dir,
            n,
        ).filter(markdown_only()).map_values(as_note(base)),
    decreases entries, entries.len() - n,
{
    if n < entries.len() {
        let own = join(dir, name_of(entries[n]));
        lemma_walk_is_exact(entries, dir, base, n + 1);
        let rest = files_in(entries, dir, n + 1);
        let here: Seq<FoundFile> = match entries[n] {
            Node::File { canonical, .. } => seq![(own, canonical)],
            Node::Dir { children: Some(c), .. } => files_in(c, own, 0),
            _ => Seq::empty(),
        };
        match entries[n] {
            Node::File { canonical, .. } => {
                let file: FoundFile = (own, canonical);
                let one: Seq<FoundFile> = seq![file];
                assert(one.drop_last() == Seq::<FoundFile>::empty());
                assert(one.last() == file);
                reveal_with_fuel(Seq::filter, 2);
                if is_markdown(own) {
                    assert(one.filter(markdown_only()) == one);
                } else {
                    assert(one.filter(markdown_only()) == Seq::<FoundFile>::empty());
                }
            },
            Node::Dir { children: Some(c), .. } => {
                lemma_walk_is_exact(c, own, base, 0);
            },
            _ => {},
        }
        Seq::filter_distributes_over_add(here, rest, markdown_only());
        if notes_in(entries, dir, base, n) is Some {
            let a = here.filter(markdown_only());
            let b = rest.filter(markdown_only());
            assert((a + b).map_values(as_note(base)) == a.map_values(as_note(base))
                + b.map_values(as_note(base)));
            assert(Seq::<FoundFile>::empty().map_values(as_note(base)) == Seq::<
                FoundNote,
            >::empty());
            assert(notes_in(entries, dir, base, n)->0 == files_in(entries, dir, n).filter(
                markdown_only(),
            ).map_values(as_note(base)));
        }
    } else {
        assert(Seq::<FoundFile>::empty().filter(markdown_only()) == Seq::<FoundFile>::empty());
        assert(Seq::<FoundFile>::empty().map_values(as_note(base)) == Seq::<FoundNote>::empty());
    }
}

/// Law. The notes of a vault are exactly the markdown files below the vault
/// directory, whenever every directory below it can be listed.
pub proof fn lemma_scan_is_exact(disk: Forest, vault_directory: Seq<char>)
    ensures
        match listing_at(disk, vault_directory) {
            Some(entries) => if all_listed(entries, 0) {
                all_notes(disk, vault_directory) == files_in(entries, vault_directory, 0).filter(
                    markdown_only(),
                ).map_values(as_note(vault_directory))
            } else {
                all_notes(disk, vault_directory) == Seq::<FoundNote>::empty()
            },
            None => all_notes(disk, vault_directory) == Seq::<FoundNote>::empty(),
        },
{
    if let Some(entries) = listing_at(disk, vault_directory) {
        lemma_walk_is_exact(entries, vault_directory, vault_directory, 0);
    }
}

/// What is found below a directory is found from wherever the directory is
/// found.
pub proof fn lemma_found_below(
    nodes: Seq<Node>,
    dir: Option<Seq<char>>,
    n: int,
    vault: Seq<char>,
    path: Seq<char>,
)
    requires
        0 <= n,
        find_in(nodes, dir, vault, n) matches Some(Node::Dir { children: Some(c), .. })
            && find_in(c, Some(vault), path, 0) is Some,
    ensures
        find_in(nodes, dir, path, n) is Some,
    decreases nodes, nodes.len() - n,
{
    if n < nodes.len() {
        let own = path_of(dir, nodes[n]);
        if !answers_to(nodes[n], own, vault) {
            let below = match nodes[n] {
                Node::Dir { children: Some(c), .. } => find_in(c, Some(own), vault, 0),
                _ => None,
            };
            if below is Some {
                lemma_found_below(nodes[n]->Dir_children->0, Some(own), 0, vault, path);
            } else {
                lemma_found_below(nodes, dir, n + 1, vault, path);
            }
        }
    }
}

/// Every file that the walk meets is found by its path and by its absolute
/// path.
pub proof fn lemma_walked_is_found(entries: Seq<Node>, dir: Seq<char>, n: int, i: int)
    requires
        0 <= n,
        0 <= i < files_in(entries, dir, n).len(),
    ensures
        find_in(entries, Some(dir), files_in(entries, dir, n)[i].0, n) is Some,
        find_in(entries, Some(dir), absolute_of(files_in(entries, dir, n)[i]), n) is Some,
    decreases entries, entries.len() - n,
{
    if n < entries.len() {
        let own = join(dir, name_of(entries[n]));
        let here: Seq<FoundFile> = match entries[n] {
            Node::File { canonical, .. } => seq![(own, canonical)],
            Node::Dir { children: Some(c), .. } => files_in(c, own, 0),
            _ => Seq::empty(),
        };
        if i < here.len() {
            match entries[n] {
                Node::Dir { children: Some(c), .. } => {
                    lemma_walked_is_found(c, own, 0, i);
                },
                _ => {},
            }
        } else {
            lemma_walked_is_found(entries, dir, n + 1, i - here.len());
        }
    }
}

/// Law. Every note that the scan reports stands on the disk: something is
/// found at its absolute path.
pub proof fn lemma_scanned_notes_exist(disk: Forest, vault_directory: Seq<char>, i: int)
    requires
        0 <= i < all_notes(disk, vault_directory).len(),
    ensures
        exists_at(disk, all_notes(disk, vault_directory)[i].0),
{
    let entries = listing_at(disk, vault_directory)->0;
    let files = files_in(entries, vault_directory, 0);
    let kept = files.filter(markdown_only());
    lemma_walk_is_exact(entries, vault_directory, vault_directory, 0);
    assert(all_notes(disk, vault_directory) == kept.map_values(as_note(vault_directory)));
    assert(kept.contains(kept[i]));
    files.lemma_filter_contains_rev(markdown_only(), kept[i]);
    let j = choose|j: int| 0 <= j < files.len() && files[j] == kept[i];
    lemma_walked_is_found(entries, vault_directory, 0, j);
    lemma_found_below(disk, None, 0, vault_directory, absolute_of(files[j]));
}

/// Whether a name is plain: not empty, and without a separator.
pub open spec fn is_plain(name: Seq<char>) -> bool {
    name.len() > 0 && forall|k: int| 0 <= k < name.len() ==> name[k] != '/'
}

/// Whether every name among `entries` from position `n` on, and in every
/// directory below them, is plain.
pub open spec fn plain_names(entries: Seq<Node>, n: int) -> bool
    decreases entries, entries.len() - n,
{
    if n < 0 || n >= entries.len() {
        true
    } else {
        let below = match entries[n] {
            Node::Dir { children: Some(c), .. } => plain_names(c, 0),
            _ => true,
        };
        is_plain(name_of(entries[n])) && below && plain_names(entries, n + 1)
    }
}

/// Whether `rel` has the shape of a relative path: not empty, with no
/// separator at its start or its end.
pub open spec fn is_relative(rel: Seq<char>) -> bool {
    rel.len() > 0 && rel[0] != '/' && rel.last() != '/'
}

/// The directory in which the walk stands: the vault directory itself, or
/// what lies at `rel` below it.
pub open spec fn below(vault: Seq<char>, rel: Option<Seq<char>>) -> Seq<char> {
    match rel {
        Some(r) => join(vault, r),
        None => vault,
    }
}

/// `name` in the directory at `rel` below the vault, as a relative path.
pub open spec fn child_of(rel: Option<Seq<char>>, name: Seq<char>) -> Seq<char> {
    match rel {
        Some(r) => r + seq!['/'] + name,
        None => name,
    }
}

/// Going down by a plain name is the same from the directory and from the
/// vault.
pub proof fn lemma_join_goes_down(vault: Seq<char>, rel: Option<Seq<char>>, name: Seq<char>)
    requires
        vault.len() > 0,
        rel matches Some(r) ==> is_relative(r),
        is_plain(name),
    ensures
        join(below(vault, rel), name) == join(vault, child_of(rel, name)),
        is_relative(child_of(rel, name)),
{
    assert(name[0] != '/' && name.last() != '/');
    match rel {
        Some(r) => {
            let dir = join(vault, r);
            let down = r + seq!['/'] + name;
            assert(down[0] == r[0]);
            assert(down.last() == name.last());
            assert(dir.last() == r.last());
            if vault.last() == '/' {
                assert(join(dir, name) =~= join(vault, down));
            } else {
                assert(join(dir, name) =~= join(vault, down));
            }
        },
        None => {},
    }
}

/// Below a vault with plain names, every file that the walk meets lies at a
/// relative path under the vault directory.
pub proof fn lemma_walked_is_relative(
    entries: Seq<Node>,
    vault: Seq<char>,
    rel: Option<Seq<char>>,
    n: int,
    i: int,
) -> (r: Seq<char>)
    requires
        vault.len() > 0,
        rel matches Some(d) ==> is_relative(d),
        0 <= n,
        plain_names(entries, n),
        0 <= i < files_in(entries, below(vault, rel), n).len(),
    ensures
        is_relative(r),
        files_in(entries, below(vault, rel), n)[i].0 == join(vault, r),
    decreases entries, entries.len() - n,
{
    let dir = below(vault, rel);
    let own = join(dir, name_of(entries[n]));
    let here: Seq<FoundFile> = match entries[n] {
        Node::File { canonical, .. } => seq![(own, canonical)],
        Node::Dir { children: Some(c), .. } => files_in(c, own, 0),
        _ => Seq::empty(),
    };
    lemma_join_goes_down(vault, rel, name_of(entries[n]));
    let down = child_of(rel, name_of(entries[n]));
    if i < here.len() {
        match entries[n] {
            Node::Dir { children: Some(c), .. } => {
                lemma_walked_is_relative(c, vault, Some(down), 0, i)
            },
            _ => down,
        }
    } else {
        lemma_walked_is_relative(entries, vault, rel, n + 1, i - here.len())
    }
}

/// Law. Below a vault with plain names, every note that the scan reports is
/// found again from its relative path: the path leads to a markdown file on
/// the disk, and is the path that the scan gave.
pub proof fn lemma_scanned_notes_resolve(disk: Forest, vault_directory: Seq<char>, i: int)
    requires
        vault_directory.len() > 0,
        listing_at(disk, vault_directory) matches Some(entries) ==> plain_names(entries, 0),
        0 <= i < all_notes(disk, vault_directory).len(),
    ensures
        ({
            let relative = all_notes(disk, vault_directory)[i].1;
            &&& is_relative(relative)
            &&& is_markdown(join(vault_directory, relative))
            &&& exists_at(disk, join(vault_directory, relative))
            &&& relative_to(join(vault_directory, relative), vault_directory) == Some(relative)
        }),
{
    let entries = listing_at(disk, vault_directory)->0;
    let files = files_in(entries, vault_directory, 0);
    let kept = files.filter(markdown_only());
    lemma_walk_is_exact(entries, vault_directory, vault_directory, 0);
    assert(all_notes(disk, vault_directory) == kept.map_values(as_note(vault_directory)));
    assert(kept.contains(kept[i]));
    files.lemma_filter_contains_rev(markdown_only(), kept[i]);
    files.lemma_filter_pred(markdown_only(), i);
    let j = choose|j: int| 0 <= j < files.len() && files[j] == kept[i];
    let r = lemma_walked_is_relative(entries, vault_directory, None, 0, j);
    lemma_relative_of_joined(vault_directory, r);
    lemma_walked_is_found(entries, vault_directory, 0, j);
    lemma_found_below(disk, None, 0, vault_directory, files[j].0);
}

/// Walks what the directory `current_dir` holds and adds every markdown file
/// to `result`. Fails where a directory cannot be listed.
pub fn collect_markdown_files(
    base_dir: &str,
    current_dir: &str,
    entries: &Vec<Entry>,
    result: &mut Vec<(String, String)>,
) -> (r: Result<(), NoteError>)
    ensures
        match notes_in(nodes_of(entries@), current_dir@, base_dir@, 0) {
            Some(notes) => r is Ok && pairs_view(final(result)@) == pairs_view(old(result)@)
                + notes,
            None => r == Err::<(), NoteError>(NoteError::Io),
        },
    decreases entries,
{
    let mut i: usize = 0;
    let ghost nodes = nodes_of(entries@);
    let ghost before = pairs_view(result@);
    let ghost done: Seq<FoundNote> = Seq::empty();
    while i < entries.len()
        invariant
            i <= entries.len(),
            nodes == nodes_of(entries@),
            pairs_view(result@) == before + done,
            match notes_in(nodes, current_dir@, base_dir@, i as int) {
                Some(rest) => notes_in(nodes, current_dir@, base_dir@, 0) == Some(done + rest),
                None => notes_in(nodes, current_dir@, base_dir@, 0) is None,
            },
        decreases entries.len() - i,
    {
        let entry = &entries[i];
        let path = join_path(current_dir, entry.name().as_str());
        let ghost old_result = result@;
        let ghost rest = notes_in(nodes, current_dir@, base_dir@, i + 1);
        proof {
            lemma_children(*entry);
        }
        match entry {
            Entry::Dir { children, .. } => {
                match children {
                    Some(c) => {
                        match collect_markdown_files(base_dir, path.as_str(), c, result) {
                            Ok(()) => {
                                proof {
                                    let inner = notes_in(nodes_of(c@), path@, base_dir@, 0)->0;
                                    if rest is Some {
                                        assert(done + (inner + rest->0) == (done + inner)
                                            + rest->0);
                                    }
                                    done = done + inner;
                                }
                            },
                            Err(e) => {
                                return Err(e);
                            },
                        }
                    },
                    None => {
                        return Err(NoteError::Io);
                    },
                }
            },
            Entry::File { canonical, .. } => {
                if is_markdown_path(path.as_str()) {
                    let relative = match get_relative_path(path.as_str(), base_dir) {
                        Some(rel) => rel,
                        None => match file_name_of(path.as_str()) {
                            Some(name) => name,
                            None => String::new(),
                        },
                    };
                    let absolute = match canonical {
                        Some(c) => c.clone(),
                        None => path,
                    };
                    let ghost note: FoundNote = (absolute@, relative@);
                    result.push((absolute, relative));
                    proof {
                        assert(pairs_view(result@) == pairs_view(old_result).push(note));
                        if rest is Some {
                            assert(done + (seq![note] + rest->0) == (done + seq![note])
                                + rest->0);
                        }
                        done = done + seq![note];
                    }
                }
            },
            Entry::Other { .. } => {},
        }
        i = i + 1;
    }
    Ok(())
}

/// Every markdown file below the vault directory, as pairs of absolute and
/// relative path, in the order of the walk. Empty where the vault directory
/// is no directory that can be listed, or a directory below it cannot be.
pub fn get_all_notes(disk: &Disk, vault_directory: &str) -> (r: Vec<(String, String)>)
    ensures
        pairs_view(r@) == all_notes(disk@, vault_directory@),
{
    let mut result: Vec<(String, String)> = Vec::new();
    match disk.entry_at(vault_directory) {
        Some(entry) => match entry {
            Entry::Dir { children: Some(c), .. } => {
                proof {
                    lemma_children(*entry);
                }
                match collect_markdown_files(vault_directory, vault_directory, c, &mut result) {
                    Ok(()) => {
                        assert(Seq::<FoundNote>::empty() + all_notes(disk@, vault_directory@)
                            == all_notes(disk@, vault_directory@));
                        result
                    },
                    Err(_) => {
                        let empty: Vec<(String, String)> = Vec::new();
                        empty
                    },
                }
            },
            _ => result,
        },
        None => result,
    }
}

} // verus!
