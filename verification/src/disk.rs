//! A picture of the disk: the directory trees that were read, with the text of
//! the files in them. Every question that the note store asks of the disk is
//! answered from such a picture, so that the answers are values like any
//! other.

use crate::frontmatter::{opt_str_view, opt_view};
use crate::path::{join, join_path};
use vstd::prelude::*;

verus! {

/// What was found under one name in a directory.
#[derive(Debug, PartialEq)]
pub enum Entry {
    /// A regular file.
    File {
        name: String,
        /// The path of the file with every link in it resolved, where that
        /// could be found out.
        canonical: Option<String>,
        /// The text of the file, where it could be read.
        text: Option<String>,
    },
    /// A directory.
    Dir {
        name: String,
        /// What the directory holds, in the order in which it was listed;
        /// `None` where listing it failed.
        children: Option<Vec<Entry>>,
    },
    /// Something that is neither a regular file nor a directory.
    Other { name: String },
}

/// The trees that were read. The name of a root is its whole path, as it was
/// asked for; the name of any other entry is its name in its directory.
#[derive(Debug, PartialEq)]
pub struct Disk {
    pub roots: Vec<Entry>,
}

/// The mathematical form of an [`Entry`].
pub ghost enum Node {
    File { name: Seq<char>, canonical: Option<Seq<char>>, text: Option<Seq<char>> },
    Dir { name: Seq<char>, children: Option<Seq<Node>> },
    Other { name: Seq<char> },
}

/// The mathematical form of a [`Disk`]: its roots.
pub type Forest = Seq<Node>;

/// The mathematical form of `entry`.
pub open spec fn node_of(entry: Entry) -> Node
    decreases entry,
{
    match entry {
        Entry::File { name, canonical, text } => Node::File {
            name: name@,
            canonical: opt_view(canonical),
            text: opt_view(text),
        },
        Entry::Dir { name, children } => Node::Dir {
            name: name@,
            children: match children {
                Some(c) => Some(
                    Seq::new(
                        c.len() as nat,
                        |i: int|
                            if 0 <= i < c.len() {
                                node_of(c[i])
                            } else {
                                Node::Other { name: Seq::empty() }
                            },
                    ),
                ),
                None => None,
            },
        },
        Entry::Other { name } => Node::Other { name: name@ },
    }
}

/// The mathematical forms of `entries`.
pub open spec fn nodes_of(entries: Seq<Entry>) -> Seq<Node> {
    Seq::new(entries.len(), |i: int| node_of(entries[i]))
}

impl View for Entry {
    type V = Node;

    open spec fn view(&self) -> Node {
        node_of(*self)
    }
}

impl View for Disk {
    type V = Forest;

    open spec fn view(&self) -> Forest {
        nodes_of(self.roots@)
    }
}

/// The form of a directory holds the forms of what the directory holds.
pub proof fn lemma_children(entry: Entry)
    ensures
        match entry {
            Entry::Dir { name, children: Some(c) } => entry@ == (Node::Dir {
                name: name@,
                children: Some(nodes_of(c@)),
            }),
            Entry::Dir { name, children: None } => entry@ == (Node::Dir {
                name: name@,
                children: None,
            }),
            _ => true,
        },
{
    match entry {
        Entry::Dir { name, children: Some(c) } => {
            assert(entry@->Dir_children->0 =~= nodes_of(c@));
        },
        _ => {},
    }
}

/// The name of a node.
pub open spec fn name_of(node: Node) -> Seq<char> {
    match node {
        Node::File { name, .. } => name,
        Node::Dir { name, .. } => name,
        Node::Other { name } => name,
    }
}

/// The path of a node: its name under the path of its directory, or its
/// name alone if it is a root.
pub open spec fn path_of(dir: Option<Seq<char>>, node: Node) -> Seq<char> {
    match dir {
        Some(d) => join(d, name_of(node)),
        None => name_of(node),
    }
}

/// Whether a node is what `path` leads to: `path` is the node's own path,
/// or the canonical path of the file that the node is.
pub open spec fn answers_to(node: Node, own: Seq<char>, path: Seq<char>) -> bool {
    own == path || match node {
        Node::File { canonical: Some(c), .. } => c == path,
        _ => false,
    }
}

/// The first node that answers to `path` among `nodes` from position `n`
/// on and all that lies below them, a directory coming before what it holds.
pub open spec fn find_in(nodes: Seq<Node>, dir: Option<Seq<char>>, path: Seq<char>, n: int)
    -> Option<Node>
    decreases nodes, nodes.len() - n,
{
    if n < 0 || n >= nodes.len() {
        None
    } else {
        let own = path_of(dir, nodes[n]);
        if answers_to(nodes[n], own, path) {
            Some(nodes[n])
        } else {
            let below = match nodes[n] {
                Node::Dir { children: Some(c), .. } => find_in(c, Some(own), path, 0),
                _ => None,
            };
            match below {
                Some(e) => Some(e),
                None => find_in(nodes, dir, path, n + 1),
            }
        }
    }
}

/// The node that `path` leads to.
pub open spec fn find(disk: Forest, path: Seq<char>) -> Option<Node> {
    find_in(disk, None, path, 0)
}

/// Whether something stands at `path`.
pub open spec fn exists_at(disk: Forest, path: Seq<char>) -> bool {
    find(disk, path) is Some
}

/// The text of the file at `path`, if there is a file and it could be read.
pub open spec fn text_at(disk: Forest, path: Seq<char>) -> Option<Seq<char>> {
    match find(disk, path) {
        Some(Node::File { text: Some(t), .. }) => Some(t),
        _ => None,
    }
}

/// What the directory at `path` holds, if there is a directory and it could
/// be listed.
pub open spec fn listing_at(disk: Forest, path: Seq<char>) -> Option<Seq<Node>> {
    match find(disk, path) {
        Some(Node::Dir { children: Some(c), .. }) => Some(c),
        _ => None,
    }
}

impl Entry {
    /// The name of the entry.
    pub fn name(&self) -> (r: &String)
        ensures
            r@ == name_of(self@),
    {
        match self {
            Entry::File { name, .. } => name,
            Entry::Dir { name, .. } => name,
            Entry::Other { name } => name,
        }
    }

    /// The path of the entry in the directory `dir`, or as a root.
    pub fn path_in(&self, dir: Option<&str>) -> (r: String)
        ensures
            r@ == path_of(opt_str_view(dir), self@),
    {
        match dir {
            Some(d) => join_path(d, self.name().as_str()),
            None => self.name().clone(),
        }
    }

    /// Whether the entry, whose own path is `own`, is what `path` leads to.
    pub fn answers(&self, own: &String, path: &String) -> (b: bool)
        ensures
            b == answers_to(self@, own@, path@),
    {
        if *own == *path {
            return true;
        }
        match self {
            Entry::File { canonical: Some(c), .. } => *c == *path,
            _ => false,
        }
    }
}

/// The first entry that answers to `path` among `entries` and below.
pub fn find_entry<'a>(entries: &'a Vec<Entry>, dir: Option<&str>, path: &String) -> (r: Option<
    &'a Entry,
>)
    ensures
        match r {
            Some(e) => find_in(nodes_of(entries@), opt_str_view(dir), path@, 0) == Some(e@),
            None => find_in(nodes_of(entries@), opt_str_view(dir), path@, 0) is None,
        },
    decreases entries,
{
    let ghost nodes = nodes_of(entries@);
    let mut i: usize = 0;
    while i < entries.len()
        invariant
            i <= entries.len(),
            nodes == nodes_of(entries@),
            find_in(nodes, opt_str_view(dir), path@, i as int) == find_in(
                nodes,
                opt_str_view(dir),
                path@,
                0,
            ),
        decreases entries.len() - i,
    {
        let entry = &entries[i];
        let own = entry.path_in(dir);
        if entry.answers(&own, path) {
            return Some(entry);
        }
        proof {
            lemma_children(*entry);
        }
        if let Entry::Dir { children: Some(c), .. } = entry {
            if let Some(found) = find_entry(c, Some(own.as_str()), path) {
                return Some(found);
            }
        }
        i = i + 1;
    }
    None
}

impl Disk {
    /// The entry that `path` leads to.
    pub fn entry_at(&self, path: &str) -> (r: Option<&Entry>)
        ensures
            match r {
                Some(e) => find(self@, path@) == Some(e@),
                None => find(self@, path@) is None,
            },
    {
        let wanted = path.to_owned();
        find_entry(&self.roots, None, &wanted)
    }

    /// Whether something stands at `path`.
    pub fn has(&self, path: &str) -> (b: bool)
        ensures
            b == exists_at(self@, path@),
    {
        self.entry_at(path).is_some()
    }
}

} // verus!
