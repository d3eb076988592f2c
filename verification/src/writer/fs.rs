//! The tree of files that an image is written from, and how a file is put
//! into it by its path.

use crate::serialize::IsoSerializeError;
use crate::writer::error::Error;
use vstd::prelude::*;
use vstd::string::StrSliceExecFns;

verus! {

/// A file of the tree: its name, its bytes, and where they go once
/// addresses are assigned.
#[derive(Debug, PartialEq, Eq)]
pub struct FileEntry {
    pub extent_lba: Option<u32>,
    pub name: String,
    pub content: Vec<u8>,
}

/// A directory of the tree.
#[derive(Debug, PartialEq, Eq)]
pub struct DirectoryEntry {
    pub extent_lba: Option<u32>,
    pub name: String,
    pub entries: Vec<Entry>,
}

/// A file or a directory.
#[derive(Debug, PartialEq, Eq)]
pub enum Entry {
    File(FileEntry),
    Directory(DirectoryEntry),
}

/// The root of the tree: a directory without a name.
#[derive(Debug, PartialEq, Eq)]
pub struct RootDirectory {
    pub extent_lba: Option<u32>,
    pub entries: Vec<Entry>,
}

/// The files of one volume.
#[derive(Debug, PartialEq, Eq)]
pub struct Filesystem {
    pub root: RootDirectory,
}

/// What an entry is, apart from how it is held in memory.
pub enum Node {
    File { name: Seq<char>, content: Seq<u8>, lba: Option<u32> },
    Directory { name: Seq<char>, children: Seq<Node>, lba: Option<u32> },
}

impl Node {
    pub open spec fn name(self) -> Seq<char> {
        match self {
            Node::File { name, .. } => name,
            Node::Directory { name, .. } => name,
        }
    }

    pub open spec fn lba(self) -> Option<u32> {
        match self {
            Node::File { lba, .. } => lba,
            Node::Directory { lba, .. } => lba,
        }
    }

    /// Whether `other` is an entry that `self` is merged with: one of the
    /// same kind and name.
    pub open spec fn matches(self, other: Node) -> bool {
        &&& self.name() == other.name()
        &&& (self is File) == (other is File)
    }
}

/// What the entries of a directory are.
pub open spec fn nodes(entries: Seq<Entry>) -> Seq<Node>
    decreases entries,
{
    Seq::new(
        entries.len(),
        |i: int|
            if 0 <= i < entries.len() {
                entries[i].node()
            } else {
                arbitrary()
            },
    )
}

impl Entry {
    /// What the entry is.
    pub open spec fn node(&self) -> Node
        decreases self,
    {
        match self {
            Entry::File(f) => Node::File { name: f.name@, content: f.content@, lba: f.extent_lba },
            Entry::Directory(d) => Node::Directory {
                name: d.name@,
                children: nodes(d.entries@),
                lba: d.extent_lba,
            },
        }
    }

    pub fn name(&self) -> (r: &str)
        ensures
            r@ == self.node().name(),
    {
        match self {
            Entry::File(f) => f.name.as_str(),
            Entry::Directory(d) => d.name.as_str(),
        }
    }

    pub fn is_file(&self) -> (r: bool)
        ensures
            r == (self.node() is File),
    {
        match self {
            Entry::File(_) => true,
            Entry::Directory(_) => false,
        }
    }
}

/// The position of the first of `children` that `node` is merged with.
pub open spec fn find_match(children: Seq<Node>, node: Node) -> Option<int>
    decreases children.len(),
{
    if children.len() == 0 {
        None
    } else {
        match find_match(children.drop_last(), node) {
            Some(i) => Some(i),
            None => if children.last().matches(node) {
                Some(children.len() - 1)
            } else {
                None
            },
        }
    }
}

/// What `find_match` finds is a match that no match comes before, and it
/// finds one wherever there is one.
pub proof fn lemma_find_match_is_first(children: Seq<Node>, node: Node)
    ensures
        match find_match(children, node) {
            Some(i) => 0 <= i < children.len() && children[i].matches(node) && forall|j: int|
                0 <= j < i ==> !(#[trigger] children[j]).matches(node),
            None => forall|j: int|
                0 <= j < children.len() ==> !(#[trigger] children[j]).matches(node),
        },
    decreases children.len(),
{
    if children.len() > 0 {
        let init = children.drop_last();
        lemma_find_match_is_first(init, node);
        assert(forall|j: int| 0 <= j < init.len() ==> init[j] == children[j]);
    }
}

/// The first match is the only position that is one.
pub proof fn lemma_find_match(children: Seq<Node>, node: Node, i: int)
    requires
        0 <= i < children.len(),
        children[i].matches(node),
        forall|j: int| 0 <= j < i ==> !(#[trigger] children[j]).matches(node),
    ensures
        find_match(children, node) == Some(i),
{
    lemma_find_match_is_first(children, node);
    match find_match(children, node) {
        Some(c) => {
            assert(!(c < i));
            assert(!(i < c));
        },
        None => {},
    }
}

/// `children` after `node` was put among them: a file takes the place of the
/// file of its name, a directory is merged into the directory of its name
/// child by child, and an entry that has no match goes to the end.
pub open spec fn upsert(children: Seq<Node>, node: Node) -> Seq<Node>
    decreases node, 0nat,
{
    match find_match(children, node) {
        Some(i) => match (children[i], node) {
            (
                Node::Directory { name, children: mine, lba },
                Node::Directory { children: theirs, .. },
            ) => children.update(
                i,
                Node::Directory { name, children: upsert_first(mine, theirs, theirs.len()), lba },
            ),
            _ => children.update(i, node),
        },
        None => children.push(node),
    }
}

/// `children` after the first `k` of `nodes` were put among them, one after
/// the other.
pub open spec fn upsert_first(children: Seq<Node>, nodes: Seq<Node>, k: nat) -> Seq<Node>
    decreases nodes, k,
{
    if k == 0 || k > nodes.len() {
        children
    } else {
        upsert(upsert_first(children, nodes, (k - 1) as nat), nodes[k - 1])
    }
}

/// Finds the first of `entries` that has the name `name` and is a file, or is
/// none, as `file` says.
fn find_entry(entries: &Vec<Entry>, name: &str, file: bool) -> (r: Option<usize>)
    ensures
        match r {
            Some(i) => {
                &&& i < entries@.len()
                &&& entries@[i as int].node().name() == name@
                &&& (entries@[i as int].node() is File) == file
                &&& forall|j: int|
                    0 <= j < i ==> !(entries@[j].node().name() == name@ && (entries@[j].node()
                        is File) == file)
            },
            None => forall|j: int|
                0 <= j < entries@.len() ==> !(entries@[j].node().name() == name@ && (
                entries@[j].node() is File) == file),
        },
{
    let mut i: usize = 0;
    while i < entries.len()
        invariant
            i <= entries@.len(),
            forall|j: int|
                0 <= j < i ==> !(entries@[j].node().name() == name@ && (entries@[j].node()
                    is File) == file),
        decreases entries@.len() - i,
    {
        let e = &entries[i];
        if e.is_file() == file && str_eq(e.name(), name) {
            return Some(i);
        }
        i += 1;
    }
    None
}

/// Whether two strings hold the same characters.
pub fn str_eq(a: &str, b: &str) -> (r: bool)
    ensures
        r == (a@ == b@),
{
    let n = a.unicode_len();
    if n != b.unicode_len() {
        return false;
    }
    let mut i: usize = 0;
    while i < n
        invariant
            i <= n,
            n == a@.len(),
            n == b@.len(),
            forall|j: int| 0 <= j < i ==> a@[j] == b@[j],
        decreases n - i,
    {
        if a.get_char(i) != b.get_char(i) {
            return false;
        }
        i += 1;
    }
    assert(a@ =~= b@);
    true
}

/// Puts `entry` among `entries`: a file takes the place of the file of its
/// name, a directory is merged into the directory of its name child by child,
/// and an entry that has no match goes to the end.
pub fn upsert_into(entries: &mut Vec<Entry>, entry: Entry)
    ensures
        nodes(final(entries)@) == upsert(nodes(old(entries)@), entry.node()),
    decreases entry, 0nat,
{
    let ghost before = nodes(entries@);
    let ghost node = entry.node();
    let found = find_entry(entries, entry.name(), entry.is_file());
    match found {
        None => {
            proof {
                lemma_find_match_is_first(before, node);
            }
            entries.push(entry);
            assert(nodes(entries@) =~= before.push(node));
        },
        Some(i) => {
            proof {
                lemma_find_match(before, node, i as int);
            }
            let target = entries.remove(i);
            assert(target.node() == before[i as int]);
            let ghost without = entries@;
            match (target, entry) {
                (Entry::Directory(mine), Entry::Directory(theirs)) => {
                    let DirectoryEntry { extent_lba, name, entries: mut children } = mine;
                    let ghost mine_before = nodes(children@);
                    proof {
                        assert(decreases_to!(entry => theirs));
                        assert(decreases_to!(theirs => theirs.entries));
                    }
                    merge_into(&mut children, theirs.entries);
                    let merged = Entry::Directory(
                        DirectoryEntry { extent_lba, name, entries: children },
                    );
                    entries.insert(i, merged);
                    assert(nodes(entries@) =~= before.update(i as int, merged.node()));
                },
                (_, entry) => {
                    entries.insert(i, entry);
                    assert(nodes(entries@) =~= before.update(i as int, node));
                },
            }
        },
    }
}

/// Puts every one of `theirs` among `entries`, one after the other.
pub fn merge_into(entries: &mut Vec<Entry>, theirs: Vec<Entry>)
    ensures
        nodes(final(entries)@) == upsert_first(
            nodes(old(entries)@),
            nodes(theirs@),
            theirs@.len(),
        ),
    decreases theirs, 1nat,
{
    let ghost before = nodes(entries@);
    let ghost all = theirs@;
    let total = theirs.len();
    let mut rest = theirs;
    let mut k: usize = 0;
    while rest.len() > 0
        invariant
            k + rest@.len() == total,
            total == all.len(),
            all == theirs@,
            rest@ == all.subrange(k as int, all.len() as int),
            nodes(entries@) == upsert_first(before, nodes(all), k as nat),
        decreases rest@.len(),
    {
        let x = rest.remove(0);
        proof {
            assert(x == all[k as int]);
            assert(nodes(all)[k as int] == x.node());
            assert(decreases_to!(theirs => theirs@));
            assert(decreases_to!(theirs@ => theirs@[k as int]));
        }
        upsert_into(entries, x);
        assert(rest@ =~= all.subrange(k + 1, all.len() as int));
        k += 1;
    }
}

/// The pieces that `path` falls into at its slashes, empty ones included.
pub open spec fn segments(path: Seq<char>) -> Seq<Seq<char>>
    decreases path.len(),
{
    if path.len() == 0 {
        seq![Seq::<char>::empty()]
    } else {
        let before = segments(path.drop_last());
        if path.last() == '/' {
            before.push(Seq::<char>::empty())
        } else {
            before.drop_last().push(before.last().push(path.last()))
        }
    }
}

/// Whether a piece of a path names something: it is neither empty nor `.`.
pub open spec fn is_component(segment: Seq<char>) -> bool {
    segment.len() > 0 && !(segment.len() == 1 && segment[0] == '.')
}

/// Those of `pieces` that name something, in their order.
pub open spec fn named(pieces: Seq<Seq<char>>) -> Seq<Seq<char>>
    decreases pieces.len(),
{
    if pieces.len() == 0 {
        Seq::<Seq<char>>::empty()
    } else if is_component(pieces.last()) {
        named(pieces.drop_last()).push(pieces.last())
    } else {
        named(pieces.drop_last())
    }
}

/// The components of `path`: what stands between its slashes, without what
/// is empty or `.`.
pub open spec fn components(path: Seq<char>) -> Seq<Seq<char>> {
    named(segments(path))
}

/// The characters of each string.
pub open spec fn names(strings: Seq<String>) -> Seq<Seq<char>> {
    Seq::new(strings.len(), |i: int| strings[i]@)
}

proof fn lemma_segments_nonempty(path: Seq<char>)
    ensures
        segments(path).len() >= 1,
    decreases path.len(),
{
    if path.len() > 0 {
        lemma_segments_nonempty(path.drop_last());
    }
}

/// Takes `path` apart into its components.
pub fn split_path(path: &str) -> (r: Vec<String>)
    ensures
        names(r@) == components(path@),
{
    let n = path.unicode_len();
    let mut done: Vec<String> = Vec::new();
    let mut start: usize = 0;
    let mut i: usize = 0;
    proof {
        assert(path@.subrange(0, 0) =~= Seq::<char>::empty());
        assert(segments(path@.subrange(0, 0)).drop_last() =~= Seq::<Seq<char>>::empty());
        assert(segments(path@.subrange(0, 0)).last() =~= path@.subrange(0, 0));
        assert(names(done@) =~= named(segments(path@.subrange(0, 0)).drop_last()));
    }
    while i < n
        invariant
            n == path@.len(),
            start <= i <= n,
            segments(path@.subrange(0, i as int)).len() >= 1,
            segments(path@.subrange(0, i as int)).last() == path@.subrange(start as int, i as int),
            names(done@) == named(segments(path@.subrange(0, i as int)).drop_last()),
        decreases n - i,
    {
        let ghost prefix = path@.subrange(0, i as int);
        let ghost next = path@.subrange(0, i + 1);
        let ghost before = segments(prefix);
        proof {
            assert(next.drop_last() =~= prefix);
            assert(next.last() == path@[i as int]);
        }
        let c = path.get_char(i);
        if c == '/' {
            proof {
                assert(segments(next) == before.push(Seq::<char>::empty()));
                assert(segments(next).drop_last() =~= before);
                assert(before.drop_last().push(before.last()) =~= before);
            }
            if is_component_at(path, start, i) {
                let piece = path.substring_char(start, i).to_owned();
                done.push(piece);
                assert(names(done@) =~= named(before.drop_last()).push(before.last()));
            }
            start = i + 1;
            proof {
                assert(path@.subrange(start as int, i + 1) =~= Seq::<char>::empty());
            }
        } else {
            proof {
                assert(segments(next) == before.drop_last().push(before.last().push(c)));
                assert(segments(next).drop_last() =~= before.drop_last());
                assert(path@.subrange(start as int, i + 1) =~= before.last().push(c));
            }
        }
        i += 1;
    }
    proof {
        assert(path@.subrange(0, n as int) =~= path@);
        let all = segments(path@);
        assert(all.drop_last().push(all.last()) =~= all);
    }
    if is_component_at(path, start, n) {
        let piece = path.substring_char(start, n).to_owned();
        done.push(piece);
        assert(names(done@) =~= named(segments(path@).drop_last()).push(segments(path@).last()));
    }
    done
}

/// Whether the characters of `path` from `from` up to `to` name something.
fn is_component_at(path: &str, from: usize, to: usize) -> (r: bool)
    requires
        from <= to <= path@.len(),
    ensures
        r == is_component(path@.subrange(from as int, to as int)),
{
    if to == from {
        false
    } else if to - from == 1 {
        path.get_char(from) != '.'
    } else {
        true
    }
}

/// The longest name that a file can have: the 32 bytes of a file identifier
/// less the two of the version that is added to it.
pub const MAX_FILE_NAME: usize = 30;

/// The longest name that a directory can have.
pub const MAX_DIRECTORY_NAME: usize = 31;

/// Whether the component `k` of a path is too long for what it names: the
/// last component names a file, the others directories.
pub open spec fn too_long(parts: Seq<Seq<char>>, k: int) -> bool {
    if k == parts.len() - 1 {
        parts[k].len() > MAX_FILE_NAME
    } else {
        parts[k].len() > MAX_DIRECTORY_NAME
    }
}

/// The first component of a path that is too long, if there is one.
pub open spec fn first_too_long(parts: Seq<Seq<char>>) -> Option<int> {
    if forall|k: int| 0 <= k < parts.len() ==> !too_long(parts, k) {
        None
    } else {
        Some(
            choose|k: int|
                0 <= k < parts.len() && too_long(parts, k) && forall|j: int|
                    0 <= j < k ==> !too_long(parts, j),
        )
    }
}

/// The first component that is too long is the only position that is one.
pub proof fn lemma_first_too_long(parts: Seq<Seq<char>>, k: int)
    requires
        0 <= k < parts.len(),
        too_long(parts, k),
        forall|j: int| 0 <= j < k ==> !too_long(parts, j),
    ensures
        first_too_long(parts) == Some(k),
{
    let c = choose|c: int|
        0 <= c < parts.len() && too_long(parts, c) && forall|j: int|
            0 <= j < c ==> !too_long(parts, j);
    assert(!(c < k));
    assert(!(k < c));
}

/// The error that the too long component `k` of a path is refused with: its
/// name has `expected` characters where what it names can have `got`.
pub open spec fn too_long_error(parts: Seq<Seq<char>>, k: int) -> Error {
    if k == parts.len() - 1 {
        Error::Serialize(
            IsoSerializeError::InputTooSmall {
                expected: parts[k].len() as usize,
                got: MAX_FILE_NAME,
                when: "file_identifier",
            },
        )
    } else {
        Error::Serialize(
            IsoSerializeError::InputTooSmall {
                expected: parts[k].len() as usize,
                got: MAX_DIRECTORY_NAME,
                when: "directory_identifier",
            },
        )
    }
}

/// The entry that the components of a path from `k` on stand for: the file,
/// inside a directory for each component before the last.
pub open spec fn spine(parts: Seq<Seq<char>>, content: Seq<u8>, k: int) -> Node
    decreases parts.len() - k,
{
    if k >= parts.len() - 1 {
        Node::File { name: parts[parts.len() - 1], content, lba: None }
    } else {
        Node::Directory {
            name: parts[k],
            children: seq![spine(parts, content, k + 1)],
            lba: None,
        }
    }
}

/// What putting a file with the bytes `content` at `path` comes to: the entry
/// that is put into the root, or why the path or the file is refused.
pub open spec fn planned(path: Seq<char>, content: Seq<u8>) -> Result<Node, Error> {
    let parts = components(path);
    if parts.len() == 0 {
        Err(Error::EmptyPath)
    } else if parts.last() == seq!['.', '.'] {
        Err(Error::MissingFileName)
    } else if content.len() > u32::MAX {
        Err(Error::FileTooLarge)
    } else {
        match first_too_long(parts) {
            Some(k) => Err(too_long_error(parts, k)),
            None => Ok(spine(parts, content, 0)),
        }
    }
}

/// Whether `name` is `..`.
fn is_parent(name: &str) -> (r: bool)
    ensures
        r == (name@ == seq!['.', '.']),
{
    if name.unicode_len() != 2 {
        return false;
    }
    let r = name.get_char(0) == '.' && name.get_char(1) == '.';
    if r {
        assert(name@ =~= seq!['.', '.']);
    }
    r
}

/// Finds the first component that is too long for what it names.
fn find_too_long(parts: &Vec<String>) -> (r: Option<usize>)
    ensures
        r is None <==> first_too_long(names(parts@)) is None,
        r is Some ==> first_too_long(names(parts@)) == Some(r.unwrap() as int) && r.unwrap()
            < parts@.len(),
{
    let n = parts.len();
    let mut k: usize = 0;
    while k < n
        invariant
            k <= n,
            n == parts@.len(),
            forall|j: int| 0 <= j < k ==> !too_long(names(parts@), j),
        decreases n - k,
    {
        let len = parts[k].as_str().unicode_len();
        let limit = if k == n - 1 {
            MAX_FILE_NAME
        } else {
            MAX_DIRECTORY_NAME
        };
        if len > limit {
            proof {
                lemma_first_too_long(names(parts@), k as int);
            }
            return Some(k);
        }
        k += 1;
    }
    None
}

impl FileEntry {
    /// A file that has no address yet.
    pub fn new(name: String, content: Vec<u8>) -> (r: Self)
        ensures
            r.name == name,
            r.content == content,
            r.extent_lba is None,
    {
        FileEntry { extent_lba: None, name, content }
    }
}

impl DirectoryEntry {
    /// A directory that has no address yet.
    pub fn new(name: String, entries: Vec<Entry>) -> (r: Self)
        ensures
            r.name == name,
            r.entries == entries,
            r.extent_lba is None,
    {
        DirectoryEntry { extent_lba: None, name, entries }
    }
}

impl RootDirectory {
    /// An empty root.
    pub fn new() -> (r: Self)
        ensures
            r.entries@.len() == 0,
            r.extent_lba is None,
    {
        RootDirectory { extent_lba: None, entries: Vec::new() }
    }

    /// Puts `entry` among the entries of the root.
    pub fn upsert(&mut self, entry: Entry)
        ensures
            nodes(final(self).entries@) == upsert(nodes(old(self).entries@), entry.node()),
            final(self).extent_lba == old(self).extent_lba,
    {
        upsert_into(&mut self.entries, entry);
    }
}

impl Default for RootDirectory {
    /// An empty root.
    fn default() -> (r: Self)
        ensures
            r.entries@.len() == 0,
            r.extent_lba is None,
    {
        RootDirectory::new()
    }
}

impl Default for Filesystem {
    /// A file system without files.
    fn default() -> (r: Self)
        ensures
            r.root.entries@.len() == 0,
            r.root.extent_lba is None,
    {
        Filesystem::new()
    }
}

impl Filesystem {
    /// A file system without files.
    pub fn new() -> (r: Self)
        ensures
            r.root.entries@.len() == 0,
            r.root.extent_lba is None,
    {
        Filesystem { root: RootDirectory::new() }
    }

    /// Puts a file with the bytes `content` at `destination`, making the
    /// directories on the way. A path or a file that is refused leaves the
    /// tree as it was.
    pub fn upsert_file(&mut self, destination: &str, content: Vec<u8>) -> (r: Result<(), Error>)
        ensures
            final(self).root.extent_lba == old(self).root.extent_lba,
            match planned(destination@, content@) {
                Ok(entry) => r is Ok && nodes(final(self).root.entries@) == upsert(
                    nodes(old(self).root.entries@),
                    entry,
                ),
                Err(e) => r == Err::<(), Error>(e) && *final(self) == *old(self),
            },
    {
        let mut parts = split_path(destination);
        let ghost all = names(parts@);
        let n = parts.len();
        if n == 0 {
            return Err(Error::EmptyPath);
        }
        if is_parent(parts[n - 1].as_str()) {
            return Err(Error::MissingFileName);
        }
        if content.len() > u32::MAX as usize {
            return Err(Error::FileTooLarge);
        }
        if let Some(k) = find_too_long(&parts) {
            let len = parts[k].as_str().unicode_len();
            if k == n - 1 {
                return Err(
                    Error::Serialize(
                        IsoSerializeError::InputTooSmall {
                            expected: len,
                            got: MAX_FILE_NAME,
                            when: "file_identifier",
                        },
                    ),
                );
            } else {
                return Err(
                    Error::Serialize(
                        IsoSerializeError::InputTooSmall {
                            expected: len,
                            got: MAX_DIRECTORY_NAME,
                            when: "directory_identifier",
                        },
                    ),
                );
            }
        }
        let ghost bytes = content@;
        let name = parts.pop().unwrap();
        let mut tail = Entry::File(FileEntry::new(name, content));
        while parts.len() > 0
            invariant
                parts@.len() < all.len(),
                names(parts@) == all.subrange(0, parts@.len() as int),
                tail.node() == spine(all, bytes, parts@.len() as int),
            decreases parts@.len(),
        {
            let ghost k = parts@.len() - 1;
            let ghost held = parts@;
            let name = parts.pop().unwrap();
            assert(name@ == all[k]) by {
                assert(names(held)[k] == all.subrange(0, k + 1)[k]);
            }
            let mut entries: Vec<Entry> = Vec::new();
            entries.push(tail);
            assert(nodes(entries@) =~= seq![spine(all, bytes, k + 1)]);
            tail = Entry::Directory(DirectoryEntry::new(name, entries));
            assert(names(parts@) =~= all.subrange(0, k));
        }
        self.root.upsert(tail);
        Ok(())
    }
}

/// A directory that holds one entry of a path, and no other, is as it was
/// after the entry was put into it once more.
pub proof fn lemma_spine_alone(parts: Seq<Seq<char>>, content: Seq<u8>, k: int)
    requires
        0 <= k < parts.len(),
    ensures
        upsert(seq![spine(parts, content, k)], spine(parts, content, k)) == seq![
            spine(parts, content, k),
        ],
    decreases parts.len() - k,
{
    let s = spine(parts, content, k);
    let alone = seq![s];
    assert(alone[0].matches(s));
    lemma_find_match(alone, s, 0);
    if k >= parts.len() - 1 {
        assert(alone.update(0, s) =~= alone);
    } else {
        let c = spine(parts, content, k + 1);
        lemma_spine_alone(parts, content, k + 1);
        lemma_upsert_one(seq![c], c);
        assert(alone.update(0, s) =~= alone);
    }
}

/// Putting the only entry of a sequence is putting that entry.
pub proof fn lemma_upsert_one(children: Seq<Node>, node: Node)
    ensures
        upsert_first(children, seq![node], 1) == upsert(children, node),
{
    assert(upsert_first(children, seq![node], 0) == children);
    assert(seq![node][0] == node);
}

/// Putting a file at a path twice leaves the tree as putting it once does:
/// the tree upsert is idempotent on the entry that a path and a file stand for.
pub proof fn lemma_upsert_idempotent(
    children: Seq<Node>,
    parts: Seq<Seq<char>>,
    content: Seq<u8>,
    k: int,
)
    requires
        0 <= k < parts.len(),
    ensures
        upsert(upsert(children, spine(parts, content, k)), spine(parts, content, k)) == upsert(
            children,
            spine(parts, content, k),
        ),
    decreases parts.len() - k,
{
    let s = spine(parts, content, k);
    let once = upsert(children, s);
    match find_match(children, s) {
        Some(i) => {
            lemma_find_match_is_first(children, s);
            assert(once.len() == children.len());
            assert(once[i].matches(s));
            assert forall|j: int| 0 <= j < i implies !(#[trigger] once[j]).matches(s) by {
                assert(once[j] == children[j]);
            }
            lemma_find_match(once, s, i);
            if k >= parts.len() - 1 {
                assert(once.update(i, s) =~= once);
            } else {
                let c = spine(parts, content, k + 1);
                match children[i] {
                    Node::Directory { name, children: mine, lba } => {
                        lemma_upsert_one(mine, c);
                        lemma_upsert_one(upsert(mine, c), c);
                        lemma_upsert_idempotent(mine, parts, content, k + 1);
                        assert(once[i] == Node::Directory {
                            name,
                            children: upsert(mine, c),
                            lba,
                        });
                        assert(once.update(i, once[i]) =~= once);
                    },
                    Node::File { .. } => {},
                }
            }
        },
        None => {
            let n = children.len() as int;
            lemma_find_match_is_first(children, s);
            assert(once == children.push(s));
            assert(once[n].matches(s));
            assert forall|j: int| 0 <= j < n implies !(#[trigger] once[j]).matches(s) by {
                assert(once[j] == children[j]);
            }
            lemma_find_match(once, s, n);
            if k >= parts.len() - 1 {
                assert(once.update(n, s) =~= once);
            } else {
                let c = spine(parts, content, k + 1);
                lemma_spine_alone(parts, content, k + 1);
                lemma_upsert_one(seq![c], c);
                assert(once.update(n, s) =~= once);
            }
        },
    }
}

} // verus!
