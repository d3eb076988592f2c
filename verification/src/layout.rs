//! The layout of an image from the sizes of its files alone: a tree of names
//! and sizes, the sizes of the records that describe its entries, and the
//! addresses that the entries get.

use crate::bytes::{array_of, lemma_array_of, zeros};
use crate::spec::{
    fit, DirectoryRecord, FileFlags, FileIdentifier, NoExtension, NumericalDate, NumericalDay,
    NumericalGmtOffset, NumericalHour, NumericalMinute, NumericalMonth, NumericalSecond,
    NumericalYear,
};
use crate::writer::error::Error;
use crate::writer::fs::{
    components, lemma_find_match, lemma_find_match_is_first, names, split_path, str_eq, upsert,
    upsert_first, Node,
};
use crate::writer::lba::{sectors_for, LbaAllocator};
use vstd::prelude::*;

verus! {

/// Where the bytes of a file come from. Of a file of the file system the
/// layout needs its size only.
#[derive(Debug, Clone, Copy, PartialEq, Eq)]
pub enum FileContentRef {
    FsFile(usize),
}

/// A file of the layout.
#[derive(Debug, PartialEq, Eq)]
pub struct FsFile {
    pub lba: Option<u32>,
    pub name: String,
    pub content: FileContentRef,
}

/// A directory of the layout.
#[derive(Debug, PartialEq, Eq)]
pub struct FsDirectory {
    pub lba: Option<u32>,
    pub name: String,
    pub children: Vec<FsNode>,
}

/// A file or a directory of the layout.
#[derive(Debug, PartialEq, Eq)]
pub enum FsNode {
    File(FsFile),
    Directory(FsDirectory),
}

/// What is known of a primary volume before it is laid out: nothing yet.
#[derive(Debug, Clone, Copy, PartialEq, Eq)]
pub struct PrimaryVolumeInfo {}

/// The layout of one image: the size of its sectors and its tree.
#[derive(Debug, PartialEq, Eq)]
pub struct IsoLayout {
    pub sector_size: u16,
    pub root: FsNode,
}

/// What the nodes of a directory are.
pub open spec fn layout_nodes(children: Seq<FsNode>) -> Seq<Node>
    decreases children,
{
    Seq::new(
        children.len(),
        |i: int|
            if 0 <= i < children.len() {
                children[i].model()
            } else {
                arbitrary()
            },
    )
}

/// How many bytes a name takes.
pub open spec fn name_len(name: Seq<char>) -> int {
    vstd::utf8::encode_utf8(name).len() as int
}

/// How many bytes the record of an entry takes whose name has `len` bytes:
/// 33 bytes, the name, where there is none one byte in its place, and one
/// byte of padding.
pub open spec fn template_size(len: int) -> int {
    34 + (if len > 0 {
        len
    } else {
        1
    })
}

/// How many bytes the records of the first `k` of `children` take together.
pub open spec fn template_sizes(children: Seq<Node>, k: nat) -> int
    decreases k,
{
    if k == 0 || k > children.len() {
        0
    } else {
        template_sizes(children, (k - 1) as nat) + template_size(name_len(children[k - 1].name()))
    }
}

/// How many bytes the extent of an entry holds: those of a file, the records
/// of the children of a directory.
pub open spec fn layout_extent(node: Node) -> int {
    match node {
        Node::File { content, .. } => content.len() as int,
        Node::Directory { children, .. } => template_sizes(children, children.len()),
    }
}

/// An entry with its address and those of all below it assigned, and the
/// cursor after them: the entry gets the sectors that hold its extent, then
/// each child in turn what it needs. An extent that 32 bits cannot count and
/// sectors past the last address stop it.
pub open spec fn allocated(node: Node, cursor: int, sector_size: int) -> Result<(Node, int), Error>
    decreases node, 0nat,
{
    if layout_extent(node) > u32::MAX {
        Err(
            if node is File {
                Error::FileTooLarge
            } else {
                Error::DirectoryTooLarge
            },
        )
    } else {
        let next = cursor + sectors_for(layout_extent(node), sector_size);
        if next > u32::MAX {
            Err(Error::AllocatorExhausted)
        } else {
            match node {
                Node::File { name, content, .. } => Ok(
                    (Node::File { name, content, lba: Some(cursor as u32) }, next),
                ),
                Node::Directory { name, children, .. } => match allocated_first(
                    children,
                    next,
                    sector_size,
                    children.len(),
                ) {
                    Ok((placed, end)) => Ok(
                        (Node::Directory { name, children: placed, lba: Some(cursor as u32) }, end),
                    ),
                    Err(e) => Err(e),
                },
            }
        }
    }
}

/// The first `k` of `children` with their addresses assigned one after the
/// other, and the cursor after them.
pub open spec fn allocated_first(children: Seq<Node>, cursor: int, sector_size: int, k: nat) -> Result<
    (Seq<Node>, int),
    Error,
>
    decreases children, k,
{
    if k == 0 || k > children.len() {
        Ok((Seq::<Node>::empty(), cursor))
    } else {
        match allocated_first(children, cursor, sector_size, (k - 1) as nat) {
            Err(e) => Err(e),
            Ok((placed, next)) => match allocated(children[k - 1], next, sector_size) {
                Ok((child, end)) => Ok((placed.push(child), end)),
                Err(e) => Err(e),
            },
        }
    }
}

/// Once an entry cannot be placed, no longer run of entries can.
pub proof fn lemma_allocated_first_fails(
    children: Seq<Node>,
    cursor: int,
    sector_size: int,
    k: nat,
    n: nat,
)
    requires
        k <= n <= children.len(),
        allocated_first(children, cursor, sector_size, k) is Err,
    ensures
        allocated_first(children, cursor, sector_size, n) == allocated_first(
            children,
            cursor,
            sector_size,
            k,
        ),
    decreases n - k,
{
    if k < n {
        lemma_allocated_first_fails(children, cursor, sector_size, k, (n - 1) as nat);
    }
}

/// The entry that the components of a path from `k` on stand for: a file of
/// `size` bytes, inside a directory for each component before the last.
pub open spec fn sized_spine(parts: Seq<Seq<char>>, size: nat, k: int) -> Node
    decreases parts.len() - k,
{
    if k >= parts.len() - 1 {
        Node::File { name: parts[parts.len() - 1], content: zeros(size), lba: None }
    } else {
        Node::Directory {
            name: parts[k],
            children: seq![sized_spine(parts, size, k + 1)],
            lba: None,
        }
    }
}

impl FsNode {
    /// What the node is: its name, its address, and under a directory its
    /// children. Of a file the layout knows the size only, and the model
    /// holds as many zero bytes.
    pub open spec fn model(&self) -> Node
        decreases self,
    {
        match self {
            FsNode::File(f) => Node::File {
                name: f.name@,
                content: zeros(
                    match f.content {
                        FileContentRef::FsFile(size) => size as nat,
                    },
                ),
                lba: f.lba,
            },
            FsNode::Directory(d) => Node::Directory {
                name: d.name@,
                children: layout_nodes(d.children@),
                lba: d.lba,
            },
        }
    }

    pub fn name(&self) -> (r: &str)
        ensures
            r@ == self.model().name(),
    {
        match self {
            FsNode::File(f) => f.name.as_str(),
            FsNode::Directory(d) => d.name.as_str(),
        }
    }

    pub fn is_file(&self) -> (r: bool)
        ensures
            r == (self.model() is File),
    {
        match self {
            FsNode::File(_) => true,
            FsNode::Directory(_) => false,
        }
    }

    /// Where the extent of the node starts, once addresses are assigned.
    pub fn lba(&self) -> (r: Option<u32>)
        ensures
            r == self.model().lba(),
    {
        match self {
            FsNode::File(f) => f.lba,
            FsNode::Directory(d) => d.lba,
        }
    }

    /// How many bytes the record of the node takes. A record has at most 255
    /// bytes, so the name has at most 221.
    pub fn calculate_record_size(&self) -> (r: usize)
        requires
            name_len(self.model().name()) <= 221,
        ensures
            r == template_size(name_len(self.model().name())),
            r <= 255,
    {
        let len = self.name().as_bytes().len();
        if len > 0 {
            34 + len
        } else {
            35
        }
    }

    /// How many bytes the extent of the node holds: those of a file, the
    /// records of the children of a directory.
    pub fn calculate_extent(&self) -> (r: usize)
        requires
            forall|i: int|
                0 <= i < layout_children(self.model()).len() ==> name_len(
                    (#[trigger] layout_children(self.model())[i]).name(),
                ) <= 221,
            layout_extent(self.model()) <= usize::MAX,
        ensures
            r == layout_extent(self.model()),
    {
        match self {
            FsNode::File(f) => match f.content {
                FileContentRef::FsFile(size) => size,
            },
            FsNode::Directory(d) => {
                let ghost all = layout_nodes(d.children@);
                let n = d.children.len();
                let mut sum: usize = 0;
                let mut i: usize = 0;
                proof {
                    assert(all == layout_children(self.model()));
                    assert forall|j: int| 0 <= j < n implies name_len((#[trigger] all[j]).name())
                        <= 221 by {
                        assert(name_len(layout_children(self.model())[j].name()) <= 221);
                    }
                }
                while i < n
                    invariant
                        i <= n,
                        n == d.children@.len(),
                        all == layout_nodes(d.children@),
                        all == layout_children(self.model()),
                        sum == template_sizes(all, i as nat),
                        template_sizes(all, n as nat) <= usize::MAX,
                        forall|j: int| 0 <= j < n ==> name_len((#[trigger] all[j]).name()) <= 221,
                    decreases n - i,
                {
                    proof {
                        lemma_template_sizes_grow(all, (i + 1) as nat, n as nat);
                        assert(all[i as int] == d.children@[i as int].model());
                    }
                    sum = sum + d.children[i].calculate_record_size();
                    i += 1;
                }
                sum
            },
        }
    }

    /// The record that describes the node in its directory: of the length
    /// that `calculate_record_size` gives, with the place and the length of
    /// the extent, dated the first of January 2023, and with the name as its
    /// identifier, of which a record holds the first 32 bytes.
    pub fn into_directory_record(&self) -> (r: DirectoryRecord<NoExtension>)
        requires
            self.model().lba() is Some,
            name_len(self.model().name()) <= 221,
            forall|i: int|
                0 <= i < layout_children(self.model()).len() ==> name_len(
                    (#[trigger] layout_children(self.model())[i]).name(),
                ) <= 221,
            layout_extent(self.model()) <= u32::MAX,
        ensures
            r == layout_record(self.model()),
    {
        let name = self.name().as_bytes();
        let extent = self.calculate_extent();
        let length = self.calculate_record_size();
        let file_identifier = FileIdentifier::<32>::from_bytes_truncated(name);
        let lba = match self.lba() {
            Some(lba) => lba,
            None => 0,
        };
        proof {
            lemma_array_of::<32>(file_identifier.0);
            assert(name@ == vstd::utf8::encode_utf8(self.model().name()));
        }
        DirectoryRecord {
            length: length as u8,
            extended_attribute_length: 0,
            extent_location: lba,
            data_length: extent as u32,
            recording_date: NumericalDate {
                years_since_1900: NumericalYear(123),
                month: NumericalMonth(1),
                day: NumericalDay(1),
                hour: NumericalHour(0),
                minute: NumericalMinute(0),
                second: NumericalSecond(0),
                gmt_offset: NumericalGmtOffset(0),
            },
            file_flags: FileFlags::from_bits(
                if self.is_file() {
                    0
                } else {
                    FileFlags::DIRECTORY
                },
            ),
            file_unit_size: 0,
            interleave_gap_size: 0,
            volume_sequence_number: 1,
            file_identifier_length: (name.len() % 256) as u8,
            file_identifier,
        }
    }

    /// Assigns the address of the node and of all below it.
    pub fn allocate_lbas(&mut self, allocator: &mut LbaAllocator) -> (r: Result<(), Error>)
        requires
            old(allocator).wf(),
        ensures
            final(allocator).wf(),
            final(allocator).spec_sector_size() == old(allocator).spec_sector_size(),
            match allocated(
                old(self).model(),
                old(allocator).spec_next_lba() as int,
                old(allocator).spec_sector_size() as int,
            ) {
                Ok((node, end)) => r is Ok && final(self).model() == node && final(allocator).spec_next_lba() == end,
                Err(e) => r == Err::<(), Error>(e),
            },
        decreases *old(self), 0nat,
    {
        let size = match self.extent_in_32_bits() {
            Some(size) => size,
            None => {
                if self.is_file() {
                    return Err(Error::FileTooLarge);
                } else {
                    return Err(Error::DirectoryTooLarge);
                }
            },
        };
        let lba = match allocator.allocate(size) {
            Ok(lba) => lba,
            Err(e) => {
                return Err(e);
            },
        };
        match self {
            FsNode::File(f) => {
                f.lba = Some(lba);
                Ok(())
            },
            FsNode::Directory(d) => {
                d.lba = Some(lba);
                proof {
                    assert(decreases_to!(*old(self) => old(self)->Directory_0));
                    assert(decreases_to!(old(self)->Directory_0 => old(self)->Directory_0.children));
                }
                allocate_all(&mut d.children, allocator)
            },
        }
    }

    /// How many bytes the extent of the node holds, if 32 bits can count
    /// them.
    fn extent_in_32_bits(&self) -> (r: Option<u32>)
        ensures
            match r {
                Some(n) => n == layout_extent(self.model()),
                None => layout_extent(self.model()) > u32::MAX,
            },
    {
        match self {
            FsNode::File(f) => match f.content {
                FileContentRef::FsFile(size) => if size > u32::MAX as usize {
                    None
                } else {
                    Some(size as u32)
                },
            },
            FsNode::Directory(d) => {
                let ghost all = layout_nodes(d.children@);
                let n = d.children.len();
                let mut sum: u64 = 0;
                let mut i: usize = 0;
                proof {
                    assert(all == layout_children(self.model()));
                    assert(layout_extent(self.model()) == template_sizes(all, n as nat));
                }
                while i < n
                    invariant
                        i <= n,
                        n == d.children@.len(),
                        all == layout_nodes(d.children@),
                        layout_extent(self.model()) == template_sizes(all, n as nat),
                        sum == template_sizes(all, i as nat),
                        sum <= u32::MAX,
                    decreases n - i,
                {
                    let len = d.children[i].name().as_bytes().len();
                    proof {
                        assert(all[i as int] == d.children@[i as int].model());
                        assert(len == name_len(all[i as int].name()));
                        lemma_template_sizes_grow(all, (i + 1) as nat, n as nat);
                        assert(template_sizes(all, (i + 1) as nat) == sum + template_size(
                            len as int,
                        ));
                    }
                    if len > u32::MAX as usize {
                        return None;
                    }
                    let size: u64 = if len > 0 {
                        34 + len as u64
                    } else {
                        35
                    };
                    if sum + size > u32::MAX as u64 {
                        return None;
                    }
                    sum = sum + size;
                    i += 1;
                }
                Some(sum as u32)
            },
        }
    }
}

/// The children of a directory; a file has none.
pub open spec fn layout_children(node: Node) -> Seq<Node> {
    match node {
        Node::Directory { children, .. } => children,
        Node::File { .. } => Seq::<Node>::empty(),
    }
}

/// The record that `into_directory_record` makes of a node.
pub open spec fn layout_record(node: Node) -> DirectoryRecord<NoExtension> {
    let name = vstd::utf8::encode_utf8(node.name());
    DirectoryRecord {
        length: template_size(name.len() as int) as u8,
        extended_attribute_length: 0,
        extent_location: match node.lba() {
            Some(lba) => lba,
            None => 0,
        },
        data_length: layout_extent(node) as u32,
        recording_date: NumericalDate {
            years_since_1900: NumericalYear(123),
            month: NumericalMonth(1),
            day: NumericalDay(1),
            hour: NumericalHour(0),
            minute: NumericalMinute(0),
            second: NumericalSecond(0),
            gmt_offset: NumericalGmtOffset(0),
        },
        file_flags: FileFlags {
            bits: if node is File {
                0
            } else {
                FileFlags::DIRECTORY
            },
        },
        file_unit_size: 0,
        interleave_gap_size: 0,
        volume_sequence_number: 1,
        file_identifier_length: (name.len() % 256) as u8,
        file_identifier: FileIdentifier(array_of::<32>(fit(name, 32, 0))),
    }
}

/// The sizes of more records are no less.
pub proof fn lemma_template_sizes_grow(children: Seq<Node>, k: nat, n: nat)
    requires
        k <= n <= children.len(),
    ensures
        0 <= template_sizes(children, k) <= template_sizes(children, n),
    decreases n,
{
    if n > 0 {
        if k < n {
            lemma_template_sizes_grow(children, k, (n - 1) as nat);
        } else {
            lemma_template_sizes_grow(children, (k - 1) as nat, (n - 1) as nat);
        }
    }
}

/// Assigns the addresses of `children` and of all below them, one after the
/// other.
pub fn allocate_all(children: &mut Vec<FsNode>, allocator: &mut LbaAllocator) -> (r: Result<
    (),
    Error,
>)
    requires
        old(allocator).wf(),
    ensures
        final(allocator).wf(),
        final(allocator).spec_sector_size() == old(allocator).spec_sector_size(),
        match allocated_first(
            layout_nodes(old(children)@),
            old(allocator).spec_next_lba() as int,
            old(allocator).spec_sector_size() as int,
            old(children)@.len(),
        ) {
            Ok((placed, end)) => r is Ok && layout_nodes(final(children)@) == placed && final(allocator).spec_next_lba() == end,
            Err(e) => r == Err::<(), Error>(e),
        },
    decreases *old(children), 1nat,
{
    let ghost before = layout_nodes(children@);
    let ghost held = children@;
    let ghost start = allocator.spec_next_lba() as int;
    let ghost ss = allocator.spec_sector_size() as int;
    let n = children.len();
    let mut i: usize = 0;
    proof {
        assert(layout_nodes(children@).subrange(0, 0) =~= Seq::<Node>::empty());
    }
    while i < n
        invariant
            i <= n,
            n == held.len(),
            children@.len() == n,
            held == old(children)@,
            before == layout_nodes(held),
            start == old(allocator).spec_next_lba(),
            ss == old(allocator).spec_sector_size(),
            allocator.wf(),
            allocator.spec_sector_size() == ss,
            forall|j: int| i <= j < n ==> children@[j] == held[j],
            allocated_first(before, start, ss, i as nat) == Ok::<(Seq<Node>, int), Error>(
                (layout_nodes(children@).subrange(0, i as int), allocator.spec_next_lba() as int),
            ),
        decreases n - i,
    {
        let ghost done = layout_nodes(children@).subrange(0, i as int);
        let mut child = children.remove(i);
        proof {
            assert(child == held[i as int]);
            assert(decreases_to!(*old(children) => old(children)@));
            assert(decreases_to!(old(children)@ => old(children)@[i as int]));
        }
        let r = child.allocate_lbas(allocator);
        children.insert(i, child);
        proof {
            assert(layout_nodes(children@).subrange(0, i as int) =~= done);
            assert(before[i as int] == held[i as int].model());
        }
        match r {
            Ok(()) => {
                proof {
                    assert(layout_nodes(children@).subrange(0, i + 1) =~= done.push(child.model()));
                }
            },
            Err(e) => {
                proof {
                    lemma_allocated_first_fails(before, start, ss, (i + 1) as nat, n as nat);
                }
                return Err(e);
            },
        }
        i += 1;
    }
    proof {
        assert(layout_nodes(children@).subrange(0, n as int) =~= layout_nodes(children@));
    }
    Ok(())
}

/// Finds the first of `children` that has the name `name` and is a file, or
/// is none, as `file` says.
fn find_node(children: &Vec<FsNode>, name: &str, file: bool) -> (r: Option<usize>)
    ensures
        match r {
            Some(i) => {
                &&& i < children@.len()
                &&& children@[i as int].model().name() == name@
                &&& (children@[i as int].model() is File) == file
                &&& forall|j: int|
                    0 <= j < i ==> !(children@[j].model().name() == name@ && (children@[j].model()
                        is File) == file)
            },
            None => forall|j: int|
                0 <= j < children@.len() ==> !(children@[j].model().name() == name@ && (
                children@[j].model() is File) == file),
        },
{
    let mut i: usize = 0;
    while i < children.len()
        invariant
            i <= children@.len(),
            forall|j: int|
                0 <= j < i ==> !(children@[j].model().name() == name@ && (children@[j].model()
                    is File) == file),
        decreases children@.len() - i,
    {
        let e = &children[i];
        if e.is_file() == file && str_eq(e.name(), name) {
            return Some(i);
        }
        i += 1;
    }
    None
}

/// Puts `node` among `children`: a file takes the place of the file of its
/// name, a directory is merged into the directory of its name child by child,
/// and a node that has no match goes to the end.
pub fn insert_into(children: &mut Vec<FsNode>, node: FsNode)
    ensures
        layout_nodes(final(children)@) == upsert(layout_nodes(old(children)@), node.model()),
    decreases node, 0nat,
{
    let ghost before = layout_nodes(children@);
    let ghost model = node.model();
    let found = find_node(children, node.name(), node.is_file());
    match found {
        None => {
            proof {
                lemma_find_match_is_first(before, model);
            }
            children.push(node);
            assert(layout_nodes(children@) =~= before.push(model));
        },
        Some(i) => {
            proof {
                lemma_find_match(before, model, i as int);
            }
            let target = children.remove(i);
            assert(target.model() == before[i as int]);
            match (target, node) {
                (FsNode::Directory(mine), FsNode::Directory(theirs)) => {
                    let FsDirectory { lba, name, children: mut below } = mine;
                    proof {
                        assert(decreases_to!(node => theirs));
                        assert(decreases_to!(theirs => theirs.children));
                    }
                    insert_all(&mut below, theirs.children);
                    let merged = FsNode::Directory(FsDirectory { lba, name, children: below });
                    children.insert(i, merged);
                    assert(layout_nodes(children@) =~= before.update(i as int, merged.model()));
                },
                (_, node) => {
                    children.insert(i, node);
                    assert(layout_nodes(children@) =~= before.update(i as int, model));
                },
            }
        },
    }
}

/// Puts every one of `theirs` among `children`, one after the other.
pub fn insert_all(children: &mut Vec<FsNode>, theirs: Vec<FsNode>)
    ensures
        layout_nodes(final(children)@) == upsert_first(
            layout_nodes(old(children)@),
            layout_nodes(theirs@),
            theirs@.len(),
        ),
    decreases theirs, 1nat,
{
    let ghost before = layout_nodes(children@);
    let ghost all = theirs@;
    let total = theirs.len();
    let mut rest = theirs;
    let mut k: usize = 0;
    while rest.len() > 0
        invariant
            k + rest@.len() == total,
            total == all.len(),
            all == theirs@,
            rest@ == all.subrange(k as int, all.len() as int),
            layout_nodes(children@) == upsert_first(before, layout_nodes(all), k as nat),
        decreases rest@.len(),
    {
        let x = rest.remove(0);
        proof {
            assert(x == all[k as int]);
            assert(layout_nodes(all)[k as int] == x.model());
            assert(decreases_to!(theirs => theirs@));
            assert(decreases_to!(theirs@ => theirs@[k as int]));
        }
        insert_into(children, x);
        assert(rest@ =~= all.subrange(k + 1, all.len() as int));
        k += 1;
    }
}

impl FsDirectory {
    /// Puts `node` into the directory: a node of the same kind and name is
    /// merged with it, a directory child by child, a file by taking its
    /// place; else the node comes last.
    pub fn insert(&mut self, node: FsNode)
        ensures
            layout_nodes(final(self).children@) == upsert(
                layout_nodes(old(self).children@),
                node.model(),
            ),
            final(self).name == old(self).name,
            final(self).lba == old(self).lba,
    {
        insert_into(&mut self.children, node);
    }
}

impl IsoLayout {
    /// A layout with an empty root directory, which has no name.
    pub fn new(sector_size: u16) -> (r: Self)
        ensures
            r.sector_size == sector_size,
            r.root.model() == (Node::Directory {
                name: Seq::<char>::empty(),
                children: Seq::<Node>::empty(),
                lba: None,
            }),
    {
        let name = String::new();
        let children: Vec<FsNode> = Vec::new();
        assert(layout_nodes(children@) =~= Seq::<Node>::empty());
        IsoLayout { sector_size, root: FsNode::Directory(FsDirectory { lba: None, name, children }) }
    }

    /// Assigns the addresses of the tree, the root at sector 20 and all
    /// below it after it, and returns the sector after the last.
    pub fn finalize(&mut self) -> (r: Result<u32, Error>)
        requires
            old(self).sector_size > 0,
        ensures
            final(self).sector_size == old(self).sector_size,
            match allocated(old(self).root.model(), 20, old(self).sector_size as int) {
                Ok((root, end)) => r == Ok::<u32, Error>(end as u32) && end <= u32::MAX && final(self).root.model() == root,
                Err(e) => r == Err::<u32, Error>(e),
            },
    {
        let mut allocator = LbaAllocator::new(self.sector_size as u32, 20);
        match self.root.allocate_lbas(&mut allocator) {
            Ok(()) => Ok(allocator.next_lba()),
            Err(e) => Err(e),
        }
    }

    /// Puts a file of `size` bytes at `path`, making the directories on the
    /// way. The path names at least the file, and the root is a directory.
    pub fn insert_file(&mut self, path: &str, size: usize)
        requires
            components(path@).len() > 0,
            old(self).root is Directory,
        ensures
            final(self).sector_size == old(self).sector_size,
            final(self).root.model() == (Node::Directory {
                name: old(self).root.model().name(),
                children: upsert(
                    layout_children(old(self).root.model()),
                    sized_spine(components(path@), size as nat, 0),
                ),
                lba: old(self).root.model().lba(),
            }),
    {
        let mut parts = split_path(path);
        let ghost all = names(parts@);
        let name = parts.pop().unwrap();
        assert(name@ == all[all.len() - 1]);
        let mut tail = FsNode::File(FsFile { lba: None, name, content: FileContentRef::FsFile(size) });
        assert(names(parts@) =~= all.subrange(0, parts@.len() as int));
        while parts.len() > 0
            invariant
                parts@.len() < all.len(),
                names(parts@) == all.subrange(0, parts@.len() as int),
                tail.model() == sized_spine(all, size as nat, parts@.len() as int),
            decreases parts@.len(),
        {
            let ghost k = parts@.len() - 1;
            let ghost held = parts@;
            let name = parts.pop().unwrap();
            assert(name@ == all[k]) by {
                assert(names(held)[k] == all.subrange(0, k + 1)[k]);
            }
            let mut children: Vec<FsNode> = Vec::new();
            children.push(tail);
            assert(layout_nodes(children@) =~= seq![sized_spine(all, size as nat, k + 1)]);
            tail = FsNode::Directory(FsDirectory { lba: None, name, children });
            assert(names(parts@) =~= all.subrange(0, k));
        }
        match &mut self.root {
            FsNode::Directory(directory) => {
                directory.insert(tail);
            },
            FsNode::File(_) => {},
        }
    }
}

} // verus!
