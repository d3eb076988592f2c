//! What the entries of a tree have in common: a place in the image, once
//! they were given one, and a record that describes them.

use crate::reader::root_as_record;
use crate::spec::{DirectoryRecord, NoExtension, NumericalDate};
use crate::writer::error::Error;
use crate::writer::fs::{nodes, upsert, upsert_into, DirectoryEntry, Entry, FileEntry, Node, RootDirectory};
use crate::writer::layout::{assign_entries, record_of, records_size};
use crate::writer::lba::LbaAllocator;
use crate::writer::volume::assigned_root;
use vstd::prelude::*;

verus! {

/// What has an extent in the image and a record that says where.
pub trait EntryLike: Sized {
    /// Where the extent starts, once it has an address.
    spec fn spec_extent_lba(&self) -> Option<u32>;

    /// The same at the address `lba`.
    spec fn spec_at(&self, lba: u32) -> Self;

    /// The record that describes it, dated `now`.
    spec fn spec_descriptor(&self, now: NumericalDate) -> DirectoryRecord<NoExtension>;

    fn extent_lba(&self) -> (r: Option<u32>)
        ensures
            r == self.spec_extent_lba(),
    ;

    fn set_extent_lba(&mut self, lba: u32)
        ensures
            *final(self) == old(self).spec_at(lba),
    ;

    fn descriptor(&self, now: NumericalDate) -> (r: DirectoryRecord<NoExtension>)
        ensures
            r == self.spec_descriptor(now),
    ;
}

/// What holds entries.
pub trait DirectoryLike: EntryLike {
    /// What the entries are.
    spec fn spec_children(&self) -> Seq<Node>;

    /// Puts `entry` among the entries: a file takes the place of the file
    /// of its name, a directory is merged into the directory of its name,
    /// and what finds none of its kind and name comes last.
    fn upsert(&mut self, entry: Entry)
        ensures
            final(self).spec_children() == upsert(old(self).spec_children(), entry.node()),
            final(self).spec_extent_lba() == old(self).spec_extent_lba(),
    ;

    /// Assigns the address of the directory and of all below it: the
    /// directory gets the next sectors, then its entries in their order, each
    /// followed by what lies below it.
    fn assign_extent_lbas(&mut self, allocator: &mut LbaAllocator) -> (r: Result<(), Error>)
        requires
            old(allocator).wf(),
        ensures
            final(allocator).wf(),
            final(allocator).spec_sector_size() == old(allocator).spec_sector_size(),
            match assigned_root(
                old(self).spec_children(),
                old(allocator).spec_next_lba() as int,
                old(allocator).spec_sector_size() as int,
            ) {
                Ok((placed, end)) => {
                    &&& r is Ok
                    &&& final(self).spec_extent_lba() == Some(old(allocator).spec_next_lba())
                    &&& final(self).spec_children() == placed
                    &&& final(allocator).spec_next_lba() == end
                },
                Err(e) => r == Err::<(), Error>(e),
            },
    ;
}

impl FileEntry {
    /// What the file is.
    pub open spec fn node(&self) -> Node {
        Node::File { name: self.name@, content: self.content@, lba: self.extent_lba }
    }
}

impl DirectoryEntry {
    /// What the directory is.
    pub open spec fn node(&self) -> Node {
        Node::Directory { name: self.name@, children: nodes(self.entries@), lba: self.extent_lba }
    }
}

impl EntryLike for FileEntry {
    open spec fn spec_extent_lba(&self) -> Option<u32> {
        self.extent_lba
    }

    open spec fn spec_at(&self, lba: u32) -> Self {
        FileEntry { extent_lba: Some(lba), name: self.name, content: self.content }
    }

    open spec fn spec_descriptor(&self, now: NumericalDate) -> DirectoryRecord<NoExtension> {
        record_of(self.node(), now)
    }

    fn extent_lba(&self) -> (r: Option<u32>) {
        self.extent_lba
    }

    fn set_extent_lba(&mut self, lba: u32) {
        self.extent_lba = Some(lba);
    }

    fn descriptor(&self, now: NumericalDate) -> (r: DirectoryRecord<NoExtension>) {
        let content: &[u8] = self.content.as_slice();
        crate::writer::layout::describe(self.name.as_str(), true, self.extent_lba, file_size(content), now)
    }
}

/// How many bytes a file holds, as far as 32 bits count them.
fn file_size(content: &[u8]) -> (r: Option<u32>)
    ensures
        match r {
            Some(n) => n == content@.len(),
            None => content@.len() > u32::MAX,
        },
{
    if content.len() > u32::MAX as usize {
        None
    } else {
        Some(content.len() as u32)
    }
}

impl EntryLike for DirectoryEntry {
    open spec fn spec_extent_lba(&self) -> Option<u32> {
        self.extent_lba
    }

    open spec fn spec_at(&self, lba: u32) -> Self {
        DirectoryEntry { extent_lba: Some(lba), name: self.name, entries: self.entries }
    }

    open spec fn spec_descriptor(&self, now: NumericalDate) -> DirectoryRecord<NoExtension> {
        record_of(self.node(), now)
    }

    fn extent_lba(&self) -> (r: Option<u32>) {
        self.extent_lba
    }

    fn set_extent_lba(&mut self, lba: u32) {
        self.extent_lba = Some(lba);
    }

    fn descriptor(&self, now: NumericalDate) -> (r: DirectoryRecord<NoExtension>) {
        crate::writer::layout::describe(
            self.name.as_str(),
            false,
            self.extent_lba,
            records_size(&self.entries),
            now,
        )
    }
}

impl DirectoryLike for DirectoryEntry {
    open spec fn spec_children(&self) -> Seq<Node> {
        nodes(self.entries@)
    }

    fn upsert(&mut self, entry: Entry) {
        upsert_into(&mut self.entries, entry);
    }

    fn assign_extent_lbas(&mut self, allocator: &mut LbaAllocator) -> (r: Result<(), Error>) {
        let size = match records_size(&self.entries) {
            Some(size) => size,
            None => {
                return Err(Error::DirectoryTooLarge);
            },
        };
        let lba = match allocator.allocate(size) {
            Ok(lba) => lba,
            Err(e) => {
                return Err(e);
            },
        };
        self.extent_lba = Some(lba);
        assign_entries(&mut self.entries, allocator)
    }
}

impl EntryLike for Entry {
    open spec fn spec_extent_lba(&self) -> Option<u32> {
        self.node().lba()
    }

    open spec fn spec_at(&self, lba: u32) -> Self {
        match self {
            Entry::File(f) => Entry::File(f.spec_at(lba)),
            Entry::Directory(d) => Entry::Directory(d.spec_at(lba)),
        }
    }

    open spec fn spec_descriptor(&self, now: NumericalDate) -> DirectoryRecord<NoExtension> {
        record_of(self.node(), now)
    }

    fn extent_lba(&self) -> (r: Option<u32>) {
        Entry::extent_lba(self)
    }

    fn set_extent_lba(&mut self, lba: u32) {
        match self {
            Entry::File(f) => f.set_extent_lba(lba),
            Entry::Directory(d) => d.set_extent_lba(lba),
        }
    }

    fn descriptor(&self, now: NumericalDate) -> (r: DirectoryRecord<NoExtension>) {
        Entry::descriptor(self, now)
    }
}

impl EntryLike for RootDirectory {
    open spec fn spec_extent_lba(&self) -> Option<u32> {
        self.extent_lba
    }

    open spec fn spec_at(&self, lba: u32) -> Self {
        RootDirectory { extent_lba: Some(lba), entries: self.entries }
    }

    /// The record of the root as a directory holds it of itself: of 34
    /// bytes, with the identifier of one zero byte.
    open spec fn spec_descriptor(&self, now: NumericalDate) -> DirectoryRecord<NoExtension> {
        root_as_record::<NoExtension>(self.spec_root_descriptor(now))
    }

    fn extent_lba(&self) -> (r: Option<u32>) {
        self.extent_lba
    }

    fn set_extent_lba(&mut self, lba: u32) {
        self.extent_lba = Some(lba);
    }

    fn descriptor(&self, now: NumericalDate) -> (r: DirectoryRecord<NoExtension>) {
        let root = self.root_descriptor(now);
        crate::reader::root_record::<NoExtension>(&root)
    }
}

impl DirectoryLike for RootDirectory {
    open spec fn spec_children(&self) -> Seq<Node> {
        nodes(self.entries@)
    }

    fn upsert(&mut self, entry: Entry) {
        RootDirectory::upsert(self, entry)
    }

    fn assign_extent_lbas(&mut self, allocator: &mut LbaAllocator) -> (r: Result<(), Error>) {
        RootDirectory::assign_extent_lbas(self, allocator)
    }
}

} // verus!
