//! From a tree of files to sectors: the records that describe the entries,
//! the addresses that they get, and the bytes of their extents.

use crate::bytes::{array_of, lemma_array_of, zeros};
use crate::serialize::{record_extent, IsoSerialize, IsoSerializeError};
use crate::spec::{
    fit, DirectoryRecord, FileFlags, FileIdentifier, Identifier, NoExtension, NumericalDate,
};
use crate::writer::error::Error;
use crate::writer::fs::{
    nodes, DirectoryEntry, Entry, FileEntry, Node, RootDirectory, MAX_DIRECTORY_NAME,
    MAX_FILE_NAME,
};
use crate::writer::lba::{lemma_sectors_for, sectors_for, LbaAllocator};
use crate::writer::sector::{lemma_overlay_appends, SectorWriter};
use vstd::prelude::*;
use vstd::string::StrSliceExecFns;

verus! {

/// The byte that stands for the character `c` in an identifier: digits,
/// upper-case letters, the underscore and the dot stand for themselves,
/// lower-case letters for their upper case, everything else for an underscore.
pub open spec fn iso_byte(c: char) -> u8 {
    let v = c as u32;
    if (48 <= v <= 57) || (65 <= v <= 90) || v == 95 || v == 46 {
        v as u8
    } else if 97 <= v <= 122 {
        (v - 32) as u8
    } else {
        95u8
    }
}

pub fn to_iso_byte(c: char) -> (r: u8)
    ensures
        r == iso_byte(c),
{
    let v = c as u32;
    if (48 <= v && v <= 57) || (65 <= v && v <= 90) || v == 95 || v == 46 {
        v as u8
    } else if 97 <= v && v <= 122 {
        (v - 32) as u8
    } else {
        95
    }
}

/// How many characters of a name an identifier keeps.
pub open spec fn kept(name: Seq<char>, file: bool) -> int {
    let limit = if file {
        MAX_FILE_NAME as int
    } else {
        MAX_DIRECTORY_NAME as int
    };
    if name.len() > limit {
        limit
    } else {
        name.len() as int
    }
}

/// The identifier that stands for an entry called `name` in a directory
/// record: its characters as `iso_byte` gives them, cut to the longest name
/// there can be, and for a file the version `;1`.
pub open spec fn identifier(name: Seq<char>, file: bool) -> Seq<u8> {
    Seq::new(kept(name, file) as nat, |i: int| iso_byte(name[i])) + (if file {
        seq![0x3Bu8, 0x31u8]
    } else {
        Seq::<u8>::empty()
    })
}

/// Makes the identifier of an entry: the array that a record holds, and how
/// many of its bytes count.
pub fn make_identifier(name: &str, file: bool) -> (r: (FileIdentifier<32>, u8))
    ensures
        r.0.0@ == fit(identifier(name@, file), 32, 0),
        r.1 == identifier(name@, file).len(),
        r.1 <= 32,
        r.1 >= 1 ==> r.0.spec_canonical(r.1 as nat),
{
    let n = name.unicode_len();
    let limit = if file {
        MAX_FILE_NAME
    } else {
        MAX_DIRECTORY_NAME
    };
    let keep = if n > limit {
        limit
    } else {
        n
    };
    let mut bytes: [u8; 32] = [0u8; 32];
    let mut i: usize = 0;
    while i < keep
        invariant
            i <= keep,
            keep <= 31,
            keep == kept(name@, file),
            keep <= name@.len(),
            forall|j: int| 0 <= j < i ==> bytes@[j] == iso_byte(name@[j]),
            forall|j: int| i <= j < 32 ==> bytes@[j] == 0,
        decreases keep - i,
    {
        bytes[i] = to_iso_byte(name.get_char(i));
        i += 1;
    }
    let mut len = keep;
    if file {
        bytes[keep] = 0x3B;
        bytes[keep + 1] = 0x31;
        len = keep + 2;
    }
    assert(bytes@ =~= fit(identifier(name@, file), 32, 0));
    (FileIdentifier(bytes), len as u8)
}

/// How many bytes the record of an entry called `name` takes.
pub open spec fn record_len(name: Seq<char>, file: bool) -> int {
    record_extent(identifier(name, file).len() as int)
}

/// How many bytes the records of the first `k` of `children` take together.
pub open spec fn records_len(children: Seq<Node>, k: nat) -> int
    decreases k,
{
    if k == 0 || k > children.len() {
        0
    } else {
        records_len(children, (k - 1) as nat) + record_len(
            children[k - 1].name(),
            children[k - 1] is File,
        )
    }
}

/// How many bytes the extent of an entry holds: the bytes of a file, the
/// records of the children of a directory.
pub open spec fn extent_size(node: Node) -> int {
    match node {
        Node::File { content, .. } => content.len() as int,
        Node::Directory { children, .. } => records_len(children, children.len()),
    }
}

/// The record of an entry called `name`, a file or a directory, whose extent
/// of `size` bytes lies at `lba`. An extent that 32 bits cannot count is
/// given as of the length zero.
pub open spec fn described(
    name: Seq<char>,
    file: bool,
    lba: Option<u32>,
    size: int,
    now: NumericalDate,
) -> DirectoryRecord<NoExtension> {
    let id = identifier(name, file);
    DirectoryRecord {
        length: record_extent(id.len() as int) as u8,
        extended_attribute_length: 0,
        extent_location: match lba {
            Some(lba) => lba,
            None => 0,
        },
        data_length: if size <= u32::MAX {
            size as u32
        } else {
            0
        },
        recording_date: now,
        file_flags: FileFlags {
            bits: if file {
                0
            } else {
                FileFlags::DIRECTORY
            },
        },
        file_unit_size: 0,
        interleave_gap_size: 0,
        volume_sequence_number: 1,
        file_identifier_length: id.len() as u8,
        file_identifier: FileIdentifier(array_of::<32>(fit(id, 32, 0))),
    }
}

/// The record that describes an entry in its directory.
pub open spec fn record_of(node: Node, now: NumericalDate) -> DirectoryRecord<NoExtension> {
    described(node.name(), node is File, node.lba(), extent_size(node), now)
}

/// The sizes of the records of entries are sums of sizes of records.
pub proof fn lemma_records_len(children: Seq<Node>, k: nat)
    requires
        k <= children.len(),
    ensures
        0 <= records_len(children, k) <= 66 * k,
    decreases k,
{
    if k > 0 {
        lemma_records_len(children, (k - 1) as nat);
    }
}

/// How many bytes the records of `entries` take together, if 32 bits can
/// count them.
pub fn records_size(entries: &Vec<Entry>) -> (r: Option<u32>)
    ensures
        match r {
            Some(n) => n == records_len(nodes(entries@), entries@.len()),
            None => records_len(nodes(entries@), entries@.len()) > u32::MAX,
        },
{
    let ghost children = nodes(entries@);
    let n = entries.len();
    let mut total: u64 = 0;
    let mut i: usize = 0;
    while i < n
        invariant
            i <= n,
            n == entries@.len(),
            children == nodes(entries@),
            total == records_len(children, i as nat),
            total <= u32::MAX,
        decreases n - i,
    {
        let e = &entries[i];
        let chars = e.name().unicode_len();
        let file = e.is_file();
        let limit = if file {
            MAX_FILE_NAME
        } else {
            MAX_DIRECTORY_NAME
        };
        let keep = if chars > limit {
            limit
        } else {
            chars
        };
        let id: u64 = if file {
            keep as u64 + 2
        } else {
            keep as u64
        };
        let len: u64 = if id % 2 == 0 {
            34 + id
        } else {
            33 + id
        };
        assert(len == record_len(children[i as int].name(), children[i as int] is File));
        total = total + len;
        if total > u32::MAX as u64 {
            proof {
                let ghost m = (i + 1) as nat;
                lemma_records_grow(children, m, n as nat);
            }
            return None;
        }
        i += 1;
    }
    Some(total as u32)
}

/// More records take no fewer bytes.
pub proof fn lemma_records_grow(children: Seq<Node>, k: nat, n: nat)
    requires
        k <= n <= children.len(),
    ensures
        records_len(children, k) <= records_len(children, n),
    decreases n - k,
{
    if k < n {
        lemma_records_grow(children, k, (n - 1) as nat);
    }
}

impl Entry {
    /// Where the extent of the entry starts, once addresses are assigned.
    pub fn extent_lba(&self) -> (r: Option<u32>)
        ensures
            r == self.node().lba(),
    {
        match self {
            Entry::File(f) => f.extent_lba,
            Entry::Directory(d) => d.extent_lba,
        }
    }

    /// How many bytes the extent of the entry holds, if 32 bits can count them.
    pub fn extent_size(&self) -> (r: Option<u32>)
        ensures
            match r {
                Some(n) => n == extent_size(self.node()),
                None => extent_size(self.node()) > u32::MAX,
            },
    {
        match self {
            Entry::File(f) => {
                if f.content.len() > u32::MAX as usize {
                    None
                } else {
                    Some(f.content.len() as u32)
                }
            },
            Entry::Directory(d) => records_size(&d.entries),
        }
    }

    /// The record that describes the entry in its directory, dated `now`.
    pub fn descriptor(&self, now: NumericalDate) -> (r: DirectoryRecord<NoExtension>)
        ensures
            r == record_of(self.node(), now),
            self.node().name().len() > 0 ==> r.wf(),
    {
        describe(self.name(), self.is_file(), self.extent_lba(), self.extent_size(), now)
    }
}

/// Makes the record of an entry called `name`, a file or a directory, whose
/// extent lies at `lba` and holds `size` bytes, or more than 32 bits count
/// where `size` is none.
pub fn describe(name: &str, file: bool, lba: Option<u32>, size: Option<u32>, now: NumericalDate) -> (r:
    DirectoryRecord<NoExtension>)
    ensures
        r == described(
            name@,
            file,
            lba,
            match size {
                Some(n) => n as int,
                None => u32::MAX + 1,
            },
            now,
        ),
        name@.len() > 0 ==> r.wf(),
{
    let (file_identifier, file_identifier_length) = make_identifier(name, file);
    let length: u8 = if file_identifier_length % 2 == 0 {
        34 + file_identifier_length
    } else {
        33 + file_identifier_length
    };
    let data_length = match size {
        Some(n) => n,
        None => 0,
    };
    proof {
        lemma_array_of::<32>(file_identifier.0);
    }
    DirectoryRecord {
        length,
        extended_attribute_length: 0,
        extent_location: match lba {
            Some(lba) => lba,
            None => 0,
        },
        data_length,
        recording_date: now,
        file_flags: FileFlags::from_bits(
            if file {
                0
            } else {
                FileFlags::DIRECTORY
            },
        ),
        file_unit_size: 0,
        interleave_gap_size: 0,
        volume_sequence_number: 1,
        file_identifier_length,
        file_identifier,
    }
}

/// What keeps an entry, taken by itself, out of an image: a name without
/// characters, for which there is no identifier, or an extent that 32 bits
/// cannot count.
pub open spec fn problem(node: Node) -> Option<Error> {
    if node.name().len() == 0 {
        Some(
            Error::Serialize(
                IsoSerializeError::BadCharacter { field: "file_identifier_length", offset: 32 },
            ),
        )
    } else if extent_size(node) > u32::MAX {
        Some(
            if node is File {
                Error::FileTooLarge
            } else {
                Error::DirectoryTooLarge
            },
        )
    } else {
        None
    }
}

/// An entry with its address and those of all below it assigned, and the
/// cursor after them: the entry gets the sectors that hold its extent, then
/// each child in turn what it needs. The first entry in this order that
/// cannot be placed decides the error.
pub open spec fn assigned(node: Node, cursor: int, sector_size: int) -> Result<(Node, int), Error>
    decreases node, 0nat,
{
    match problem(node) {
        Some(e) => Err(e),
        None => {
            let next = cursor + sectors_for(extent_size(node), sector_size);
            if next > u32::MAX {
                Err(Error::AllocatorExhausted)
            } else {
                match node {
                    Node::File { name, content, .. } => Ok(
                        (Node::File { name, content, lba: Some(cursor as u32) }, next),
                    ),
                    Node::Directory { name, children, .. } => match assigned_first(
                        children,
                        next,
                        sector_size,
                        children.len(),
                    ) {
                        Ok((placed, end)) => Ok(
                            (
                                Node::Directory { name, children: placed, lba: Some(cursor as u32) },
                                end,
                            ),
                        ),
                        Err(e) => Err(e),
                    },
                }
            }
        },
    }
}

/// The first `k` of `children` with their addresses assigned one after the
/// other, and the cursor after them.
pub open spec fn assigned_first(children: Seq<Node>, cursor: int, sector_size: int, k: nat) -> Result<
    (Seq<Node>, int),
    Error,
>
    decreases children, k,
{
    if k == 0 || k > children.len() {
        Ok((Seq::<Node>::empty(), cursor))
    } else {
        match assigned_first(children, cursor, sector_size, (k - 1) as nat) {
            Err(e) => Err(e),
            Ok((placed, next)) => match assigned(children[k - 1], next, sector_size) {
                Ok((child, end)) => Ok((placed.push(child), end)),
                Err(e) => Err(e),
            },
        }
    }
}

/// Assigns the address of an entry and of all below it.
pub fn assign_entry(entry: &mut Entry, allocator: &mut LbaAllocator) -> (r: Result<(), Error>)
    requires
        old(allocator).wf(),
    ensures
        final(allocator).wf(),
        final(allocator).spec_sector_size() == old(allocator).spec_sector_size(),
        match assigned(
            old(entry).node(),
            old(allocator).spec_next_lba() as int,
            old(allocator).spec_sector_size() as int,
        ) {
            Ok((node, end)) => r is Ok && final(entry).node() == node && final(allocator).spec_next_lba() == end,
            Err(e) => r == Err::<(), Error>(e),
        },
    decreases *old(entry), 0nat,
{
    let ghost before = entry.node();
    if entry.name().unicode_len() == 0 {
        return Err(
            Error::Serialize(
                IsoSerializeError::BadCharacter { field: "file_identifier_length", offset: 32 },
            ),
        );
    }
    let size = match entry.extent_size() {
        Some(size) => size,
        None => {
            if entry.is_file() {
                return Err(Error::FileTooLarge);
            } else {
                return Err(Error::DirectoryTooLarge);
            }
        },
    };
    let lba = match allocator.allocate(size) {
        Ok(lba) => lba,
        Err(e) => {
            return Err(e);
        },
    };
    match entry {
        Entry::File(f) => {
            f.extent_lba = Some(lba);
            Ok(())
        },
        Entry::Directory(d) => {
            d.extent_lba = Some(lba);
            proof {
                assert(decreases_to!(*old(entry) => old(entry)->Directory_0));
                assert(decreases_to!(old(entry)->Directory_0 => old(entry)->Directory_0.entries));
            }
            assign_entries(&mut d.entries, allocator)
        },
    }
}

/// Assigns the addresses of `entries` and of all below them, one entry after
/// the other.
pub fn assign_entries(entries: &mut Vec<Entry>, allocator: &mut LbaAllocator) -> (r: Result<
    (),
    Error,
>)
    requires
        old(allocator).wf(),
    ensures
        final(allocator).wf(),
        final(allocator).spec_sector_size() == old(allocator).spec_sector_size(),
        match assigned_first(
            nodes(old(entries)@),
            old(allocator).spec_next_lba() as int,
            old(allocator).spec_sector_size() as int,
            old(entries)@.len(),
        ) {
            Ok((placed, end)) => r is Ok && nodes(final(entries)@) == placed && final(allocator).spec_next_lba() == end,
            Err(e) => r == Err::<(), Error>(e),
        },
    decreases *old(entries), 1nat,
{
    let ghost before = nodes(entries@);
    let ghost held = entries@;
    let ghost start = allocator.spec_next_lba() as int;
    let ghost ss = allocator.spec_sector_size() as int;
    let n = entries.len();
    let mut i: usize = 0;
    proof {
        assert(nodes(entries@).subrange(0, 0) =~= Seq::<Node>::empty());
    }
    while i < n
        invariant
            i <= n,
            n == held.len(),
            entries@.len() == n,
            held == old(entries)@,
            before == nodes(held),
            start == old(allocator).spec_next_lba(),
            ss == old(allocator).spec_sector_size(),
            allocator.wf(),
            allocator.spec_sector_size() == ss,
            forall|j: int| i <= j < n ==> entries@[j] == held[j],
            assigned_first(before, start, ss, i as nat) == Ok::<(Seq<Node>, int), Error>(
                (nodes(entries@).subrange(0, i as int), allocator.spec_next_lba() as int),
            ),
        decreases n - i,
    {
        let ghost done = nodes(entries@).subrange(0, i as int);
        let mut child = entries.remove(i);
        proof {
            assert(child == held[i as int]);
            assert(decreases_to!(*old(entries) => old(entries)@));
            assert(decreases_to!(old(entries)@ => old(entries)@[i as int]));
        }
        let r = assign_entry(&mut child, allocator);
        entries.insert(i, child);
        proof {
            assert(nodes(entries@).subrange(0, i as int) =~= done);
            assert(before[i as int] == held[i as int].node());
        }
        match r {
            Ok(()) => {
                proof {
                    assert(nodes(entries@).subrange(0, i + 1) =~= done.push(child.node()));
                }
            },
            Err(e) => {
                proof {
                    lemma_assigned_first_fails(before, start, ss, (i + 1) as nat, n as nat);
                }
                return Err(e);
            },
        }
        i += 1;
    }
    proof {
        assert(nodes(entries@).subrange(0, n as int) =~= nodes(entries@));
    }
    Ok(())
}

/// Once an entry cannot be placed, no longer run of entries can.
pub proof fn lemma_assigned_first_fails(
    children: Seq<Node>,
    cursor: int,
    sector_size: int,
    k: nat,
    n: nat,
)
    requires
        k <= n <= children.len(),
        assigned_first(children, cursor, sector_size, k) is Err,
    ensures
        assigned_first(children, cursor, sector_size, n) == assigned_first(
            children,
            cursor,
            sector_size,
            k,
        ),
    decreases n - k,
{
    if k < n {
        lemma_assigned_first_fails(children, cursor, sector_size, k, (n - 1) as nat);
    }
}

/// How many bytes of padding stand before a record of `len` bytes that
/// follows `used` bytes of records: none where it fits into what is left of
/// the sector, else what is left of the sector.
pub open spec fn padding_before(used: int, len: int, sector_size: int) -> int {
    if used % sector_size + len <= sector_size {
        0
    } else {
        sector_size - used % sector_size
    }
}

/// The records of the first `k` of `children`, one after the other, none
/// across a sector boundary; or the problem of the first child that has one;
/// or `DirectoryTooLarge` as soon as the records pass the `room` that the
/// directory has.
pub open spec fn packed(
    children: Seq<Node>,
    sector_size: int,
    now: NumericalDate,
    room: int,
    k: nat,
) -> Result<Seq<u8>, Error>
    decreases k,
{
    if k == 0 || k > children.len() {
        Ok(Seq::<u8>::empty())
    } else {
        match packed(children, sector_size, now, room, (k - 1) as nat) {
            Err(e) => Err(e),
            Ok(before) => match problem(children[k - 1]) {
                Some(e) => Err(e),
                None => {
                    let record = record_of(children[k - 1], now).spec_bytes();
                    let gap = padding_before(
                        before.len() as int,
                        record.len() as int,
                        sector_size,
                    );
                    if before.len() + gap + record.len() > room {
                        Err(Error::DirectoryTooLarge)
                    } else {
                        Ok(before + zeros(gap as nat) + record)
                    }
                },
            },
        }
    }
}

/// The room that a directory has for the records of `children`: the sectors
/// that hold as many bytes as the records have.
pub open spec fn room_for(children: Seq<Node>, sector_size: int) -> int {
    sectors_for(records_len(children, children.len()), sector_size) * sector_size
}

/// The extent of a directory with these children: their records, and zeros
/// up to the end of its room. Records that 32 bits cannot count have none.
pub open spec fn directory_extent(children: Seq<Node>, sector_size: int, now: NumericalDate) -> Result<
    Seq<u8>,
    Error,
> {
    let room = room_for(children, sector_size);
    if records_len(children, children.len()) > u32::MAX {
        Err(Error::DirectoryTooLarge)
    } else {
        match packed(children, sector_size, now, room, children.len()) {
            Ok(records) => Ok(records + zeros((room - records.len()) as nat)),
            Err(e) => Err(e),
        }
    }
}

/// The extent of a file with these bytes: the bytes, and zeros up to the end
/// of the last sector.
pub open spec fn file_extent(content: Seq<u8>, sector_size: int) -> Seq<u8> {
    content + zeros(
        (sectors_for(content.len() as int, sector_size) * sector_size - content.len()) as nat,
    )
}

/// The sectors of an entry and of all below it, in the order in which
/// addresses are assigned: the extent of the entry, then what each child
/// takes in turn. The first entry in the order of writing that cannot be
/// written decides the error.
pub open spec fn extents(node: Node, sector_size: int, now: NumericalDate) -> Result<Seq<u8>, Error>
    decreases node, 0nat,
{
    match problem(node) {
        Some(e) => Err(e),
        None => match node {
            Node::File { content, .. } => Ok(file_extent(content, sector_size)),
            Node::Directory { children, .. } => tree_extents(children, sector_size, now),
        },
    }
}

/// The sectors of a directory with these children and of all below it.
pub open spec fn tree_extents(children: Seq<Node>, sector_size: int, now: NumericalDate) -> Result<
    Seq<u8>,
    Error,
>
    decreases children, children.len() + 1,
{
    match directory_extent(children, sector_size, now) {
        Err(e) => Err(e),
        Ok(own) => match extents_first(children, sector_size, now, children.len()) {
            Ok(below) => Ok(own + below),
            Err(e) => Err(e),
        },
    }
}

/// The sectors of the first `k` of `children` and of all below them.
pub open spec fn extents_first(children: Seq<Node>, sector_size: int, now: NumericalDate, k: nat) -> Result<
    Seq<u8>,
    Error,
>
    decreases children, k,
{
    if k == 0 || k > children.len() {
        Ok(Seq::<u8>::empty())
    } else {
        match extents_first(children, sector_size, now, (k - 1) as nat) {
            Err(e) => Err(e),
            Ok(before) => match extents(children[k - 1], sector_size, now) {
                Ok(own) => Ok(before + own),
                Err(e) => Err(e),
            },
        }
    }
}

/// Appends `n` zero bytes.
pub fn push_zeros(out: &mut Vec<u8>, n: u64)
    ensures
        final(out)@ == old(out)@ + zeros(n as nat),
{
    let mut i: u64 = 0;
    assert(out@ =~= old(out)@ + zeros(0));
    while i < n
        invariant
            i <= n,
            out@ == old(out)@ + zeros(i as nat),
        decreases n - i,
    {
        out.push(0);
        assert(out@ =~= old(out)@ + zeros((i + 1) as nat));
        i += 1;
    }
}

/// Once the records cannot be written, no longer run of them can.
pub proof fn lemma_packed_fails(
    children: Seq<Node>,
    sector_size: int,
    now: NumericalDate,
    room: int,
    k: nat,
    n: nat,
)
    requires
        k <= n <= children.len(),
        packed(children, sector_size, now, room, k) is Err,
    ensures
        packed(children, sector_size, now, room, n) == packed(children, sector_size, now, room, k),
    decreases n - k,
{
    if k < n {
        lemma_packed_fails(children, sector_size, now, room, k, (n - 1) as nat);
    }
}

/// Appends the extent of a directory with the entries `entries`.
pub fn emit_records(out: &mut Vec<u8>, entries: &Vec<Entry>, sector_size: u32, now: NumericalDate) -> (r:
    Result<(), Error>)
    requires
        sector_size >= 2048,
    ensures
        match directory_extent(nodes(entries@), sector_size as int, now) {
            Ok(bytes) => r is Ok && final(out)@ == old(out)@ + bytes,
            Err(e) => r == Err::<(), Error>(e),
        },
{
    let ghost children = nodes(entries@);
    let ghost ss = sector_size as int;
    let n = entries.len();
    proof {
        lemma_records_len(children, n as nat);
        lemma_sectors_for(records_len(children, n as nat), ss);
    }
    let size: u64 = match records_size(entries) {
        Some(size) => size as u64,
        None => {
            return Err(Error::DirectoryTooLarge);
        },
    };
    let sectors: u64 = size / (sector_size as u64) + (if size % (sector_size as u64) == 0 {
        0
    } else {
        1
    });
    let room: u64 = sectors * (sector_size as u64);
    let ghost base = out@;
    let mut written: u64 = 0;
    let mut buf: Vec<u8> = Vec::new();
    push_zeros(&mut buf, 66);
    let mut k: usize = 0;
    assert(out@ =~= base + Seq::<u8>::empty());
    while k < n
        invariant
            k <= n,
            n == entries@.len(),
            children == nodes(entries@),
            ss == sector_size as int,
            sector_size >= 2048,
            room == room_for(children, ss),
            room < 0x2_0000_0000,
            records_len(children, n as nat) <= u32::MAX,
            buf@.len() == 66,
            written <= room,
            packed(children, ss, now, room as int, k as nat) is Ok,
            written == packed(children, ss, now, room as int, k as nat).unwrap().len(),
            out@ == base + packed(children, ss, now, room as int, k as nat).unwrap(),
        decreases n - k,
    {
        let ghost before = packed(children, ss, now, room as int, k as nat).unwrap();
        let e = &entries[k];
        assert(children[k as int] == e.node());
        if e.name().unicode_len() == 0 {
            proof {
                assert(problem(children[k as int]) is Some);
                assert(packed(children, ss, now, room as int, (k + 1) as nat) is Err);
                lemma_packed_fails(children, ss, now, room as int, (k + 1) as nat, n as nat);
            }
            return Err(
                Error::Serialize(
                    IsoSerializeError::BadCharacter { field: "file_identifier_length", offset: 32 },
                ),
            );
        }
        if e.extent_size().is_none() {
            proof {
                assert(problem(children[k as int]) is Some);
                assert(packed(children, ss, now, room as int, (k + 1) as nat) is Err);
                lemma_packed_fails(children, ss, now, room as int, (k + 1) as nat, n as nat);
            }
            if e.is_file() {
                return Err(Error::FileTooLarge);
            } else {
                return Err(Error::DirectoryTooLarge);
            }
        }
        let record = e.descriptor(now);
        proof {
            record.lemma_extent();
        }
        let len = match record.serialize(buf.as_mut_slice()) {
            Ok(len) => len as u64,
            Err(_) => {
                proof {
                    assert(false);
                }
                return Err(Error::DirectoryTooLarge);
            },
        };
        let used = written % (sector_size as u64);
        let gap: u64 = if used + len <= sector_size as u64 {
            0
        } else {
            sector_size as u64 - used
        };
        if written + gap + len > room {
            proof {
                assert(packed(children, ss, now, room as int, (k + 1) as nat) is Err);
                lemma_packed_fails(children, ss, now, room as int, (k + 1) as nat, n as nat);
            }
            return Err(Error::DirectoryTooLarge);
        }
        push_zeros(out, gap);
        out.extend_from_slice(vstd::slice::slice_subrange(buf.as_slice(), 0, len as usize));
        proof {
            assert(buf@.subrange(0, len as int) =~= record.spec_bytes());
            assert(out@ =~= base + (before + zeros(gap as nat) + record.spec_bytes()));
        }
        written = written + gap + len;
        k += 1;
    }
    push_zeros(out, room - written);
    proof {
        let records = packed(children, ss, now, room as int, n as nat).unwrap();
        assert(out@ =~= base + (records + zeros((room - records.len()) as nat)));
    }
    Ok(())
}

/// Once an entry cannot be written, no longer run of entries can.
pub proof fn lemma_extents_first_fails(
    children: Seq<Node>,
    sector_size: int,
    now: NumericalDate,
    k: nat,
    n: nat,
)
    requires
        k <= n <= children.len(),
        extents_first(children, sector_size, now, k) is Err,
    ensures
        extents_first(children, sector_size, now, n) == extents_first(
            children,
            sector_size,
            now,
            k,
        ),
    decreases n - k,
{
    if k < n {
        lemma_extents_first_fails(children, sector_size, now, k, (n - 1) as nat);
    }
}

/// Appends the sectors of an entry and of all below it.
pub fn emit_entry(out: &mut Vec<u8>, entry: &Entry, sector_size: u32, now: NumericalDate) -> (r:
    Result<(), Error>)
    requires
        sector_size >= 2048,
    ensures
        match extents(entry.node(), sector_size as int, now) {
            Ok(bytes) => r is Ok && final(out)@ == old(out)@ + bytes,
            Err(e) => r == Err::<(), Error>(e),
        },
    decreases entry, 0nat,
{
    if entry.name().unicode_len() == 0 {
        return Err(
            Error::Serialize(
                IsoSerializeError::BadCharacter { field: "file_identifier_length", offset: 32 },
            ),
        );
    }
    match entry {
        Entry::File(f) => {
            let len = f.content.len();
            if len > u32::MAX as usize {
                return Err(Error::FileTooLarge);
            }
            proof {
                lemma_sectors_for(len as int, sector_size as int);
            }
            let size = len as u64;
            let sectors: u64 = size / (sector_size as u64) + (if size % (sector_size as u64) == 0 {
                0
            } else {
                1
            });
            let room: u64 = sectors * (sector_size as u64);
            out.extend_from_slice(f.content.as_slice());
            push_zeros(out, room - size);
            Ok(())
        },
        Entry::Directory(d) => {
            if records_size(&d.entries).is_none() {
                return Err(Error::DirectoryTooLarge);
            }
            proof {
                assert(decreases_to!(entry => d));
                assert(decreases_to!(d => d.entries));
            }
            emit_tree(out, &d.entries, sector_size, now)
        },
    }
}

/// Appends the sectors of a directory with the entries `entries`: its own
/// extent, then what each entry takes in turn.
pub fn emit_tree(out: &mut Vec<u8>, entries: &Vec<Entry>, sector_size: u32, now: NumericalDate) -> (r:
    Result<(), Error>)
    requires
        sector_size >= 2048,
    ensures
        match tree_extents(nodes(entries@), sector_size as int, now) {
            Ok(bytes) => r is Ok && final(out)@ == old(out)@ + bytes,
            Err(e) => r == Err::<(), Error>(e),
        },
    decreases entries, 1nat,
{
    let ghost children = nodes(entries@);
    let ghost ss = sector_size as int;
    let ghost base = out@;
    match emit_records(out, entries, sector_size, now) {
        Ok(()) => {},
        Err(e) => {
            return Err(e);
        },
    }
    let ghost own = directory_extent(children, ss, now).unwrap();
    let n = entries.len();
    let mut k: usize = 0;
    assert(out@ =~= base + own + Seq::<u8>::empty());
    while k < n
        invariant
            k <= n,
            n == entries@.len(),
            children == nodes(entries@),
            ss == sector_size as int,
            sector_size >= 2048,
            directory_extent(children, ss, now) == Ok::<Seq<u8>, Error>(own),
            extents_first(children, ss, now, k as nat) is Ok,
            out@ == base + own + extents_first(children, ss, now, k as nat).unwrap(),
        decreases n - k,
    {
        let ghost before = extents_first(children, ss, now, k as nat).unwrap();
        proof {
            assert(children[k as int] == entries@[k as int].node());
            assert(decreases_to!(entries => entries@));
            assert(decreases_to!(entries@ => entries@[k as int]));
        }
        match emit_entry(out, &entries[k], sector_size, now) {
            Ok(()) => {
                proof {
                    let mine = extents(children[k as int], ss, now).unwrap();
                    assert(out@ =~= base + own + (before + mine));
                }
            },
            Err(e) => {
                proof {
                    assert(extents_first(children, ss, now, (k + 1) as nat) is Err);
                    lemma_extents_first_fails(children, ss, now, (k + 1) as nat, n as nat);
                }
                return Err(e);
            },
        }
        k += 1;
    }
    proof {
        let below = extents_first(children, ss, now, n as nat).unwrap();
        assert(out@ =~= base + (own + below));
    }
    Ok(())
}

/// Where the record of the child `j` starts among the packed records: after
/// the records before it and the padding that keeps it from crossing a sector
/// boundary.
pub open spec fn record_start(
    children: Seq<Node>,
    sector_size: int,
    now: NumericalDate,
    room: int,
    j: nat,
) -> int {
    let before = packed(children, sector_size, now, room, j).unwrap();
    before.len() + padding_before(
        before.len() as int,
        record_of(children[j as int], now).spec_bytes().len() as int,
        sector_size,
    )
}

/// Records that were packed are a prefix of what more records pack to.
pub proof fn lemma_packed_prefix(
    children: Seq<Node>,
    sector_size: int,
    now: NumericalDate,
    room: int,
    k: nat,
    n: nat,
)
    requires
        k <= n <= children.len(),
        packed(children, sector_size, now, room, n) is Ok,
    ensures
        packed(children, sector_size, now, room, k) is Ok,
        packed(children, sector_size, now, room, k).unwrap().len() <= packed(
            children,
            sector_size,
            now,
            room,
            n,
        ).unwrap().len(),
        packed(children, sector_size, now, room, n).unwrap().subrange(
            0,
            packed(children, sector_size, now, room, k).unwrap().len() as int,
        ) == packed(children, sector_size, now, room, k).unwrap(),
    decreases n - k,
{
    let all = packed(children, sector_size, now, room, n).unwrap();
    if k < n {
        lemma_packed_prefix(children, sector_size, now, room, k, (n - 1) as nat);
        let shorter = packed(children, sector_size, now, room, (n - 1) as nat).unwrap();
        let mine = packed(children, sector_size, now, room, k).unwrap();
        assert(all.subrange(0, shorter.len() as int) =~= shorter);
        assert(all.subrange(0, mine.len() as int) =~= shorter.subrange(0, mine.len() as int));
    } else {
        assert(all.subrange(0, all.len() as int) =~= all);
    }
}

/// In the extent of a directory no record crosses a sector boundary: the
/// record of every child lies where `record_start` says, and starts in the
/// sector that its last byte is in.
pub proof fn lemma_no_record_crosses(
    children: Seq<Node>,
    sector_size: int,
    now: NumericalDate,
    room: int,
    j: nat,
)
    requires
        j < children.len(),
        sector_size >= 2048,
        packed(children, sector_size, now, room, children.len()) is Ok,
    ensures
        ({
            let all = packed(children, sector_size, now, room, children.len()).unwrap();
            let record = record_of(children[j as int], now).spec_bytes();
            let start = record_start(children, sector_size, now, room, j);
            &&& 0 <= start
            &&& start + record.len() <= all.len()
            &&& all.subrange(start, start + record.len()) == record
            &&& start / sector_size == (start + record.len() - 1) / sector_size
        }),
{
    let n = children.len();
    let all = packed(children, sector_size, now, room, n).unwrap();
    let record = record_of(children[j as int], now).spec_bytes();
    lemma_packed_prefix(children, sector_size, now, room, j, n);
    lemma_packed_prefix(children, sector_size, now, room, (j + 1) as nat, n);
    let before = packed(children, sector_size, now, room, j).unwrap();
    let after = packed(children, sector_size, now, room, (j + 1) as nat).unwrap();
    record_of(children[j as int], now).lemma_extent();
    let len = record.len() as int;
    let used = before.len() as int % sector_size;
    let gap = padding_before(before.len() as int, len, sector_size);
    let start = before.len() + gap;
    assert(after == before + zeros(gap as nat) + record);
    assert(after.subrange(start, start + len) =~= record);
    assert(all.subrange(start, start + len) =~= all.subrange(0, after.len() as int).subrange(
        start,
        start + len,
    ));
    let q = before.len() as int / sector_size;
    vstd::arithmetic::div_mod::lemma_fundamental_div_mod(before.len() as int, sector_size);
    assert(before.len() == sector_size * q + used);
    assert(0 <= used < sector_size);
    if used + len <= sector_size {
        vstd::arithmetic::div_mod::lemma_fundamental_div_mod_converse(
            start,
            sector_size,
            q,
            used,
        );
        vstd::arithmetic::div_mod::lemma_fundamental_div_mod_converse(
            start + len - 1,
            sector_size,
            q,
            used + len - 1,
        );
    } else {
        assert(start == (q + 1) * sector_size) by (nonlinear_arith)
            requires
                start == sector_size * q + used + (sector_size - used),
        ;
        vstd::arithmetic::div_mod::lemma_fundamental_div_mod_converse(
            start,
            sector_size,
            q + 1,
            0,
        );
        vstd::arithmetic::div_mod::lemma_fundamental_div_mod_converse(
            start + len - 1,
            sector_size,
            q + 1,
            len - 1,
        );
    }
}

} // verus!
