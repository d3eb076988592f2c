//! Directories of the in-memory model of an image, and the entries that
//! stand for them and for files in a directory extent.

use crate::bytes::{
    get_u32_le, put_bytes, put_fill, put_u16_both, put_u32_both, put_u8, u16_both, u32_both,
    u32_from_le, zeros,
};
use crate::error::Error;
use crate::file::{now_seconds, File};
use crate::serialize::lemma_written;
use crate::utils::{
    find_string_end, from_utf8_lossy, parse_recording_date, recording_bytes, recording_seconds,
    string_end, utf8_lossy, write_recording_date,
};
use crate::writer::layout::{iso_byte, push_zeros, to_iso_byte};
use crate::writer::sector::{overlay, write_at};
use vstd::prelude::*;
use vstd::slice::slice_subrange;
use vstd::string::StrSliceExecFns;

verus! {

/// The flags of an entry, by the bit that each has.
#[derive(Debug, Clone, Copy, PartialEq, Eq)]
pub enum DirectoryEntryFlag {
    Hidden,
    Directory,
    AssociatedFile,
    Record,
    Protection,
    MultiExtent,
}

impl DirectoryEntryFlag {
    /// The bit of the flag.
    pub open spec fn spec_bit(self) -> u8 {
        match self {
            DirectoryEntryFlag::Hidden => 0x01,
            DirectoryEntryFlag::Directory => 0x02,
            DirectoryEntryFlag::AssociatedFile => 0x04,
            DirectoryEntryFlag::Record => 0x08,
            DirectoryEntryFlag::Protection => 0x10,
            DirectoryEntryFlag::MultiExtent => 0x80,
        }
    }

    pub fn bit(self) -> (r: u8)
        ensures
            r == self.spec_bit(),
    {
        match self {
            DirectoryEntryFlag::Hidden => 0x01,
            DirectoryEntryFlag::Directory => 0x02,
            DirectoryEntryFlag::AssociatedFile => 0x04,
            DirectoryEntryFlag::Record => 0x08,
            DirectoryEntryFlag::Protection => 0x10,
            DirectoryEntryFlag::MultiExtent => 0x80,
        }
    }
}

/// What an entry holds.
pub struct EntryModel {
    pub name: Seq<char>,
    pub flags: u8,
    pub extent_location: u32,
    pub extent_size: u32,
    /// Seconds since the start of 1970.
    pub recording_time: u64,
}

impl EntryModel {
    /// Whether the directory bit of the flags is set.
    pub open spec fn is_directory(self) -> bool {
        self.flags & 0x02 != 0
    }
}

/// An entry of a directory: what a directory record says of a file or of a
/// directory.
#[derive(Debug, Clone, PartialEq, Eq)]
pub struct DirectoryEntry {
    name: String,
    flags: u8,
    extent_location: u32,
    extent_size: u32,
    recording_time: u64,
}

/// `.`, the name of a directory in itself.
pub open spec fn dot() -> Seq<char> {
    seq!['.']
}

/// `..`, the name of the parent of a directory.
pub open spec fn dotdot() -> Seq<char> {
    seq!['.', '.']
}

/// The identifier that stands for an entry on disk: the byte 0 for the
/// directory `.`, the byte 1 for the directory `..`, else the characters of
/// its name as `iso_byte` gives them, and for a file the version `;1`.
pub open spec fn entry_identifier(entry: EntryModel) -> Seq<u8> {
    if entry.is_directory() && entry.name == dot() {
        seq![0u8]
    } else if entry.is_directory() && entry.name == dotdot() {
        seq![1u8]
    } else {
        Seq::new(entry.name.len(), |i: int| iso_byte(entry.name[i])) + (if entry.is_directory() {
            Seq::<u8>::empty()
        } else {
            seq![0x3Bu8, 0x31u8]
        })
    }
}

/// How many bytes the record of an entry takes: 33, its identifier, and one
/// more where that makes the number even.
pub open spec fn entry_record_size(entry: EntryModel) -> int {
    let plain = 33 + entry_identifier(entry).len() as int;
    if plain % 2 == 1 {
        plain + 1
    } else {
        plain
    }
}

/// The record of an entry: its own length, the place and the size of the
/// extent as dual-endian numbers, the date of recording, the flags, the
/// volume sequence number 1 and the identifier; zeros where nothing is said.
pub open spec fn entry_bytes(entry: EntryModel) -> Seq<u8> {
    let id = entry_identifier(entry);
    seq![entry_record_size(entry) as u8] + seq![0u8] + u32_both(entry.extent_location) + u32_both(
        entry.extent_size,
    ) + recording_bytes(entry.recording_time as int) + seq![entry.flags] + zeros(2) + u16_both(1)
        + seq![id.len() as u8] + id + zeros((entry_record_size(entry) - 33 - id.len()) as nat)
}

/// The text of a string field: that of its bytes without the zero bytes
/// and spaces at its end.
pub open spec fn iso_string(bytes: Seq<u8>) -> Seq<char> {
    utf8_lossy(bytes.subrange(0, string_end(bytes)))
}

/// The three decimal digits, or fewer, that stand for `b`.
pub open spec fn byte_text(b: u8) -> Seq<char> {
    if b >= 100 {
        seq![(48 + b / 100) as char, (48 + (b / 10) % 10) as char, (48 + b % 10) as char]
    } else if b >= 10 {
        seq![(48 + b / 10) as char, (48 + b % 10) as char]
    } else {
        seq![(48 + b) as char]
    }
}

/// `UNKNOWN_`, what the name of a directory starts with whose identifier is
/// a single byte that is neither 0 nor 1.
pub open spec fn unknown() -> Seq<char> {
    seq!['U', 'N', 'K', 'N', 'O', 'W', 'N', '_']
}

/// The name that the record in `buffer` gives its entry: `.` or `..` for a
/// directory whose identifier is the byte 0 or 1, `UNKNOWN_` and the byte in
/// decimal for one whose identifier is another single byte; else the text of
/// the identifier, without the version `;1` where it ends in it.
pub open spec fn entry_name(buffer: Seq<u8>) -> Seq<char> {
    let len = buffer[32] as int;
    let raw = buffer.subrange(33, 33 + len);
    if buffer[25] & 0x02 != 0 && len == 1 {
        if buffer[33] == 0 {
            dot()
        } else if buffer[33] == 1 {
            dotdot()
        } else {
            unknown() + byte_text(buffer[33])
        }
    } else if len >= 2 && raw[len - 2] == 0x3B && raw[len - 1] == 0x31 {
        iso_string(raw.subrange(0, len - 2))
    } else {
        iso_string(raw)
    }
}

/// The entry that the record at the front of `buffer` stands for, if there
/// is one: a record has at least 33 bytes, as many as its first byte says
/// and no more than the buffer has, and holds its identifier. Of a
/// dual-endian number the little-endian half counts; a date that names no
/// moment since 1970 counts as the start of 1970.
pub open spec fn parsed_entry(buffer: Seq<u8>) -> Option<EntryModel> {
    if buffer.len() < 33 || buffer[0] < 33 || buffer[0] > buffer.len() || 33 + buffer[32]
        > buffer[0] {
        None
    } else {
        Some(
            EntryModel {
                name: entry_name(buffer),
                flags: buffer[25],
                extent_location: u32_from_le(buffer.subrange(2, 6)),
                extent_size: u32_from_le(buffer.subrange(10, 14)),
                recording_time: match recording_seconds(buffer.subrange(18, 25)) {
                    Some(s) => s as u64,
                    None => 0,
                },
            },
        )
    }
}

fn digit_text(d: u8) -> (r: &'static str)
    requires
        d <= 9,
    ensures
        r@ == seq![(48 + d) as char],
{
    proof {
        reveal_strlit("0");
        reveal_strlit("1");
        reveal_strlit("2");
        reveal_strlit("3");
        reveal_strlit("4");
        reveal_strlit("5");
        reveal_strlit("6");
        reveal_strlit("7");
        reveal_strlit("8");
        reveal_strlit("9");
    }
    let r = if d == 0 {
        "0"
    } else if d == 1 {
        "1"
    } else if d == 2 {
        "2"
    } else if d == 3 {
        "3"
    } else if d == 4 {
        "4"
    } else if d == 5 {
        "5"
    } else if d == 6 {
        "6"
    } else if d == 7 {
        "7"
    } else if d == 8 {
        "8"
    } else {
        "9"
    };
    assert(r@ =~= seq![(48 + d) as char]);
    r
}

/// The name of a directory whose identifier is the single byte `b`.
fn unknown_name(b: u8) -> (r: String)
    ensures
        r@ == unknown() + byte_text(b),
{
    proof {
        reveal_strlit("UNKNOWN_");
    }
    let mut r = "UNKNOWN_".to_owned();
    assert(r@ =~= unknown());
    if b >= 100 {
        r.append(digit_text(b / 100));
    }
    if b >= 10 {
        r.append(digit_text((b / 10) % 10));
    }
    r.append(digit_text(b % 10));
    assert(r@ =~= unknown() + byte_text(b));
    r
}

/// The text of the string field in `bytes`.
fn read_iso_string(bytes: &[u8]) -> (r: String)
    ensures
        r@ == iso_string(bytes@),
{
    let end = find_string_end(bytes);
    from_utf8_lossy(slice_subrange(bytes, 0, end))
}

impl DirectoryEntry {
    /// What the entry holds.
    pub closed spec fn model(&self) -> EntryModel {
        EntryModel {
            name: self.name@,
            flags: self.flags,
            extent_location: self.extent_location,
            extent_size: self.extent_size,
            recording_time: self.recording_time,
        }
    }

    /// An entry for a file, recorded now.
    pub fn new_file(name: &str, extent_location: u32, extent_size: u32) -> (r: Self)
        ensures
            r.model().name == name@,
            r.model().flags == 0,
            r.model().extent_location == extent_location,
            r.model().extent_size == extent_size,
    {
        DirectoryEntry {
            name: name.to_owned(),
            flags: 0,
            extent_location,
            extent_size,
            recording_time: now_seconds(),
        }
    }

    /// An entry for a directory, recorded now.
    pub fn new_directory(name: &str, extent_location: u32, extent_size: u32) -> (r: Self)
        ensures
            r.model().name == name@,
            r.model().flags == 0x02,
            r.model().extent_location == extent_location,
            r.model().extent_size == extent_size,
    {
        DirectoryEntry {
            name: name.to_owned(),
            flags: 0x02,
            extent_location,
            extent_size,
            recording_time: now_seconds(),
        }
    }

    /// Reads the entry that the record at the front of `buffer` stands for.
    pub fn parse_from_buffer(buffer: &[u8]) -> (r: Option<Self>)
        ensures
            match parsed_entry(buffer@) {
                Some(entry) => r is Some && r->0.model() == entry,
                None => r is None,
            },
    {
        if buffer.len() < 33 || buffer[0] == 0 {
            return None;
        }
        let record_length = buffer[0] as usize;
        if record_length < 33 || record_length > buffer.len() {
            return None;
        }
        let extent_location = get_u32_le(buffer, 2);
        let extent_size = get_u32_le(buffer, 10);
        let recording_time = match parse_recording_date(slice_subrange(buffer, 18, 25)) {
            Some(time) => time,
            None => 0,
        };
        let flags = buffer[25];
        let len = buffer[32] as usize;
        if 33 + len > record_length {
            return None;
        }
        let raw = slice_subrange(buffer, 33, 33 + len);
        let name = if (flags & 0x02) != 0 && len == 1 {
            if buffer[33] == 0 {
                proof {
                    reveal_strlit(".");
                }
                let name = ".".to_owned();
                assert(name@ =~= dot());
                name
            } else if buffer[33] == 1 {
                proof {
                    reveal_strlit("..");
                }
                let name = "..".to_owned();
                assert(name@ =~= dotdot());
                name
            } else {
                unknown_name(buffer[33])
            }
        } else if len >= 2 && raw[len - 2] == 0x3B && raw[len - 1] == 0x31 {
            read_iso_string(slice_subrange(raw, 0, len - 2))
        } else {
            read_iso_string(raw)
        };
        Some(DirectoryEntry { name, flags, extent_location, extent_size, recording_time })
    }

    /// The identifier that stands for the entry on disk.
    pub fn iso_file_identifier(&self) -> (r: Vec<u8>)
        ensures
            r@ == entry_identifier(self.model()),
    {
        let directory = (self.flags & 0x02) != 0;
        let n = self.name.as_str().unicode_len();
        if directory && n == 1 && self.name.as_str().get_char(0) == '.' {
            assert(self.name@ =~= dot());
            let mut r: Vec<u8> = Vec::new();
            r.push(0);
            assert(r@ =~= seq![0u8]);
            return r;
        }
        if directory && n == 2 && self.name.as_str().get_char(0) == '.'
            && self.name.as_str().get_char(1) == '.' {
            assert(self.name@ =~= dotdot());
            let mut r: Vec<u8> = Vec::new();
            r.push(1);
            assert(r@ =~= seq![1u8]);
            return r;
        }
        let mut r: Vec<u8> = Vec::new();
        let mut i: usize = 0;
        while i < n
            invariant
                i <= n,
                n == self.name@.len(),
                r@ == Seq::new(i as nat, |j: int| iso_byte(self.name@[j])),
            decreases n - i,
        {
            r.push(to_iso_byte(self.name.as_str().get_char(i)));
            assert(r@ =~= Seq::new((i + 1) as nat, |j: int| iso_byte(self.name@[j])));
            i += 1;
        }
        if !directory {
            r.push(0x3B);
            r.push(0x31);
        }
        proof {
            let chars = Seq::new(n as nat, |j: int| iso_byte(self.name@[j]));
            if directory {
                assert(r@ =~= chars + Seq::<u8>::empty());
            } else {
                assert(r@ =~= chars + seq![0x3Bu8, 0x31u8]);
            }
        }
        r
    }

    /// How many bytes the record of the entry takes; the largest number
    /// there is, where this machine cannot count them.
    pub fn record_size(&self) -> (r: usize)
        ensures
            r == (if entry_record_size(self.model()) > usize::MAX {
                usize::MAX as int
            } else {
                entry_record_size(self.model())
            }),
    {
        let len = self.iso_file_identifier().len();
        if len > usize::MAX - 34 {
            return usize::MAX;
        }
        let plain = 33 + len;
        if plain % 2 == 1 {
            plain + 1
        } else {
            plain
        }
    }

    /// Writes the record of the entry to the front of `buffer`. A record of
    /// more than 255 bytes, which the one byte of its length cannot say, and
    /// a buffer that is too small are refused and leave the buffer as it was.
    pub fn write_to_buffer(&self, buffer: &mut [u8]) -> (r: Result<(), Error>)
        ensures
            final(buffer)@.len() == old(buffer)@.len(),
            match r {
                Ok(()) => {
                    &&& entry_record_size(self.model()) <= 255
                    &&& entry_record_size(self.model()) <= old(buffer)@.len()
                    &&& final(buffer)@ == entry_bytes(self.model()) + old(buffer)@.skip(
                        entry_record_size(self.model()),
                    )
                },
                Err(Error::PathError(_)) => entry_record_size(self.model()) > 255 && final(buffer)@ == old(buffer)@,
                Err(Error::InvalidFormat(_)) => entry_record_size(self.model()) <= 255
                    && entry_record_size(self.model()) > old(buffer)@.len() && final(buffer)@
                    == old(buffer)@,
                Err(_) => false,
            },
    {
        let id = self.iso_file_identifier();
        if id.len() > 221 {
            return Err(Error::PathError("Name too long for a directory entry".to_owned()));
        }
        let plain = 33 + id.len();
        let padded = if plain % 2 == 1 {
            plain + 1
        } else {
            plain
        };
        if buffer.len() < padded {
            return Err(Error::InvalidFormat("Buffer too small for directory entry".to_owned()));
        }
        let mut date: Vec<u8> = Vec::new();
        push_zeros(&mut date, 7);
        write_recording_date(date.as_mut_slice(), self.recording_time);
        assert(date@ =~= recording_bytes(self.recording_time as int));
        let p = put_u8(buffer, 0, padded as u8);
        assert(buffer@.subrange(0, 1) =~= seq![padded as u8]);
        let p = put_u8(buffer, p, 0);
        let p = put_u32_both(buffer, p, self.extent_location);
        let p = put_u32_both(buffer, p, self.extent_size);
        let p = put_bytes(buffer, p, date.as_slice());
        let p = put_u8(buffer, p, self.flags);
        let p = put_fill(buffer, p, 2, 0);
        let p = put_u16_both(buffer, p, 1);
        let p = put_u8(buffer, p, id.len() as u8);
        let p = put_bytes(buffer, p, id.as_slice());
        let p = put_fill(buffer, p, padded - plain, 0);
        proof {
            let bytes = entry_bytes(self.model());
            assert(buffer@.subrange(0, p as int) == bytes);
            assert(old(buffer)@.subrange(0, 0) + bytes =~= bytes);
            lemma_written(old(buffer)@, buffer@, bytes);
        }
        Ok(())
    }

    pub fn name(&self) -> (r: &str)
        ensures
            r@ == self.model().name,
    {
        self.name.as_str()
    }

    pub fn flags(&self) -> (r: u8)
        ensures
            r == self.model().flags,
    {
        self.flags
    }

    pub fn set_flags(&mut self, flags: u8)
        ensures
            final(self).model() == (EntryModel { flags, ..old(self).model() }),
    {
        self.flags = flags;
    }

    pub fn is_directory(&self) -> (r: bool)
        ensures
            r == self.model().is_directory(),
    {
        (self.flags & 0x02) != 0
    }

    pub fn extent_location(&self) -> (r: u32)
        ensures
            r == self.model().extent_location,
    {
        self.extent_location
    }

    pub fn set_extent_location(&mut self, location: u32)
        ensures
            final(self).model() == (EntryModel { extent_location: location, ..old(self).model() }),
    {
        self.extent_location = location;
    }

    pub fn extent_size(&self) -> (r: u32)
        ensures
            r == self.model().extent_size,
    {
        self.extent_size
    }

    pub fn set_extent_size(&mut self, size: u32)
        ensures
            final(self).model() == (EntryModel { extent_size: size, ..old(self).model() }),
    {
        self.extent_size = size;
    }

    pub fn recording_time(&self) -> (r: u64)
        ensures
            r == self.model().recording_time,
    {
        self.recording_time
    }

    pub fn set_recording_time(&mut self, time: u64)
        ensures
            final(self).model() == (EntryModel { recording_time: time, ..old(self).model() }),
    {
        self.recording_time = time;
    }
}

/// A directory: its name, its subdirectories and files by their names, and
/// what is known of its place in an image.
#[derive(Debug, PartialEq, Eq)]
pub struct Directory {
    name: String,
    directories: Vec<Directory>,
    files: Vec<File>,
    sector_location: Option<u32>,
    size: Option<u32>,
}

/// The position of the first of `directories` that is called `name`.
pub open spec fn directory_at(directories: Seq<Directory>, name: Seq<char>) -> Option<int>
    decreases directories.len(),
{
    if directories.len() == 0 {
        None
    } else {
        match directory_at(directories.drop_last(), name) {
            Some(i) => Some(i),
            None => if directories.last().spec_name() == name {
                Some(directories.len() - 1)
            } else {
                None
            },
        }
    }
}

/// The position of the first of `files` that is called `name`.
pub open spec fn file_at(files: Seq<File>, name: Seq<char>) -> Option<int>
    decreases files.len(),
{
    if files.len() == 0 {
        None
    } else {
        match file_at(files.drop_last(), name) {
            Some(i) => Some(i),
            None => if files.last().spec_name() == name {
                Some(files.len() - 1)
            } else {
                None
            },
        }
    }
}

/// What `directory_at` finds is called `name`, and nothing before it is.
pub proof fn lemma_directory_at(directories: Seq<Directory>, name: Seq<char>)
    ensures
        match directory_at(directories, name) {
            Some(i) => 0 <= i < directories.len() && directories[i].spec_name() == name
                && forall|j: int| 0 <= j < i ==> (#[trigger] directories[j]).spec_name() != name,
            None => forall|j: int|
                0 <= j < directories.len() ==> (#[trigger] directories[j]).spec_name() != name,
        },
    decreases directories.len(),
{
    if directories.len() > 0 {
        let init = directories.drop_last();
        lemma_directory_at(init, name);
        assert(forall|j: int| 0 <= j < init.len() ==> init[j] == directories[j]);
    }
}

/// What `file_at` finds is called `name`, and nothing before it is.
pub proof fn lemma_file_at(files: Seq<File>, name: Seq<char>)
    ensures
        match file_at(files, name) {
            Some(i) => 0 <= i < files.len() && files[i].spec_name() == name && forall|j: int|
                0 <= j < i ==> (#[trigger] files[j]).spec_name() != name,
            None => forall|j: int| 0 <= j < files.len() ==> (#[trigger] files[j]).spec_name() != name,
        },
    decreases files.len(),
{
    if files.len() > 0 {
        let init = files.drop_last();
        lemma_file_at(init, name);
        assert(forall|j: int| 0 <= j < init.len() ==> init[j] == files[j]);
    }
}

fn find_directory_index(directories: &Vec<Directory>, name: &str) -> (r: Option<usize>)
    ensures
        match r {
            Some(i) => directory_at(directories@, name@) == Some(i as int) && i
                < directories@.len(),
            None => directory_at(directories@, name@) is None,
        },
{
    let n = directories.len();
    let mut i: usize = 0;
    proof {
        lemma_directory_at(directories@, name@);
    }
    while i < n
        invariant
            i <= n,
            n == directories@.len(),
            forall|j: int| 0 <= j < i ==> (#[trigger] directories@[j]).spec_name() != name@,
        decreases n - i,
    {
        if crate::writer::fs::str_eq(directories[i].name(), name) {
            proof {
                lemma_directory_at(directories@, name@);
                let found = directory_at(directories@, name@);
                assert(found is Some);
                assert(!(found->0 < i));
                assert(!(i < found->0));
            }
            return Some(i);
        }
        i += 1;
    }
    proof {
        lemma_directory_at(directories@, name@);
    }
    None
}

fn find_file_index(files: &Vec<File>, name: &str) -> (r: Option<usize>)
    ensures
        match r {
            Some(i) => file_at(files@, name@) == Some(i as int) && i < files@.len(),
            None => file_at(files@, name@) is None,
        },
{
    let n = files.len();
    let mut i: usize = 0;
    while i < n
        invariant
            i <= n,
            n == files@.len(),
            forall|j: int| 0 <= j < i ==> (#[trigger] files@[j]).spec_name() != name@,
        decreases n - i,
    {
        if crate::writer::fs::str_eq(files[i].name(), name) {
            proof {
                lemma_file_at(files@, name@);
                let found = file_at(files@, name@);
                assert(found is Some);
                assert(!(found->0 < i));
                assert(!(i < found->0));
            }
            return Some(i);
        }
        i += 1;
    }
    proof {
        lemma_file_at(files@, name@);
    }
    None
}

/// How many bytes the record of an entry called `name` takes.
pub open spec fn named_record_size(name: Seq<char>, directory: bool) -> int {
    entry_record_size(
        EntryModel {
            name,
            flags: if directory {
                0x02
            } else {
                0
            },
            extent_location: 0,
            extent_size: 0,
            recording_time: 0,
        },
    )
}

/// How many bytes the records of the first `k` of `directories` take.
pub open spec fn directory_records_size(directories: Seq<Directory>, k: nat) -> int
    decreases k,
{
    if k == 0 || k > directories.len() {
        0
    } else {
        directory_records_size(directories, (k - 1) as nat) + named_record_size(
            directories[k - 1].spec_name(),
            true,
        )
    }
}

/// How many bytes the records of the first `k` of `files` take.
pub open spec fn file_records_size(files: Seq<File>, k: nat) -> int
    decreases k,
{
    if k == 0 || k > files.len() {
        0
    } else {
        file_records_size(files, (k - 1) as nat) + named_record_size(files[k - 1].spec_name(), false)
    }
}

/// How many bytes the record of an entry called `name` takes.
fn record_size_of(name: &str, directory: bool) -> (r: u128)
    ensures
        r == named_record_size(name@, directory),
{
    let n = name.unicode_len() as u128;
    let special = directory && ((n == 1 && name.get_char(0) == '.') || (n == 2 && name.get_char(0)
        == '.' && name.get_char(1) == '.'));
    proof {
        if directory && n == 1 && name@[0] == '.' {
            assert(name@ =~= dot());
        }
        if directory && n == 2 && name@[0] == '.' && name@[1] == '.' {
            assert(name@ =~= dotdot());
        }
        assert(0x02u8 & 0x02 != 0) by (bit_vector);
        assert(0u8 & 0x02 == 0) by (bit_vector);
    }
    let id: u128 = if special {
        1
    } else if directory {
        n
    } else {
        n + 2
    };
    let plain = 33 + id;
    if plain % 2 == 1 {
        plain + 1
    } else {
        plain
    }
}

impl Directory {
    pub closed spec fn spec_name(&self) -> Seq<char> {
        self.name@
    }

    pub closed spec fn spec_directories(&self) -> Seq<Directory> {
        self.directories@
    }

    pub closed spec fn spec_files(&self) -> Seq<File> {
        self.files@
    }

    pub closed spec fn spec_sector_location(&self) -> Option<u32> {
        self.sector_location
    }

    pub closed spec fn spec_size(&self) -> Option<u32> {
        self.size
    }

    /// No two subdirectories have one name, and no two files.
    pub open spec fn wf(&self) -> bool {
        &&& forall|i: int, j: int|
            0 <= i < j < self.spec_directories().len() ==> (
            #[trigger] self.spec_directories()[i]).spec_name() != (
            #[trigger] self.spec_directories()[j]).spec_name()
        &&& forall|i: int, j: int|
            0 <= i < j < self.spec_files().len() ==> (#[trigger] self.spec_files()[i]).spec_name()
                != (#[trigger] self.spec_files()[j]).spec_name()
    }

    /// An empty directory without a place.
    pub fn new(name: &str) -> (r: Self)
        ensures
            r.wf(),
            r.spec_name() == name@,
            r.spec_directories().len() == 0,
            r.spec_files().len() == 0,
            r.spec_sector_location() is None,
            r.spec_size() is None,
    {
        Directory {
            name: name.to_owned(),
            directories: Vec::new(),
            files: Vec::new(),
            sector_location: None,
            size: None,
        }
    }

    pub fn name(&self) -> (r: &str)
        ensures
            r@ == self.spec_name(),
    {
        self.name.as_str()
    }

    pub fn set_name(&mut self, name: String)
        ensures
            final(self).spec_name() == name@,
            final(self).spec_directories() == old(self).spec_directories(),
            final(self).spec_files() == old(self).spec_files(),
            final(self).spec_sector_location() == old(self).spec_sector_location(),
            final(self).spec_size() == old(self).spec_size(),
    {
        self.name = name;
    }

    /// The subdirectories, in the order in which they were added.
    pub fn directories(&self) -> (r: &Vec<Directory>)
        ensures
            r@ == self.spec_directories(),
    {
        &self.directories
    }

    /// The subdirectories, to be changed in place. That no two have one name
    /// is then for the caller to keep.
    pub fn directories_mut(&mut self) -> (r: &mut Vec<Directory>)
        ensures
            r@ == old(self).spec_directories(),
            final(self).spec_directories() == final(r)@,
            final(self).spec_name() == old(self).spec_name(),
            final(self).spec_files() == old(self).spec_files(),
            final(self).spec_sector_location() == old(self).spec_sector_location(),
            final(self).spec_size() == old(self).spec_size(),
    {
        &mut self.directories
    }

    /// The files, in the order in which they were added.
    pub fn files(&self) -> (r: &Vec<File>)
        ensures
            r@ == self.spec_files(),
    {
        &self.files
    }

    /// The files, to be changed in place. That no two have one name is then
    /// for the caller to keep.
    pub fn files_mut(&mut self) -> (r: &mut Vec<File>)
        ensures
            r@ == old(self).spec_files(),
            final(self).spec_files() == final(r)@,
            final(self).spec_name() == old(self).spec_name(),
            final(self).spec_directories() == old(self).spec_directories(),
            final(self).spec_sector_location() == old(self).spec_sector_location(),
            final(self).spec_size() == old(self).spec_size(),
    {
        &mut self.files
    }

    /// The subdirectory called `name`, if there is one.
    pub fn find_directory(&self, name: &str) -> (r: Option<&Directory>)
        ensures
            match directory_at(self.spec_directories(), name@) {
                Some(i) => r is Some && *r->0 == self.spec_directories()[i],
                None => r is None,
            },
    {
        proof {
            lemma_directory_at(self.directories@, name@);
        }
        match find_directory_index(&self.directories, name) {
            Some(i) => Some(&self.directories[i]),
            None => None,
        }
    }

    /// The file called `name`, if there is one.
    pub fn find_file(&self, name: &str) -> (r: Option<&File>)
        ensures
            match file_at(self.spec_files(), name@) {
                Some(i) => r is Some && *r->0 == self.spec_files()[i],
                None => r is None,
            },
    {
        proof {
            lemma_file_at(self.files@, name@);
        }
        match find_file_index(&self.files, name) {
            Some(i) => Some(&self.files[i]),
            None => None,
        }
    }

    /// The subdirectory called `name`, if there is one, to be changed in
    /// place. That no two subdirectories have one name is then for the caller
    /// to keep.
    pub fn find_directory_mut(&mut self, name: &str) -> (r: Option<&mut Directory>)
        ensures
            final(self).spec_name() == old(self).spec_name(),
            final(self).spec_files() == old(self).spec_files(),
            final(self).spec_sector_location() == old(self).spec_sector_location(),
            final(self).spec_size() == old(self).spec_size(),
            match directory_at(old(self).spec_directories(), name@) {
                Some(i) => r is Some && *r->0 == old(self).spec_directories()[i] && final(self).spec_directories() == old(self).spec_directories().update(i, *final(r->0)),
                None => r is None && final(self).spec_directories() == old(
                    self,
                ).spec_directories(),
            },
    {
        proof {
            lemma_directory_at(self.directories@, name@);
        }
        match find_directory_index(&self.directories, name) {
            Some(i) => Some(&mut self.directories[i]),
            None => None,
        }
    }

    /// The file called `name`, if there is one, to be changed in place. That
    /// no two files have one name is then for the caller to keep.
    pub fn find_file_mut(&mut self, name: &str) -> (r: Option<&mut File>)
        ensures
            final(self).spec_name() == old(self).spec_name(),
            final(self).spec_directories() == old(self).spec_directories(),
            final(self).spec_sector_location() == old(self).spec_sector_location(),
            final(self).spec_size() == old(self).spec_size(),
            match file_at(old(self).spec_files(), name@) {
                Some(i) => r is Some && *r->0 == old(self).spec_files()[i] && final(self).spec_files() == old(self).spec_files().update(i, *final(r->0)),
                None => r is None && final(self).spec_files() == old(self).spec_files(),
            },
    {
        proof {
            lemma_file_at(self.files@, name@);
        }
        match find_file_index(&self.files, name) {
            Some(i) => Some(&mut self.files[i]),
            None => None,
        }
    }

    /// Adds an empty subdirectory called `name`. A name that a subdirectory
    /// has already is refused.
    pub fn add_directory(&mut self, name: String) -> (r: Result<(), Error>)
        requires
            old(self).wf(),
        ensures
            final(self).wf(),
            final(self).spec_name() == old(self).spec_name(),
            final(self).spec_files() == old(self).spec_files(),
            final(self).spec_sector_location() == old(self).spec_sector_location(),
            final(self).spec_size() == old(self).spec_size(),
            match r {
                Ok(()) => {
                    &&& directory_at(old(self).spec_directories(), name@) is None
                    &&& final(self).spec_directories().len() == old(self).spec_directories().len()
                        + 1
                    &&& final(self).spec_directories().drop_last() == old(
                        self,
                    ).spec_directories()
                    &&& final(self).spec_directories().last().spec_name() == name@
                    &&& final(self).spec_directories().last().spec_directories().len() == 0
                    &&& final(self).spec_directories().last().spec_files().len() == 0
                },
                Err(Error::PathError(_)) => directory_at(old(self).spec_directories(), name@)
                    is Some && final(self).spec_directories() == old(self).spec_directories(),
                Err(_) => false,
            },
    {
        proof {
            lemma_directory_at(self.directories@, name@);
        }
        if find_directory_index(&self.directories, name.as_str()).is_some() {
            return Err(Error::PathError("Directory already exists".to_owned()));
        }
        let directory = Directory::new(name.as_str());
        self.directories.push(directory);
        proof {
            let before = old(self).directories@;
            let after = self.directories@;
            assert(after.drop_last() =~= before);
            assert forall|i: int, j: int| 0 <= i < j < after.len() implies (#[trigger] after[i]).spec_name()
                != (#[trigger] after[j]).spec_name() by {
                assert(after[i] == before[i]);
                if j < before.len() {
                    assert(after[j] == before[j]);
                }
            }
            assert(self.files@ == old(self).files@);
            assert(old(self).wf());
            assert(forall|i: int, j: int|
                0 <= i < j < old(self).spec_files().len() ==> (
                #[trigger] old(self).spec_files()[i]).spec_name() != (
                #[trigger] old(self).spec_files()[j]).spec_name());
            assert(forall|i: int, j: int|
                0 <= i < j < self.spec_files().len() ==> (
                #[trigger] self.spec_files()[i]).spec_name() != (
                #[trigger] self.spec_files()[j]).spec_name());
        }
        Ok(())
    }

    /// Adds a file called `name` with a copy of `content`. A name that a
    /// file has already is refused.
    pub fn add_file(&mut self, name: String, content: &[u8]) -> (r: Result<(), Error>)
        requires
            old(self).wf(),
        ensures
            final(self).wf(),
            final(self).spec_name() == old(self).spec_name(),
            final(self).spec_directories() == old(self).spec_directories(),
            final(self).spec_sector_location() == old(self).spec_sector_location(),
            final(self).spec_size() == old(self).spec_size(),
            match r {
                Ok(()) => {
                    &&& file_at(old(self).spec_files(), name@) is None
                    &&& final(self).spec_files().len() == old(self).spec_files().len() + 1
                    &&& final(self).spec_files().drop_last() == old(self).spec_files()
                    &&& final(self).spec_files().last().spec_name() == name@
                    &&& final(self).spec_files().last().spec_content() == content@
                },
                Err(Error::PathError(_)) => file_at(old(self).spec_files(), name@) is Some
                    && final(self).spec_files() == old(self).spec_files(),
                Err(_) => false,
            },
    {
        proof {
            lemma_file_at(self.files@, name@);
        }
        if find_file_index(&self.files, name.as_str()).is_some() {
            return Err(Error::PathError("File already exists".to_owned()));
        }
        let file = File::new(name.as_str(), vstd::slice::slice_to_vec(content));
        self.files.push(file);
        proof {
            let before = old(self).files@;
            let after = self.files@;
            assert(after.drop_last() =~= before);
            assert forall|i: int, j: int| 0 <= i < j < after.len() implies (#[trigger] after[i]).spec_name()
                != (#[trigger] after[j]).spec_name() by {
                assert(after[i] == before[i]);
                if j < before.len() {
                    assert(after[j] == before[j]);
                }
            }
            assert(self.directories@ == old(self).directories@);
            assert(old(self).wf());
            assert(forall|i: int, j: int|
                0 <= i < j < old(self).spec_directories().len() ==> (
                #[trigger] old(self).spec_directories()[i]).spec_name() != (
                #[trigger] old(self).spec_directories()[j]).spec_name());
        }
        Ok(())
    }

    /// Takes out the subdirectory called `name`, if there is one.
    pub fn remove_directory(&mut self, name: &str) -> (r: Option<Directory>)
        requires
            old(self).wf(),
        ensures
            final(self).wf(),
            final(self).spec_name() == old(self).spec_name(),
            final(self).spec_files() == old(self).spec_files(),
            final(self).spec_sector_location() == old(self).spec_sector_location(),
            final(self).spec_size() == old(self).spec_size(),
            match directory_at(old(self).spec_directories(), name@) {
                Some(i) => r == Some(old(self).spec_directories()[i]) && final(self).spec_directories() == old(self).spec_directories().remove(i),
                None => r is None && final(self).spec_directories() == old(
                    self,
                ).spec_directories(),
            },
    {
        proof {
            lemma_directory_at(self.directories@, name@);
        }
        match find_directory_index(&self.directories, name) {
            Some(k) => {
                let taken = self.directories.remove(k);
                proof {
                    let before = old(self).directories@;
                    let after = self.directories@;
                    assert forall|i: int, j: int| 0 <= i < j < after.len() implies (
                    #[trigger] after[i]).spec_name() != (#[trigger] after[j]).spec_name() by {
                        let a = if i < k {
                            i
                        } else {
                            i + 1
                        };
                        let b = if j < k {
                            j
                        } else {
                            j + 1
                        };
                        assert(after[i] == before[a] && after[j] == before[b]);
                    }
                    assert(self.files@ == old(self).files@);
                    assert(old(self).wf());
                    assert(forall|i: int, j: int|
                        0 <= i < j < old(self).spec_files().len() ==> (
                        #[trigger] old(self).spec_files()[i]).spec_name() != (
                        #[trigger] old(self).spec_files()[j]).spec_name());
                }
                Some(taken)
            },
            None => None,
        }
    }

    /// Takes out the file called `name`, if there is one.
    pub fn remove_file(&mut self, name: &str) -> (r: Option<File>)
        requires
            old(self).wf(),
        ensures
            final(self).wf(),
            final(self).spec_name() == old(self).spec_name(),
            final(self).spec_directories() == old(self).spec_directories(),
            final(self).spec_sector_location() == old(self).spec_sector_location(),
            final(self).spec_size() == old(self).spec_size(),
            match file_at(old(self).spec_files(), name@) {
                Some(i) => r == Some(old(self).spec_files()[i]) && final(self).spec_files() == old(
                    self,
                ).spec_files().remove(i),
                None => r is None && final(self).spec_files() == old(self).spec_files(),
            },
    {
        proof {
            lemma_file_at(self.files@, name@);
        }
        match find_file_index(&self.files, name) {
            Some(k) => {
                let taken = self.files.remove(k);
                proof {
                    let before = old(self).files@;
                    let after = self.files@;
                    assert forall|i: int, j: int| 0 <= i < j < after.len() implies (
                    #[trigger] after[i]).spec_name() != (#[trigger] after[j]).spec_name() by {
                        let a = if i < k {
                            i
                        } else {
                            i + 1
                        };
                        let b = if j < k {
                            j
                        } else {
                            j + 1
                        };
                        assert(after[i] == before[a] && after[j] == before[b]);
                    }
                    assert(self.directories@ == old(self).directories@);
                    assert(old(self).wf());
                    assert(forall|i: int, j: int|
                        0 <= i < j < old(self).spec_directories().len() ==> (
                        #[trigger] old(self).spec_directories()[i]).spec_name() != (
                        #[trigger] old(self).spec_directories()[j]).spec_name());
                }
                Some(taken)
            },
            None => None,
        }
    }

    /// How many bytes the records of the directory take: those of the
    /// directory in itself and of its parent, of 34 bytes each, and one for
    /// each subdirectory and each file.
    pub open spec fn spec_calculated_size(&self) -> int {
        68 + directory_records_size(self.spec_directories(), self.spec_directories().len())
            + file_records_size(self.spec_files(), self.spec_files().len())
    }

    /// How many bytes the records of the directory take, as far as 32 bits
    /// count them.
    pub fn calculate_size(&self) -> (r: u32)
        ensures
            r == self.spec_calculated_size() % 0x1_0000_0000,
    {
        let mut total: u64 = 68;
        let n = self.directories.len();
        let mut i: usize = 0;
        while i < n
            invariant
                i <= n,
                n == self.directories@.len(),
                total < 0x1_0000_0000,
                total == (68 + directory_records_size(self.directories@, i as nat))
                    % 0x1_0000_0000,
            decreases n - i,
        {
            let size = record_size_of(self.directories[i].name(), true);
            total = ((total as u128 + size % 0x1_0000_0000) % 0x1_0000_0000) as u64;
            i += 1;
        }
        let m = self.files.len();
        let mut j: usize = 0;
        let ghost base = 68 + directory_records_size(self.directories@, n as nat);
        while j < m
            invariant
                j <= m,
                m == self.files@.len(),
                total < 0x1_0000_0000,
                total == (base + file_records_size(self.files@, j as nat)) % 0x1_0000_0000,
            decreases m - j,
        {
            let size = record_size_of(self.files[j].name(), false);
            total = ((total as u128 + size % 0x1_0000_0000) % 0x1_0000_0000) as u64;
            j += 1;
        }
        total as u32
    }

    /// The entry that stands for the directory in its parent: at its place,
    /// or at sector 0 where it has none, and of its size as it is set, or
    /// else as its records add up.
    pub fn to_entry(&self) -> (r: DirectoryEntry)
        ensures
            r.model().name == self.spec_name(),
            r.model().flags == 0x02,
            r.model().extent_location == (match self.spec_sector_location() {
                Some(location) => location,
                None => 0,
            }),
            r.model().extent_size == (match self.spec_size() {
                Some(size) => size as int,
                None => self.spec_calculated_size() % 0x1_0000_0000,
            }),
    {
        let location = match self.sector_location {
            Some(location) => location,
            None => 0,
        };
        let size = match self.size {
            Some(size) => size,
            None => self.calculate_size(),
        };
        DirectoryEntry::new_directory(self.name.as_str(), location, size)
    }

    pub fn set_sector_location(&mut self, location: u32)
        ensures
            final(self).spec_sector_location() == Some(location),
            final(self).spec_name() == old(self).spec_name(),
            final(self).spec_directories() == old(self).spec_directories(),
            final(self).spec_files() == old(self).spec_files(),
            final(self).spec_size() == old(self).spec_size(),
    {
        self.sector_location = Some(location);
    }

    pub fn sector_location(&self) -> (r: Option<u32>)
        ensures
            r == self.spec_sector_location(),
    {
        self.sector_location
    }

    pub fn set_size(&mut self, size: u32)
        ensures
            final(self).spec_size() == Some(size),
            final(self).spec_name() == old(self).spec_name(),
            final(self).spec_directories() == old(self).spec_directories(),
            final(self).spec_files() == old(self).spec_files(),
            final(self).spec_sector_location() == old(self).spec_sector_location(),
    {
        self.size = Some(size);
    }

    pub fn size(&self) -> (r: Option<u32>)
        ensures
            r == self.spec_size(),
    {
        self.size
    }
}

/// Whether no two subdirectories and no two files have one name, here and
/// in every directory below.
pub open spec fn deep_wf(directory: Directory) -> bool
    decreases directory,
{
    &&& directory.wf()
    &&& forall|i: int|
        0 <= i < directory.spec_directories().len() ==> deep_wf(
            #[trigger] directory.spec_directories()[i],
        )
}

/// The directory that the components of a path from `k` on lead to from
/// `directory`; `..` leads nowhere else.
pub open spec fn lookup_directory(directory: Directory, parts: Seq<Seq<char>>, k: int) -> Option<
    Directory,
>
    decreases parts.len() - k,
{
    if k >= parts.len() {
        Some(directory)
    } else if parts[k] == dotdot() {
        lookup_directory(directory, parts, k + 1)
    } else {
        match directory_at(directory.spec_directories(), parts[k]) {
            Some(i) => lookup_directory(directory.spec_directories()[i], parts, k + 1),
            None => None,
        }
    }
}

/// The bytes of the file that the components of a path from `k` on name from
/// `directory`: the last names the file, those before it lead to its directory.
pub open spec fn lookup_file(directory: Directory, parts: Seq<Seq<char>>, k: int) -> Option<
    Seq<u8>,
>
    decreases parts.len() - k,
{
    if k >= parts.len() {
        None
    } else if k == parts.len() - 1 {
        match file_at(directory.spec_files(), parts[k]) {
            Some(i) => Some(directory.spec_files()[i].spec_content()),
            None => None,
        }
    } else if parts[k] == dotdot() {
        lookup_file(directory, parts, k + 1)
    } else {
        match directory_at(directory.spec_directories(), parts[k]) {
            Some(i) => lookup_file(directory.spec_directories()[i], parts, k + 1),
            None => None,
        }
    }
}

/// In a directory without files and subdirectories no path leads to a file.
pub proof fn lemma_lookup_file_empty(directory: Directory, parts: Seq<Seq<char>>, k: int)
    requires
        directory.spec_files().len() == 0,
        directory.spec_directories().len() == 0,
    ensures
        lookup_file(directory, parts, k) is None,
    decreases parts.len() - k,
{
    lemma_directory_at(directory.spec_directories(), if 0 <= k < parts.len() {
        parts[k]
    } else {
        Seq::<char>::empty()
    });
    lemma_file_at(directory.spec_files(), if 0 <= k < parts.len() {
        parts[k]
    } else {
        Seq::<char>::empty()
    });
    if k < parts.len() - 1 {
        lemma_lookup_file_empty(directory, parts, k + 1);
    }
}

/// A subdirectory that changes but keeps its name is found where it was.
pub proof fn lemma_directory_at_update(
    directories: Seq<Directory>,
    i: int,
    changed: Directory,
    name: Seq<char>,
)
    requires
        0 <= i < directories.len(),
        changed.spec_name() == directories[i].spec_name(),
    ensures
        directory_at(directories.update(i, changed), name) == directory_at(directories, name),
{
    let after = directories.update(i, changed);
    lemma_directory_at(directories, name);
    lemma_directory_at(after, name);
    assert(forall|j: int|
        0 <= j < directories.len() ==> (#[trigger] after[j]).spec_name()
            == directories[j].spec_name());
    match directory_at(directories, name) {
        Some(a) => {
            assert(after[a].spec_name() == name);
            match directory_at(after, name) {
                Some(b) => {
                    if b < a {
                        assert(after[b].spec_name() == directories[b].spec_name());
                    }
                    if a < b {
                        assert(after[a].spec_name() == directories[a].spec_name());
                    }
                },
                None => {},
            }
        },
        None => {
            match directory_at(after, name) {
                Some(b) => {
                    assert(after[b].spec_name() == directories[b].spec_name());
                },
                None => {},
            }
        },
    }
}

impl Directory {
    /// Puts a file with a copy of `content` where the components of a path
    /// from `k` on lead from here: the last names the file, those before it
    /// the directories on the way, which are made where they are missing;
    /// `..` leads nowhere else. A file that is there already is refused, and
    /// nothing else is.
    pub fn add_file_at(&mut self, parts: &Vec<String>, k: usize, content: &[u8]) -> (r: Result<
        (),
        Error,
    >)
        requires
            deep_wf(*old(self)),
            k < parts@.len(),
        ensures
            deep_wf(*final(self)),
            final(self).spec_name() == old(self).spec_name(),
            match r {
                Ok(()) => lookup_file(*final(self), crate::writer::fs::names(parts@), k as int)
                    == Some(content@),
                Err(e) => e is PathError,
            },
            r is Err <==> lookup_file(*old(self), crate::writer::fs::names(parts@), k as int)
                is Some,
        decreases parts@.len() - k,
    {
        let ghost all = crate::writer::fs::names(parts@);
        let name = parts[k].as_str();
        assert(name@ == all[k as int]);
        if k == parts.len() - 1 {
            let r = self.add_file(name.to_owned(), content);
            proof {
                lemma_file_at(self.files@, name@);
                if r is Ok {
                    let i = self.files@.len() - 1;
                    assert forall|j: int| 0 <= j < i implies (#[trigger] self.files@[j]).spec_name()
                        != name@ by {
                        lemma_file_at(old(self).files@, name@);
                        assert(self.files@[j] == old(self).files@[j]);
                    }
                    let found = file_at(self.files@, name@);
                    assert(found is Some);
                    assert(!(found->0 < i));
                    assert(!(i < found->0));
                }
                assert(self.directories@ == old(self).directories@);
            }
            return r;
        }
        if is_parent_name(name) {
            return self.add_file_at(parts, k + 1, content);
        }
        proof {
            lemma_directory_at(self.directories@, name@);
        }
        let ghost made = directory_at(self.directories@, name@) is None;
        if find_directory_index(&self.directories, name).is_none() {
            match self.add_directory(name.to_owned()) {
                Ok(()) => {},
                Err(e) => {
                    proof {
                        assert(false);
                    }
                    return Err(e);
                },
            }
            proof {
                let i = self.directories@.len() - 1;
                assert(self.directories@[i].spec_directories().len() == 0);
                lemma_lookup_file_empty(self.directories@[i], all, k + 1);
                assert forall|j: int| 0 <= j < self.directories@.len() implies deep_wf(
                    #[trigger] self.directories@[j],
                ) by {
                    if j < i {
                        assert(self.directories@[j] == old(self).directories@[j]);
                        assert(old(self).spec_directories()[j] == old(self).directories@[j]);
                    } else {
                        let d = self.directories@[i];
                        assert(d.spec_files().len() == 0);
                    }
                }
            }
        }
        let ghost before = self.directories@;
        proof {
            lemma_directory_at(before, name@);
            assert(self.wf());
            assert(forall|j: int| 0 <= j < before.len() ==> deep_wf(#[trigger] before[j])) by {
                assert(forall|j: int|
                    0 <= j < self.spec_directories().len() ==> deep_wf(
                        #[trigger] self.spec_directories()[j],
                    ));
            }
        }
        match find_directory_index(&self.directories, name) {
            Some(i) => {
                proof {
                    if made {
                        assert(i == before.len() - 1);
                        lemma_lookup_file_empty(before[i as int], all, k + 1);
                    } else {
                        assert(before == old(self).directories@);
                    }
                }
                let child = &mut self.directories[i];
                let r = child.add_file_at(parts, k + 1, content);
                proof {
                    let after = self.directories@;
                    let changed = after[i as int];
                    assert(after =~= before.update(i as int, changed));
                    lemma_directory_at_update(before, i as int, changed, name@);
                    assert forall|a: int, b: int| 0 <= a < b < after.len() implies (
                    #[trigger] after[a]).spec_name() != (#[trigger] after[b]).spec_name() by {
                        assert(after[a].spec_name() == before[a].spec_name());
                        assert(after[b].spec_name() == before[b].spec_name());
                    }
                    assert(self.files@ == old(self).files@);
                    assert(old(self).wf());
                    assert(forall|a: int, b: int|
                        0 <= a < b < old(self).spec_files().len() ==> (
                        #[trigger] old(self).spec_files()[a]).spec_name() != (
                        #[trigger] old(self).spec_files()[b]).spec_name());
                    assert forall|j: int| 0 <= j < after.len() implies deep_wf(
                        #[trigger] after[j],
                    ) by {
                        if j != i {
                            assert(after[j] == before[j]);
                        }
                    }
                }
                r
            },
            None => {
                proof {
                    assert(false);
                }
                Err(Error::PathError("Failed to create directory".to_owned()))
            },
        }
    }

    /// Makes the directories that the components of a path from `k` on name
    /// from here, where they are missing; `..` leads nowhere else. It never
    /// fails.
    pub fn add_directory_at(&mut self, parts: &Vec<String>, k: usize) -> (r: Result<(), Error>)
        requires
            deep_wf(*old(self)),
            k <= parts@.len(),
        ensures
            deep_wf(*final(self)),
            final(self).spec_name() == old(self).spec_name(),
            r is Ok,
            lookup_directory(*final(self), crate::writer::fs::names(parts@), k as int) is Some,
        decreases parts@.len() - k,
    {
        let ghost all = crate::writer::fs::names(parts@);
        if k >= parts.len() {
            return Ok(());
        }
        let name = parts[k].as_str();
        assert(name@ == all[k as int]);
        if is_parent_name(name) {
            return self.add_directory_at(parts, k + 1);
        }
        proof {
            lemma_directory_at(self.directories@, name@);
        }
        if find_directory_index(&self.directories, name).is_none() {
            match self.add_directory(name.to_owned()) {
                Ok(()) => {},
                Err(e) => {
                    proof {
                        assert(false);
                    }
                    return Err(e);
                },
            }
            proof {
                let i = self.directories@.len() - 1;
                assert(self.directories@[i].spec_directories().len() == 0);
                assert forall|j: int| 0 <= j < self.directories@.len() implies deep_wf(
                    #[trigger] self.directories@[j],
                ) by {
                    if j < i {
                        assert(self.directories@[j] == old(self).directories@[j]);
                        assert(old(self).spec_directories()[j] == old(self).directories@[j]);
                    } else {
                        let d = self.directories@[i];
                        assert(d.spec_files().len() == 0);
                    }
                }
            }
        }
        let ghost before = self.directories@;
        proof {
            lemma_directory_at(before, name@);
            assert(self.wf());
            assert(forall|j: int| 0 <= j < before.len() ==> deep_wf(#[trigger] before[j])) by {
                assert(forall|j: int|
                    0 <= j < self.spec_directories().len() ==> deep_wf(
                        #[trigger] self.spec_directories()[j],
                    ));
            }
        }
        match find_directory_index(&self.directories, name) {
            Some(i) => {
                let child = &mut self.directories[i];
                let r = child.add_directory_at(parts, k + 1);
                proof {
                    let after = self.directories@;
                    let changed = after[i as int];
                    assert(after =~= before.update(i as int, changed));
                    lemma_directory_at_update(before, i as int, changed, name@);
                    assert forall|a: int, b: int| 0 <= a < b < after.len() implies (
                    #[trigger] after[a]).spec_name() != (#[trigger] after[b]).spec_name() by {
                        assert(after[a].spec_name() == before[a].spec_name());
                        assert(after[b].spec_name() == before[b].spec_name());
                    }
                    assert(self.files@ == old(self).files@);
                    assert(old(self).wf());
                    assert(forall|a: int, b: int|
                        0 <= a < b < old(self).spec_files().len() ==> (
                        #[trigger] old(self).spec_files()[a]).spec_name() != (
                        #[trigger] old(self).spec_files()[b]).spec_name());
                    assert forall|j: int| 0 <= j < after.len() implies deep_wf(
                        #[trigger] after[j],
                    ) by {
                        if j != i {
                            assert(after[j] == before[j]);
                        }
                    }
                }
                r
            },
            None => {
                proof {
                    assert(false);
                }
                Err(Error::PathError("Failed to create directory".to_owned()))
            },
        }
    }
}

/// Whether `name` is `..`.
fn is_parent_name(name: &str) -> (r: bool)
    ensures
        r == (name@ == dotdot()),
{
    if name.unicode_len() != 2 {
        return false;
    }
    let r = name.get_char(0) == '.' && name.get_char(1) == '.';
    if r {
        assert(name@ =~= dotdot());
    }
    r
}

/// What a file of a tree is: its name and its bytes.
pub struct FileModel {
    pub name: Seq<char>,
    pub content: Seq<u8>,
}

/// What a directory with all below it is.
pub struct Tree {
    pub name: Seq<char>,
    pub sector_location: Option<u32>,
    pub size: Option<u32>,
    pub directories: Seq<Tree>,
    pub files: Seq<FileModel>,
}

/// What each of `directories` is, with all below it.
pub open spec fn trees(directories: Seq<Directory>) -> Seq<Tree>
    decreases directories,
{
    Seq::new(
        directories.len(),
        |i: int|
            if 0 <= i < directories.len() {
                directories[i].tree()
            } else {
                arbitrary()
            },
    )
}

/// What each of `files` is.
pub open spec fn file_models(files: Seq<File>) -> Seq<FileModel> {
    Seq::new(
        files.len(),
        |i: int| FileModel { name: files[i].spec_name(), content: files[i].spec_content() },
    )
}

/// The largest directory extent that is read, in bytes.
pub const MAX_DIRECTORY_SIZE: u32 = 10485760;

/// The largest file that is read, in bytes.
pub const MAX_FILE_SIZE: u32 = 104857600;

/// How many levels of directories are read below a directory.
pub const MAX_READ_DEPTH: usize = 8;

/// The `size` bytes of `image` from the sector `location` on, if the image
/// has them.
pub open spec fn extent_of(image: Seq<u8>, location: u32, size: u32) -> Option<Seq<u8>> {
    if location * 2048 + size <= image.len() {
        Some(image.subrange(location * 2048, location * 2048 + size))
    } else {
        None
    }
}

/// The position of the first of `directories` that is called `name`.
pub open spec fn tree_at(directories: Seq<Tree>, name: Seq<char>) -> Option<int>
    decreases directories.len(),
{
    if directories.len() == 0 {
        None
    } else {
        match tree_at(directories.drop_last(), name) {
            Some(i) => Some(i),
            None => if directories.last().name == name {
                Some(directories.len() - 1)
            } else {
                None
            },
        }
    }
}

/// The position of the first of `files` that is called `name`.
pub open spec fn model_at(files: Seq<FileModel>, name: Seq<char>) -> Option<int>
    decreases files.len(),
{
    if files.len() == 0 {
        None
    } else {
        match model_at(files.drop_last(), name) {
            Some(i) => Some(i),
            None => if files.last().name == name {
                Some(files.len() - 1)
            } else {
                None
            },
        }
    }
}

/// `directories` with `tree` in the place of the one of its name, or at
/// the end where there is none.
pub open spec fn put_tree(directories: Seq<Tree>, tree: Tree) -> Seq<Tree> {
    match tree_at(directories, tree.name) {
        Some(i) => directories.update(i, tree),
        None => directories.push(tree),
    }
}

/// `files` with `file` in the place of the one of its name, or at the end
/// where there is none.
pub open spec fn put_file(files: Seq<FileModel>, file: FileModel) -> Seq<FileModel> {
    match model_at(files, file.name) {
        Some(i) => files.update(i, file),
        None => files.push(file),
    }
}

/// The start of the sector after the one that `offset` is in.
pub open spec fn next_sector_start(offset: int) -> int {
    offset + (2048 - offset % 2048)
}

/// The directory that `entry` stands for in `image`, with all below it down
/// to `depth` levels; `None` for an entry that is no directory, has no
/// extent, has one of more than 10 MiB, or one that the image does not hold.
pub open spec fn read_tree(image: Seq<u8>, entry: EntryModel, depth: nat) -> Option<Tree>
    decreases depth, image.len() + 1,
{
    if !entry.is_directory() || entry.extent_location == 0 || entry.extent_size == 0
        || entry.extent_size > MAX_DIRECTORY_SIZE {
        None
    } else {
        match extent_of(image, entry.extent_location, entry.extent_size) {
            None => None,
            Some(extent) => {
                let (directories, files) = read_records(
                    image,
                    extent,
                    entry.extent_location,
                    depth,
                    0,
                    Seq::<Tree>::empty(),
                    Seq::<FileModel>::empty(),
                );
                Some(
                    Tree {
                        name: entry.name,
                        sector_location: Some(entry.extent_location),
                        size: Some(entry.extent_size),
                        directories,
                        files,
                    },
                )
            },
        }
    }
}

/// What the records of `extent` from `offset` on add to the subdirectories
/// and files read so far:
///
/// - a zero byte, and a record that says it is longer than what is left,
///   send the reading on to the start of the next sector;
/// - what is no record is passed over by the length that it says, and so are
///   the records `.` and `..`;
/// - a directory is read with all below it and put among the
///   subdirectories, unless it lies where this directory lies, `depth` is
///   used up, or it cannot be read;
/// - a file is put among the files with its bytes, unless it has none, more
///   than 100 MiB, or the image does not hold them.
///
/// Of two entries of one name and kind the later stands.
pub open spec fn read_records(
    image: Seq<u8>,
    extent: Seq<u8>,
    location: u32,
    depth: nat,
    offset: int,
    directories: Seq<Tree>,
    files: Seq<FileModel>,
) -> (Seq<Tree>, Seq<FileModel>)
    decreases depth,
        (if offset < extent.len() {
            extent.len() - offset
        } else {
            0
        }),
{
    if offset < 0 || offset >= extent.len() || extent.len() > image.len() {
        (directories, files)
    } else if extent[offset] == 0 || offset + extent[offset] > extent.len() {
        read_records(
            image,
            extent,
            location,
            depth,
            next_sector_start(offset),
            directories,
            files,
        )
    } else {
        let next = offset + extent[offset];
        match parsed_entry(extent.subrange(offset, next)) {
            None => read_records(image, extent, location, depth, next, directories, files),
            Some(e) => if e.name == dot() || e.name == dotdot() {
                read_records(image, extent, location, depth, next, directories, files)
            } else if e.is_directory() {
                if e.extent_location == location || depth == 0 {
                    read_records(image, extent, location, depth, next, directories, files)
                } else {
                    match read_tree(image, e, (depth - 1) as nat) {
                        Some(tree) => read_records(
                            image,
                            extent,
                            location,
                            depth,
                            next,
                            put_tree(directories, tree),
                            files,
                        ),
                        None => read_records(
                            image,
                            extent,
                            location,
                            depth,
                            next,
                            directories,
                            files,
                        ),
                    }
                }
            } else if e.extent_location > 0 && e.extent_size > 0 && e.extent_size
                <= MAX_FILE_SIZE {
                match extent_of(image, e.extent_location, e.extent_size) {
                    Some(content) => read_records(
                        image,
                        extent,
                        location,
                        depth,
                        next,
                        directories,
                        put_file(files, FileModel { name: e.name, content }),
                    ),
                    None => read_records(image, extent, location, depth, next, directories, files),
                }
            } else {
                read_records(image, extent, location, depth, next, directories, files)
            },
        }
    }
}

/// Finding by name is the same in a list of directories and in what they are.
pub proof fn lemma_tree_at(directories: Seq<Directory>, name: Seq<char>)
    ensures
        tree_at(trees(directories), name) == directory_at(directories, name),
    decreases directories.len(),
{
    if directories.len() > 0 {
        lemma_tree_at(directories.drop_last(), name);
        assert(trees(directories).drop_last() =~= trees(directories.drop_last()));
    }
}

/// Finding by name is the same in a list of files and in what they are.
pub proof fn lemma_model_at(files: Seq<File>, name: Seq<char>)
    ensures
        model_at(file_models(files), name) == file_at(files, name),
    decreases files.len(),
{
    if files.len() > 0 {
        lemma_model_at(files.drop_last(), name);
        assert(file_models(files).drop_last() =~= file_models(files.drop_last()));
    }
}

impl Directory {
    /// What the directory is, with all below it.
    pub closed spec fn tree(&self) -> Tree
        decreases self,
    {
        Tree {
            name: self.name@,
            sector_location: self.sector_location,
            size: self.size,
            directories: trees(self.directories@),
            files: file_models(self.files@),
        }
    }

    /// Puts `directory` in the place of the subdirectory of its name, or at
    /// the end where there is none.
    fn put_directory(&mut self, directory: Directory)
        requires
            old(self).wf(),
        ensures
            final(self).wf(),
            final(self).name == old(self).name,
            final(self).sector_location == old(self).sector_location,
            final(self).size == old(self).size,
            final(self).files == old(self).files,
            trees(final(self).directories@) == put_tree(
                trees(old(self).directories@),
                directory.tree(),
            ),
            final(self).directories@ == (match directory_at(
                old(self).directories@,
                directory.name@,
            ) {
                Some(i) => old(self).directories@.update(i, directory),
                None => old(self).directories@.push(directory),
            }),
    {
        let ghost before = self.directories@;
        proof {
            lemma_tree_at(before, directory.name@);
            lemma_directory_at(before, directory.name@);
            assert(old(self).wf());
            assert(forall|a: int, b: int|
                0 <= a < b < old(self).spec_files().len() ==> (
                #[trigger] old(self).spec_files()[a]).spec_name() != (
                #[trigger] old(self).spec_files()[b]).spec_name());
            assert(forall|a: int, b: int|
                0 <= a < b < old(self).spec_directories().len() ==> (
                #[trigger] old(self).spec_directories()[a]).spec_name() != (
                #[trigger] old(self).spec_directories()[b]).spec_name());
            assert(before == old(self).spec_directories());
        }
        match find_directory_index(&self.directories, directory.name.as_str()) {
            Some(i) => {
                let _old = self.directories.remove(i);
                self.directories.insert(i, directory);
                proof {
                    let after = self.directories@;
                    assert(after =~= before.update(i as int, directory));
                    assert(trees(after) =~= trees(before).update(i as int, directory.tree()));
                    assert forall|a: int, b: int| 0 <= a < b < after.len() implies (
                    #[trigger] after[a]).spec_name() != (#[trigger] after[b]).spec_name() by {
                        assert(after[a].spec_name() == before[a].spec_name());
                        assert(after[b].spec_name() == before[b].spec_name());
                    }
                }
            },
            None => {
                self.directories.push(directory);
                proof {
                    let after = self.directories@;
                    assert(trees(after) =~= trees(before).push(directory.tree()));
                    assert forall|a: int, b: int| 0 <= a < b < after.len() implies (
                    #[trigger] after[a]).spec_name() != (#[trigger] after[b]).spec_name() by {
                        assert(after[a] == before[a]);
                        if b < before.len() {
                            assert(after[b] == before[b]);
                        }
                    }
                }
            },
        }
    }

    /// Puts `file` in the place of the file of its name, or at the end where
    /// there is none.
    fn put_file(&mut self, file: File)
        requires
            old(self).wf(),
        ensures
            final(self).wf(),
            final(self).name == old(self).name,
            final(self).sector_location == old(self).sector_location,
            final(self).size == old(self).size,
            final(self).directories == old(self).directories,
            file_models(final(self).files@) == put_file(
                file_models(old(self).files@),
                FileModel { name: file.spec_name(), content: file.spec_content() },
            ),
    {
        let ghost before = self.files@;
        let ghost model = FileModel { name: file.spec_name(), content: file.spec_content() };
        proof {
            lemma_model_at(before, file.spec_name());
            lemma_file_at(before, file.spec_name());
            assert(old(self).wf());
            assert(forall|a: int, b: int|
                0 <= a < b < old(self).spec_directories().len() ==> (
                #[trigger] old(self).spec_directories()[a]).spec_name() != (
                #[trigger] old(self).spec_directories()[b]).spec_name());
            assert(forall|a: int, b: int|
                0 <= a < b < old(self).spec_files().len() ==> (
                #[trigger] old(self).spec_files()[a]).spec_name() != (
                #[trigger] old(self).spec_files()[b]).spec_name());
            assert(before == old(self).spec_files());
        }
        match find_file_index(&self.files, file.name()) {
            Some(i) => {
                let _old = self.files.remove(i);
                self.files.insert(i, file);
                proof {
                    let after = self.files@;
                    assert(after =~= before.update(i as int, file));
                    assert(file_models(after) =~= file_models(before).update(i as int, model));
                    assert forall|a: int, b: int| 0 <= a < b < after.len() implies (
                    #[trigger] after[a]).spec_name() != (#[trigger] after[b]).spec_name() by {
                        assert(after[a].spec_name() == before[a].spec_name());
                        assert(after[b].spec_name() == before[b].spec_name());
                    }
                }
            },
            None => {
                self.files.push(file);
                proof {
                    let after = self.files@;
                    assert(file_models(after) =~= file_models(before).push(model));
                    assert forall|a: int, b: int| 0 <= a < b < after.len() implies (
                    #[trigger] after[a]).spec_name() != (#[trigger] after[b]).spec_name() by {
                        assert(after[a] == before[a]);
                        if b < before.len() {
                            assert(after[b] == before[b]);
                        }
                    }
                }
            },
        }
    }

    /// Reads the directory that `entry` stands for from `image`, with all
    /// below it down to eight levels. An entry that is no directory or has no
    /// extent, and an extent that the image does not hold, are refused as
    /// malformed; an extent of more than 10 MiB as too large.
    pub fn read_from_iso(image: &[u8], entry: &DirectoryEntry) -> (r: Result<Self, Error>)
        ensures
            match read_tree(image@, entry.model(), MAX_READ_DEPTH as nat) {
                Some(tree) => r is Ok && r->Ok_0.tree() == tree && deep_wf(r->Ok_0),
                None => r is Err && (r->Err_0 is SizeLimit <==> entry.model().is_directory()
                    && entry.model().extent_location != 0 && entry.model().extent_size
                    > MAX_DIRECTORY_SIZE) && (r->Err_0 is SizeLimit || r->Err_0 is InvalidFormat),
            },
    {
        Directory::read_levels(image, entry, MAX_READ_DEPTH)
    }

    /// Reads the directory that `entry` stands for from `image`, with all
    /// below it down to `depth` levels.
    pub fn read_levels(image: &[u8], entry: &DirectoryEntry, depth: usize) -> (r: Result<
        Self,
        Error,
    >)
        ensures
            match read_tree(image@, entry.model(), depth as nat) {
                Some(tree) => r is Ok && r->Ok_0.tree() == tree && deep_wf(r->Ok_0),
                None => r is Err && (r->Err_0 is SizeLimit <==> entry.model().is_directory()
                    && entry.model().extent_location != 0 && entry.model().extent_size
                    > MAX_DIRECTORY_SIZE) && (r->Err_0 is SizeLimit || r->Err_0 is InvalidFormat),
            },
        decreases depth,
    {
        if !entry.is_directory() {
            return Err(Error::InvalidFormat("Entry is not a directory".to_owned()));
        }
        let location = entry.extent_location();
        let size = entry.extent_size();
        if location == 0 || size == 0 {
            return Err(Error::InvalidFormat("Invalid directory location or size".to_owned()));
        }
        if size > MAX_DIRECTORY_SIZE {
            return Err(Error::SizeLimit("Directory size exceeds reasonable limit".to_owned()));
        }
        let start = location as u64 * 2048;
        if start + size as u64 > image.len() as u64 {
            return Err(Error::InvalidFormat("Directory lies beyond the image".to_owned()));
        }
        let extent = slice_subrange(image, start as usize, start as usize + size as usize);
        let mut directory = Directory::new(entry.name());
        directory.sector_location = Some(location);
        directory.size = Some(size);
        let ghost d = depth as nat;
        let ghost total = read_records(
            image@,
            extent@,
            location,
            d,
            0,
            Seq::<Tree>::empty(),
            Seq::<FileModel>::empty(),
        );
        let n = extent.len();
        let mut offset: usize = 0;
        proof {
            assert(trees(directory.directories@) =~= Seq::<Tree>::empty());
            assert(file_models(directory.files@) =~= Seq::<FileModel>::empty());
        }
        while offset < n
            invariant
                n == extent@.len(),
                n <= image@.len(),
                n <= MAX_DIRECTORY_SIZE,
                d == depth,
                directory.wf(),
                forall|j: int|
                    0 <= j < directory.directories@.len() ==> deep_wf(
                        #[trigger] directory.directories@[j],
                    ),
                directory.name@ == entry.model().name,
                directory.sector_location == Some(location),
                directory.size == Some(size),
                total == read_records(
                    image@,
                    extent@,
                    location,
                    d,
                    offset as int,
                    trees(directory.directories@),
                    file_models(directory.files@),
                ),
            decreases n - offset,
        {
            let length = extent[offset] as usize;
            if length == 0 || length > n - offset {
                let next = offset as u64 + (2048 - (offset % 2048) as u64);
                if next >= n as u64 {
                    proof {
                        lemma_read_past(
                            image@,
                            extent@,
                            location,
                            d,
                            next as int,
                            trees(directory.directories@),
                            file_models(directory.files@),
                        );
                    }
                    offset = n;
                } else {
                    offset = next as usize;
                }
                continue ;
            }
            let record = slice_subrange(extent, offset, offset + length);
            let next = offset + length;
            match DirectoryEntry::parse_from_buffer(record) {
                None => {},
                Some(e) => {
                    let special = is_parent_name(e.name()) || is_self_name(e.name());
                    if special {
                    } else if e.is_directory() {
                        if e.extent_location() != location && depth > 0 {
                            match Directory::read_levels(image, &e, depth - 1) {
                                Ok(subdirectory) => {
                                    let ghost before = directory.directories@;
                                    directory.put_directory(subdirectory);
                                    proof {
                                        let after = directory.directories@;
                                        lemma_directory_at(before, subdirectory.name@);
                                        assert forall|j: int| 0 <= j < after.len() implies deep_wf(
                                            #[trigger] after[j],
                                        ) by {
                                            match directory_at(before, subdirectory.name@) {
                                                Some(i) => {
                                                    if j != i {
                                                        assert(after[j] == before[j]);
                                                    }
                                                },
                                                None => {
                                                    if j < before.len() {
                                                        assert(after[j] == before[j]);
                                                    }
                                                },
                                            }
                                        }
                                    }
                                },
                                Err(_) => {},
                            }
                        }
                    } else if e.extent_location() > 0 && e.extent_size() > 0 && e.extent_size()
                        <= MAX_FILE_SIZE {
                        let from = e.extent_location() as u64 * 2048;
                        if from + e.extent_size() as u64 <= image.len() as u64 {
                            let content = vstd::slice::slice_to_vec(
                                slice_subrange(
                                    image,
                                    from as usize,
                                    from as usize + e.extent_size() as usize,
                                ),
                            );
                            let file = File::new(e.name(), content);
                            directory.put_file(file);
                        }
                    }
                },
            }
            offset = next;
        }
        proof {
            assert(directory.tree() == read_tree(image@, entry.model(), d).unwrap());
        }
        Ok(directory)
    }
}

/// Reading from the end of an extent on adds nothing.
pub proof fn lemma_read_past(
    image: Seq<u8>,
    extent: Seq<u8>,
    location: u32,
    depth: nat,
    offset: int,
    directories: Seq<Tree>,
    files: Seq<FileModel>,
)
    requires
        offset >= extent.len(),
    ensures
        read_records(image, extent, location, depth, offset, directories, files) == (
            directories,
            files,
        ),
        read_records(image, extent, location, depth, extent.len() as int, directories, files) == (
            directories,
            files,
        ),
{
}

/// Whether `name` is `.`.
fn is_self_name(name: &str) -> (r: bool)
    ensures
        r == (name@ == dot()),
{
    if name.unicode_len() != 1 {
        return false;
    }
    let r = name.get_char(0) == '.';
    if r {
        assert(name@ =~= dot());
    }
    r
}

/// The entry of a directory called `name` at `location` and of `size` bytes.
pub open spec fn directory_entry(name: Seq<char>, location: u32, size: u32, time: u64) -> EntryModel {
    EntryModel {
        name,
        flags: 0x02,
        extent_location: location,
        extent_size: size,
        recording_time: time,
    }
}

/// The entry of a file called `name` at `location` and of `size` bytes.
pub open spec fn file_entry(name: Seq<char>, location: u32, size: u32, time: u64) -> EntryModel {
    EntryModel { name, flags: 0, extent_location: location, extent_size: size, recording_time: time }
}

/// `records` and after them the record of `entry`; nothing where there are
/// no records or the record would take more than 255 bytes.
pub open spec fn with_record(records: Option<Seq<u8>>, entry: EntryModel) -> Option<Seq<u8>> {
    match records {
        Some(before) => if entry_record_size(entry) > 255 {
            None
        } else {
            Some(before + entry_bytes(entry))
        },
        None => None,
    }
}

/// `records` and after them the records of those of the first `k` of
/// `directories` that have a place and a size.
pub open spec fn with_directories(
    records: Option<Seq<u8>>,
    directories: Seq<Directory>,
    time: u64,
    k: nat,
) -> Option<Seq<u8>>
    decreases k,
{
    if k == 0 || k > directories.len() {
        records
    } else {
        let before = with_directories(records, directories, time, (k - 1) as nat);
        let d = directories[k - 1];
        match (d.spec_sector_location(), d.spec_size()) {
            (Some(location), Some(size)) => with_record(
                before,
                directory_entry(d.spec_name(), location, size, time),
            ),
            _ => before,
        }
    }
}

/// `records` and after them the records of those of the first `k` of
/// `files` that have a place.
pub open spec fn with_files(records: Option<Seq<u8>>, files: Seq<File>, time: u64, k: nat) -> Option<
    Seq<u8>,
>
    decreases k,
{
    if k == 0 || k > files.len() {
        records
    } else {
        let before = with_files(records, files, time, (k - 1) as nat);
        let f = files[k - 1];
        match f.spec_sector_location() {
            Some(location) => with_record(
                before,
                file_entry(f.spec_name(), location, f.spec_size(), time),
            ),
            None => before,
        }
    }
}

/// `bytes` and zeros up to the end of their last sector.
pub open spec fn to_sector_end(bytes: Seq<u8>) -> Seq<u8> {
    bytes + zeros(((2048 - bytes.len() % 2048) % 2048) as nat)
}

/// The extent of a directory at `location` and of `size` bytes with these
/// subdirectories and files: the record of the directory in itself, that of
/// its parent, for which it stands itself, one for each subdirectory that has
/// a place and a size and one for each file that has a place, and zeros up to
/// the end of the last sector. There is none where a record would take more
/// than 255 bytes.
pub open spec fn directory_extent_of(
    location: Option<u32>,
    size: Option<u32>,
    directories: Seq<Directory>,
    files: Seq<File>,
    time: u64,
) -> Option<Seq<u8>> {
    let at = match location {
        Some(l) => l,
        None => 0,
    };
    let own = match size {
        Some(s) => s,
        None => 0,
    };
    let start = Some(
        entry_bytes(directory_entry(dot(), at, own, time)) + entry_bytes(
            directory_entry(dotdot(), at, 0, time),
        ),
    );
    match with_files(
        with_directories(start, directories, time, directories.len()),
        files,
        time,
        files.len(),
    ) {
        Some(records) => Some(to_sector_end(records)),
        None => None,
    }
}

/// Appends the record of an entry to `out`.
fn push_record(out: &mut Vec<u8>, entry: &DirectoryEntry) -> (r: Result<(), Error>)
    ensures
        match with_record(Some(old(out)@), entry.model()) {
            Some(bytes) => r is Ok && final(out)@ == bytes,
            None => r is Err && r->Err_0 is PathError && final(out)@ == old(out)@,
        },
{
    let size = entry.record_size();
    if size > 255 {
        return Err(Error::PathError("Name too long for a directory entry".to_owned()));
    }
    let mut buffer: Vec<u8> = Vec::new();
    push_zeros(&mut buffer, size as u64);
    match entry.write_to_buffer(buffer.as_mut_slice()) {
        Ok(()) => {},
        Err(e) => {
            proof {
                assert(false);
            }
            return Err(e);
        },
    }
    assert(buffer@ =~= entry_bytes(entry.model()));
    out.extend_from_slice(buffer.as_slice());
    Ok(())
}

fn made_directory_entry(name: &str, location: u32, size: u32, time: u64) -> (r: DirectoryEntry)
    ensures
        r.model() == directory_entry(name@, location, size, time),
{
    DirectoryEntry {
        name: name.to_owned(),
        flags: 0x02,
        extent_location: location,
        extent_size: size,
        recording_time: time,
    }
}

fn made_file_entry(name: &str, location: u32, size: u32, time: u64) -> (r: DirectoryEntry)
    ensures
        r.model() == file_entry(name@, location, size, time),
{
    DirectoryEntry {
        name: name.to_owned(),
        flags: 0,
        extent_location: location,
        extent_size: size,
        recording_time: time,
    }
}

/// Once a record is too long, no more records make up for it.
pub proof fn lemma_with_directories_none(directories: Seq<Directory>, time: u64, k: nat)
    ensures
        with_directories(None, directories, time, k) is None,
    decreases k,
{
    if k > 0 && k <= directories.len() {
        lemma_with_directories_none(directories, time, (k - 1) as nat);
    }
}

/// Once a record is too long, no more records make up for it.
pub proof fn lemma_with_files_none(files: Seq<File>, time: u64, k: nat)
    ensures
        with_files(None, files, time, k) is None,
    decreases k,
{
    if k > 0 && k <= files.len() {
        lemma_with_files_none(files, time, (k - 1) as nat);
    }
}

/// Once a record is too long, a longer run of directories has no records.
pub proof fn lemma_with_directories_fails(
    records: Option<Seq<u8>>,
    directories: Seq<Directory>,
    time: u64,
    k: nat,
    n: nat,
)
    requires
        k <= n <= directories.len(),
        with_directories(records, directories, time, k) is None,
    ensures
        with_directories(records, directories, time, n) is None,
    decreases n - k,
{
    if k < n {
        lemma_with_directories_fails(records, directories, time, k, (n - 1) as nat);
    }
}

/// Once a record is too long, a longer run of files has no records.
pub proof fn lemma_with_files_fails(
    records: Option<Seq<u8>>,
    files: Seq<File>,
    time: u64,
    k: nat,
    n: nat,
)
    requires
        k <= n <= files.len(),
        with_files(records, files, time, k) is None,
    ensures
        with_files(records, files, time, n) is None,
    decreases n - k,
{
    if k < n {
        lemma_with_files_fails(records, files, time, k, (n - 1) as nat);
    }
}

/// The extent of a directory at `location` and of `size` bytes with these
/// subdirectories and files, as of `time`.
fn extent_bytes(
    location: Option<u32>,
    size: Option<u32>,
    directories: &Vec<Directory>,
    files: &Vec<File>,
    time: u64,
) -> (r: Result<Vec<u8>, Error>)
    ensures
        match directory_extent_of(location, size, directories@, files@, time) {
            Some(bytes) => r is Ok && r->Ok_0@ == bytes,
            None => r is Err && r->Err_0 is PathError,
        },
{
    let at = match location {
        Some(l) => l,
        None => 0,
    };
    let own = match size {
        Some(s) => s,
        None => 0,
    };
    proof {
        reveal_strlit(".");
        reveal_strlit("..");
        assert("."@ =~= dot());
        assert(".."@ =~= dotdot());
        assert(0x02u8 & 0x02 != 0) by (bit_vector);
    }
    let mut out: Vec<u8> = Vec::new();
    match push_record(&mut out, &made_directory_entry(".", at, own, time)) {
        Ok(()) => {},
        Err(e) => {
            proof {
                assert(false);
            }
            return Err(e);
        },
    }
    match push_record(&mut out, &made_directory_entry("..", at, 0, time)) {
        Ok(()) => {},
        Err(e) => {
            proof {
                assert(false);
            }
            return Err(e);
        },
    }
    let ghost start = Some(out@);
    assert(out@ =~= entry_bytes(directory_entry(dot(), at, own, time)) + entry_bytes(
        directory_entry(dotdot(), at, 0, time),
    ));
    let n = directories.len();
    let mut i: usize = 0;
    while i < n
        invariant
            i <= n,
            n == directories@.len(),
            start == Some(
                entry_bytes(directory_entry(dot(), at, own, time)) + entry_bytes(
                    directory_entry(dotdot(), at, 0, time),
                ),
            ),
            at == (match location {
                Some(l) => l,
                None => 0,
            }),
            own == (match size {
                Some(s) => s,
                None => 0,
            }),
            with_directories(start, directories@, time, i as nat) == Some(out@),
        decreases n - i,
    {
        let d = &directories[i];
        match (d.sector_location, d.size) {
            (Some(l), Some(s)) => {
                match push_record(&mut out, &made_directory_entry(d.name(), l, s, time)) {
                    Ok(()) => {},
                    Err(e) => {
                        proof {
                            assert(with_directories(start, directories@, time, (i + 1) as nat)
                                is None);
                            lemma_with_directories_fails(
                                start,
                                directories@,
                                time,
                                (i + 1) as nat,
                                n as nat,
                            );
                            lemma_with_files_none(files@, time, files@.len());
                        }
                        return Err(e);
                    },
                }
            },
            _ => {},
        }
        i += 1;
    }
    let ghost listed = Some(out@);
    let m = files.len();
    let mut j: usize = 0;
    while j < m
        invariant
            j <= m,
            m == files@.len(),
            start == Some(
                entry_bytes(directory_entry(dot(), at, own, time)) + entry_bytes(
                    directory_entry(dotdot(), at, 0, time),
                ),
            ),
            at == (match location {
                Some(l) => l,
                None => 0,
            }),
            own == (match size {
                Some(s) => s,
                None => 0,
            }),
            with_directories(start, directories@, time, directories@.len()) == listed,
            with_files(listed, files@, time, j as nat) == Some(out@),
        decreases m - j,
    {
        let f = &files[j];
        match (f.sector_location(), f.size()) {
            (Some(l), Some(s)) => {
                match push_record(&mut out, &made_file_entry(f.name(), l, s, time)) {
                    Ok(()) => {},
                    Err(e) => {
                        proof {
                            assert(with_files(listed, files@, time, (j + 1) as nat) is None);
                            lemma_with_files_fails(
                                listed,
                                files@,
                                time,
                                (j + 1) as nat,
                                m as nat,
                            );
                        }
                        return Err(e);
                    },
                }
            },
            _ => {},
        }
        j += 1;
    }
    let pad = (2048 - out.len() % 2048) % 2048;
    push_zeros(&mut out, pad as u64);
    Ok(out)
}

impl Directory {
    /// The entry of the directory in itself: at its place and of its size,
    /// both zero where they are not set. It is recorded now.
    pub fn create_dot_entry(&self) -> (r: DirectoryEntry)
        ensures
            r.model().name == dot(),
            r.model().flags == 0x02,
            r.model().extent_location == (match self.spec_sector_location() {
                Some(l) => l,
                None => 0,
            }),
            r.model().extent_size == (match self.spec_size() {
                Some(s) => s,
                None => 0,
            }),
    {
        proof {
            reveal_strlit(".");
            assert("."@ =~= dot());
        }
        let location = match self.sector_location {
            Some(l) => l,
            None => 0,
        };
        let size = match self.size {
            Some(s) => s,
            None => 0,
        };
        DirectoryEntry::new_directory(".", location, size)
    }

    /// The entry of the parent of the directory, for which the directory
    /// stands itself: at its place, zero where it is not set, and of the size
    /// zero. It is recorded now.
    pub fn create_dotdot_entry(&self) -> (r: DirectoryEntry)
        ensures
            r.model().name == dotdot(),
            r.model().flags == 0x02,
            r.model().extent_location == (match self.spec_sector_location() {
                Some(l) => l,
                None => 0,
            }),
            r.model().extent_size == 0,
    {
        proof {
            reveal_strlit("..");
            assert(".."@ =~= dotdot());
        }
        let location = match self.sector_location {
            Some(l) => l,
            None => 0,
        };
        DirectoryEntry::new_directory("..", location, 0)
    }

    /// The extent of the directory as it stands on disk, as of `time`.
    pub open spec fn spec_extent(&self, time: u64) -> Option<Seq<u8>> {
        directory_extent_of(
            self.spec_sector_location(),
            self.spec_size(),
            self.spec_directories(),
            self.spec_files(),
            time,
        )
    }

    /// Appends the extent of the directory to `out`, its records dated
    /// `time`. A name that is too long for a record is refused and leaves
    /// `out` as it was.
    pub fn write_directory_record_at(&self, out: &mut Vec<u8>, time: u64) -> (r: Result<(), Error>)
        ensures
            match self.spec_extent(time) {
                Some(bytes) => r is Ok && final(out)@ == old(out)@ + bytes,
                None => r is Err && r->Err_0 is PathError && final(out)@ == old(out)@,
            },
    {
        match extent_bytes(self.sector_location, self.size, &self.directories, &self.files, time) {
            Ok(bytes) => {
                out.extend_from_slice(bytes.as_slice());
                Ok(())
            },
            Err(e) => Err(e),
        }
    }

    /// Appends the extent of the directory to `out`, its records dated now.
    /// A name that is too long for a record is refused and leaves `out` as it
    /// was.
    pub fn write_directory_record(&self, out: &mut Vec<u8>) -> (r: Result<(), Error>)
        ensures
            exists|time: u64|
                match #[trigger] self.spec_extent(time) {
                    Some(bytes) => r is Ok && final(out)@ == old(out)@ + bytes,
                    None => r is Err && r->Err_0 is PathError && final(out)@ == old(out)@,
                },
    {
        let time = now_seconds();
        self.write_directory_record_at(out, time)
    }
}

/// How far the writing of a directory has come: the image, the records of
/// the directory so far, and the sector that the next extent goes to.
pub struct Progress {
    pub image: Seq<u8>,
    pub records: Seq<u8>,
    pub sector: int,
}

/// The first sector that the extents of subdirectories and files go to.
pub const FIRST_EXTENT_SECTOR: u32 = 20;

/// How many sectors hold `size` bytes.
pub open spec fn sectors_of(size: int) -> int {
    (size + 2047) / 2048
}

/// The progress after `bytes` went to the current sector and a record for
/// them, made of `entry` at that sector, to the records: nothing where the
/// sector has no number of 32 bits, the record would take more than 255
/// bytes, or this machine cannot address the end of the bytes.
pub open spec fn placed(progress: Progress, bytes: Seq<u8>, size: int, entry: EntryModel) -> Option<
    Progress,
> {
    if progress.sector > u32::MAX || entry_record_size(entry) > 255 || progress.sector * 2048
        + bytes.len() > usize::MAX {
        None
    } else {
        Some(
            Progress {
                image: overlay(progress.image, progress.sector * 2048, bytes),
                records: progress.records + entry_bytes(entry),
                sector: progress.sector + sectors_of(size),
            },
        )
    }
}

/// The progress after the directory `d` was written: it gets the next
/// sectors, as many as hold the bytes that its records add up to, and its
/// extent goes there as it stands with that place and size.
#[verifier::opaque]
pub open spec fn directory_step(progress: Progress, d: Directory, time: u64) -> Option<Progress> {
    let size = (d.spec_calculated_size() % 0x1_0000_0000) as u32;
    match directory_extent_of(
        Some(progress.sector as u32),
        Some(size),
        d.spec_directories(),
        d.spec_files(),
        time,
    ) {
        None => None,
        Some(bytes) => placed(
            progress,
            bytes,
            size as int,
            directory_entry(d.spec_name(), progress.sector as u32, size, time),
        ),
    }
}

/// The progress after the file `f` was written: it gets the next sectors,
/// as many as hold its bytes, and its bytes go there. A file of more bytes
/// than 32 bits count stops the writing.
#[verifier::opaque]
pub open spec fn file_step(progress: Progress, f: File, time: u64) -> Option<Progress> {
    if f.spec_content().len() > u32::MAX {
        None
    } else {
        placed(
            progress,
            f.spec_content(),
            f.spec_content().len() as int,
            file_entry(
                f.spec_name(),
                progress.sector as u32,
                f.spec_content().len() as u32,
                time,
            ),
        )
    }
}

/// The progress after the first `k` of `directories` were written, one
/// after the other.
pub open spec fn after_directories(
    start: Progress,
    directories: Seq<Directory>,
    time: u64,
    k: nat,
) -> Option<Progress>
    decreases k,
{
    if k == 0 || k > directories.len() {
        Some(start)
    } else {
        match after_directories(start, directories, time, (k - 1) as nat) {
            None => None,
            Some(progress) => directory_step(progress, directories[k - 1], time),
        }
    }
}

/// The progress after the first `k` of `files` were written, one after the
/// other.
pub open spec fn after_files(start: Option<Progress>, files: Seq<File>, time: u64, k: nat) -> Option<
    Progress,
>
    decreases k,
{
    if k == 0 || k > files.len() {
        start
    } else {
        match after_files(start, files, time, (k - 1) as nat) {
            None => None,
            Some(progress) => file_step(progress, files[k - 1], time),
        }
    }
}

/// `image` after a directory was written into it: the extents of its
/// subdirectories from sector 20 on, then the bytes of its files, and at its
/// own place, where it has one and this machine can address it, its own
/// extent with a record for each of them.
pub open spec fn written_to_iso(directory: Directory, image: Seq<u8>, time: u64) -> Option<Seq<u8>> {
    let location = match directory.spec_sector_location() {
        Some(l) => l,
        None => 0,
    };
    let size = (directory.spec_calculated_size() % 0x1_0000_0000) as u32;
    let start = Progress {
        image,
        records: entry_bytes(directory_entry(dot(), location, size, time)) + entry_bytes(
            directory_entry(dotdot(), location, 0, time),
        ),
        sector: FIRST_EXTENT_SECTOR as int,
    };
    match after_files(
        after_directories(start, directory.spec_directories(), time, directory.spec_directories().len()),
        directory.spec_files(),
        time,
        directory.spec_files().len(),
    ) {
        None => None,
        Some(progress) => match directory.spec_sector_location() {
            None => Some(progress.image),
            Some(l) => if l * 2048 + to_sector_end(progress.records).len() > usize::MAX {
                None
            } else {
                Some(overlay(progress.image, l * 2048, to_sector_end(progress.records)))
            },
        },
    }
}

/// Once the writing has stopped, a longer run of directories does not go on.
pub proof fn lemma_after_directories_fails(
    start: Progress,
    directories: Seq<Directory>,
    time: u64,
    k: nat,
    n: nat,
)
    requires
        k <= n <= directories.len(),
        after_directories(start, directories, time, k) is None,
    ensures
        after_directories(start, directories, time, n) is None,
    decreases n - k,
{
    if k < n {
        lemma_after_directories_fails(start, directories, time, k, (n - 1) as nat);
    }
}

/// Once the writing has stopped, a longer run of files does not go on.
pub proof fn lemma_after_files_fails(
    start: Option<Progress>,
    files: Seq<File>,
    time: u64,
    k: nat,
    n: nat,
)
    requires
        k <= n <= files.len(),
        after_files(start, files, time, k) is None,
    ensures
        after_files(start, files, time, n) is None,
    decreases n - k,
{
    if k < n {
        lemma_after_files_fails(start, files, time, k, (n - 1) as nat);
    }
}

/// Writes `bytes` at the sector `sector` of `out` and appends the record of
/// `entry` to `records`.
fn place(
    out: &mut Vec<u8>,
    records: &mut Vec<u8>,
    sector: u64,
    bytes: &[u8],
    size: u32,
    entry: &DirectoryEntry,
) -> (r: Result<u64, Error>)
    requires
        sector < 0x2_0000_0000,
    ensures
        match placed(
            Progress { image: old(out)@, records: old(records)@, sector: sector as int },
            bytes@,
            size as int,
            entry.model(),
        ) {
            Some(progress) => r is Ok && final(out)@ == progress.image && final(records)@
                == progress.records && r->Ok_0 == progress.sector && r->Ok_0 < 0x2_0000_0000,
            None => r is Err && (r->Err_0 is PathError || r->Err_0 is SizeLimit),
        },
{
    if sector > u32::MAX as u64 {
        return Err(Error::SizeLimit("Image has too many sectors".to_owned()));
    }
    let position = sector * 2048;
    if position > usize::MAX as u64 || bytes.len() as u64 > usize::MAX as u64 - position {
        return Err(Error::SizeLimit("Image too large".to_owned()));
    }
    match push_record(records, entry) {
        Ok(()) => {},
        Err(e) => {
            return Err(e);
        },
    }
    write_at(out, position as usize, bytes);
    Ok(sector + (size as u64 + 2047) / 2048)
}

impl Directory {
    /// Writes the extent of the directory at the sector `sector` of `out`,
    /// as it stands with that place and the size that its records add up to,
    /// and appends a record for it to `records`. Returns the sector after it.
    fn write_step(&self, out: &mut Vec<u8>, records: &mut Vec<u8>, sector: u64, time: u64) -> (r:
        Result<u64, Error>)
        requires
            sector < 0x2_0000_0000,
        ensures
            match directory_step(
                Progress { image: old(out)@, records: old(records)@, sector: sector as int },
                *self,
                time,
            ) {
                Some(progress) => r is Ok && final(out)@ == progress.image && final(records)@
                    == progress.records && r->Ok_0 == progress.sector && r->Ok_0
                    < 0x2_0000_0000,
                None => r is Err && (r->Err_0 is PathError || r->Err_0 is SizeLimit),
            },
    {
        reveal(directory_step);
        let size = self.calculate_size();
        if sector > u32::MAX as u64 {
            return Err(Error::SizeLimit("Image has too many sectors".to_owned()));
        }
        let bytes = match extent_bytes(
            Some(sector as u32),
            Some(size),
            &self.directories,
            &self.files,
            time,
        ) {
            Ok(bytes) => bytes,
            Err(e) => {
                return Err(e);
            },
        };
        let entry = made_directory_entry(self.name.as_str(), sector as u32, size, time);
        place(out, records, sector, bytes.as_slice(), size, &entry)
    }

    /// Writes the directory into the image `out`, its records dated `time`:
    /// the extents of its subdirectories from sector 20 on, each with the
    /// records that it has, then the bytes of its files, and at its own place,
    /// where it has one, its own extent with a record for each of them. What
    /// lies between the end of the image and a place of writing is filled with
    /// zeros.
    ///
    /// A name that is too long for a record, a file of more bytes than 32
    /// bits count, and a place that has no number of 32 bits or that this
    /// machine cannot address stop the writing where it stands.
    pub fn write_to_iso_at(&self, out: &mut Vec<u8>, time: u64) -> (r: Result<(), Error>)
        ensures
            match written_to_iso(*self, old(out)@, time) {
                Some(image) => r is Ok && final(out)@ == image,
                None => r is Err && (r->Err_0 is PathError || r->Err_0 is SizeLimit),
            },
    {
        let location = match self.sector_location {
            Some(l) => l,
            None => 0,
        };
        let size = self.calculate_size();
        proof {
            reveal_strlit(".");
            reveal_strlit("..");
            assert("."@ =~= dot());
            assert(".."@ =~= dotdot());
            assert(0x02u8 & 0x02 != 0) by (bit_vector);
        }
        let mut records: Vec<u8> = Vec::new();
        match push_record(&mut records, &made_directory_entry(".", location, size, time)) {
            Ok(()) => {},
            Err(e) => {
                proof {
                    assert(false);
                }
                return Err(e);
            },
        }
        match push_record(&mut records, &made_directory_entry("..", location, 0, time)) {
            Ok(()) => {},
            Err(e) => {
                proof {
                    assert(false);
                }
                return Err(e);
            },
        }
        assert(records@ =~= entry_bytes(directory_entry(dot(), location, size, time))
            + entry_bytes(directory_entry(dotdot(), location, 0, time)));
        let ghost start = Progress {
            image: out@,
            records: records@,
            sector: FIRST_EXTENT_SECTOR as int,
        };
        let mut sector: u64 = FIRST_EXTENT_SECTOR as u64;
        let n = self.directories.len();
        let mut i: usize = 0;
        while i < n
            invariant
                i <= n,
                n == self.directories@.len(),
                sector < 0x2_0000_0000,
                start == (Progress {
                    image: old(out)@,
                    records: entry_bytes(directory_entry(dot(), location, size, time)) + entry_bytes(
                        directory_entry(dotdot(), location, 0, time),
                    ),
                    sector: FIRST_EXTENT_SECTOR as int,
                }),
                location == (match self.spec_sector_location() {
                    Some(l) => l,
                    None => 0,
                }),
                size == self.spec_calculated_size() % 0x1_0000_0000,
                after_directories(start, self.directories@, time, i as nat) == Some(
                    Progress { image: out@, records: records@, sector: sector as int },
                ),
            decreases n - i,
        {
            match self.directories[i].write_step(out, &mut records, sector, time) {
                Ok(next) => {
                    sector = next;
                },
                Err(e) => {
                    proof {
                        lemma_after_directories_fails(
                            start,
                            self.directories@,
                            time,
                            (i + 1) as nat,
                            n as nat,
                        );
                        lemma_after_files_none(self.files@, time, self.files@.len());
                    }
                    return Err(e);
                },
            }
            i += 1;
        }
        let ghost listed = after_directories(start, self.directories@, time, n as nat);
        let m = self.files.len();
        let mut j: usize = 0;
        while j < m
            invariant
                j <= m,
                m == self.files@.len(),
                sector < 0x2_0000_0000,
                start == (Progress {
                    image: old(out)@,
                    records: entry_bytes(directory_entry(dot(), location, size, time)) + entry_bytes(
                        directory_entry(dotdot(), location, 0, time),
                    ),
                    sector: FIRST_EXTENT_SECTOR as int,
                }),
                location == (match self.spec_sector_location() {
                    Some(l) => l,
                    None => 0,
                }),
                size == self.spec_calculated_size() % 0x1_0000_0000,
                listed == after_directories(
                    start,
                    self.directories@,
                    time,
                    self.directories@.len(),
                ),
                after_files(listed, self.files@, time, j as nat) == Some(
                    Progress { image: out@, records: records@, sector: sector as int },
                ),
            decreases m - j,
        {
            match write_file_step(&self.files[j], out, &mut records, sector, time) {
                Ok(next) => {
                    sector = next;
                },
                Err(e) => {
                    proof {
                        lemma_after_files_fails(listed, self.files@, time, (j + 1) as nat, m as nat);
                    }
                    return Err(e);
                },
            }
            j += 1;
        }
        match self.sector_location {
            None => Ok(()),
            Some(l) => {
                let pad = (2048 - records.len() % 2048) % 2048;
                push_zeros(&mut records, pad as u64);
                let position = l as u64 * 2048;
                if position > usize::MAX as u64 || records.len() as u64 > usize::MAX as u64
                    - position {
                    return Err(Error::SizeLimit("Image too large".to_owned()));
                }
                write_at(out, position as usize, records.as_slice());
                Ok(())
            },
        }
    }

    /// Writes the directory into the image `out`, its records dated now. See
    /// `write_to_iso_at` for what is written.
    pub fn write_to_iso(&self, out: &mut Vec<u8>) -> (r: Result<(), Error>)
        ensures
            exists|time: u64|
                match #[trigger] written_to_iso(*self, old(out)@, time) {
                    Some(image) => r is Ok && final(out)@ == image,
                    None => r is Err && (r->Err_0 is PathError || r->Err_0 is SizeLimit),
                },
    {
        let time = now_seconds();
        self.write_to_iso_at(out, time)
    }
}

/// Once the writing has stopped, no files make it go on.
pub proof fn lemma_after_files_none(files: Seq<File>, time: u64, k: nat)
    ensures
        after_files(None, files, time, k) is None,
    decreases k,
{
    if k > 0 && k <= files.len() {
        lemma_after_files_none(files, time, (k - 1) as nat);
    }
}

/// Writes the bytes of `file` at the sector `sector` of `out` and appends a
/// record for it to `records`. Returns the sector after it.
fn write_file_step(file: &File, out: &mut Vec<u8>, records: &mut Vec<u8>, sector: u64, time: u64) -> (r:
    Result<u64, Error>)
    requires
        sector < 0x2_0000_0000,
    ensures
        match file_step(
            Progress { image: old(out)@, records: old(records)@, sector: sector as int },
            *file,
            time,
        ) {
            Some(progress) => r is Ok && final(out)@ == progress.image && final(records)@
                == progress.records && r->Ok_0 == progress.sector && r->Ok_0 < 0x2_0000_0000,
            None => r is Err && (r->Err_0 is PathError || r->Err_0 is SizeLimit),
        },
{
    reveal(file_step);
    let content = file.content();
    if content.len() > u32::MAX as usize || sector > u32::MAX as u64 {
        return Err(Error::SizeLimit("File or image too large".to_owned()));
    }
    let entry = made_file_entry(file.name(), sector as u32, content.len() as u32, time);
    place(out, records, sector, content, content.len() as u32, &entry)
}

} // verus!
