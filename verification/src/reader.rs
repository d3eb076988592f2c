//! Reading an image: the scan of its volume descriptors, the walk through
//! the records of a directory, and what a record says of a file.

use crate::parse::{record_identifier, IsoParse, IsoParseError, VolumeDescriptor};
use crate::read::{IsoRead, SECTOR_SIZE};
use crate::spec::{
    DirectoryRecord, ElToritoBootRecordVolumeDescriptor, Extension, FileFlags, Identifier,
    JolietExtension, NoExtension, PrimaryVolumeDescriptor, RootDirectoryRecord,
    SupplementaryVolumeDescriptor,
};
use crate::utils::{from_utf16_lossy, from_utf8_lossy, utf16_lossy, utf8_lossy};
use vstd::prelude::*;
use vstd::slice::slice_subrange;
use vstd::string::StrSliceExecFns;

verus! {

/// The sector in which the volume descriptors start.
pub const STARTING_SECTOR: u64 = 16;

/// Why an image could not be read.
#[derive(Debug, Clone, Copy, PartialEq, Eq)]
pub enum Error<T> {
    /// A descriptor or a record is malformed.
    Parse(IsoParseError),
    /// The storage failed.
    Read(T),
}

/// The extensions that a reader looks for.
#[derive(Debug, Clone, Copy, PartialEq, Eq)]
pub struct Extensions {
    pub bits: u8,
}

impl Extensions {
    pub const NONE: u8 = 0;

    pub const ROCK_RIDGE: u8 = 0x01;

    pub const JOLIET: u8 = 0x02;

    /// Whether the Joliet bit is set.
    pub open spec fn spec_joliet(&self) -> bool {
        self.bits & 0x02 == 0x02
    }

    pub fn none() -> (r: Self)
        ensures
            r.bits == 0,
            !r.spec_joliet(),
    {
        assert(0u8 & 0x02 != 0x02) by (bit_vector);
        Extensions { bits: 0 }
    }

    pub fn all() -> (r: Self)
        ensures
            r.bits == 3,
            r.spec_joliet(),
    {
        assert(3u8 & 0x02 == 0x02) by (bit_vector);
        Extensions { bits: 3 }
    }

    pub fn from_bits(bits: u8) -> (r: Self)
        ensures
            r.bits == bits,
    {
        Extensions { bits }
    }

    pub fn joliet(&self) -> (r: bool)
        ensures
            r == self.spec_joliet(),
    {
        self.bits & 0x02 == 0x02
    }
}

/// The name of a file without its version: what stands before the last
/// semicolon, where only digits, and at least one, follow it; else the whole
/// identifier.
pub open spec fn name_of(identifier: Seq<char>) -> Seq<char> {
    match version_start(identifier) {
        Some(at) => identifier.subrange(0, at - 1),
        None => identifier,
    }
}

/// Where the digits of the version of an identifier start: after its last
/// semicolon, where only digits, and at least one, follow it.
pub open spec fn version_start(identifier: Seq<char>) -> Option<int>
    decreases identifier.len(),
{
    if identifier.len() == 0 {
        None
    } else if is_digit_char(identifier.last()) {
        match version_start(identifier.drop_last()) {
            Some(at) => Some(at),
            None => if identifier.len() >= 2 && identifier[identifier.len() - 2] == ';' {
                Some(identifier.len() - 1)
            } else {
                None
            },
        }
    } else {
        None
    }
}

/// Whether `c` is one of the digits `0` to `9`.
pub open spec fn is_digit_char(c: char) -> bool {
    48 <= c as u32 <= 57
}

/// The number that the digits of `identifier` from `at` on stand for, 256
/// standing for every number over 255.
pub open spec fn version_value(identifier: Seq<char>, at: int, end: int) -> int
    decreases end - at,
{
    if end <= at {
        0
    } else {
        let before = version_value(identifier, at, end - 1);
        let value = before * 10 + (identifier[end - 1] as u32 - 48);
        if value > 255 {
            256
        } else {
            value
        }
    }
}

/// The revision of a file: the number after the last semicolon of its
/// identifier, and 1 where there is none or it does not fit a byte.
pub open spec fn revision_of(identifier: Seq<char>) -> u8 {
    match version_start(identifier) {
        Some(at) => {
            let value = version_value(identifier, at, identifier.len() as int);
            if value > 255 {
                1u8
            } else {
                value as u8
            }
        },
        None => 1u8,
    }
}

/// What `version_start` finds: only digits from there to the end, and a
/// semicolon just before.
pub proof fn lemma_version_start(identifier: Seq<char>)
    ensures
        match version_start(identifier) {
            Some(at) => {
                &&& 1 <= at < identifier.len()
                &&& identifier[at - 1] == ';'
                &&& forall|i: int| at <= i < identifier.len() ==> is_digit_char(identifier[i])
            },
            None => true,
        },
    decreases identifier.len(),
{
    if identifier.len() > 0 && is_digit_char(identifier.last()) {
        let init = identifier.drop_last();
        lemma_version_start(init);
        assert(forall|i: int| 0 <= i < init.len() ==> init[i] == identifier[i]);
    }
}

/// A run of digits to the end of the identifier, with a semicolon before it,
/// is where the version starts.
pub proof fn lemma_version_found(identifier: Seq<char>, at: int, end: int)
    requires
        1 <= at < end <= identifier.len(),
        identifier[at - 1] == ';',
        forall|i: int| at <= i < end ==> is_digit_char(identifier[i]),
    ensures
        version_start(identifier.subrange(0, end)) == Some(at),
    decreases end - at,
{
    let s = identifier.subrange(0, end);
    assert(s.last() == identifier[end - 1]);
    assert(s.drop_last() =~= identifier.subrange(0, end - 1));
    if end - 1 > at {
        lemma_version_found(identifier, at, end - 1);
    } else {
        let init = identifier.subrange(0, end - 1);
        assert(init.last() == identifier[at - 1]);
        assert(!is_digit_char(init.last()));
        assert(s[s.len() - 2] == identifier[at - 1]);
    }
}

/// An identifier whose digits at the end have no semicolon before them has
/// no version.
pub proof fn lemma_version_missing(identifier: Seq<char>, at: int, end: int)
    requires
        0 <= at <= end <= identifier.len(),
        at == 0 || identifier[at - 1] != ';',
        at == 0 || !is_digit_char(identifier[at - 1]),
        forall|i: int| at <= i < end ==> is_digit_char(identifier[i]),
    ensures
        version_start(identifier.subrange(0, end)) is None,
    decreases end - at,
{
    let s = identifier.subrange(0, end);
    if end > at {
        assert(s.last() == identifier[end - 1]);
        assert(s.drop_last() =~= identifier.subrange(0, end - 1));
        lemma_version_missing(identifier, at, end - 1);
        if s.len() >= 2 {
            assert(s[s.len() - 2] == identifier[end - 2]);
        }
    } else if end > 0 {
        assert(s.last() == identifier[at - 1]);
    }
}

/// Takes an identifier apart into the name and the revision of a file.
pub fn split_revision(identifier: &str) -> (r: (String, u8))
    ensures
        r.0@ == name_of(identifier@),
        r.1 == revision_of(identifier@),
{
    let n = identifier.unicode_len();
    let mut at: usize = n;
    while at > 0 && is_digit(identifier.get_char(at - 1))
        invariant
            at <= n,
            n == identifier@.len(),
            forall|i: int| at <= i < n ==> is_digit_char(identifier@[i]),
        decreases at,
    {
        at -= 1;
    }
    proof {
        assert(identifier@.subrange(0, n as int) =~= identifier@);
    }
    if at == n || at == 0 || identifier.get_char(at - 1) != ';' {
        proof {
            if at == n {
                if n > 0 {
                    assert(!is_digit_char(identifier@.last()));
                }
            } else {
                lemma_version_missing(identifier@, at as int, n as int);
            }
        }
        return (identifier.to_owned(), 1);
    }
    proof {
        lemma_version_found(identifier@, at as int, n as int);
    }
    let mut value: u32 = 0;
    let mut i: usize = at;
    while i < n
        invariant
            at <= i <= n,
            n == identifier@.len(),
            forall|j: int| at <= j < n ==> is_digit_char(identifier@[j]),
            value == version_value(identifier@, at as int, i as int),
            value <= 256,
        decreases n - i,
    {
        let digit = identifier.get_char(i) as u32 - 48;
        value = value * 10 + digit;
        if value > 255 {
            value = 256;
        }
        i += 1;
    }
    let revision: u8 = if value > 255 {
        1
    } else {
        value as u8
    };
    (identifier.substring_char(0, at - 1).to_owned(), revision)
}

fn is_digit(c: char) -> (r: bool)
    ensures
        r == is_digit_char(c),
{
    let v = c as u32;
    48 <= v && v <= 57
}

/// A file of an image: the record that describes it.
pub struct FileRef<Ext: Extension> {
    pub inner: DirectoryRecord<Ext>,
}

/// A directory of an image: the record that describes it.
pub struct DirectoryRef<Ext: Extension> {
    pub inner: DirectoryRecord<Ext>,
}

/// An entry of a directory.
pub enum DirectoryEntryRef<Ext: Extension> {
    File(FileRef<Ext>),
    Directory(DirectoryRef<Ext>),
}

/// The identifier of a record, spelled out.
pub open spec fn record_text<Ext: Extension>(r: DirectoryRecord<Ext>) -> Seq<char> {
    r.file_identifier.spec_text(r.file_identifier_length as nat)
}

/// A copy of a record.
pub fn copy_record<Ext: Extension>(r: &DirectoryRecord<Ext>) -> (c: DirectoryRecord<Ext>)
    ensures
        c == *r,
{
    DirectoryRecord {
        length: r.length,
        extended_attribute_length: r.extended_attribute_length,
        extent_location: r.extent_location,
        data_length: r.data_length,
        recording_date: r.recording_date,
        file_flags: r.file_flags,
        file_unit_size: r.file_unit_size,
        interleave_gap_size: r.interleave_gap_size,
        volume_sequence_number: r.volume_sequence_number,
        file_identifier_length: r.file_identifier_length,
        file_identifier: r.file_identifier,
    }
}

impl<Ext: Extension> FileRef<Ext> {
    /// The identifier of the file as its record holds it.
    pub fn identifier(&self) -> (r: String)
        requires
            self.inner.file_identifier_length <= Ext::FileIdentifier::spec_capacity(),
        ensures
            r@ == record_text(self.inner),
    {
        self.inner.file_identifier.text(self.inner.file_identifier_length as usize)
    }

    /// The name of the file: its identifier without the version.
    pub fn name(&self) -> (r: String)
        requires
            self.inner.file_identifier_length <= Ext::FileIdentifier::spec_capacity(),
        ensures
            r@ == name_of(record_text(self.inner)),
    {
        let identifier = self.identifier();
        split_revision(identifier.as_str()).0
    }

    /// The revision of the file: the version of its identifier, and 1 where
    /// it has none.
    pub fn revision(&self) -> (r: u8)
        requires
            self.inner.file_identifier_length <= Ext::FileIdentifier::spec_capacity(),
        ensures
            r == revision_of(record_text(self.inner)),
    {
        let identifier = self.identifier();
        split_revision(identifier.as_str()).1
    }

    /// How many bytes the file has.
    pub fn size(&self) -> (r: u32)
        ensures
            r == self.inner.data_length,
    {
        self.inner.data_length
    }

    /// The sector in which the bytes of the file start.
    pub fn extent_lba(&self) -> (r: u32)
        ensures
            r == self.inner.extent_location,
    {
        self.inner.extent_location
    }

    /// Reads bytes of the file from `offset` on into `buf`, as many as fit
    /// and the file has, sector by sector, and returns how many it read. Of
    /// each sector that the storage hands out it takes what `chunk` says, and
    /// it stops early where that is nothing.
    pub fn read<Storage: IsoRead>(&self, storage: &mut Storage, offset: u64, buf: &mut [u8]) -> (r:
        Result<usize, Error<Storage::Error>>)
        ensures
            final(buf)@.len() == old(buf)@.len(),
            match r {
                Ok(n) => {
                    &&& n <= old(buf)@.len()
                    &&& offset + n <= (if offset > self.inner.data_length {
                        offset
                    } else {
                        self.inner.data_length as u64
                    })
                    &&& forall|i: int| n <= i < old(buf)@.len() ==> final(buf)@[i] == old(buf)@[i]
                },
                Err(e) => e is Read,
            },
            (old(buf)@.len() == 0 || offset >= self.inner.data_length) ==> r == Ok::<
                usize,
                Error<Storage::Error>,
            >(0) && final(buf)@ == old(buf)@,
    {
        let size = self.inner.data_length as u64;
        let total = buf.len();
        let mut done: usize = 0;
        let mut sector: Vec<u8> = Vec::new();
        crate::writer::layout::push_zeros(&mut sector, 2048);
        while done < total && offset + (done as u64) < size
            invariant
                done <= total,
                total == buf@.len(),
                buf@.len() == old(buf)@.len(),
                size == self.inner.data_length,
                sector@.len() == 2048,
                done == 0 ==> buf@ == old(buf)@,
                forall|i: int| done <= i < total ==> buf@[i] == old(buf)@[i],
                offset + done <= (if offset > size {
                    offset
                } else {
                    size
                }),
            decreases total - done,
        {
            let position = offset + done as u64;
            let index = self.sector_index(position);
            let read = match storage.read_sector(index, sector.as_mut_slice()) {
                Ok(read) => read,
                Err(e) => {
                    return Err(Error::Read(e));
                },
            };
            let count = take_chunk(buf, done, sector.as_slice(), read, size, position);
            if count == 0 {
                return Ok(done);
            }
            done = done + count;
        }
        Ok(done)
    }

    /// The sector of the storage that holds the byte `position` of the file:
    /// the one that a read of that byte asks the storage for.
    pub fn sector_index(&self, position: u64) -> (r: u64)
        ensures
            r == self.inner.extent_location as u64 + position / 2048,
    {
        self.inner.extent_location as u64 + position / 2048
    }
}

/// Takes into `buf`, from `done` on, what a reader takes of a sector: of the
/// first `read` bytes of `sector`, which the storage handed out of the sector
/// that holds the byte `position` of a file of `size` bytes, the bytes that
/// `spec_chunk` counts, from that byte on. The rest of `buf` stays as it is.
/// Returns how many bytes it took.
pub fn take_chunk(
    buf: &mut [u8],
    done: usize,
    sector: &[u8],
    read: usize,
    size: u64,
    position: u64,
) -> (count: usize)
    requires
        done <= old(buf)@.len(),
        position < size,
        read <= 2048,
        read <= sector@.len(),
    ensures
        count == spec_chunk(size as int, position as int, read as int, old(buf)@.len() - done),
        done + count <= old(buf)@.len(),
        position + count <= size,
        count == 0 ==> final(buf)@ == old(buf)@,
        count > 0 ==> position % 2048 + count <= read && final(buf)@ == old(buf)@.subrange(
            0,
            done as int,
        ) + sector@.subrange(position as int % 2048, position as int % 2048 + count) + old(
            buf,
        )@.skip(done + count),
{
    let (within, count) = chunk(size, position, read, buf.len() - done);
    if count == 0 {
        return 0;
    }
    assert(within + count <= read);
    crate::bytes::put_bytes_at(buf, done, slice_subrange(sector, within, within + count));
    assert(buf@ =~= old(buf)@.subrange(0, done as int) + sector@.subrange(
        within as int,
        within + count,
    ) + old(buf)@.skip(done + count));
    count
}

/// How many bytes of a sector go to a reader: of the `read` bytes that the
/// storage handed out of the sector that holds the byte `position` of a file
/// of `size` bytes, those from that byte on, as far as the file goes and as
/// the reader has room for.
pub open spec fn spec_chunk(size: int, position: int, read: int, room: int) -> int {
    let within = position % 2048;
    let left = size - position;
    if read <= within {
        0
    } else if read - within <= room && read - within <= left {
        read - within
    } else if room <= left {
        room
    } else {
        left
    }
}

/// Where in its sector the byte `position` of a file of `size` bytes lies,
/// and how many bytes from there on go to a reader with room for `room`
/// bytes, where the storage handed out `read` bytes of the sector.
pub fn chunk(size: u64, position: u64, read: usize, room: usize) -> (r: (usize, usize))
    requires
        position < size,
        read <= 2048,
    ensures
        r.0 == position % 2048,
        r.1 == spec_chunk(size as int, position as int, read as int, room as int),
        r.0 + r.1 <= 2048,
        r.1 <= room,
        position + r.1 <= size,
{
    let within = (position % 2048) as usize;
    if read <= within {
        return (within, 0);
    }
    let mut count = read - within;
    if count > room {
        count = room;
    }
    if count as u64 > size - position {
        count = (size - position) as usize;
    }
    (within, count)
}

impl<Ext: Extension> DirectoryRef<Ext> {
    /// The name of the directory: its identifier.
    pub fn name(&self) -> (r: String)
        requires
            self.inner.file_identifier_length <= Ext::FileIdentifier::spec_capacity(),
        ensures
            r@ == record_text(self.inner),
    {
        self.inner.file_identifier.text(self.inner.file_identifier_length as usize)
    }

    /// A walk through the entries of the directory, from its start.
    pub fn entries(&self) -> (r: DirectoryIter<Ext>)
        ensures
            r.valid,
            r.offset == 0,
            r.inner == self.inner,
    {
        DirectoryIter { valid: true, inner: copy_record(&self.inner), offset: 0 }
    }
}

/// A walk through the records of a directory: the record of the directory,
/// how far into its extent the walk has come, and whether it can go on.
pub struct DirectoryIter<Ext: Extension> {
    pub valid: bool,
    pub inner: DirectoryRecord<Ext>,
    pub offset: u64,
}

/// What one sector tells a walk that stands at `offset` in the extent of a
/// directory.
pub enum Step<Ext: Extension> {
    /// The walk is over.
    End,
    /// Nothing to hand out here; the walk goes on at `offset`.
    Skip { offset: u64 },
    /// An entry, and where the walk goes on after it.
    Entry { record: DirectoryRecord<Ext>, offset: u64 },
    /// The sector holds no record where one should be.
    Fail { error: IsoParseError },
}

/// Whether a record is the one of the directory itself (`.`) or of its
/// parent (`..`): its identifier is the single byte 0 or 1.
pub open spec fn is_dot<Ext: Extension>(r: DirectoryRecord<Ext>) -> bool {
    record_identifier(r) == seq![0u8] || record_identifier(r) == seq![1u8]
}

/// What the walk through the extent of `directory` does at `offset`, where
/// reading the sector of that offset gave `sector`:
///
/// - past the length of the directory, or on a sector that was not read as
///   far as the offset, it ends;
/// - on a zero byte it passes over the padding to the start of the next sector;
/// - else it parses a record and goes on after it. The records `.` and `..`
///   are passed over, and so is a directory that lies where `directory`
///   lies, which would send the walk in a circle.
pub open spec fn spec_step<Ext: Extension>(
    directory: DirectoryRecord<Ext>,
    offset: u64,
    sector: Seq<u8>,
) -> Step<Ext> {
    let at = offset as int % 2048;
    if offset >= directory.data_length || at >= sector.len() {
        Step::End
    } else if sector[at] == 0 {
        Step::Skip { offset: (offset + 2048 - at) as u64 }
    } else {
        match DirectoryRecord::<Ext>::spec_parse(sector.subrange(at, sector.len() as int)) {
            Err(error) => Step::Fail { error },
            Ok((record, _)) => {
                let next = (offset + record.length) as u64;
                if is_dot(record) || (record.file_flags.spec_is_directory()
                    && record.extent_location == directory.extent_location) {
                    Step::Skip { offset: next }
                } else {
                    Step::Entry { record, offset: next }
                }
            },
        }
    }
}

/// Whether a walk through `directory` that stands at `from` can come to
/// `step`: at some offset from there on, `step` is what the bytes of some
/// sector give.
pub open spec fn reached<Ext: Extension>(
    directory: DirectoryRecord<Ext>,
    from: u64,
    step: Step<Ext>,
) -> bool {
    exists|at: u64, sector: Seq<u8>| from <= at && #[trigger] spec_step(directory, at, sector) == step
}

/// Whether the first `len` bytes of an identifier are the single byte 0 or 1.
fn dot_identifier<Ext: Extension>(r: &DirectoryRecord<Ext>, bytes: &[u8]) -> (d: bool)
    requires
        bytes@ == record_identifier(*r),
    ensures
        d == is_dot(*r),
{
    if bytes.len() == 1 && (bytes[0] == 0 || bytes[0] == 1) {
        assert(bytes@ =~= seq![bytes@[0]]);
        true
    } else {
        if bytes.len() == 1 {
            assert(bytes@[0] != 0 && bytes@[0] != 1);
        }
        false
    }
}

impl<Ext: Extension> DirectoryIter<Ext> {
    /// The sector of the storage that the walk stands in: the one that its
    /// next step asks the storage for.
    pub fn sector_index(&self) -> (r: u64)
        ensures
            r == self.inner.extent_location as u64 + self.offset / 2048,
    {
        self.inner.extent_location as u64 + self.offset / 2048
    }

    /// Decides what the walk does at its offset, where reading the sector
    /// of that offset gave the first `read` bytes of `sector`.
    pub fn step(&self, sector: &[u8], read: usize) -> (r: Step<Ext>)
        requires
            read <= sector@.len(),
            read <= 2048,
        ensures
            r == spec_step(self.inner, self.offset, sector@.subrange(0, read as int)),
            r matches Step::Entry { record, offset } ==> !is_dot(record) && offset > self.offset,
            r matches Step::Skip { offset } ==> offset > self.offset,
    {
        let ghost data = sector@.subrange(0, read as int);
        let at = (self.offset % 2048) as usize;
        if self.offset >= self.inner.data_length as u64 || at >= read {
            return Step::End;
        }
        assert(data[at as int] == sector@[at as int]);
        if sector[at] == 0 {
            return Step::Skip { offset: self.offset + 2048 - at as u64 };
        }
        let input = slice_subrange(sector, at, read);
        assert(input@ =~= data.subrange(at as int, data.len() as int));
        match DirectoryRecord::<Ext>::parse(input) {
            Err(error) => Step::Fail { error },
            Ok((record, _)) => {
                let next = self.offset + record.length as u64;
                let n = record.file_identifier_length as usize;
                let identifier = slice_subrange(input, 33, 33 + n);
                proof {
                    Ext::FileIdentifier::lemma_valid_len(n as nat);
                    Ext::FileIdentifier::lemma_take(input@.subrange(33, 33 + n));
                }
                let dot = dot_identifier(&record, identifier);
                if dot || (record.file_flags.is_directory() && record.extent_location
                    == self.inner.extent_location) {
                    Step::Skip { offset: next }
                } else {
                    Step::Entry { record, offset: next }
                }
            },
        }
    }

    /// Hands out the next entry of the directory, reading its sectors from
    /// `storage`. The entries come in the order in which they stand on disk,
    /// without `.` and `..`; a sector that holds no record where one should be
    /// gives one error, after which the walk is over.
    ///
    /// A walk that is over, or that stands at the end of the directory,
    /// hands out nothing and reads nothing. Else the storage decides: an
    /// entry that is handed out is what `spec_step` makes of the bytes of a
    /// sector, at an offset at or after the one where the walk stood, and the
    /// walk then stands after that record; a parse error is the one that
    /// `spec_step` gives there. The walk never moves back.
    pub fn next<Storage: IsoRead>(&mut self, storage: &mut Storage) -> (r: Option<
        Result<DirectoryEntryRef<Ext>, Error<Storage::Error>>,
    >)
        ensures
            final(self).inner == old(self).inner,
            final(self).offset >= old(self).offset,
            (!old(self).valid || old(self).offset >= old(self).inner.data_length) ==> r is None
                && *final(self) == *old(self),
            match r {
                Some(Ok(DirectoryEntryRef::File(file))) => !is_dot(file.inner)
                    && !file.inner.file_flags.spec_is_directory() && final(self).valid
                    && file.inner.file_identifier_length <= Ext::FileIdentifier::spec_capacity()
                    && reached(
                    old(self).inner,
                    old(self).offset,
                    Step::Entry { record: file.inner, offset: final(self).offset },
                ),
                Some(Ok(DirectoryEntryRef::Directory(directory))) => !is_dot(directory.inner)
                    && directory.inner.file_flags.spec_is_directory()
                    && directory.inner.extent_location != old(self).inner.extent_location && final(self).valid
                    && directory.inner.file_identifier_length
                    <= Ext::FileIdentifier::spec_capacity() && reached(
                    old(self).inner,
                    old(self).offset,
                    Step::Entry { record: directory.inner, offset: final(self).offset },
                ),
                Some(Err(Error::Parse(error))) => !final(self).valid && reached(
                    old(self).inner,
                    old(self).offset,
                    Step::Fail { error },
                ),
                Some(Err(Error::Read(_))) => !final(self).valid,
                None => final(self).valid == old(self).valid,
            },
    {
        if !self.valid {
            return None;
        }
        let mut sector: Vec<u8> = Vec::new();
        crate::writer::layout::push_zeros(&mut sector, 2048);
        loop
            invariant
                self.valid,
                old(self).valid,
                self.inner == old(self).inner,
                self.offset >= old(self).offset,
                old(self).offset >= old(self).inner.data_length ==> *self == *old(self),
                sector@.len() == 2048,
            decreases
                    (if self.offset >= self.inner.data_length {
                        0int
                    } else {
                        self.inner.data_length - self.offset
                    }),
        {
            if self.offset >= self.inner.data_length as u64 {
                return None;
            }
            let index = self.sector_index();
            let read = match storage.read_sector(index, sector.as_mut_slice()) {
                Ok(read) => read,
                Err(e) => {
                    self.valid = false;
                    return Some(Err(Error::Read(e)));
                },
            };
            let ghost at = self.offset;
            let ghost bytes = sector@.subrange(0, read as int);
            match self.step(sector.as_slice(), read) {
                Step::End => {
                    return None;
                },
                Step::Skip { offset } => {
                    self.offset = offset;
                },
                Step::Fail { error } => {
                    self.valid = false;
                    proof {
                        assert(spec_step(self.inner, at, bytes) == Step::<Ext>::Fail { error });
                    }
                    return Some(Err(Error::Parse(error)));
                },
                Step::Entry { record, offset } => {
                    self.offset = offset;
                    proof {
                        Ext::FileIdentifier::lemma_valid_len(record.file_identifier_length as nat);
                        assert(spec_step(self.inner, at, bytes) == Step::<Ext>::Entry {
                            record,
                            offset,
                        });
                    }
                    if record.file_flags.is_directory() {
                        return Some(Ok(DirectoryEntryRef::Directory(DirectoryRef { inner: record })));
                    } else {
                        return Some(Ok(DirectoryEntryRef::File(FileRef { inner: record })));
                    }
                },
            }
        }
    }
}

/// Whether `descriptor` is what the parser makes of some whole sector.
pub open spec fn parses_to(descriptor: VolumeDescriptor) -> bool {
    exists|sector: Seq<u8>|
        sector.len() == 2048 && #[trigger] VolumeDescriptor::spec_parse(sector) == Ok::<
            Option<VolumeDescriptor>,
            IsoParseError,
        >(Some(descriptor))
}

/// Whether `error` is what the parser makes of some whole sector.
pub open spec fn parse_fails_with(error: IsoParseError) -> bool {
    exists|sector: Seq<u8>|
        sector.len() == 2048 && #[trigger] VolumeDescriptor::spec_parse(sector) == Err::<
            Option<VolumeDescriptor>,
            IsoParseError,
        >(error)
}

/// What holds of the slots `after` a scan that found the slots `before`,
/// whatever the storage handed out: a slot that was filled is kept as it was;
/// a slot that the scan filled holds a descriptor that the parser made of a
/// whole sector; and the slot of the supplementary descriptor is filled only
/// where Joliet is asked for.
pub open spec fn scanned(before: Slots, after: Slots, extensions: Extensions) -> bool {
    &&& match before.primary {
        Some(_) => after.primary == before.primary,
        None => match after.primary {
            Some(d) => parses_to(VolumeDescriptor::Primary(d)),
            None => true,
        },
    }
    &&& match before.supplementary {
        Some(_) => after.supplementary == before.supplementary,
        None => match after.supplementary {
            Some(d) => extensions.spec_joliet() && parses_to(VolumeDescriptor::Supplementary(d)),
            None => true,
        },
    }
    &&& match before.boot {
        Some(_) => after.boot == before.boot,
        None => match after.boot {
            Some(d) => parses_to(VolumeDescriptor::Boot(d)),
            None => true,
        },
    }
}

/// What a scan does after it has read a sector.
#[derive(Debug, Clone, Copy, PartialEq, Eq)]
pub enum Scan {
    /// A descriptor was read and offered to the slots, which are now
    /// `slots`; the scan goes on with the next sector.
    GoOn { slots: Slots },
    /// The sector is not whole, or it holds the terminator of the set: the
    /// scan is over, and the slots stay as they are.
    Stop,
    /// The sector holds no descriptor: the scan fails.
    Fail { error: IsoParseError },
}

/// What a scan with the slots `slots` does after the storage handed out the
/// first `read` bytes of `sector`: it stops on a sector that is not whole
/// and on the terminator of the set, fails where the sector cannot be parsed,
/// and else offers the descriptor to the slots and goes on.
pub open spec fn spec_scan_step(slots: Slots, extensions: Extensions, sector: Seq<u8>, read: int) -> Scan {
    if read < 2048 {
        Scan::Stop
    } else {
        match VolumeDescriptor::spec_parse(sector) {
            Err(error) => Scan::Fail { error },
            Ok(None) => Scan::Stop,
            Ok(Some(descriptor)) => Scan::GoOn { slots: slots.spec_accept(extensions, descriptor) },
        }
    }
}

/// Decides what a scan does after the storage handed out the first `read`
/// bytes of `sector`.
pub fn scan_step(slots: Slots, extensions: Extensions, sector: &[u8], read: usize) -> (r: Scan)
    ensures
        r == spec_scan_step(slots, extensions, sector@, read as int),
{
    if read < SECTOR_SIZE {
        return Scan::Stop;
    }
    match VolumeDescriptor::parse(sector) {
        Err(error) => Scan::Fail { error },
        Ok(None) => Scan::Stop,
        Ok(Some(descriptor)) => {
            let mut slots = slots;
            slots.accept(extensions, descriptor);
            Scan::GoOn { slots }
        },
    }
}

/// The sector of the storage that holds the descriptor `index` of an image,
/// counted from zero: the one that the scan asks the storage for.
pub fn descriptor_sector(index: u64) -> (r: u64)
    requires
        index <= u64::MAX - STARTING_SECTOR,
    ensures
        r == STARTING_SECTOR + index,
{
    STARTING_SECTOR + index
}

/// The volume descriptors that a reader keeps: the first of each kind.
#[derive(Debug, Clone, Copy, PartialEq, Eq)]
pub struct Slots {
    pub primary: Option<PrimaryVolumeDescriptor>,
    pub supplementary: Option<SupplementaryVolumeDescriptor>,
    pub boot: Option<ElToritoBootRecordVolumeDescriptor>,
}

impl Slots {
    /// The slots after the reader has seen `descriptor`: a primary
    /// descriptor or a boot record goes into its slot if that is empty, a
    /// supplementary descriptor too if Joliet is asked for; every other
    /// descriptor is passed over.
    pub open spec fn spec_accept(self, extensions: Extensions, descriptor: VolumeDescriptor) -> Slots {
        match descriptor {
            VolumeDescriptor::Primary(d) => if self.primary is None {
                Slots { primary: Some(d), ..self }
            } else {
                self
            },
            VolumeDescriptor::Supplementary(d) => if self.supplementary is None
                && extensions.spec_joliet() {
                Slots { supplementary: Some(d), ..self }
            } else {
                self
            },
            VolumeDescriptor::Boot(d) => if self.boot is None {
                Slots { boot: Some(d), ..self }
            } else {
                self
            },
            VolumeDescriptor::Partition(_) => self,
        }
    }

    pub fn empty() -> (r: Self)
        ensures
            r.primary is None,
            r.supplementary is None,
            r.boot is None,
    {
        Slots { primary: None, supplementary: None, boot: None }
    }

    /// Takes in a descriptor that the scan has come upon.
    pub fn accept(&mut self, extensions: Extensions, descriptor: VolumeDescriptor)
        ensures
            *final(self) == old(self).spec_accept(extensions, descriptor),
    {
        match descriptor {
            VolumeDescriptor::Primary(d) => {
                if self.primary.is_none() {
                    self.primary = Some(d);
                }
            },
            VolumeDescriptor::Supplementary(d) => {
                if self.supplementary.is_none() && extensions.joliet() {
                    self.supplementary = Some(d);
                }
            },
            VolumeDescriptor::Boot(d) => {
                if self.boot.is_none() {
                    self.boot = Some(d);
                }
            },
            VolumeDescriptor::Partition(_) => {},
        }
    }
}

/// An image that was opened: its storage and the descriptors of its volumes.
pub struct Iso<Storage> {
    pub extensions: Extensions,
    pub storage: Storage,
    pub slots: Slots,
}

/// A primary volume of an image.
#[derive(Debug, Clone, Copy, PartialEq, Eq)]
pub struct PrimaryVolumeRef {
    pub inner: PrimaryVolumeDescriptor,
}

/// A supplementary volume of an image, read as Joliet.
#[derive(Debug, Clone, Copy, PartialEq, Eq)]
pub struct SupplementaryVolumeRef {
    pub inner: SupplementaryVolumeDescriptor,
}

/// A boot record of an image.
#[derive(Debug, Clone, Copy, PartialEq, Eq)]
pub struct BootRecordVolumeRef {
    pub inner: ElToritoBootRecordVolumeDescriptor,
}

/// How many bytes of `field` count: those before the fillers at its end.
pub open spec fn trimmed_len(field: Seq<u8>) -> int
    decreases field.len(),
{
    if field.len() == 0 {
        0
    } else if field.last() == 0x20 {
        trimmed_len(field.drop_last())
    } else {
        field.len() as int
    }
}

fn trim_end(field: &[u8]) -> (n: usize)
    ensures
        n == trimmed_len(field@),
        n <= field@.len(),
{
    let mut n = field.len();
    assert(field@.subrange(0, n as int) =~= field@);
    while n > 0 && field[n - 1] == 0x20
        invariant
            n <= field@.len(),
            trimmed_len(field@) == trimmed_len(field@.subrange(0, n as int)),
        decreases n,
    {
        proof {
            let s = field@.subrange(0, n as int);
            assert(s.last() == field@[n - 1]);
            assert(s.drop_last() =~= field@.subrange(0, n - 1));
        }
        n -= 1;
    }
    proof {
        let s = field@.subrange(0, n as int);
        if n > 0 {
            assert(s.last() == field@[n - 1]);
        }
    }
    n
}

/// How many code units count of the big-endian code units in `field`: those
/// before the spaces and zeros at its end.
pub open spec fn trimmed_units(units: Seq<u16>) -> int
    decreases units.len(),
{
    if units.len() == 0 {
        0
    } else if units.last() == 0x20 || units.last() == 0 {
        trimmed_units(units.drop_last())
    } else {
        units.len() as int
    }
}

/// The record of the root directory as a directory record: of 34 bytes, with
/// the identifier of one zero byte.
pub open spec fn root_as_record<Ext: Extension>(root: RootDirectoryRecord) -> DirectoryRecord<Ext> {
    DirectoryRecord {
        length: 34,
        extended_attribute_length: 0,
        extent_location: root.extent_location,
        data_length: root.data_length,
        recording_date: root.recording_date,
        file_flags: root.file_flags,
        file_unit_size: root.file_unit_size,
        interleave_gap_size: root.interleave_gap_size,
        volume_sequence_number: root.volume_sequence_number,
        file_identifier_length: 1,
        file_identifier: Ext::FileIdentifier::spec_decode(seq![0u8]),
    }
}

/// Makes a directory record of the record of a root directory.
pub fn root_record<Ext: Extension>(root: &RootDirectoryRecord) -> (r: DirectoryRecord<Ext>)
    requires
        Ext::FileIdentifier::spec_valid_len(1),
    ensures
        r == root_as_record::<Ext>(*root),
{
    let zero: [u8; 1] = [0];
    assert(zero@.subrange(0, 1) =~= seq![0u8]);
    proof {
        Ext::FileIdentifier::lemma_valid_len(1);
    }
    DirectoryRecord {
        length: 34,
        extended_attribute_length: 0,
        extent_location: root.extent_location,
        data_length: root.data_length,
        recording_date: root.recording_date,
        file_flags: root.file_flags,
        file_unit_size: root.file_unit_size,
        interleave_gap_size: root.interleave_gap_size,
        volume_sequence_number: root.volume_sequence_number,
        file_identifier_length: 1,
        file_identifier: Ext::FileIdentifier::take(zero.as_slice(), 0, 1),
    }
}

impl PrimaryVolumeRef {
    /// The name of the volume: its identifier without the fillers at its end.
    pub fn identifier(&self) -> (r: String)
        ensures
            r@ == utf8_lossy(
                self.inner.volume_identifier.0@.subrange(
                    0,
                    trimmed_len(self.inner.volume_identifier.0@),
                ),
            ),
    {
        let field = self.inner.volume_identifier.0.as_slice();
        let n = trim_end(field);
        from_utf8_lossy(slice_subrange(field, 0, n))
    }

    pub fn descriptor(&self) -> (r: &PrimaryVolumeDescriptor)
        ensures
            *r == self.inner,
    {
        &self.inner
    }

    /// The root directory of the volume.
    pub fn root(&self) -> (r: DirectoryRef<NoExtension>)
        ensures
            r.inner == root_as_record::<NoExtension>(self.inner.root_directory_record),
    {
        DirectoryRef { inner: root_record::<NoExtension>(&self.inner.root_directory_record) }
    }
}

impl SupplementaryVolumeRef {
    /// The name of the volume: the text of the code units of its identifier,
    /// without the spaces and zeros at their end.
    pub fn identifier(&self) -> (r: String)
        ensures
            r@ == utf16_lossy(
                crate::bytes::units_from_be(self.inner.volume_identifier.0@).subrange(
                    0,
                    trimmed_units(crate::bytes::units_from_be(self.inner.volume_identifier.0@)),
                ),
            ),
    {
        let field = self.inner.volume_identifier.0.as_slice();
        let ghost all = crate::bytes::units_from_be(field@);
        let mut units: Vec<u16> = Vec::new();
        let mut i: usize = 0;
        while i < 16
            invariant
                i <= 16,
                field@.len() == 32,
                all == crate::bytes::units_from_be(field@),
                units@ == all.subrange(0, i as int),
            decreases 16 - i,
        {
            let pair = slice_subrange(field, 2 * i, 2 * i + 2);
            let unit = crate::bytes::read_u16_be(pair);
            assert(pair@[0] == field@[2 * i] && pair@[1] == field@[2 * i + 1]);
            units.push(unit);
            assert(units@ =~= all.subrange(0, i + 1));
            i += 1;
        }
        assert(units@ =~= all);
        let mut n: usize = 16;
        assert(all.subrange(0, 16) =~= all);
        while n > 0 && (units[n - 1] == 0x20 || units[n - 1] == 0)
            invariant
                n <= 16,
                units@ == all,
                all.len() == 16,
                trimmed_units(all) == trimmed_units(all.subrange(0, n as int)),
            decreases n,
        {
            proof {
                let s = all.subrange(0, n as int);
                assert(s.last() == all[n - 1]);
                assert(s.drop_last() =~= all.subrange(0, n - 1));
            }
            n -= 1;
        }
        proof {
            let s = all.subrange(0, n as int);
            if n > 0 {
                assert(s.last() == all[n - 1]);
            }
        }
        from_utf16_lossy(slice_subrange(units.as_slice(), 0, n))
    }

    pub fn descriptor(&self) -> (r: &SupplementaryVolumeDescriptor)
        ensures
            *r == self.inner,
    {
        &self.inner
    }

    /// The root directory of the volume, whose records hold Joliet identifiers.
    pub fn root(&self) -> (r: DirectoryRef<JolietExtension>)
        ensures
            r.inner == root_as_record::<JolietExtension>(self.inner.root_directory_record),
    {
        DirectoryRef { inner: root_record::<JolietExtension>(&self.inner.root_directory_record) }
    }
}

impl BootRecordVolumeRef {
    pub fn descriptor(&self) -> (r: &ElToritoBootRecordVolumeDescriptor)
        ensures
            *r == self.inner,
    {
        &self.inner
    }
}

impl<Storage: IsoRead> Iso<Storage> {
    /// Opens an image: reads its volume descriptors from sector 16 on, one to
    /// a sector, and keeps the first of each kind, until it comes upon the
    /// terminator of the set or a sector that is not whole. A descriptor
    /// that cannot be parsed, or a failure of the storage, ends it in an error.
    ///
    /// What the storage hands out decides the outcome. Whatever that is, each
    /// descriptor that the image keeps is one that the parser made of a whole
    /// sector, a supplementary descriptor is kept only where Joliet is asked
    /// for, and a parse error is one that the parser gives of a whole sector.
    pub fn open(storage: Storage, extensions: Extensions) -> (r: Result<
        Self,
        Error<Storage::Error>,
    >)
        ensures
            match r {
                Ok(iso) => iso.extensions == extensions && (iso.slots.supplementary is Some
                    ==> extensions.spec_joliet()) && scanned(
                    Slots { primary: None, supplementary: None, boot: None },
                    iso.slots,
                    extensions,
                ),
                Err(Error::Parse(error)) => parse_fails_with(error),
                Err(Error::Read(_)) => true,
            },
    {
        let mut iso = Iso { extensions, storage, slots: Slots::empty() };
        match iso.scan() {
            Ok(()) => Ok(iso),
            Err(e) => Err(e),
        }
    }

    /// Reads the volume descriptors into the slots: each descriptor that a
    /// whole sector parses to is offered to the slots, until the terminator,
    /// a sector that is not whole, a parse error or a failure of the storage.
    fn scan(&mut self) -> (r: Result<(), Error<Storage::Error>>)
        ensures
            final(self).extensions == old(self).extensions,
            old(self).slots.supplementary is None ==> (final(self).slots.supplementary is Some
                ==> old(self).extensions.spec_joliet()),
            scanned(old(self).slots, final(self).slots, old(self).extensions),
            r matches Err(Error::Parse(error)) ==> parse_fails_with(error),
    {
        let mut sector: Vec<u8> = Vec::new();
        crate::writer::layout::push_zeros(&mut sector, 2048);
        let mut index: u64 = 0;
        while index < u64::MAX - STARTING_SECTOR
            invariant
                sector@.len() == 2048,
                self.extensions == old(self).extensions,
                old(self).slots.supplementary is None ==> (self.slots.supplementary is Some
                    ==> old(self).extensions.spec_joliet()),
                scanned(old(self).slots, self.slots, old(self).extensions),
            decreases u64::MAX - index,
        {
            let read = match self.storage.read_sector(
                descriptor_sector(index),
                sector.as_mut_slice(),
            ) {
                Ok(read) => read,
                Err(e) => {
                    return Err(Error::Read(e));
                },
            };
            match scan_step(self.slots, self.extensions, sector.as_slice(), read) {
                Scan::Stop => {
                    return Ok(());
                },
                Scan::Fail { error } => {
                    return Err(Error::Parse(error));
                },
                Scan::GoOn { slots } => {
                    proof {
                        let descriptor = VolumeDescriptor::spec_parse(sector@)->Ok_0->0;
                        assert(VolumeDescriptor::spec_parse(sector@) == Ok::<
                            Option<VolumeDescriptor>,
                            IsoParseError,
                        >(Some(descriptor)));
                        assert(parses_to(descriptor));
                    }
                    self.slots = slots;
                },
            }
            index += 1;
        }
        Ok(())
    }

    /// The primary volume, if the image has one.
    pub fn primary_volume(&self) -> (r: Option<PrimaryVolumeRef>)
        ensures
            match r {
                Some(volume) => self.slots.primary == Some(volume.inner),
                None => self.slots.primary is None,
            },
    {
        match self.slots.primary {
            Some(inner) => Some(PrimaryVolumeRef { inner }),
            None => None,
        }
    }

    /// The supplementary volume, if the image has one and Joliet was asked for.
    pub fn supplementary_volume(&self) -> (r: Option<SupplementaryVolumeRef>)
        ensures
            match r {
                Some(volume) => self.slots.supplementary == Some(volume.inner),
                None => self.slots.supplementary is None,
            },
    {
        match self.slots.supplementary {
            Some(inner) => Some(SupplementaryVolumeRef { inner }),
            None => None,
        }
    }

    /// The boot record, if the image has one.
    pub fn boot_record_volume(&self) -> (r: Option<BootRecordVolumeRef>)
        ensures
            match r {
                Some(volume) => self.slots.boot == Some(volume.inner),
                None => self.slots.boot is None,
            },
    {
        match self.slots.boot {
            Some(inner) => Some(BootRecordVolumeRef { inner }),
            None => None,
        }
    }
}

} // verus!
