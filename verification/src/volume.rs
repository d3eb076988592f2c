//! The primary volume descriptor of the in-memory model of an image.

use crate::bytes::{
    filled, get_u32_be, get_u32_le, put_bytes, put_fill, put_u16_both, put_u32_both, put_u32_le,
    put_u8, u16_both, u16_from_le, u32_both, u32_from_be, u32_from_le, u32_le, zeros,
};
use crate::directory::{
    entry_bytes, entry_record_size, iso_string, parsed_entry, Directory, DirectoryEntry,
    EntryModel,
};
use crate::error::Error;
use crate::file::now_seconds;
use crate::spec::{cd001, fit, StandardIdentifier};
use crate::utils::{
    find_string_end, from_utf8_lossy, iso_date_bytes, iso_date_seconds, parse_iso_date,
    parse_iso_string, write_iso_date, write_iso_string, year_of,
};
use crate::writer::layout::push_zeros;
use crate::writer::sector::{overlay, write_at};
use vstd::prelude::*;
use vstd::slice::slice_subrange;
use vstd::string::{StrSliceExecFns, StringSliceAdditionalSpecFns};

verus! {

/// A volume descriptor that can be written into an image.
pub trait VolumeDescriptor {
    /// The sector of the descriptor as it is written.
    spec fn spec_sector(&self) -> Seq<u8>;

    /// Writes the descriptor into its sector of `out`, which is sector 16,
    /// and leaves the rest of the image as it is. A descriptor that cannot be
    /// written leaves all of it as it is.
    fn write_to(&self, out: &mut Vec<u8>) -> (r: Result<(), Error>)
        ensures
            match r {
                Ok(()) => self.spec_sector().len() == 2048 && final(out)@ == overlay(
                    old(out)@,
                    32768int,
                    self.spec_sector(),
                ),
                Err(_) => final(out)@ == old(out)@,
            },
    ;
}

/// What a primary volume descriptor holds.
pub struct VolumeModel {
    pub volume_id: Seq<char>,
    pub publisher_id: Seq<char>,
    pub preparer_id: Seq<char>,
    pub application_id: Seq<char>,
    /// Seconds since the start of 1970.
    pub creation_time: u64,
    /// Seconds since the start of 1970.
    pub modification_time: u64,
    pub root_directory_entry: EntryModel,
    pub volume_space_size: u32,
    pub block_size: u16,
    pub path_table_size: u32,
    pub path_table_location_l: u32,
    pub optional_path_table_location_l: u32,
    pub path_table_location_m: u32,
    pub optional_path_table_location_m: u32,
}

/// The primary volume descriptor of an image held in memory: the names and
/// the dates of the volume, and the entry of its root directory.
#[derive(Debug, Clone, PartialEq, Eq)]
pub struct PrimaryVolumeDescriptor {
    volume_id: String,
    publisher_id: String,
    preparer_id: String,
    application_id: String,
    creation_time: u64,
    modification_time: u64,
    root_directory_entry: DirectoryEntry,
    volume_space_size: u32,
    block_size: u16,
    path_table_size: u32,
    path_table_location_l: u32,
    optional_path_table_location_l: u32,
    path_table_location_m: u32,
    optional_path_table_location_m: u32,
}

/// How many sectors from the start of a buffer are looked at for a primary
/// volume descriptor.
pub const SCANNED_SECTORS: usize = 32;

/// Whether the sector `sector` of `buffer` is whole and starts a primary
/// volume descriptor: with the tag 1 and the identifier `CD001`.
pub open spec fn is_primary_at(buffer: Seq<u8>, sector: int) -> bool {
    &&& (sector + 1) * 2048 <= buffer.len()
    &&& buffer[sector * 2048] == 1
    &&& buffer.subrange(sector * 2048 + 1, sector * 2048 + 6) == cd001()
}

/// The first of the sectors below `limit` that starts a primary volume
/// descriptor.
pub open spec fn primary_sector(buffer: Seq<u8>, limit: int) -> Option<int>
    decreases limit,
{
    if limit <= 0 {
        None
    } else {
        match primary_sector(buffer, limit - 1) {
            Some(s) => Some(s),
            None => if is_primary_at(buffer, limit - 1) {
                Some(limit - 1)
            } else {
                None
            },
        }
    }
}

/// The entry of a root directory that a descriptor is given where it holds
/// none that can be read: a directory called `ROOT` at no place.
pub open spec fn default_root(now: u64) -> EntryModel {
    EntryModel {
        name: seq!['R', 'O', 'O', 'T'],
        flags: 0x02,
        extent_location: 0,
        extent_size: 0,
        recording_time: now,
    }
}

/// The descriptor that the sector `s` holds. Of a dual-endian number the
/// little-endian half counts. A date that cannot be read counts as `now`, and
/// so does the time of recording of a root entry that cannot be read.
pub open spec fn decoded(s: Seq<u8>, now: u64) -> VolumeModel {
    VolumeModel {
        volume_id: iso_string(s.subrange(40, 72)),
        publisher_id: iso_string(s.subrange(318, 446)),
        preparer_id: iso_string(s.subrange(446, 574)),
        application_id: iso_string(s.subrange(574, 702)),
        creation_time: match iso_date_seconds(s.subrange(813, 830)) {
            Some(t) => t as u64,
            None => now,
        },
        modification_time: match iso_date_seconds(s.subrange(830, 847)) {
            Some(t) => t as u64,
            None => now,
        },
        root_directory_entry: match parsed_entry(s.subrange(156, 190)) {
            Some(e) => e,
            None => default_root(now),
        },
        volume_space_size: u32_from_le(s.subrange(80, 84)),
        block_size: u16_from_le(s.subrange(128, 130)),
        path_table_size: u32_from_le(s.subrange(132, 136)),
        path_table_location_l: u32_from_le(s.subrange(140, 144)),
        optional_path_table_location_l: u32_from_le(s.subrange(144, 148)),
        path_table_location_m: u32_from_be(s.subrange(148, 152)),
        optional_path_table_location_m: u32_from_be(s.subrange(152, 156)),
    }
}

/// The descriptor that `buffer` holds in the first of its sectors that
/// starts one, if one of the first 32 does.
pub open spec fn parsed(buffer: Seq<u8>, now: u64) -> Option<VolumeModel> {
    match primary_sector(buffer, SCANNED_SECTORS as int) {
        Some(sector) => Some(decoded(buffer.subrange(sector * 2048, (sector + 1) * 2048), now)),
        None => None,
    }
}

fn starts_primary(buffer: &[u8], sector: usize) -> (r: bool)
    requires
        sector < SCANNED_SECTORS,
    ensures
        r == is_primary_at(buffer@, sector as int),
{
    let offset = sector * 2048;
    if buffer.len() < offset + 2048 {
        return false;
    }
    let r = buffer[offset] == 1 && buffer[offset + 1] == 0x43 && buffer[offset + 2] == 0x44
        && buffer[offset + 3] == 0x30 && buffer[offset + 4] == 0x30 && buffer[offset + 5] == 0x31;
    proof {
        let id = buffer@.subrange(offset + 1, offset + 6);
        if r {
            assert(id =~= cd001());
        } else if buffer@[offset as int] == 1 {
            assert(id[0] == buffer@[offset + 1] && id[1] == buffer@[offset + 2] && id[2]
                == buffer@[offset + 3] && id[3] == buffer@[offset + 4] && id[4] == buffer@[offset
                + 5]);
        }
    }
    r
}

/// `s` in upper case, as far as it is ASCII.
pub open spec fn ascii_upper(s: Seq<u8>) -> Seq<u8> {
    Seq::new(
        s.len(),
        |i: int|
            if 0x61 <= s[i] <= 0x7A {
                (s[i] - 32) as u8
            } else {
                s[i]
            },
    )
}

/// "ISOPOD_SYSTEM", the system that the descriptor names.
pub open spec fn system_name() -> Seq<u8> {
    seq![0x49u8, 0x53, 0x4F, 0x50, 0x4F, 0x44, 0x5F, 0x53, 0x59, 0x53, 0x54, 0x45, 0x4D]
}

/// The first 156 bytes of the sector of a descriptor: the tag, the
/// identifier and the version; the system and the volume, the latter in upper
/// case; a volume of 20 sectors of 2048 bytes, the first of a set of one; a
/// path table of 10 bytes at sector 20. All else is zero.
pub open spec fn sector_front(d: VolumeModel) -> Seq<u8> {
    seq![1u8] + cd001() + seq![1u8] + zeros(1) + fit(system_name(), 32, 0x20) + fit(
        ascii_upper(vstd::utf8::encode_utf8(d.volume_id)),
        32,
        0x20,
    ) + zeros(8) + u32_both(20) + zeros(32) + u16_both(1) + u16_both(1) + u16_both(2048)
        + u32_both(10) + u32_le(20) + zeros(12)
}

/// The sector of a descriptor from byte 156 on: the first 34 bytes of the
/// record of the root directory; the publisher, the preparer and the
/// application; the two dates; the version of the file structure. All else is
/// zero.
pub open spec fn sector_back(d: VolumeModel) -> Seq<u8> {
    fit(entry_bytes(d.root_directory_entry), 34, 0) + zeros(128) + fit(
        vstd::utf8::encode_utf8(d.publisher_id),
        128,
        0x20,
    ) + fit(vstd::utf8::encode_utf8(d.preparer_id), 128, 0x20) + fit(
        vstd::utf8::encode_utf8(d.application_id),
        128,
        0x20,
    ) + zeros(111) + date_field(d.creation_time) + date_field(d.modification_time) + zeros(34)
        + seq![1u8] + zeros(1166)
}

/// The sector of a descriptor.
pub open spec fn sector_of(d: VolumeModel) -> Seq<u8> {
    sector_front(d) + sector_back(d)
}

/// The 17 bytes of a date of the descriptor; zeros for a date whose year has
/// more than four digits.
pub open spec fn date_field(time: u64) -> Seq<u8> {
    if year_of(time as int) > 9999 {
        zeros(17)
    } else {
        iso_date_bytes(time as int)
    }
}

fn put_field(out: &mut [u8], at: usize, text: &[u8], len: usize, pad: u8) -> (end: usize)
    requires
        at + len <= old(out)@.len(),
    ensures
        end == at + len,
        final(out)@.len() == old(out)@.len(),
        final(out)@.subrange(0, end as int) == old(out)@.subrange(0, at as int) + fit(
            text@,
            len as nat,
            pad,
        ),
        forall|i: int| end <= i < old(out)@.len() ==> final(out)@[i] == old(out)@[i],
{
    let total = out.len();
    let mut i: usize = 0;
    while i < len
        invariant
            i <= len,
            total == out@.len(),
            at + len <= out@.len(),
            out@.len() == old(out)@.len(),
            forall|j: int| 0 <= j < at ==> out@[j] == old(out)@[j],
            forall|j: int| at <= j < at + i ==> out@[j] == fit(text@, len as nat, pad)[j - at],
            forall|j: int| at + i <= j < out@.len() ==> out@[j] == old(out)@[j],
        decreases len - i,
    {
        out[at + i] = if i < text.len() {
            text[i]
        } else {
            pad
        };
        i += 1;
    }
    assert(out@.subrange(0, at + len) =~= old(out)@.subrange(0, at as int) + fit(
        text@,
        len as nat,
        pad,
    ));
    at + len
}

fn upper_bytes(text: &[u8]) -> (r: Vec<u8>)
    ensures
        r@ == ascii_upper(text@),
{
    let mut r: Vec<u8> = Vec::new();
    let mut i: usize = 0;
    while i < text.len()
        invariant
            i <= text@.len(),
            r@ == ascii_upper(text@).subrange(0, i as int),
        decreases text@.len() - i,
    {
        let b = text[i];
        r.push(
            if 0x61 <= b && b <= 0x7A {
                b - 32
            } else {
                b
            },
        );
        assert(r@ =~= ascii_upper(text@).subrange(0, i + 1));
        i += 1;
    }
    assert(r@ =~= ascii_upper(text@));
    r
}

impl PrimaryVolumeDescriptor {
    /// What the descriptor holds.
    pub closed spec fn model(&self) -> VolumeModel {
        VolumeModel {
            volume_id: self.volume_id@,
            publisher_id: self.publisher_id@,
            preparer_id: self.preparer_id@,
            application_id: self.application_id@,
            creation_time: self.creation_time,
            modification_time: self.modification_time,
            root_directory_entry: self.root_directory_entry.model(),
            volume_space_size: self.volume_space_size,
            block_size: self.block_size,
            path_table_size: self.path_table_size,
            path_table_location_l: self.path_table_location_l,
            optional_path_table_location_l: self.optional_path_table_location_l,
            path_table_location_m: self.path_table_location_m,
            optional_path_table_location_m: self.optional_path_table_location_m,
        }
    }

    /// A descriptor for a volume whose root directory is `root_directory`,
    /// made now: sizes and places are zero until the image is written, and
    /// the blocks are 2048 bytes.
    pub fn new(
        volume_id: &str,
        publisher_id: &str,
        preparer_id: &str,
        application_id: &str,
        root_directory: &Directory,
    ) -> (r: Self)
        ensures
            r.model().volume_id == volume_id@,
            r.model().publisher_id == publisher_id@,
            r.model().preparer_id == preparer_id@,
            r.model().application_id == application_id@,
            r.model().creation_time == r.model().modification_time,
            r.model().root_directory_entry.name == root_directory.spec_name(),
            r.model().root_directory_entry.flags == 0x02,
            r.model().root_directory_entry.extent_location == 0,
            r.model().root_directory_entry.extent_size == 0,
            r.model().volume_space_size == 0,
            r.model().block_size == 2048,
            r.model().path_table_size == 0,
            r.model().path_table_location_l == 0,
            r.model().optional_path_table_location_l == 0,
            r.model().path_table_location_m == 0,
            r.model().optional_path_table_location_m == 0,
    {
        let now = now_seconds();
        PrimaryVolumeDescriptor {
            volume_id: volume_id.to_owned(),
            publisher_id: publisher_id.to_owned(),
            preparer_id: preparer_id.to_owned(),
            application_id: application_id.to_owned(),
            creation_time: now,
            modification_time: now,
            root_directory_entry: DirectoryEntry::new_directory(root_directory.name(), 0, 0),
            volume_space_size: 0,
            block_size: 2048,
            path_table_size: 0,
            path_table_location_l: 0,
            optional_path_table_location_l: 0,
            path_table_location_m: 0,
            optional_path_table_location_m: 0,
        }
    }

    /// Whether `r` is what reading `buffer` gives, where `now` stands in for
    /// what cannot be read of the dates: nothing where none of the first 32
    /// sectors starts a descriptor, else the descriptor with the fields that
    /// `parsed` names.
    pub open spec fn reads_as(r: Option<Self>, buffer: Seq<u8>, now: u64) -> bool {
        match parsed(buffer, now) {
            Some(d) => r is Some && r->0.model().volume_id == d.volume_id && r->0.model().publisher_id
                == d.publisher_id && r->0.model().preparer_id == d.preparer_id
                && r->0.model().application_id == d.application_id
                && r->0.model().creation_time == d.creation_time
                && r->0.model().modification_time == d.modification_time
                && r->0.model().volume_space_size == d.volume_space_size
                && r->0.model().block_size == d.block_size && r->0.model().path_table_size
                == d.path_table_size && r->0.model().path_table_location_l
                == d.path_table_location_l && r->0.model().optional_path_table_location_l
                == d.optional_path_table_location_l && r->0.model().path_table_location_m
                == d.path_table_location_m && r->0.model().optional_path_table_location_m
                == d.optional_path_table_location_m && r->0.model().root_directory_entry.name
                == d.root_directory_entry.name && r->0.model().root_directory_entry.flags
                == d.root_directory_entry.flags
                && r->0.model().root_directory_entry.extent_location
                == d.root_directory_entry.extent_location
                && r->0.model().root_directory_entry.extent_size
                == d.root_directory_entry.extent_size && (parsed_entry(
                buffer.subrange(
                    primary_sector(buffer, SCANNED_SECTORS as int)->0 * 2048 + 156,
                    primary_sector(buffer, SCANNED_SECTORS as int)->0 * 2048 + 190,
                ),
            ) is Some ==> r->0.model().root_directory_entry == d.root_directory_entry),
            None => r is None,
        }
    }

    /// Reads the descriptor that `buffer` holds, `now` standing in for what
    /// cannot be read of its dates.
    pub fn parse_from_buffer_at(buffer: &[u8], now: u64) -> (r: Option<Self>)
        ensures
            Self::reads_as(r, buffer@, now),
    {
        let mut sector: usize = 0;
        while sector < SCANNED_SECTORS
            invariant
                sector <= SCANNED_SECTORS,
                primary_sector(buffer@, sector as int) is None,
            decreases SCANNED_SECTORS - sector,
        {
            if starts_primary(buffer, sector) {
                proof {
                    lemma_primary_found(buffer@, sector + 1, SCANNED_SECTORS as int);
                }
                let s = slice_subrange(buffer, sector * 2048, sector * 2048 + 2048);
                let root = slice_subrange(s, 156, 190);
                let root_directory_entry = match DirectoryEntry::parse_from_buffer(root) {
                    Some(entry) => entry,
                    None => {
                        proof {
                            reveal_strlit("ROOT");
                        }
                        DirectoryEntry::new_directory("ROOT", 0, 0)
                    },
                };
                let found = Some(
                    PrimaryVolumeDescriptor {
                        volume_id: parse_iso_string(slice_subrange(s, 40, 72)),
                        publisher_id: parse_iso_string(slice_subrange(s, 318, 446)),
                        preparer_id: parse_iso_string(slice_subrange(s, 446, 574)),
                        application_id: parse_iso_string(slice_subrange(s, 574, 702)),
                        creation_time: match parse_iso_date(slice_subrange(s, 813, 830)) {
                            Some(t) => t,
                            None => now,
                        },
                        modification_time: match parse_iso_date(slice_subrange(s, 830, 847)) {
                            Some(t) => t,
                            None => now,
                        },
                        root_directory_entry,
                        volume_space_size: get_u32_le(s, 80),
                        block_size: crate::bytes::get_u16_le(s, 128),
                        path_table_size: get_u32_le(s, 132),
                        path_table_location_l: get_u32_le(s, 140),
                        optional_path_table_location_l: get_u32_le(s, 144),
                        path_table_location_m: get_u32_be(s, 148),
                        optional_path_table_location_m: get_u32_be(s, 152),
                    },
                );
                assert(found->0.model().root_directory_entry.name =~= parsed(
                    buffer@,
                    now,
                )->0.root_directory_entry.name);
                assert(Self::reads_as(found, buffer@, now));
                return found;
            }
            sector += 1;
        }
        None
    }

    /// Reads the descriptor that `buffer` holds in the first of its sectors
    /// that starts one, if one of the first 32 does. The time of now stands in
    /// for what cannot be read of its dates.
    pub fn parse_from_buffer(buffer: &[u8]) -> (r: Option<Self>)
        ensures
            exists|now: u64| #[trigger] Self::reads_as(r, buffer@, now),
            r is Some <==> primary_sector(buffer@, SCANNED_SECTORS as int) is Some,
    {
        let now = now_seconds();
        let r = PrimaryVolumeDescriptor::parse_from_buffer_at(buffer, now);
        assert(Self::reads_as(r, buffer@, now));
        r
    }

    pub fn volume_id(&self) -> (r: &str)
        ensures
            r@ == self.model().volume_id,
    {
        self.volume_id.as_str()
    }

    pub fn set_volume_id(&mut self, volume_id: String)
        ensures
            final(self).model() == (VolumeModel { volume_id: volume_id@, ..old(self).model() }),
    {
        self.volume_id = volume_id;
    }

    pub fn publisher_id(&self) -> (r: &str)
        ensures
            r@ == self.model().publisher_id,
    {
        self.publisher_id.as_str()
    }

    pub fn set_publisher_id(&mut self, publisher_id: String)
        ensures
            final(self).model() == (VolumeModel { publisher_id: publisher_id@, ..old(self).model() }),
    {
        self.publisher_id = publisher_id;
    }

    pub fn preparer_id(&self) -> (r: &str)
        ensures
            r@ == self.model().preparer_id,
    {
        self.preparer_id.as_str()
    }

    pub fn set_preparer_id(&mut self, preparer_id: String)
        ensures
            final(self).model() == (VolumeModel { preparer_id: preparer_id@, ..old(self).model() }),
    {
        self.preparer_id = preparer_id;
    }

    pub fn application_id(&self) -> (r: &str)
        ensures
            r@ == self.model().application_id,
    {
        self.application_id.as_str()
    }

    pub fn set_application_id(&mut self, application_id: String)
        ensures
            final(self).model() == (VolumeModel {
                application_id: application_id@,
                ..old(self).model()
            }),
    {
        self.application_id = application_id;
    }

    pub fn creation_time(&self) -> (r: u64)
        ensures
            r == self.model().creation_time,
    {
        self.creation_time
    }

    pub fn set_creation_time(&mut self, time: u64)
        ensures
            final(self).model() == (VolumeModel { creation_time: time, ..old(self).model() }),
    {
        self.creation_time = time;
    }

    pub fn modification_time(&self) -> (r: u64)
        ensures
            r == self.model().modification_time,
    {
        self.modification_time
    }

    pub fn set_modification_time(&mut self, time: u64)
        ensures
            final(self).model() == (VolumeModel { modification_time: time, ..old(self).model() }),
    {
        self.modification_time = time;
    }

    pub fn root_directory_entry(&self) -> (r: &DirectoryEntry)
        ensures
            r.model() == self.model().root_directory_entry,
    {
        &self.root_directory_entry
    }

    /// The entry of the root directory, to be changed in place.
    pub fn root_directory_entry_mut(&mut self) -> (r: &mut DirectoryEntry)
        ensures
            r.model() == old(self).model().root_directory_entry,
            final(self).model() == (VolumeModel {
                root_directory_entry: final(r).model(),
                ..old(self).model()
            }),
    {
        &mut self.root_directory_entry
    }

    pub fn volume_space_size(&self) -> (r: u32)
        ensures
            r == self.model().volume_space_size,
    {
        self.volume_space_size
    }

    pub fn set_volume_space_size(&mut self, size: u32)
        ensures
            final(self).model() == (VolumeModel { volume_space_size: size, ..old(self).model() }),
    {
        self.volume_space_size = size;
    }

    pub fn block_size(&self) -> (r: u16)
        ensures
            r == self.model().block_size,
    {
        self.block_size
    }

    /// Takes the entry of the root directory from `root_dir`: its name, its
    /// place, and its size as it is set or else as its records add up.
    pub fn update_with_directory(&mut self, root_dir: &Directory)
        ensures
            final(self).model().root_directory_entry.name == root_dir.spec_name(),
            final(self).model().root_directory_entry.flags == 0x02,
            final(self).model().root_directory_entry.extent_location == (
            match root_dir.spec_sector_location() {
                Some(location) => location,
                None => 0,
            }),
            final(self).model().volume_id == old(self).model().volume_id,
            final(self).model().publisher_id == old(self).model().publisher_id,
            final(self).model().preparer_id == old(self).model().preparer_id,
            final(self).model().application_id == old(self).model().application_id,
            final(self).model().creation_time == old(self).model().creation_time,
            final(self).model().modification_time == old(self).model().modification_time,
            final(self).model().volume_space_size == old(self).model().volume_space_size,
            final(self).model().block_size == old(self).model().block_size,
    {
        self.root_directory_entry = root_dir.to_entry();
    }
}

impl PrimaryVolumeDescriptor {
    fn put_front(&self, buffer: &mut [u8])
        requires
            old(buffer)@.len() == 2048,
        ensures
            final(buffer)@.len() == 2048,
            final(buffer)@.subrange(0, 156) == sector_front(self.model()),
    {
        let system: [u8; 13] = [
            0x49, 0x53, 0x4F, 0x50, 0x4F, 0x44, 0x5F, 0x53, 0x59, 0x53, 0x54, 0x45, 0x4D,
        ];
        assert(system@ =~= system_name());
        let volume = upper_bytes(self.volume_id.as_str().as_bytes());
        let p = put_u8(buffer, 0, 1);
        assert(buffer@.subrange(0, 1) =~= seq![1u8]);
        let p = put_bytes(buffer, p, StandardIdentifier::Cd001.as_bytes().as_slice());
        let p = put_u8(buffer, p, 1);
        let p = put_fill(buffer, p, 1, 0);
        let p = put_field(buffer, p, system.as_slice(), 32, 0x20);
        let p = put_field(buffer, p, volume.as_slice(), 32, 0x20);
        let p = put_fill(buffer, p, 8, 0);
        let p = put_u32_both(buffer, p, 20);
        let p = put_fill(buffer, p, 32, 0);
        let p = put_u16_both(buffer, p, 1);
        let p = put_u16_both(buffer, p, 1);
        let p = put_u16_both(buffer, p, 2048);
        let p = put_u32_both(buffer, p, 10);
        let p = put_u32_le(buffer, p, 20);
        let p = put_fill(buffer, p, 12, 0);
        assert(p == 156);
    }

    fn put_back(&self, buffer: &mut [u8], root: &[u8], created: &[u8], modified: &[u8])
        requires
            old(buffer)@.len() == 2048,
            fit(root@, 34, 0) == fit(entry_bytes(self.model().root_directory_entry), 34, 0),
            created@ == date_field(self.model().creation_time),
            modified@ == date_field(self.model().modification_time),
            created@.len() == 17,
            modified@.len() == 17,
        ensures
            final(buffer)@.len() == 2048,
            final(buffer)@.subrange(0, 2048) == old(buffer)@.subrange(0, 156) + sector_back(
                self.model(),
            ),
    {
        let p = put_field(buffer, 156, root, 34, 0);
        let p = put_fill(buffer, p, 128, 0);
        let p = put_field(buffer, p, self.publisher_id.as_str().as_bytes(), 128, 0x20);
        let p = put_field(buffer, p, self.preparer_id.as_str().as_bytes(), 128, 0x20);
        let p = put_field(buffer, p, self.application_id.as_str().as_bytes(), 128, 0x20);
        let p = put_fill(buffer, p, 111, 0);
        assert(p == 813);
        let p = put_bytes(buffer, p, created);
        let p = put_bytes(buffer, p, modified);
        let p = put_fill(buffer, p, 34, 0);
        let p = put_u8(buffer, p, 1);
        let p = put_fill(buffer, p, 1166, 0);
        assert(p == 2048);
        assert(buffer@.subrange(0, 2048) =~= old(buffer)@.subrange(0, 156) + sector_back(
            self.model(),
        ));
    }
}

impl VolumeDescriptor for PrimaryVolumeDescriptor {
    /// The sector of the descriptor, where the record of its root directory
    /// takes no more than 40 bytes.
    open spec fn spec_sector(&self) -> Seq<u8> {
        sector_of(self.model())
    }

    /// A root directory whose record takes more than 40 bytes is refused.
    fn write_to(&self, out: &mut Vec<u8>) -> (r: Result<(), Error>)
        ensures
            r is Ok <==> entry_record_size(self.model().root_directory_entry) <= 40,
    {
        let root = match self.root_record() {
            Ok(root) => root,
            Err(e) => {
                return Err(e);
            },
        };
        let created = date_bytes(self.creation_time);
        let modified = date_bytes(self.modification_time);
        let mut sector: Vec<u8> = Vec::new();
        push_zeros(&mut sector, 2048);
        self.put_front(sector.as_mut_slice());
        self.put_back(sector.as_mut_slice(), root.as_slice(), created.as_slice(), modified.as_slice());
        assert(sector@.subrange(0, 2048) =~= sector@);
        write_at(out, 32768, sector.as_slice());
        Ok(())
    }
}

impl PrimaryVolumeDescriptor {
    /// The record of the root directory in a buffer of 40 bytes, if it fits.
    fn root_record(&self) -> (r: Result<Vec<u8>, Error>)
        ensures
            r is Ok <==> entry_record_size(self.model().root_directory_entry) <= 40,
            r is Ok ==> fit(r->Ok_0@, 34, 0) == fit(
                entry_bytes(self.model().root_directory_entry),
                34,
                0,
            ),
    {
        let mut root: Vec<u8> = Vec::new();
        push_zeros(&mut root, 40);
        match self.root_directory_entry.write_to_buffer(root.as_mut_slice()) {
            Ok(()) => {},
            Err(e) => {
                return Err(e);
            },
        }
        proof {
            let record = entry_bytes(self.model().root_directory_entry);
            assert(record.len() >= 34);
            assert(fit(root@, 34, 0) =~= fit(record, 34, 0));
        }
        Ok(root)
    }
}

/// The 17 bytes of a date of the descriptor.
fn date_bytes(time: u64) -> (r: Vec<u8>)
    ensures
        r@ == date_field(time),
        r@.len() == 17,
{
    let mut r: Vec<u8> = Vec::new();
    push_zeros(&mut r, 17);
    write_iso_date(r.as_mut_slice(), time);
    proof {
        let t = time as int;
        crate::serialize::lemma_digits_len(year_of(t) / 100);
        crate::serialize::lemma_digits_len(year_of(t) % 100);
        crate::serialize::lemma_digits_len(crate::utils::month_day_of(t).0);
        crate::serialize::lemma_digits_len(crate::utils::month_day_of(t).1);
        crate::serialize::lemma_digits_len((t / 3600) % 24);
        crate::serialize::lemma_digits_len((t / 60) % 60);
        crate::serialize::lemma_digits_len(t % 60);
        crate::serialize::lemma_digits_len(0);
        assert(r@ =~= date_field(time));
    }
    r
}

/// A sector that starts a descriptor and has none before it is the one
/// that is found.
pub proof fn lemma_primary_found(buffer: Seq<u8>, k: int, limit: int)
    requires
        1 <= k <= limit,
        primary_sector(buffer, k - 1) is None,
        is_primary_at(buffer, k - 1),
    ensures
        primary_sector(buffer, limit) == Some(k - 1),
    decreases limit - k,
{
    if k < limit {
        lemma_primary_found(buffer, k, limit - 1);
    }
}

} // verus!
