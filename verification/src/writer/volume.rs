//! The volumes of an image and the descriptors that announce them.

use crate::spec::{
    fit, ACharacters, DCharacters, DigitsDate, DigitsDay, DigitsHour, DigitsHundreths,
    DigitsMinute, DigitsMonth, DigitsSecond, DigitsYear, ElToritoBootRecordVolumeDescriptor,
    ElToritoInitialSectionEntry, ElToritoValidationEntry, FileStructureVersion, NumericalDate,
    NumericalDay, NumericalGmtOffset, NumericalHour, NumericalMinute, NumericalMonth,
    NumericalSecond, NumericalYear, PrimaryVolumeDescriptor, RootDirectoryRecord,
    StandardIdentifier, VolumeDescriptorVersion, FILLER,
};
use crate::bytes::zeros;
use crate::serialize::IsoSerialize;
use crate::spec::FileFlags;
use crate::writer::error::Error;
use crate::writer::fs::{nodes, Filesystem, Node, RootDirectory};
use crate::writer::metadata::{text_bytes, WriterMetadata};
use crate::writer::lba::{sectors_for, LbaAllocator};
use crate::writer::layout::{
    assign_entries, assigned_first, emit_tree, push_zeros, records_len, records_size,
    tree_extents,
};
use chrono::{Datelike, Timelike, Utc};
use vstd::prelude::*;
use vstd::string::StringSliceAdditionalSpecFns;

verus! {

/// A moment in Greenwich Mean Time, taken apart.
#[derive(Debug, Clone, Copy, PartialEq, Eq)]
pub struct Timestamp {
    pub year: i32,
    pub month: u32,
    pub day: u32,
    pub hour: u32,
    pub minute: u32,
    pub second: u32,
    pub millisecond: u32,
    /// Seconds since the start of 1970, leap seconds not counted.
    pub unix_seconds: i64,
}

/// `chrono::Utc::now`, taken apart by the accessors of `chrono::Datelike` and
/// `chrono::Timelike` and by `DateTime::timestamp_subsec_millis` and
/// `DateTime::timestamp`: the moment at which it is called. Of the result
/// only the ranges that chrono documents are claimed; of the milliseconds,
/// which pass 999 in a leap second, nothing. It panics on a machine whose
/// clock stands before 1970.
#[verifier::external_body]
pub(crate) fn utc_now() -> (t: Timestamp)
    ensures
        1 <= t.month <= 12,
        1 <= t.day <= 31,
        t.hour <= 23,
        t.minute <= 59,
        t.second <= 59,
{
    let now = Utc::now();
    Timestamp {
        year: now.year(),
        month: now.month(),
        day: now.day(),
        hour: now.hour(),
        minute: now.minute(),
        second: now.second(),
        millisecond: now.timestamp_subsec_millis(),
        unix_seconds: now.timestamp(),
    }
}

/// `v`, or `max` where `v` is over it.
pub open spec fn at_most(v: int, max: int) -> int {
    if v > max {
        max
    } else {
        v
    }
}

fn capped(v: u32, max: u8) -> (r: u8)
    ensures
        r == at_most(v as int, max as int),
{
    if v > max as u32 {
        max
    } else {
        v as u8
    }
}

impl DigitsDate {
    /// The precise date of a moment. A field that does not fit its digits
    /// takes the nearest value that does.
    pub open spec fn spec_from_timestamp(t: Timestamp) -> Self {
        DigitsDate {
            year: DigitsYear(
                if t.year < 0 {
                    0u16
                } else {
                    at_most(t.year as int, 9999) as u16
                },
            ),
            month: DigitsMonth(at_most(t.month as int, 99) as u8),
            day: DigitsDay(at_most(t.day as int, 99) as u8),
            hour: DigitsHour(at_most(t.hour as int, 99) as u8),
            minute: DigitsMinute(at_most(t.minute as int, 99) as u8),
            second: DigitsSecond(at_most(t.second as int, 99) as u8),
            hundreths: DigitsHundreths(at_most(t.millisecond as int / 10, 99) as u8),
            gmt_offset: NumericalGmtOffset(0),
        }
    }

    pub fn from_timestamp(t: &Timestamp) -> (r: Self)
        ensures
            r == Self::spec_from_timestamp(*t),
            r.wf(),
    {
        let year: u16 = if t.year < 0 {
            0
        } else if t.year > 9999 {
            9999
        } else {
            t.year as u16
        };
        DigitsDate {
            year: DigitsYear(year),
            month: DigitsMonth(capped(t.month, 99)),
            day: DigitsDay(capped(t.day, 99)),
            hour: DigitsHour(capped(t.hour, 99)),
            minute: DigitsMinute(capped(t.minute, 99)),
            second: DigitsSecond(capped(t.second, 99)),
            hundreths: DigitsHundreths(capped(t.millisecond / 10, 99)),
            gmt_offset: NumericalGmtOffset(0),
        }
    }
}

impl NumericalDate {
    /// The numerical date of a moment. Years before 1900 count as 1900; a
    /// field that does not fit its byte takes 255.
    pub open spec fn spec_from_timestamp(t: Timestamp) -> Self {
        NumericalDate {
            years_since_1900: NumericalYear(
                if t.year < 1900 {
                    0u8
                } else {
                    at_most(t.year - 1900, 255) as u8
                },
            ),
            month: NumericalMonth(at_most(t.month as int, 255) as u8),
            day: NumericalDay(at_most(t.day as int, 255) as u8),
            hour: NumericalHour(at_most(t.hour as int, 255) as u8),
            minute: NumericalMinute(at_most(t.minute as int, 255) as u8),
            second: NumericalSecond(at_most(t.second as int, 255) as u8),
            gmt_offset: NumericalGmtOffset(0),
        }
    }

    pub fn from_timestamp(t: &Timestamp) -> (r: Self)
        ensures
            r == Self::spec_from_timestamp(*t),
    {
        let years: u8 = if t.year < 1900 {
            0
        } else if t.year - 1900 > 255 {
            255
        } else {
            (t.year - 1900) as u8
        };
        NumericalDate {
            years_since_1900: NumericalYear(years),
            month: NumericalMonth(capped(t.month, 255)),
            day: NumericalDay(capped(t.day, 255)),
            hour: NumericalHour(capped(t.hour, 255)),
            minute: NumericalMinute(capped(t.minute, 255)),
            second: NumericalSecond(capped(t.second, 255)),
            gmt_offset: NumericalGmtOffset(0),
        }
    }
}

/// What a volume needs to know of the image that it is written into.
pub struct VolumeContext<'a> {
    pub sector_size: u32,
    pub standard_identifier: StandardIdentifier,
    /// The moment that the descriptor and the records are dated with.
    pub now: Timestamp,
    /// How many sectors the image has.
    pub volume_space_size: u32,
    /// What the writer says of itself.
    pub metadata: &'a WriterMetadata,
}

/// A volume that announces itself by a descriptor.
pub trait VolumeLike {
    type Descriptor;

    spec fn spec_volume_id(&self) -> Seq<char>;

    spec fn spec_descriptor(&self, context: VolumeContext<'_>) -> Self::Descriptor;

    fn volume_id(&self) -> (r: &str)
        ensures
            r@ == self.spec_volume_id(),
    ;

    fn descriptor(&self, context: &VolumeContext<'_>) -> (r: Self::Descriptor)
        ensures
            r == self.spec_descriptor(*context),
    ;
}

/// A primary volume: its name, who published and who prepared it, and its files.
#[derive(Debug, PartialEq, Eq)]
pub struct PrimaryVolume {
    pub volume_id: String,
    pub publisher: Option<String>,
    pub preparer: Option<String>,
    pub filesystem: Filesystem,
}

/// The boot catalog of an image: the entry that validates it and the entry
/// of the image that a machine boots from.
#[derive(Debug, Clone, Copy, PartialEq, Eq)]
pub struct BootCatalog {
    pub validation: ElToritoValidationEntry,
    pub initial: ElToritoInitialSectionEntry,
}

impl BootCatalog {
    /// The 64 bytes of the catalog: the validation entry, then the initial
    /// entry.
    pub open spec fn spec_bytes(&self) -> Seq<u8> {
        self.validation.spec_bytes() + self.initial.spec_bytes()
    }
}

/// A boot volume: a boot record that says where the boot catalog lies, and
/// the catalog in a sector of its own.
#[derive(Debug, PartialEq, Eq)]
pub struct BootVolume {
    pub catalog: BootCatalog,
    /// Where the catalog goes, once addresses are assigned.
    pub catalog_lba: Option<u32>,
}

/// What a volume is, apart from how it is held in memory. A primary volume
/// has a name and a tree, whose root lies at `root_lba`; a boot volume has a
/// catalog, which lies there.
pub struct VolumeModel {
    pub volume_id: Seq<char>,
    pub publisher: Option<Seq<char>>,
    pub preparer: Option<Seq<char>>,
    pub root_lba: Option<u32>,
    pub children: Seq<Node>,
    pub boot: Option<BootCatalog>,
}

/// The boot record that announces a catalog at `lba`.
pub open spec fn boot_record(lba: Option<u32>, standard_identifier: StandardIdentifier) -> ElToritoBootRecordVolumeDescriptor {
    ElToritoBootRecordVolumeDescriptor {
        standard_identifier,
        version: VolumeDescriptorVersion::Standard,
        boot_catalog_pointer: match lba {
            Some(lba) => lba,
            None => 0,
        },
    }
}

impl BootVolume {
    /// A boot volume whose catalog has no address yet.
    pub fn new(catalog: BootCatalog) -> (r: Self)
        ensures
            r.catalog == catalog,
            r.catalog_lba is None,
    {
        BootVolume { catalog, catalog_lba: None }
    }

    /// What the volume is.
    pub open spec fn model(&self) -> VolumeModel {
        VolumeModel {
            volume_id: Seq::<char>::empty(),
            publisher: None,
            preparer: None,
            root_lba: self.catalog_lba,
            children: Seq::<Node>::empty(),
            boot: Some(self.catalog),
        }
    }
}

/// A boot volume has no name; its descriptor is the boot record.
impl VolumeLike for BootVolume {
    type Descriptor = ElToritoBootRecordVolumeDescriptor;

    open spec fn spec_volume_id(&self) -> Seq<char> {
        Seq::<char>::empty()
    }

    open spec fn spec_descriptor(&self, context: VolumeContext<'_>) -> ElToritoBootRecordVolumeDescriptor {
        boot_record(self.catalog_lba, context.standard_identifier)
    }

    fn volume_id(&self) -> (r: &str) {
        proof {
            reveal_strlit("");
        }
        let r = "";
        assert(r@ =~= Seq::<char>::empty());
        r
    }

    fn descriptor(&self, context: &VolumeContext<'_>) -> (r: ElToritoBootRecordVolumeDescriptor) {
        ElToritoBootRecordVolumeDescriptor {
            standard_identifier: context.standard_identifier,
            version: VolumeDescriptorVersion::Standard,
            boot_catalog_pointer: match self.catalog_lba {
                Some(lba) => lba,
                None => 0,
            },
        }
    }
}

/// The characters of a name that may be missing.
pub open spec fn optional_name(name: Option<String>) -> Option<Seq<char>> {
    match name {
        Some(s) => Some(s@),
        None => None,
    }
}

/// The bytes of the name that a volume has of its own, or else what the
/// writer says.
pub open spec fn own_or(name: Option<Seq<char>>, fallback: Seq<u8>) -> Seq<u8> {
    match name {
        Some(s) => vstd::utf8::encode_utf8(s),
        None => fallback,
    }
}

fn a_field(name: &Option<String>, fallback: &Vec<u8>) -> (r: ACharacters<128>)
    ensures
        r.0@ == fit(own_or(optional_name(*name), fallback@), 128, FILLER),
{
    match name {
        Some(s) => ACharacters::from_bytes_truncated(s.as_str().as_bytes()),
        None => ACharacters::from_bytes_truncated(fallback.as_slice()),
    }
}

/// "LINUX", the system that the volumes name.
pub open spec fn linux() -> Seq<u8> {
    seq![0x4Cu8, 0x49, 0x4E, 0x55, 0x58]
}

/// The record of a root directory at `lba` with these children: where its
/// extent is, and how many bytes of records it holds. Records that 32 bits
/// cannot count are given as of the length zero.
pub open spec fn root_record(lba: Option<u32>, children: Seq<Node>, now: NumericalDate) -> RootDirectoryRecord {
    RootDirectoryRecord {
        extent_location: match lba {
            Some(lba) => lba,
            None => 0,
        },
        data_length: if records_len(children, children.len()) > u32::MAX {
            0
        } else {
            records_len(children, children.len()) as u32
        },
        recording_date: now,
        file_flags: FileFlags { bits: FileFlags::DIRECTORY },
        file_unit_size: 0,
        interleave_gap_size: 0,
        volume_sequence_number: 1,
    }
}

/// The root at `cursor` with these children, its address and those of all
/// below it assigned, and the cursor after them.
pub open spec fn assigned_root(children: Seq<Node>, cursor: int, sector_size: int) -> Result<
    (Seq<Node>, int),
    Error,
> {
    let size = records_len(children, children.len());
    if size > u32::MAX {
        Err(Error::DirectoryTooLarge)
    } else if cursor + sectors_for(size, sector_size) > u32::MAX {
        Err(Error::AllocatorExhausted)
    } else {
        assigned_first(children, cursor + sectors_for(size, sector_size), sector_size, children.len())
    }
}

impl RootDirectory {
    /// The record of the root directory that a volume descriptor holds.
    pub open spec fn spec_root_descriptor(&self, now: NumericalDate) -> RootDirectoryRecord {
        root_record(self.extent_lba, nodes(self.entries@), now)
    }

    /// The record of the root directory, dated `now`.
    pub fn root_descriptor(&self, now: NumericalDate) -> (r: RootDirectoryRecord)
        ensures
            r == self.spec_root_descriptor(now),
    {
        RootDirectoryRecord {
            extent_location: match self.extent_lba {
                Some(lba) => lba,
                None => 0,
            },
            data_length: match records_size(&self.entries) {
                Some(n) => n,
                None => 0,
            },
            recording_date: now,
            file_flags: FileFlags::from_bits(FileFlags::DIRECTORY),
            file_unit_size: 0,
            interleave_gap_size: 0,
            volume_sequence_number: 1,
        }
    }

    /// Assigns the address of the root and of all below it.
    pub fn assign_extent_lbas(&mut self, allocator: &mut LbaAllocator) -> (r: Result<(), Error>)
        requires
            old(allocator).wf(),
        ensures
            final(allocator).wf(),
            final(allocator).spec_sector_size() == old(allocator).spec_sector_size(),
            match assigned_root(
                nodes(old(self).entries@),
                old(allocator).spec_next_lba() as int,
                old(allocator).spec_sector_size() as int,
            ) {
                Ok((placed, end)) => {
                    &&& r is Ok
                    &&& final(self).extent_lba == Some(old(allocator).spec_next_lba())
                    &&& nodes(final(self).entries@) == placed
                    &&& final(allocator).spec_next_lba() == end
                },
                Err(e) => r == Err::<(), Error>(e),
            },
    {
        let size = match records_size(&self.entries) {
            Some(size) => size,
            None => {
                return Err(Error::DirectoryTooLarge);
            },
        };
        let lba = match allocator.allocate(size) {
            Ok(lba) => lba,
            Err(e) => {
                return Err(e);
            },
        };
        self.extent_lba = Some(lba);
        assign_entries(&mut self.entries, allocator)
    }
}

/// The descriptor of the volume: its name, its publisher and preparer
/// where it has them, the size of its sectors (its low 16 bits), where
/// its root directory is and how many sectors the image has. No path table
/// is written, so the descriptor names none; the four dates are the
/// moment of writing.
pub open spec fn descriptor_of(volume: VolumeModel, context: VolumeContext<'_>) -> PrimaryVolumeDescriptor {
    let date = DigitsDate::spec_from_timestamp(context.now);
    PrimaryVolumeDescriptor {
        standard_identifier: context.standard_identifier,
        version: VolumeDescriptorVersion::Standard,
        system_identifier: ACharacters(
            crate::bytes::array_of::<32>(fit(linux(), 32, FILLER)),
        ),
        volume_identifier: DCharacters(
            crate::bytes::array_of::<32>(
                fit(vstd::utf8::encode_utf8(volume.volume_id), 32, FILLER),
            ),
        ),
        volume_space_size: context.volume_space_size,
        volume_set_size: 1,
        volume_sequence_number: 1,
        logical_block_size: (context.sector_size % 65536) as u16,
        path_table_size: 0,
        type_l_path_table_location: 0,
        optional_type_l_path_table_location: 0,
        type_m_path_table_location: 0,
        optional_type_m_path_table_location: 0,
        root_directory_record: root_record(
            volume.root_lba,
            volume.children,
            NumericalDate::spec_from_timestamp(context.now),
        ),
        volume_set_identifier: DCharacters(
            crate::bytes::array_of::<128>(fit(Seq::<u8>::empty(), 128, FILLER)),
        ),
        publisher_identifier: ACharacters(
            crate::bytes::array_of::<128>(
                fit(
                    own_or(volume.publisher, text_bytes(context.metadata.spec_publisher())),
                    128,
                    FILLER,
                ),
            ),
        ),
        data_preparer_identifier: ACharacters(
            crate::bytes::array_of::<128>(
                fit(
                    own_or(volume.preparer, text_bytes(context.metadata.spec_data_preparer())),
                    128,
                    FILLER,
                ),
            ),
        ),
        application_identifier: ACharacters(
            crate::bytes::array_of::<128>(
                fit(text_bytes(context.metadata.spec_application()), 128, FILLER),
            ),
        ),
        copyright_file_identifier: DCharacters(
            crate::bytes::array_of::<37>(
                fit(text_bytes(context.metadata.spec_copyright_file()), 37, FILLER),
            ),
        ),
        abstract_file_identifier: DCharacters(
            crate::bytes::array_of::<37>(
                fit(
                    match context.metadata.spec_abstract_file() {
                        Some(a) => a,
                        None => Seq::<u8>::empty(),
                    },
                    37,
                    FILLER,
                ),
            ),
        ),
        bibliographic_file_identifier: DCharacters(
            crate::bytes::array_of::<37>(fit(Seq::<u8>::empty(), 37, FILLER)),
        ),
        creation_date: date,
        modification_date: date,
        expiration_date: date,
        effective_date: date,
        file_structure_version: FileStructureVersion::Standard,
        application_use: crate::bytes::array_of::<512>(zeros(512)),
    }
}


impl PrimaryVolume {
    /// A volume called `volume_id` without files.
    pub fn new(volume_id: String) -> (r: Self)
        ensures
            r.volume_id == volume_id,
            r.publisher is None,
            r.preparer is None,
            r.filesystem.root.entries@.len() == 0,
            r.filesystem.root.extent_lba is None,
    {
        PrimaryVolume { volume_id, publisher: None, preparer: None, filesystem: Filesystem::new() }
    }

    /// What the volume is.
    pub open spec fn model(&self) -> VolumeModel {
        VolumeModel {
            volume_id: self.volume_id@,
            publisher: optional_name(self.publisher),
            preparer: optional_name(self.preparer),
            root_lba: self.filesystem.root.extent_lba,
            children: nodes(self.filesystem.root.entries@),
            boot: None,
        }
    }
}

impl VolumeLike for PrimaryVolume {
    type Descriptor = PrimaryVolumeDescriptor;

    open spec fn spec_volume_id(&self) -> Seq<char> {
        self.volume_id@
    }

    open spec fn spec_descriptor(&self, context: VolumeContext<'_>) -> PrimaryVolumeDescriptor {
        descriptor_of(self.model(), context)
    }

    fn volume_id(&self) -> (r: &str) {
        self.volume_id.as_str()
    }

    fn descriptor(&self, context: &VolumeContext<'_>) -> (r: PrimaryVolumeDescriptor) {
        let date = DigitsDate::from_timestamp(&context.now);
        let empty: [u8; 0] = [];
        assert(empty@ =~= Seq::<u8>::empty());
        let system: [u8; 5] = [0x4C, 0x49, 0x4E, 0x55, 0x58];
        assert(system@ =~= linux());
        let application_use: [u8; 512] = [0u8; 512];
        assert(application_use@ =~= zeros(512));
        let r = PrimaryVolumeDescriptor {
            standard_identifier: context.standard_identifier,
            version: VolumeDescriptorVersion::Standard,
            system_identifier: ACharacters::from_bytes_truncated(system.as_slice()),
            volume_identifier: DCharacters::from_bytes_truncated(self.volume_id.as_str().as_bytes()),
            volume_space_size: context.volume_space_size,
            volume_set_size: 1,
            volume_sequence_number: 1,
            logical_block_size: (context.sector_size % 65536) as u16,
            path_table_size: 0,
            type_l_path_table_location: 0,
            optional_type_l_path_table_location: 0,
            type_m_path_table_location: 0,
            optional_type_m_path_table_location: 0,
            root_directory_record: self.filesystem.root.root_descriptor(
                NumericalDate::from_timestamp(&context.now),
            ),
            volume_set_identifier: DCharacters::from_bytes_truncated(empty.as_slice()),
            publisher_identifier: a_field(&self.publisher, &context.metadata.publisher_bytes()),
            data_preparer_identifier: a_field(
                &self.preparer,
                &context.metadata.data_preparer_bytes(),
            ),
            application_identifier: ACharacters::from_bytes_truncated(
                context.metadata.application_bytes().as_slice(),
            ),
            copyright_file_identifier: DCharacters::from_bytes_truncated(
                context.metadata.copyright_file_bytes().as_slice(),
            ),
            abstract_file_identifier: DCharacters::from_bytes_truncated(
                context.metadata.abstract_file_bytes().as_slice(),
            ),
            bibliographic_file_identifier: DCharacters::from_bytes_truncated(empty.as_slice()),
            creation_date: date,
            modification_date: date,
            expiration_date: date,
            effective_date: date,
            file_structure_version: FileStructureVersion::Standard,
            application_use,
        };
        proof {
            crate::bytes::lemma_array_of::<32>(r.system_identifier.0);
            crate::bytes::lemma_array_of::<32>(r.volume_identifier.0);
            crate::bytes::lemma_array_of::<128>(r.volume_set_identifier.0);
            crate::bytes::lemma_array_of::<128>(r.publisher_identifier.0);
            crate::bytes::lemma_array_of::<128>(r.data_preparer_identifier.0);
            crate::bytes::lemma_array_of::<128>(r.application_identifier.0);
            crate::bytes::lemma_array_of::<37>(r.copyright_file_identifier.0);
            crate::bytes::lemma_array_of::<37>(r.abstract_file_identifier.0);
            crate::bytes::lemma_array_of::<37>(r.bibliographic_file_identifier.0);
            crate::bytes::lemma_array_of::<512>(r.application_use);
        }
        r
    }
}

/// A volume of an image.
#[derive(Debug, PartialEq, Eq)]
pub enum Volume {
    Primary(PrimaryVolume),
    Boot(BootVolume),
}

impl Volume {
    /// What the volume is.
    pub open spec fn model(&self) -> VolumeModel {
        match self {
            Volume::Primary(p) => p.model(),
            Volume::Boot(b) => b.model(),
        }
    }
}

} // verus!
