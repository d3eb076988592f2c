use isofs::parse::{IsoParseError, VolumeDescriptor};
use isofs::read::IsoRead;
use isofs::reader::{
    chunk, descriptor_sector, scan_step, split_revision, take_chunk, Scan, DirectoryEntryRef, DirectoryIter, DirectoryRef, Error, Extensions, FileRef,
    Iso, Slots, Step,
};
use isofs::serialize::IsoSerialize;
use isofs::spec::{
    A1Characters, D1Characters, DigitsDate, DirectoryRecord, EscapeSequences, FileFlags,
    FileIdentifier, FileStructureVersion, JolietExtension, JolietFileIdentifier, NoExtension,
    NumericalDate, NumericalDay, NumericalGmtOffset, NumericalHour, NumericalMinute,
    NumericalMonth, NumericalSecond, NumericalYear, RootDirectoryRecord, StandardIdentifier,
    SupplementaryVolumeDescriptor, VolumeDescriptorSetTerminator, VolumeDescriptorVersion,
    VolumeFlags,
};
use isofs::write::IsoWrite;
use isofs::writer::metadata::WriterMetadata;
use isofs::writer::volume::{PrimaryVolume, Timestamp, VolumeContext, VolumeLike};

fn a_date() -> NumericalDate {
    NumericalDate {
        years_since_1900: NumericalYear(100),
        month: NumericalMonth(1),
        day: NumericalDay(1),
        hour: NumericalHour(0),
        minute: NumericalMinute(0),
        second: NumericalSecond(0),
        gmt_offset: NumericalGmtOffset(0),
    }
}

fn plain_record(identifier: &[u8], lba: u32, size: u32, flags: u8) -> DirectoryRecord<NoExtension> {
    let n = identifier.len() as u8;
    DirectoryRecord {
        length: 33 + n + (1 - n % 2),
        extended_attribute_length: 0,
        extent_location: lba,
        data_length: size,
        recording_date: a_date(),
        file_flags: FileFlags::from_bits(flags),
        file_unit_size: 0,
        interleave_gap_size: 0,
        volume_sequence_number: 1,
        file_identifier_length: n,
        file_identifier: FileIdentifier::from_bytes_truncated(identifier),
    }
}

fn joliet_record(name: &str, lba: u32, size: u32, flags: u8) -> DirectoryRecord<JolietExtension> {
    let units: Vec<u16> = name.encode_utf16().collect();
    let n = (units.len() * 2) as u8;
    DirectoryRecord {
        length: 34 + n,
        extended_attribute_length: 0,
        extent_location: lba,
        data_length: size,
        recording_date: a_date(),
        file_flags: FileFlags::from_bits(flags),
        file_unit_size: 0,
        interleave_gap_size: 0,
        volume_sequence_number: 1,
        file_identifier_length: n,
        file_identifier: JolietFileIdentifier::from_units_truncated(&units),
    }
}

fn put<T: IsoSerialize>(image: &mut Vec<u8>, at: usize, value: &T) -> usize {
    let n = value.extent();
    if image.len() < at + n {
        image.resize(at + n, 0);
    }
    value.serialize(&mut image[at..at + n]).unwrap()
}

fn file_of(identifier: &[u8]) -> FileRef<NoExtension> {
    FileRef { inner: plain_record(identifier, 0, 0, 0) }
}

fn joliet_image() -> Vec<u8> {
    let mut image = vec![0u8; 16 * 2048];
    let volume = PrimaryVolume::new("PLAIN".to_string());
    let metadata = WriterMetadata::new();
    let context = VolumeContext {
        sector_size: 2048,
        standard_identifier: StandardIdentifier::Cd001,
        now: Timestamp {
            year: 2020,
            month: 2,
            day: 2,
            hour: 2,
            minute: 2,
            second: 2,
            millisecond: 0,
            unix_seconds: 0,
        },
        volume_space_size: 22,
        metadata: &metadata,
    };
    put(&mut image, 16 * 2048, &volume.descriptor(&context));
    let mut escape = [0u8; 32];
    escape[..3].copy_from_slice(b"%/E");
    let mut name = Vec::new();
    for unit in "Jöliet".encode_utf16() {
        name.extend_from_slice(&unit.to_be_bytes());
    }
    while name.len() < 32 {
        name.extend_from_slice(&[0, 0x20]);
    }
    let svd = SupplementaryVolumeDescriptor {
        standard_identifier: StandardIdentifier::Cd001,
        version: VolumeDescriptorVersion::Standard,
        volume_flags: VolumeFlags::empty(),
        system_identifier: A1Characters::from_bytes_truncated(&[]),
        volume_identifier: D1Characters::from_bytes_truncated(&name),
        volume_space_size: 22,
        escape_sequences: EscapeSequences(escape),
        volume_set_size: 1,
        volume_sequence_number: 1,
        logical_block_size: 2048,
        path_table_size: 0,
        type_l_path_table_location: 0,
        optional_type_l_path_table_location: 0,
        type_m_path_table_location: 0,
        optional_type_m_path_table_location: 0,
        root_directory_record: RootDirectoryRecord {
            extent_location: 20,
            data_length: 2048,
            recording_date: a_date(),
            file_flags: FileFlags::from_bits(FileFlags::DIRECTORY),
            file_unit_size: 0,
            interleave_gap_size: 0,
            volume_sequence_number: 1,
        },
        volume_set_identifier: D1Characters::from_bytes_truncated(&[]),
        publisher_identifier: A1Characters::from_bytes_truncated(&[]),
        data_preparer_identifier: A1Characters::from_bytes_truncated(&[]),
        application_identifier: A1Characters::from_bytes_truncated(&[]),
        copyright_file_identifier: D1Characters::from_bytes_truncated(&[]),
        abstract_file_identifier: D1Characters::from_bytes_truncated(&[]),
        bibliographic_file_identifier: D1Characters::from_bytes_truncated(&[]),
        creation_date: DigitsDate::unspecified(),
        modification_date: DigitsDate::unspecified(),
        expiration_date: DigitsDate::unspecified(),
        effective_date: DigitsDate::unspecified(),
        file_structure_version: FileStructureVersion::Standard,
        application_use: [0u8; 512],
    };
    put(&mut image, 17 * 2048, &svd);
    put(&mut image, 18 * 2048, &svd);
    put(&mut image, 19 * 2048, &VolumeDescriptorSetTerminator);
    let mut at = 20 * 2048;
    let mut dot = joliet_record("x", 20, 2048, 2);
    dot.file_identifier = JolietFileIdentifier::from_units_truncated(&[0]);
    dot.file_identifier_length = 1;
    dot.length = 34;
    at += put(&mut image, at, &dot);
    let mut dotdot = joliet_record("x", 20, 2048, 2);
    dotdot.file_identifier = JolietFileIdentifier::from_units_truncated(&[1]);
    dotdot.file_identifier_length = 1;
    dotdot.length = 34;
    at += put(&mut image, at, &dotdot);
    at += put(&mut image, at, &joliet_record("Grüße.txt;1", 21, 5, 0));
    put(&mut image, at, &joliet_record("目录", 22, 0, 2));
    image.resize(22 * 2048, 0);
    image[21 * 2048..21 * 2048 + 5].copy_from_slice(b"Hallo");
    image
}

#[test]
fn names_and_revisions() {
    assert_eq!(split_revision("HELLO.TXT;1"), ("HELLO.TXT".to_string(), 1));
    assert_eq!(split_revision("FOO;42"), ("FOO".to_string(), 42));
    assert_eq!(split_revision("README"), ("README".to_string(), 1));
    assert_eq!(split_revision("A;B;7"), ("A;B".to_string(), 7));
    assert_eq!(split_revision("A;"), ("A;".to_string(), 1));
    assert_eq!(split_revision("A1"), ("A1".to_string(), 1));
    assert_eq!(split_revision(";5"), ("".to_string(), 5));
    assert_eq!(split_revision("X;255"), ("X".to_string(), 255));
    assert_eq!(split_revision("X;256"), ("X".to_string(), 1));
    assert_eq!(split_revision("X;99999999999999999999"), ("X".to_string(), 1));
    assert_eq!(split_revision("X;007"), ("X".to_string(), 7));
    assert_eq!(split_revision(""), ("".to_string(), 1));
}

#[test]
fn file_handles_spell_out_their_records() {
    let file = file_of(b"HELLO.TXT;1");
    assert_eq!(file.identifier(), "HELLO.TXT;1");
    assert_eq!(file.name(), "HELLO.TXT");
    assert_eq!(file.revision(), 1);
    let file = file_of(b"FOO;42");
    assert_eq!(file.name(), "FOO");
    assert_eq!(file.revision(), 42);
    let dir = DirectoryRef { inner: plain_record(b"DOCS", 30, 2048, 2) };
    assert_eq!(dir.name(), "DOCS");
}

#[test]
fn a_zero_byte_sends_the_walk_to_the_next_sector() {
    let walk: DirectoryIter<NoExtension> = DirectoryIter {
        valid: true,
        inner: plain_record(&[0], 20, 4096, 2),
        offset: 100,
    };
    let sector = vec![0u8; 2048];
    match walk.step(&sector, 2048) {
        Step::Skip { offset } => assert_eq!(offset, 2048),
        _ => panic!("no skip"),
    }
    let mut one = vec![0xFFu8; 2048];
    one[100] = 0;
    match walk.step(&one, 2048) {
        Step::Skip { offset } => assert_eq!(offset, 2048),
        _ => panic!("no skip"),
    }
}

#[test]
fn the_walk_ends_with_the_directory_or_the_sector() {
    let mut walk: DirectoryIter<NoExtension> = DirectoryIter {
        valid: true,
        inner: plain_record(&[0], 20, 100, 2),
        offset: 100,
    };
    let sector = vec![0xFFu8; 2048];
    assert!(matches!(walk.step(&sector, 2048), Step::End));
    walk.offset = 50;
    assert!(matches!(walk.step(&sector, 50), Step::End));
    assert!(matches!(walk.step(&sector, 0), Step::End));
    match walk.step(&sector, 60) {
        Step::Fail { error } => assert_eq!(
            error,
            IsoParseError::InputTooSmall { expected: 33, got: 10, when: "DirectoryRecord" }
        ),
        _ => panic!("no failure"),
    }
}

#[test]
fn the_walk_hands_out_entries_and_passes_over_dots() {
    let mut sector = vec![0u8; 2048];
    let mut at = 0;
    at += put(&mut sector, at, &plain_record(&[0], 20, 2048, 2));
    at += put(&mut sector, at, &plain_record(&[1], 20, 2048, 2));
    at += put(&mut sector, at, &plain_record(b"SELF", 20, 2048, 2));
    let first = at;
    at += put(&mut sector, at, &plain_record(b"A.TXT;1", 21, 3, 0));
    let second = at;
    at += put(&mut sector, at, &plain_record(b"SUB", 22, 2048, 2));
    sector.resize(2048, 0);
    let mut walk: DirectoryIter<NoExtension> = DirectoryIter {
        valid: true,
        inner: plain_record(&[0], 20, 2048, 2),
        offset: 0,
    };
    match walk.step(&sector, 2048) {
        Step::Skip { offset } => assert_eq!(offset, 34),
        _ => panic!("dot was not passed over"),
    }
    walk.offset = 34;
    match walk.step(&sector, 2048) {
        Step::Skip { offset } => assert_eq!(offset, 68),
        _ => panic!("dotdot was not passed over"),
    }
    walk.offset = 68;
    match walk.step(&sector, 2048) {
        Step::Skip { offset } => assert_eq!(offset as usize, first),
        _ => panic!("the directory itself was not passed over"),
    }
    walk.offset = first as u64;
    match walk.step(&sector, 2048) {
        Step::Entry { record, offset } => {
            assert_eq!(offset as usize, second);
            assert_eq!(&record.file_identifier.0[..7], b"A.TXT;1");
        }
        _ => panic!("no entry"),
    }
    let mut image = vec![0u8; 20 * 2048];
    image.extend_from_slice(&sector);
    let mut walk = DirectoryRef { inner: plain_record(&[0], 20, 2048, 2) }.entries();
    let mut names = Vec::new();
    while let Some(entry) = walk.next(&mut image) {
        match entry {
            Ok(DirectoryEntryRef::File(f)) => names.push(f.name()),
            Ok(DirectoryEntryRef::Directory(d)) => names.push(d.name()),
            Err(_) => panic!("walk failed"),
        }
    }
    assert_eq!(names, vec!["A.TXT", "SUB"]);
    assert_eq!(walk.offset, 2048);
    assert_eq!(at, second + 36);
}

#[test]
fn a_broken_record_ends_the_walk_with_one_error() {
    let mut image = vec![0u8; 21 * 2048];
    let at = 20 * 2048;
    let n = put(&mut image, at, &plain_record(b"OK;1", 30, 0, 0));
    image[at + n] = 40;
    image[at + n + 32] = 0;
    let mut walk = DirectoryRef { inner: plain_record(&[0], 20, 2048, 2) }.entries();
    assert!(matches!(walk.next(&mut image), Some(Ok(DirectoryEntryRef::File(_)))));
    match walk.next(&mut image) {
        Some(Err(Error::Parse(e))) => {
            assert_eq!(e, IsoParseError::UnknownTag { at: 32, value: 0 })
        }
        _ => panic!("no error"),
    }
    assert!(!walk.valid);
    assert!(walk.next(&mut image).is_none());
}

#[test]
fn slots_keep_the_first_of_each_kind() {
    let image = joliet_image();
    let primary = VolumeDescriptor::parse(&image[16 * 2048..17 * 2048]).unwrap().unwrap();
    let supplementary = VolumeDescriptor::parse(&image[17 * 2048..18 * 2048]).unwrap().unwrap();
    let mut slots = Slots::empty();
    slots.accept(Extensions::none(), supplementary);
    assert_eq!(slots, Slots::empty());
    slots.accept(Extensions::from_bits(Extensions::JOLIET), supplementary);
    assert!(slots.supplementary.is_some());
    slots.accept(Extensions::all(), primary);
    let kept = slots;
    let mut other = primary;
    if let VolumeDescriptor::Primary(ref mut d) = other {
        d.volume_space_size = 1;
    }
    slots.accept(Extensions::all(), other);
    assert_eq!(slots, kept);
    assert!(Extensions::all().joliet());
    assert!(!Extensions::from_bits(Extensions::ROCK_RIDGE).joliet());
}

#[test]
fn joliet_read() {
    let iso = Iso::open(joliet_image(), Extensions::all()).ok().unwrap();
    assert_eq!(iso.primary_volume().unwrap().identifier(), "PLAIN");
    assert!(iso.boot_record_volume().is_none());
    let volume = iso.supplementary_volume().unwrap();
    assert_eq!(volume.identifier(), "Jöliet");
    assert_eq!(volume.descriptor().volume_space_size, 22);
    let root = volume.root();
    let mut image = iso.storage;
    let mut walk = root.entries();
    match walk.next(&mut image) {
        Some(Ok(DirectoryEntryRef::File(file))) => {
            assert_eq!(file.identifier(), "Grüße.txt;1");
            assert_eq!(file.name(), "Grüße.txt");
            assert_eq!(file.revision(), 1);
            let mut buf = [0u8; 5];
            assert_eq!(file.read(&mut image, 0, &mut buf).ok(), Some(5));
            assert_eq!(&buf, b"Hallo");
        }
        _ => panic!("no file"),
    }
    match walk.next(&mut image) {
        Some(Ok(DirectoryEntryRef::Directory(dir))) => assert_eq!(dir.name(), "目录"),
        _ => panic!("no directory"),
    }
    assert!(walk.next(&mut image).is_none());
}

#[test]
fn joliet_is_only_read_when_asked_for() {
    let iso = Iso::open(joliet_image(), Extensions::none()).ok().unwrap();
    assert!(iso.primary_volume().is_some());
    assert!(iso.supplementary_volume().is_none());
    assert_eq!(iso.primary_volume().unwrap().root().inner.extent_location, 0);
}

#[test]
fn open_stops_at_the_end_of_the_storage() {
    let iso = Iso::open(vec![0u8; 100], Extensions::all()).ok().unwrap();
    assert!(iso.primary_volume().is_none());
    let mut image = joliet_image();
    image.truncate(17 * 2048 + 5);
    let iso = Iso::open(image, Extensions::all()).ok().unwrap();
    assert!(iso.primary_volume().is_some());
    assert!(iso.supplementary_volume().is_none());
    let mut image = joliet_image();
    image[17 * 2048] = 9;
    match Iso::open(image, Extensions::all()) {
        Err(Error::Parse(e)) => assert_eq!(e, IsoParseError::UnknownTag { at: 0, value: 9 }),
        _ => panic!("no error"),
    }
}

#[test]
fn memory_is_a_storage_and_a_sink() {
    let mut image: Vec<u8> = (0..5000u32).map(|i| (i % 251) as u8).collect();
    let copy = image.clone();
    let mut out = vec![0xEEu8; 2050];
    assert_eq!(image.read_sector(0, &mut out), Ok(2048));
    assert_eq!(&out[..2048], &copy[..2048]);
    assert_eq!(&out[2048..], &[0xEE, 0xEE]);
    assert_eq!(image.read_sector(2, &mut out), Ok(904));
    assert_eq!(&out[..904], &copy[4096..]);
    assert_eq!(out[904], copy[904]);
    assert_eq!(image.read_sector(3, &mut out), Ok(0));
    assert_eq!(image.read_sector(u64::MAX, &mut out), Ok(0));
    assert_eq!(image, copy);
    let mut sink: Vec<u8> = vec![1, 2, 3];
    assert_eq!(sink.write_at(1, &[9, 9]), Ok(2));
    assert_eq!(sink.len(), 2050);
    assert_eq!(&sink[..4], &[1, 2, 3, 0]);
    assert_eq!(&sink[2048..], &[9, 9]);
    assert_eq!(sink.write_at(0, &[7]), Ok(1));
    assert_eq!(&sink[..3], &[7, 2, 3]);
}

#[test]
fn a_reader_takes_of_a_sector_what_is_of_the_file_and_fits() {
    assert_eq!(chunk(5000, 0, 2048, 10_000), (0, 2048));
    assert_eq!(chunk(5000, 2048, 2048, 100), (0, 100));
    assert_eq!(chunk(5000, 4096, 2048, 10_000), (0, 904));
    assert_eq!(chunk(5000, 2100, 2048, 10_000), (52, 1996));
    assert_eq!(chunk(5000, 2100, 52, 10_000), (52, 0));
    assert_eq!(chunk(5000, 2100, 60, 10_000), (52, 8));
    assert_eq!(chunk(5000, 4999, 2048, 0), (903, 0));
}

#[test]
fn a_walk_at_its_end_stays_where_it_is() {
    let mut image = vec![0u8; 40 * 2048];
    let child = plain_record(b"A.TXT;1", 31, 3, 0);
    put(&mut image, 30 * 2048, &child);
    image[31 * 2048..31 * 2048 + 3].copy_from_slice(b"abc");
    let directory = DirectoryRef { inner: plain_record(b"DIR", 30, child.length as u32, 2) };
    let mut walk = directory.entries();
    match walk.next(&mut image) {
        Some(Ok(DirectoryEntryRef::File(file))) => {
            assert_eq!(file.inner.extent_location, 31);
            assert_eq!(file.inner.data_length, 3);
            assert_eq!(file.name(), "A.TXT");
            assert_eq!(walk.offset, child.length as u64);
            let mut buf = [9u8; 8];
            assert_eq!(file.read(&mut image, 1, &mut buf), Ok(2));
            assert_eq!(&buf, &[b'b', b'c', 9, 9, 9, 9, 9, 9]);
            assert_eq!(file.read(&mut image, 3, &mut buf), Ok(0));
            assert_eq!(&buf, &[b'b', b'c', 9, 9, 9, 9, 9, 9]);
        }
        _ => panic!("the directory holds one file"),
    }
    let before = walk.offset;
    assert!(walk.next(&mut image).is_none());
    assert!(walk.valid);
    assert_eq!(walk.offset, before);
    assert!(walk.next(&mut image).is_none());
    assert_eq!(walk.offset, before);
}

#[test]
fn a_scan_takes_one_sector_at_a_time() {
    let image = joliet_image();
    let sector = |k: usize| &image[k * 2048..(k + 1) * 2048];
    let all = Extensions::all();
    let first = match scan_step(Slots::empty(), all, sector(16), 2048) {
        Scan::GoOn { slots } => slots,
        _ => panic!("sector 16 holds the primary volume descriptor"),
    };
    assert!(first.primary.is_some() && first.supplementary.is_none() && first.boot.is_none());
    let second = match scan_step(first, all, sector(17), 2048) {
        Scan::GoOn { slots } => slots,
        _ => panic!("sector 17 holds the supplementary volume descriptor"),
    };
    assert_eq!(second.primary, first.primary);
    assert!(second.supplementary.is_some());
    assert_eq!(scan_step(second, all, sector(18), 2048), Scan::GoOn { slots: second });
    assert_eq!(scan_step(second, all, sector(19), 2048), Scan::Stop);
    assert_eq!(scan_step(second, all, sector(17), 2047), Scan::Stop);
    assert_eq!(scan_step(first, Extensions::none(), sector(17), 2048), Scan::GoOn { slots: first });
    let mut broken = sector(16).to_vec();
    broken[0] = 7;
    assert_eq!(
        scan_step(first, all, &broken, 2048),
        Scan::Fail { error: IsoParseError::UnknownTag { at: 0, value: 7 } }
    );
    assert_eq!(descriptor_sector(0), 16);
    assert_eq!(descriptor_sector(3), 19);
    let opened = Iso::open(image.clone(), all).unwrap();
    assert_eq!(opened.slots, second);
    let plain = Iso::open(image, Extensions::none()).unwrap();
    assert_eq!(plain.slots, first);
}

#[test]
fn what_is_taken_of_a_sector_lands_where_the_reader_stands() {
    let sector: Vec<u8> = (0..2048u32).map(|i| (i % 251) as u8).collect();
    let mut buf = [9u8; 8];
    assert_eq!(take_chunk(&mut buf, 2, &sector, 2048, 5000, 2100), 6);
    assert_eq!(&buf, &[9, 9, 52, 53, 54, 55, 56, 57]);
    let mut buf = [9u8; 8];
    assert_eq!(take_chunk(&mut buf, 0, &sector, 55, 5000, 2100), 3);
    assert_eq!(&buf, &[52, 53, 54, 9, 9, 9, 9, 9]);
    assert_eq!(take_chunk(&mut buf, 3, &sector, 52, 5000, 2100), 0);
    assert_eq!(&buf, &[52, 53, 54, 9, 9, 9, 9, 9]);
    assert_eq!(take_chunk(&mut buf, 3, &sector, 2048, 2102, 2100), 2);
    assert_eq!(&buf, &[52, 53, 54, 52, 53, 9, 9, 9]);
    assert_eq!(take_chunk(&mut buf, 8, &sector, 2048, 5000, 0), 0);
    let file = FileRef { inner: plain_record(b"A;1", 30, 5000, 0) };
    assert_eq!(file.sector_index(0), 30);
    assert_eq!(file.sector_index(2047), 30);
    assert_eq!(file.sector_index(4096), 32);
    let mut walk = DirectoryRef { inner: plain_record(b"D", 40, 6000, 2) }.entries();
    assert_eq!(walk.sector_index(), 40);
    walk.offset = 4100;
    assert_eq!(walk.sector_index(), 42);
}
