use isofs::bytes::{get_u16_be, get_u16_le, get_u32_be, get_u32_le};
use isofs::parse::{IsoParse, IsoParseError, VolumeDescriptor};
use isofs::serialize::{IsoSerialize, IsoSerializeError};
use isofs::spec::{
    A1Characters, ACharacters, D1Characters, DCharacters, DigitsDate, DigitsDay, DigitsHour,
    DigitsHundreths, DigitsMinute, DigitsMonth, DigitsSecond, DigitsYear, DirectoryRecord,
    ElToritoBootIndicator, ElToritoBootMediaType, ElToritoBootMediaTypeExt,
    ElToritoBootRecordVolumeDescriptor, ElToritoEmulationType,
    ElToritoExtensionRecordFollowsIndicator, ElToritoHeaderId, ElToritoHeaderIndicator,
    ElToritoInitialSectionEntry, ElToritoManufacturerId, ElToritoPlatformId,
    ElToritoSectionEntry, ElToritoSectionEntryExtension, ElToritoSectionHeaderEntry,
    ElToritoSectionId, ElToritoSelectionCriteriaType, ElToritoValidationEntry, EscapeSequences,
    DirectoryIdentifier, FileFlags, FileIdentifier, FileStructureVersion, JolietExtension, JolietFileIdentifier,
    JolietLevel, NoExtension, NumericalDate, NumericalDay, NumericalGmtOffset, NumericalHour,
    NumericalMinute, NumericalMonth, NumericalSecond, NumericalYear, PathTableRecord,
    PrimaryVolumeDescriptor, RecordFormat, RootDirectoryRecord, StandardIdentifier, SupplementaryVolumeDescriptor,
    VolumeDescriptorSetTerminator, VolumeDescriptorType, VolumeDescriptorVersion, VolumeFlags,
    VolumePartitionDescriptor,
};
use isofs::writer::metadata::WriterMetadata;
use isofs::writer::volume::{PrimaryVolume, Timestamp, VolumeContext, VolumeLike};

fn moment() -> Timestamp {
    Timestamp {
        year: 2024,
        month: 1,
        day: 2,
        hour: 3,
        minute: 4,
        second: 5,
        millisecond: 60,
        unix_seconds: 1704164645,
    }
}

fn sample_pvd() -> PrimaryVolumeDescriptor {
    let volume = PrimaryVolume::new("TEST".to_string());
    let metadata = WriterMetadata::new();
    let context = VolumeContext {
        sector_size: 2048,
        standard_identifier: StandardIdentifier::Cd001,
        now: moment(),
        volume_space_size: 0x01020304,
        metadata: &metadata,
    };
    volume.descriptor(&context)
}

fn sample_date() -> DigitsDate {
    DigitsDate {
        year: DigitsYear(1999),
        month: DigitsMonth(12),
        day: DigitsDay(31),
        hour: DigitsHour(23),
        minute: DigitsMinute(59),
        second: DigitsSecond(58),
        hundreths: DigitsHundreths(7),
        gmt_offset: NumericalGmtOffset(-4),
    }
}

fn sample_numerical() -> NumericalDate {
    NumericalDate {
        years_since_1900: NumericalYear(124),
        month: NumericalMonth(2),
        day: NumericalDay(29),
        hour: NumericalHour(13),
        minute: NumericalMinute(14),
        second: NumericalSecond(15),
        gmt_offset: NumericalGmtOffset(-8),
    }
}

fn sample_root() -> RootDirectoryRecord {
    RootDirectoryRecord {
        extent_location: 0x11223344,
        data_length: 0x55667788,
        recording_date: sample_numerical(),
        file_flags: FileFlags::from_bits(FileFlags::DIRECTORY),
        file_unit_size: 0,
        interleave_gap_size: 0,
        volume_sequence_number: 0x0102,
    }
}

fn sample_svd() -> SupplementaryVolumeDescriptor {
    let mut escape = [0u8; 32];
    escape[..3].copy_from_slice(b"%/E");
    SupplementaryVolumeDescriptor {
        standard_identifier: StandardIdentifier::Cd001,
        version: VolumeDescriptorVersion::Standard,
        volume_flags: VolumeFlags::from_bits(0x81),
        system_identifier: A1Characters::from_bytes_truncated(&[0, b'S']),
        volume_identifier: D1Characters::from_bytes_truncated(&[0, b'J', 0, b'O']),
        volume_space_size: 77,
        escape_sequences: EscapeSequences(escape),
        volume_set_size: 1,
        volume_sequence_number: 1,
        logical_block_size: 2048,
        path_table_size: 10,
        type_l_path_table_location: 0x0A0B0C0D,
        optional_type_l_path_table_location: 0,
        type_m_path_table_location: 0x01020304,
        optional_type_m_path_table_location: 0x05060708,
        root_directory_record: sample_root(),
        volume_set_identifier: D1Characters::from_bytes_truncated(&[]),
        publisher_identifier: A1Characters::from_bytes_truncated(&[]),
        data_preparer_identifier: A1Characters::from_bytes_truncated(&[]),
        application_identifier: A1Characters::from_bytes_truncated(&[]),
        copyright_file_identifier: D1Characters::from_bytes_truncated(&[]),
        abstract_file_identifier: D1Characters::from_bytes_truncated(&[]),
        bibliographic_file_identifier: D1Characters::from_bytes_truncated(&[]),
        creation_date: sample_date(),
        modification_date: sample_date(),
        expiration_date: DigitsDate::unspecified(),
        effective_date: DigitsDate::unspecified(),
        file_structure_version: FileStructureVersion::Standard,
        application_use: [7u8; 512],
    }
}

fn sample_record() -> DirectoryRecord<NoExtension> {
    DirectoryRecord {
        length: 44,
        extended_attribute_length: 0,
        extent_location: 19,
        data_length: 5,
        recording_date: sample_numerical(),
        file_flags: FileFlags::empty(),
        file_unit_size: 0,
        interleave_gap_size: 0,
        volume_sequence_number: 1,
        file_identifier_length: 11,
        file_identifier: FileIdentifier::from_bytes_truncated(b"HELLO.TXT;1"),
    }
}

#[test]
fn pvd_too_small_buffer() {
    let pvd = sample_pvd();
    let mut buf = vec![0xEEu8; 2047];
    assert_eq!(
        pvd.serialize(&mut buf),
        Err(IsoSerializeError::InputTooSmall {
            expected: 2048,
            got: 2047,
            when: "PrimaryVolumeDescriptor"
        })
    );
    assert!(buf.iter().all(|b| *b == 0xEE));
}

#[test]
fn empty_pvd_round_trip() {
    let pvd = sample_pvd();
    let mut buf = vec![0xEEu8; 2048];
    assert_eq!(pvd.serialize(&mut buf), Ok(2048));
    assert_eq!(buf[0], 0x01);
    assert_eq!(&buf[1..6], b"CD001");
    assert_eq!(buf[6], 1);
    assert_eq!(&buf[8..13], b"LINUX");
    assert_eq!(&buf[40..44], b"TEST");
    assert!(buf[44..72].iter().all(|b| *b == 0x20));
    assert_eq!(&buf[813..829], b"2024010203040506");
    assert_eq!(buf[829], 0);
    let (parsed, rest) = PrimaryVolumeDescriptor::parse(&buf).unwrap();
    assert_eq!(parsed, pvd);
    assert!(rest.is_empty());
}

#[test]
fn pvd_leaves_the_rest_of_the_buffer() {
    let pvd = sample_pvd();
    let mut buf = vec![0xEEu8; 2050];
    assert_eq!(pvd.serialize(&mut buf), Ok(2048));
    assert_eq!(&buf[2048..], &[0xEE, 0xEE]);
    let (_, rest) = PrimaryVolumeDescriptor::parse(&buf).unwrap();
    assert_eq!(rest, &[0xEE, 0xEE]);
}

#[test]
fn pvd_dual_endian_fields_agree() {
    let mut pvd = sample_pvd();
    pvd.path_table_size = 0xA1B2C3D4;
    pvd.root_directory_record = sample_root();
    pvd.volume_set_size = 0x1234;
    pvd.volume_sequence_number = 0x5678;
    pvd.logical_block_size = 0x0800;
    let mut buf = vec![0u8; 2048];
    assert_eq!(pvd.serialize(&mut buf), Ok(2048));
    for k in [80usize, 132, 158, 166] {
        assert_eq!(get_u32_le(&buf, k), get_u32_be(&buf, k + 4));
    }
    for k in [120usize, 124, 128, 184] {
        assert_eq!(get_u16_le(&buf, k), get_u16_be(&buf, k + 2));
    }
    assert_eq!(&buf[80..88], &[0x04, 0x03, 0x02, 0x01, 0x01, 0x02, 0x03, 0x04]);
    assert_eq!(get_u32_le(&buf, 132), 0xA1B2C3D4);
    assert_eq!(get_u32_le(&buf, 158), 0x11223344);
    assert_eq!(get_u16_le(&buf, 128), 0x0800);
}

#[test]
fn pvd_reserved_bytes_are_zero() {
    let pvd = sample_pvd();
    let mut buf = vec![0xEEu8; 2048];
    assert_eq!(pvd.serialize(&mut buf), Ok(2048));
    assert_eq!(buf[7], 0);
    assert!(buf[72..80].iter().all(|b| *b == 0));
    assert!(buf[88..120].iter().all(|b| *b == 0));
    assert_eq!(buf[882], 0);
    assert!(buf[1395..2048].iter().all(|b| *b == 0));
}

#[test]
fn pvd_path_tables_have_their_byte_order() {
    let mut pvd = sample_pvd();
    pvd.type_l_path_table_location = 0x01020304;
    pvd.optional_type_l_path_table_location = 0x05060708;
    pvd.type_m_path_table_location = 0x01020304;
    pvd.optional_type_m_path_table_location = 0x05060708;
    let mut buf = vec![0u8; 2048];
    assert_eq!(pvd.serialize(&mut buf), Ok(2048));
    assert_eq!(&buf[140..144], &[4, 3, 2, 1]);
    assert_eq!(&buf[144..148], &[8, 7, 6, 5]);
    assert_eq!(&buf[148..152], &[1, 2, 3, 4]);
    assert_eq!(&buf[152..156], &[5, 6, 7, 8]);
    let (parsed, _) = PrimaryVolumeDescriptor::parse(&buf).unwrap();
    assert_eq!(parsed, pvd);
}

#[test]
fn pvd_bad_character_is_refused() {
    let mut pvd = sample_pvd();
    pvd.volume_identifier = DCharacters::from_bytes_truncated(b"TESt");
    let mut buf = vec![0x11u8; 2048];
    assert_eq!(
        pvd.serialize(&mut buf),
        Err(IsoSerializeError::BadCharacter { field: "volume_identifier", offset: 3 })
    );
    assert!(buf.iter().all(|b| *b == 0x11));
    pvd.system_identifier = ACharacters::from_bytes_truncated(b"A#");
    assert_eq!(
        pvd.check(),
        Some(IsoSerializeError::BadCharacter { field: "system_identifier", offset: 1 })
    );
}

#[test]
fn pvd_characters_are_in_their_class_after_serialize() {
    let mut pvd = sample_pvd();
    pvd.publisher_identifier = ACharacters::from_bytes_truncated(b"ACME (PUBLISHING), 1999");
    pvd.volume_set_identifier = DCharacters::from_bytes_truncated(b"SET_01");
    let mut buf = vec![0u8; 2048];
    assert_eq!(pvd.serialize(&mut buf), Ok(2048));
    let is_d = |b: u8| b.is_ascii_digit() || b.is_ascii_uppercase() || b == b'_' || b == b' ';
    let is_a = |b: u8| is_d(b) || b" !\"%&'()*+,-./:;<=>?".contains(&b);
    assert!(buf[8..40].iter().all(|b| is_a(*b)));
    assert!(buf[318..702].iter().all(|b| is_a(*b)));
    assert!(buf[40..72].iter().all(|b| is_d(*b)));
    assert!(buf[190..318].iter().all(|b| is_d(*b)));
    assert!(buf[702..813].iter().all(|b| is_d(*b)));
}

#[test]
fn pvd_date_that_does_not_fit_is_refused() {
    let mut pvd = sample_pvd();
    pvd.modification_date.month = DigitsMonth(100);
    let mut buf = vec![0u8; 2048];
    assert_eq!(
        pvd.serialize(&mut buf),
        Err(IsoSerializeError::BadCharacter { field: "modification_date", offset: 4 })
    );
}

#[test]
fn pvd_parse_errors() {
    let short = vec![1u8; 100];
    assert_eq!(
        PrimaryVolumeDescriptor::parse(&short).err(),
        Some(IsoParseError::InputTooSmall {
            expected: 2048,
            got: 100,
            when: "PrimaryVolumeDescriptor"
        })
    );
    let mut buf = vec![0u8; 2048];
    assert_eq!(sample_pvd().serialize(&mut buf), Ok(2048));
    buf[0] = 9;
    assert_eq!(
        PrimaryVolumeDescriptor::parse(&buf).err(),
        Some(IsoParseError::UnknownTag { at: 0, value: 9 })
    );
    buf[0] = 1;
    buf[832] = b'x';
    assert_eq!(
        PrimaryVolumeDescriptor::parse(&buf).err(),
        Some(IsoParseError::BadCharacter { field: "modification_date", offset: 2 })
    );
}

#[test]
fn svd_round_trip() {
    let svd = sample_svd();
    let mut buf = vec![0xEEu8; 2048];
    assert_eq!(svd.serialize(&mut buf), Ok(2048));
    assert_eq!(buf[0], 2);
    assert_eq!(buf[7], 0x81);
    assert_eq!(&buf[88..91], b"%/E");
    assert!(buf[91..120].iter().all(|b| *b == 0));
    assert_eq!(&buf[148..152], &[1, 2, 3, 4]);
    assert_eq!(&buf[152..156], &[5, 6, 7, 8]);
    assert!(buf[72..80].iter().all(|b| *b == 0));
    assert!(buf[1395..2048].iter().all(|b| *b == 0));
    let (parsed, rest) = SupplementaryVolumeDescriptor::parse(&buf).unwrap();
    assert_eq!(parsed, svd);
    assert!(rest.is_empty());
    assert_eq!(JolietLevel::from_escape(&parsed.escape_sequences.0), Some(JolietLevel::Level3));
}

#[test]
fn digits_date_round_trip() {
    let date = sample_date();
    let mut buf = [0u8; 17];
    assert_eq!(date.serialize(&mut buf), Ok(17));
    assert_eq!(&buf[..16], b"1999123123595807");
    assert_eq!(buf[16], 0xFC);
    let (parsed, rest) = DigitsDate::parse(&buf).unwrap();
    assert_eq!(parsed, date);
    assert!(rest.is_empty());
}

#[test]
fn digits_date_errors() {
    let mut date = sample_date();
    date.year = DigitsYear(10000);
    let mut buf = [0u8; 17];
    assert_eq!(
        date.serialize(&mut buf),
        Err(IsoSerializeError::BadCharacter { field: "DigitsDate", offset: 0 })
    );
    assert_eq!(
        DigitsDate::parse(b"19991231235958X7\0").err(),
        Some(IsoParseError::BadCharacter { field: "DigitsDate", offset: 14 })
    );
    assert_eq!(
        DigitsDate::parse(b"1999").err(),
        Some(IsoParseError::InputTooSmall { expected: 17, got: 4, when: "DigitsDate" })
    );
    let mut small = [0u8; 16];
    assert_eq!(
        sample_date().serialize(&mut small),
        Err(IsoSerializeError::InputTooSmall { expected: 17, got: 16, when: "DigitsDate" })
    );
}

#[test]
fn numerical_date_round_trip() {
    let date = sample_numerical();
    let mut buf = [0xEEu8; 8];
    assert_eq!(date.serialize(&mut buf), Ok(7));
    assert_eq!(buf, [124, 2, 29, 13, 14, 15, 0xF8, 0xEE]);
    let (parsed, rest) = NumericalDate::parse(&buf).unwrap();
    assert_eq!(parsed, date);
    assert_eq!(rest, &[0xEE]);
}

#[test]
fn root_record_round_trip() {
    let root = sample_root();
    let mut buf = [0xEEu8; 34];
    assert_eq!(root.serialize(&mut buf), Ok(34));
    assert_eq!(buf[0], 34);
    assert_eq!(buf[1], 0);
    assert_eq!(&buf[2..10], &[0x44, 0x33, 0x22, 0x11, 0x11, 0x22, 0x33, 0x44]);
    assert_eq!(&buf[10..18], &[0x88, 0x77, 0x66, 0x55, 0x55, 0x66, 0x77, 0x88]);
    assert_eq!(buf[25], 2);
    assert_eq!(&buf[28..32], &[2, 1, 1, 2]);
    assert_eq!(&buf[32..34], &[1, 0]);
    let (parsed, _) = RootDirectoryRecord::parse(&buf).unwrap();
    assert_eq!(parsed, root);
}

#[test]
fn directory_record_round_trip() {
    let record = sample_record();
    assert_eq!(record.extent(), 44);
    let mut buf = [0xEEu8; 50];
    assert_eq!(record.serialize(&mut buf), Ok(44));
    assert_eq!(buf[0], 44);
    assert_eq!(&buf[2..10], &[19, 0, 0, 0, 0, 0, 0, 19]);
    assert_eq!(&buf[10..18], &[5, 0, 0, 0, 0, 0, 0, 5]);
    assert_eq!(buf[32], 11);
    assert_eq!(&buf[33..44], b"HELLO.TXT;1");
    assert_eq!(&buf[44..], &[0xEE; 6]);
    let (parsed, rest) = DirectoryRecord::<NoExtension>::parse(&buf).unwrap();
    assert_eq!(rest.len(), 6);
    assert_eq!(parsed.length, 44);
    assert_eq!(parsed.extent_location, 19);
    assert_eq!(parsed.data_length, 5);
    assert_eq!(parsed.recording_date, record.recording_date);
    assert_eq!(parsed.file_flags, record.file_flags);
    assert_eq!(parsed.volume_sequence_number, 1);
    assert_eq!(parsed.file_identifier_length, 11);
    assert_eq!(parsed.file_identifier, record.file_identifier);
}

#[test]
fn directory_record_is_padded_to_even_length() {
    let mut record = sample_record();
    record.file_identifier = FileIdentifier::from_bytes_truncated(b"FOO;42");
    record.file_identifier_length = 6;
    record.length = 40;
    assert_eq!(record.extent(), 40);
    let mut buf = [0xEEu8; 40];
    assert_eq!(record.serialize(&mut buf), Ok(40));
    assert_eq!(&buf[33..39], b"FOO;42");
    assert_eq!(buf[39], 0);
}

#[test]
fn directory_record_with_identifier_length_zero_is_no_record() {
    let mut buf = [0u8; 34];
    assert_eq!(sample_root().serialize(&mut buf), Ok(34));
    buf[32] = 0;
    assert_eq!(
        DirectoryRecord::<NoExtension>::parse(&buf).err(),
        Some(IsoParseError::UnknownTag { at: 32, value: 0 })
    );
    let mut record = sample_record();
    record.file_identifier_length = 0;
    let mut out = [0u8; 64];
    assert_eq!(
        record.serialize(&mut out),
        Err(IsoSerializeError::BadCharacter { field: "file_identifier_length", offset: 32 })
    );
}

#[test]
fn directory_record_parse_errors() {
    assert_eq!(
        DirectoryRecord::<NoExtension>::parse(&[40u8; 10]).err(),
        Some(IsoParseError::InputTooSmall { expected: 33, got: 10, when: "DirectoryRecord" })
    );
    let mut buf = [0u8; 44];
    assert_eq!(sample_record().serialize(&mut buf), Ok(44));
    buf[0] = 40;
    assert_eq!(
        DirectoryRecord::<NoExtension>::parse(&buf).err(),
        Some(IsoParseError::UnknownTag { at: 0, value: 40 })
    );
    buf[0] = 44;
    assert_eq!(
        DirectoryRecord::<NoExtension>::parse(&buf[..43]).err(),
        Some(IsoParseError::InputTooSmall { expected: 44, got: 43, when: "DirectoryRecord" })
    );
    buf[32] = 33;
    assert_eq!(
        DirectoryRecord::<NoExtension>::parse(&buf).err(),
        Some(IsoParseError::UnknownTag { at: 32, value: 33 })
    );
    let mut wrong = sample_record();
    wrong.length = 45;
    let mut out = [0u8; 64];
    assert_eq!(
        wrong.serialize(&mut out),
        Err(IsoSerializeError::BadCharacter { field: "length", offset: 0 })
    );
}

#[test]
fn joliet_record_round_trip() {
    let units: Vec<u16> = "é.txt".encode_utf16().collect();
    let record: DirectoryRecord<JolietExtension> = DirectoryRecord {
        length: 44,
        extended_attribute_length: 0,
        extent_location: 30,
        data_length: 12,
        recording_date: sample_numerical(),
        file_flags: FileFlags::empty(),
        file_unit_size: 0,
        interleave_gap_size: 0,
        volume_sequence_number: 1,
        file_identifier_length: 10,
        file_identifier: JolietFileIdentifier::from_units_truncated(&units),
    };
    let mut buf = [0u8; 44];
    assert_eq!(record.serialize(&mut buf), Ok(44));
    assert_eq!(&buf[33..43], &[0, 0xE9, 0, b'.', 0, b't', 0, b'x', 0, b't']);
    assert_eq!(buf[43], 0);
    let (parsed, _) = DirectoryRecord::<JolietExtension>::parse(&buf).unwrap();
    assert_eq!(parsed.file_identifier, record.file_identifier);
    assert_eq!(parsed.file_identifier_length, 10);
    buf[32] = 9;
    assert_eq!(
        DirectoryRecord::<JolietExtension>::parse(&buf).err(),
        Some(IsoParseError::UnknownTag { at: 32, value: 9 })
    );
}

#[test]
fn terminator_bytes() {
    let mut buf = vec![0xEEu8; 2048];
    assert_eq!(VolumeDescriptorSetTerminator.serialize(&mut buf), Ok(2048));
    assert_eq!(buf[0], 255);
    assert_eq!(&buf[1..6], b"CD001");
    assert_eq!(buf[6], 1);
    assert!(buf[7..].iter().all(|b| *b == 0));
    assert!(VolumeDescriptorSetTerminator::parse(&buf).is_ok());
    assert_eq!(VolumeDescriptor::parse(&buf), Ok(None));
}

#[test]
fn partition_round_trip() {
    let partition = VolumePartitionDescriptor {
        standard_identifier: StandardIdentifier::Cd001,
        version: VolumeDescriptorVersion::Standard,
        system_identifier: ACharacters::from_bytes_truncated(b"SYS"),
        volume_partition_identifier: DCharacters::from_bytes_truncated(b"PART_1"),
        volume_partition_location: 0x0A0B0C0D,
        volume_partition_size: 0x01020304,
    };
    let mut buf = vec![0xEEu8; 2048];
    assert_eq!(partition.serialize(&mut buf), Ok(2048));
    assert_eq!(buf[0], 3);
    assert_eq!(&buf[72..80], &[0x0D, 0x0C, 0x0B, 0x0A, 0x0A, 0x0B, 0x0C, 0x0D]);
    assert_eq!(&buf[80..88], &[4, 3, 2, 1, 1, 2, 3, 4]);
    assert!(buf[88..].iter().all(|b| *b == 0));
    let (parsed, _) = VolumePartitionDescriptor::parse(&buf).unwrap();
    assert_eq!(parsed, partition);
    assert_eq!(VolumeDescriptor::parse(&buf), Ok(Some(VolumeDescriptor::Partition(partition))));
}

#[test]
fn boot_record_round_trip() {
    let boot = ElToritoBootRecordVolumeDescriptor {
        standard_identifier: StandardIdentifier::Cd001,
        version: VolumeDescriptorVersion::Standard,
        boot_catalog_pointer: 0x00000123,
    };
    let mut buf = vec![0xEEu8; 2048];
    assert_eq!(boot.serialize(&mut buf), Ok(2048));
    assert_eq!(buf[0], 0);
    assert_eq!(&buf[7..30], b"EL TORITO SPECIFICATION");
    assert!(buf[30..71].iter().all(|b| *b == 0));
    assert_eq!(&buf[71..75], &[0x23, 0x01, 0, 0]);
    assert!(buf[75..].iter().all(|b| *b == 0));
    let (parsed, _) = ElToritoBootRecordVolumeDescriptor::parse(&buf).unwrap();
    assert_eq!(parsed, boot);
    buf[8] = b'X';
    assert_eq!(
        ElToritoBootRecordVolumeDescriptor::parse(&buf).err(),
        Some(IsoParseError::UnknownTag { at: 7, value: b'E' })
    );
}

#[test]
fn volume_descriptor_is_told_by_its_tag() {
    let mut buf = vec![0u8; 2048];
    assert_eq!(sample_pvd().serialize(&mut buf), Ok(2048));
    assert_eq!(VolumeDescriptor::parse(&buf), Ok(Some(VolumeDescriptor::Primary(sample_pvd()))));
    assert_eq!(sample_svd().serialize(&mut buf), Ok(2048));
    assert_eq!(
        VolumeDescriptor::parse(&buf),
        Ok(Some(VolumeDescriptor::Supplementary(sample_svd())))
    );
    buf[0] = 77;
    assert_eq!(VolumeDescriptor::parse(&buf), Err(IsoParseError::UnknownTag { at: 0, value: 77 }));
    assert_eq!(
        VolumeDescriptor::parse(&buf[..2047]),
        Err(IsoParseError::InputTooSmall { expected: 2048, got: 2047, when: "VolumeDescriptor" })
    );
}

#[test]
fn tags_round_trip_and_keep_unknown_bytes() {
    for b in 0..=255u8 {
        assert_eq!(VolumeDescriptorType::from_u8(b).to_u8(), b);
        assert_eq!(RecordFormat::from_u8(b).to_u8(), b);
        assert_eq!(ElToritoBootIndicator::from_u8(b).to_u8(), b);
        assert_eq!(NumericalGmtOffset::from_u8(b).to_u8(), b);
        assert_eq!(FileFlags::from_bits(b).bits(), b);
    }
    assert_eq!(VolumeDescriptorType::from_u8(255), VolumeDescriptorType::Terminator);
    assert_eq!(VolumeDescriptorType::from_u8(1), VolumeDescriptorType::Primary);
    assert_eq!(VolumeDescriptorType::from_u8(9), VolumeDescriptorType::Other(9));
    assert_eq!(ElToritoBootIndicator::Bootable.to_u8(), 0x88);
    assert_eq!(ElToritoHeaderIndicator::from_u8(91), Some(ElToritoHeaderIndicator::FinalHeader));
    assert_eq!(ElToritoHeaderIndicator::from_u8(92), None);
    assert_eq!(NumericalGmtOffset(-1).to_u8(), 0xFF);
    assert_eq!(NumericalGmtOffset::from_u8(0x80), NumericalGmtOffset(-128));
    assert!(FileFlags::from_bits(0x82).contains(FileFlags::DIRECTORY));
    assert!(FileFlags::from_bits(0x82).contains(FileFlags::MULTI_EXTENT));
    assert!(!FileFlags::from_bits(0x82).contains(FileFlags::EXISTENCE));
}

#[test]
fn standard_identifiers() {
    assert_eq!(&StandardIdentifier::Cd001.as_bytes(), b"CD001");
    assert_eq!(&StandardIdentifier::Bea01.as_bytes(), b"BEA01");
    assert_eq!(&StandardIdentifier::Nsr02.as_bytes(), b"NSR02");
    assert_eq!(&StandardIdentifier::Nsr03.as_bytes(), b"NSR03");
    assert_eq!(&StandardIdentifier::Boot2.as_bytes(), b"BOOT2");
    assert_eq!(&StandardIdentifier::Tea01.as_bytes(), b"TEA01");
    assert_eq!(StandardIdentifier::from_bytes(*b"TEA01"), StandardIdentifier::Tea01);
    assert_eq!(StandardIdentifier::from_bytes(*b"XYZ99"), StandardIdentifier::Other(*b"XYZ99"));
    assert_eq!(&StandardIdentifier::Other(*b"XYZ99").as_bytes(), b"XYZ99");
}

#[test]
fn character_fields_are_cut_or_padded() {
    let short: ACharacters<8> = ACharacters::from_bytes_truncated(b"AB");
    assert_eq!(&short.0, b"AB      ");
    let long: DCharacters<4> = DCharacters::from_bytes_truncated(b"ABCDEFG");
    assert_eq!(&long.0, b"ABCD");
    assert_eq!(short.first_invalid(), None);
    let bad: DCharacters<4> = DCharacters::from_bytes_truncated(b"A.B");
    assert_eq!(bad.first_invalid(), Some(1));
    let mut out = [0u8; 4];
    assert_eq!(
        bad.serialize(&mut out),
        Err(IsoSerializeError::BadCharacter { field: "DCharacters", offset: 1 })
    );
    let zero: ACharacters<4> = ACharacters([b'A', 0, b' ', b' ']);
    assert_eq!(zero.first_invalid(), Some(1));
}

#[test]
fn el_torito_validation_entry_sums_to_zero() {
    let mut id = [0u8; 24];
    id[..4].copy_from_slice(b"ACME");
    let entry = ElToritoValidationEntry::new(
        ElToritoHeaderId::Standard,
        ElToritoPlatformId::X86,
        ElToritoManufacturerId(id),
    );
    assert!(entry.checksum_ok());
    let mut buf = [0xEEu8; 32];
    assert_eq!(entry.serialize(&mut buf), Ok(32));
    assert_eq!(buf[0], 1);
    assert_eq!(buf[1], 0);
    assert_eq!(&buf[2..4], &[0, 0]);
    assert_eq!(&buf[4..8], b"ACME");
    assert_eq!(&buf[30..32], &[0x55, 0xAA]);
    let sum = buf
        .chunks(2)
        .fold(0u16, |acc, w| acc.wrapping_add(u16::from_le_bytes([w[0], w[1]])));
    assert_eq!(sum, 0);
    let mut wrong = entry;
    wrong.checksum = wrong.checksum.wrapping_add(1);
    assert!(!wrong.checksum_ok());
}

#[test]
fn el_torito_entries_have_32_bytes() {
    let initial = ElToritoInitialSectionEntry {
        boot_indicator: ElToritoBootIndicator::Bootable,
        boot_media_type: ElToritoBootMediaType(0),
        load_segment: 0x07C0,
        system_type: 0,
        sector_count: 4,
        virtual_disk_location: 0x00000020,
    };
    let mut buf = [0xEEu8; 32];
    assert_eq!(initial.serialize(&mut buf), Ok(32));
    assert_eq!(
        &buf[..12],
        &[0x88, 0, 0xC0, 0x07, 0, 0, 4, 0, 0x20, 0, 0, 0]
    );
    assert!(buf[12..].iter().all(|b| *b == 0));

    let header = ElToritoSectionHeaderEntry {
        header_indicator: ElToritoHeaderIndicator::FinalHeader,
        platform_id: ElToritoPlatformId::Mac,
        succeeding_section_entries: 0x0102,
        section_id: ElToritoSectionId([9u8; 16]),
    };
    let mut buf = [0xEEu8; 32];
    assert_eq!(header.serialize(&mut buf), Ok(32));
    assert_eq!(&buf[..4], &[91, 2, 2, 1]);
    assert_eq!(&buf[4..20], &[9u8; 16]);
    assert!(buf[20..].iter().all(|b| *b == 0));

    let media = ElToritoBootMediaTypeExt {
        emulation_type: ElToritoEmulationType::HardDisk,
        continuation_entry_follows: true,
        contains_atapi_driver: false,
        contains_scsi_drivers: true,
    };
    assert_eq!(media.to_u8(), 4 | 0x20 | 0x80);
    assert_eq!(ElToritoBootMediaTypeExt::from_u8(0xA4), Some(media));
    assert_eq!(ElToritoBootMediaTypeExt::from_u8(0x1F), None);
    let section = ElToritoSectionEntry {
        boot_indicator: ElToritoBootIndicator::NonBootable,
        boot_media_type: media,
        load_segment: 0,
        system_type: 0xEF,
        sector_count: 1,
        virtual_disk_location: 0x01020304,
        selection_criteria_type: ElToritoSelectionCriteriaType::LanguageAndVersionInformation,
        vendor_selection_criteria: [3u8; 19],
    };
    let mut buf = [0xEEu8; 32];
    assert_eq!(section.serialize(&mut buf), Ok(32));
    assert_eq!(&buf[..13], &[0, 0xA4, 0, 0, 0xEF, 0, 1, 0, 4, 3, 2, 1, 1]);
    assert_eq!(&buf[13..], &[3u8; 19]);

    let extension = ElToritoSectionEntryExtension {
        extension_record_follows_indicator: ElToritoExtensionRecordFollowsIndicator::from_bits(
            ElToritoExtensionRecordFollowsIndicator::EXTENSION_RECORD_FOLLOWS,
        ),
        vendor_unique_selection_criteria: [5u8; 30],
    };
    let mut buf = [0xEEu8; 32];
    assert_eq!(extension.serialize(&mut buf), Ok(32));
    assert_eq!(&buf[..2], &[44, 0x20]);
    assert_eq!(&buf[2..], &[5u8; 30]);
}

#[test]
fn little_and_big_endian_readers_differ() {
    let bytes = [0x12u8, 0x34, 0x56, 0x78];
    assert_eq!(get_u16_be(&bytes, 0), 0x1234);
    assert_eq!(get_u16_le(&bytes, 0), 0x3412);
    assert_eq!(get_u32_be(&bytes, 0), 0x12345678);
    assert_eq!(get_u32_le(&bytes, 0), 0x78563412);
}

#[test]
fn el_torito_entries_round_trip() {
    let mut id = [0u8; 24];
    id[..4].copy_from_slice(b"ACME");
    let validation = ElToritoValidationEntry::new(
        ElToritoHeaderId::Standard,
        ElToritoPlatformId::Other(0xEF),
        ElToritoManufacturerId(id),
    );
    let mut buf = [0xEEu8; 40];
    assert_eq!(validation.serialize(&mut buf), Ok(32));
    let (parsed, rest) = ElToritoValidationEntry::parse(&buf).unwrap();
    assert_eq!(parsed, validation);
    assert_eq!(rest, &[0xEEu8; 8]);
    assert!(parsed.checksum_ok());

    let initial = ElToritoInitialSectionEntry {
        boot_indicator: ElToritoBootIndicator::Bootable,
        boot_media_type: ElToritoBootMediaType(2),
        load_segment: 0x07C0,
        system_type: 6,
        sector_count: 4,
        virtual_disk_location: 0x01020304,
    };
    let mut buf = [0u8; 32];
    assert_eq!(initial.serialize(&mut buf), Ok(32));
    let (parsed, rest) = ElToritoInitialSectionEntry::parse(&buf).unwrap();
    assert_eq!(parsed, initial);
    assert!(rest.is_empty());

    let header = ElToritoSectionHeaderEntry {
        header_indicator: ElToritoHeaderIndicator::MoreHeadersFollow,
        platform_id: ElToritoPlatformId::PowerPc,
        succeeding_section_entries: 0x0102,
        section_id: ElToritoSectionId([9u8; 16]),
    };
    assert_eq!(header.serialize(&mut buf), Ok(32));
    assert_eq!(ElToritoSectionHeaderEntry::parse(&buf).unwrap().0, header);

    let section = ElToritoSectionEntry {
        boot_indicator: ElToritoBootIndicator::NonBootable,
        boot_media_type: ElToritoBootMediaTypeExt {
            emulation_type: ElToritoEmulationType::HardDisk,
            continuation_entry_follows: true,
            contains_atapi_driver: true,
            contains_scsi_drivers: false,
        },
        load_segment: 7,
        system_type: 0xEF,
        sector_count: 0x0203,
        virtual_disk_location: 0xA1B2C3D4,
        selection_criteria_type: ElToritoSelectionCriteriaType::LanguageAndVersionInformation,
        vendor_selection_criteria: [3u8; 19],
    };
    assert_eq!(section.serialize(&mut buf), Ok(32));
    assert_eq!(ElToritoSectionEntry::parse(&buf).unwrap().0, section);

    let extension = ElToritoSectionEntryExtension {
        extension_record_follows_indicator: ElToritoExtensionRecordFollowsIndicator::from_bits(
            ElToritoExtensionRecordFollowsIndicator::EXTENSION_RECORD_FOLLOWS,
        ),
        vendor_unique_selection_criteria: [5u8; 30],
    };
    assert_eq!(extension.serialize(&mut buf), Ok(32));
    assert_eq!(ElToritoSectionEntryExtension::parse(&buf).unwrap().0, extension);
}

#[test]
fn el_torito_parse_errors() {
    let short = [0u8; 31];
    let too_small = |when: &'static str| IsoParseError::InputTooSmall { expected: 32, got: 31, when };
    assert_eq!(
        ElToritoValidationEntry::parse(&short).err(),
        Some(too_small("ElToritoValidationEntry"))
    );
    assert_eq!(
        ElToritoInitialSectionEntry::parse(&short).err(),
        Some(too_small("ElToritoInitialSectionEntry"))
    );
    assert_eq!(
        ElToritoSectionHeaderEntry::parse(&short).err(),
        Some(too_small("ElToritoSectionHeaderEntry"))
    );
    assert_eq!(
        ElToritoSectionEntry::parse(&short).err(),
        Some(too_small("ElToritoSectionEntry"))
    );
    assert_eq!(
        ElToritoSectionEntryExtension::parse(&short).err(),
        Some(too_small("ElToritoSectionEntryExtension"))
    );
    let mut buf = [0u8; 32];
    buf[0] = 1;
    buf[30] = 0x55;
    buf[31] = 0xAB;
    assert_eq!(
        ElToritoValidationEntry::parse(&buf).err(),
        Some(IsoParseError::UnknownTag { at: 31, value: 0xAB })
    );
    buf[30] = 0x54;
    assert_eq!(
        ElToritoValidationEntry::parse(&buf).err(),
        Some(IsoParseError::UnknownTag { at: 30, value: 0x54 })
    );
    buf[0] = 92;
    assert_eq!(
        ElToritoSectionHeaderEntry::parse(&buf).err(),
        Some(IsoParseError::UnknownTag { at: 0, value: 92 })
    );
    buf[1] = 0x1F;
    assert_eq!(
        ElToritoSectionEntry::parse(&buf).err(),
        Some(IsoParseError::UnknownTag { at: 1, value: 0x1F })
    );
    assert_eq!(
        ElToritoSectionEntryExtension::parse(&buf).err(),
        Some(IsoParseError::UnknownTag { at: 0, value: 92 })
    );
}

fn sample_path_record() -> PathTableRecord<NoExtension> {
    let mut name = [0u8; 31];
    name[..3].copy_from_slice(b"BIN");
    PathTableRecord {
        directory_identifier_length: 3,
        extended_attribute_length: 0,
        extent_location: 0x01020304,
        parent_directory_number: 0x0506,
        directory_identifier: DirectoryIdentifier(name),
    }
}

#[test]
fn path_table_records_have_the_byte_order_of_their_table() {
    let record = sample_path_record();
    assert_eq!(record.extent(), 12);
    let mut buf = [0xEEu8; 14];
    assert_eq!(record.serialize(&mut buf, false), Ok(12));
    assert_eq!(&buf, &[3, 0, 4, 3, 2, 1, 6, 5, b'B', b'I', b'N', 0, 0xEE, 0xEE]);
    let (parsed, rest) = PathTableRecord::<NoExtension>::parse(&buf, false).unwrap();
    assert_eq!(parsed.directory_identifier_length, 3);
    assert_eq!(parsed.extent_location, 0x01020304);
    assert_eq!(parsed.parent_directory_number, 0x0506);
    assert_eq!(parsed.directory_identifier, record.directory_identifier);
    assert_eq!(rest, &[0xEE, 0xEE]);

    let mut buf = [0xEEu8; 14];
    assert_eq!(record.serialize(&mut buf, true), Ok(12));
    assert_eq!(&buf, &[3, 0, 1, 2, 3, 4, 5, 6, b'B', b'I', b'N', 0, 0xEE, 0xEE]);
    let (parsed, _) = PathTableRecord::<NoExtension>::parse(&buf, true).unwrap();
    assert_eq!(parsed.extent_location, 0x01020304);
    assert_eq!(parsed.parent_directory_number, 0x0506);
    let (swapped, _) = PathTableRecord::<NoExtension>::parse(&buf, false).unwrap();
    assert_eq!(swapped.extent_location, 0x04030201);
    assert_eq!(swapped.parent_directory_number, 0x0605);

    let mut even = sample_path_record();
    even.directory_identifier_length = 2;
    even.directory_identifier.0[2] = 0;
    assert_eq!(even.extent(), 10);
    let mut buf = [0xEEu8; 10];
    assert_eq!(even.serialize(&mut buf, false), Ok(10));
    assert_eq!(&buf[8..], b"BI");
}

#[test]
fn path_table_record_errors() {
    let record = sample_path_record();
    let mut short = [0xEEu8; 11];
    assert_eq!(
        record.serialize(&mut short, false),
        Err(IsoSerializeError::InputTooSmall { expected: 12, got: 11, when: "PathTableRecord" })
    );
    assert_eq!(short, [0xEEu8; 11]);
    let mut unnamed = sample_path_record();
    unnamed.directory_identifier_length = 0;
    let mut buf = [0u8; 64];
    assert_eq!(
        unnamed.serialize(&mut buf, true),
        Err(IsoSerializeError::BadCharacter { field: "directory_identifier_length", offset: 0 })
    );
    unnamed.directory_identifier_length = 32;
    assert_eq!(
        unnamed.serialize(&mut buf, true),
        Err(IsoSerializeError::BadCharacter { field: "directory_identifier_length", offset: 0 })
    );
    assert_eq!(
        PathTableRecord::<NoExtension>::parse(&[3u8; 7], false).err(),
        Some(IsoParseError::InputTooSmall { expected: 8, got: 7, when: "PathTableRecord" })
    );
    assert_eq!(
        PathTableRecord::<NoExtension>::parse(&[0u8; 12], false).err(),
        Some(IsoParseError::UnknownTag { at: 0, value: 0 })
    );
    assert_eq!(
        PathTableRecord::<NoExtension>::parse(&[3u8; 11], true).err(),
        Some(IsoParseError::InputTooSmall { expected: 12, got: 11, when: "PathTableRecord" })
    );
}
