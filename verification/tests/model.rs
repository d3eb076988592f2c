use isofs::directory::{Directory, DirectoryEntry, DirectoryEntryFlag};
use isofs::error::Error;
use isofs::file::File;
use isofs::parse::IsoParseError;
use isofs::serialize::IsoSerializeError;
use isofs::spec::{Identifier, JolietFileIdentifier};
use isofs::utils::{
    days_in_month, estimate_month_day, find_string_end, is_leap_year, parse_decimal, parse_iso_date, parse_iso_string, parse_recording_date,
    parse_u16_both, parse_u32_both, write_iso_date, write_iso_string, write_recording_date,
    write_u16_both, write_u32_both,
};
use isofs::volume::{PrimaryVolumeDescriptor, VolumeDescriptor};

#[test]
fn iso_strings_end_at_the_first_space_or_zero() {
    assert_eq!(parse_iso_string(b"HELLO   "), "HELLO");
    assert_eq!(parse_iso_string(b"MY VOL    "), "MY VOL");
    assert_eq!(parse_iso_string(b"HELLO WORLD"), "HELLO WORLD");
    assert_eq!(parse_iso_string(b"AB\0CD\0\0"), "AB\0CD");
    assert_eq!(parse_iso_string(b"AB \0 \0"), "AB");
    assert_eq!(parse_iso_string(b"FULL"), "FULL");
    assert_eq!(parse_iso_string(b""), "");
    assert_eq!(parse_iso_string(b"   "), "");
    assert_eq!(parse_iso_string(b" X"), " X");
    assert_eq!(parse_iso_string(&[b'A', 0xFF, b'B']), "A\u{FFFD}B");
    assert_eq!(find_string_end(b"AB CD"), 5);
    assert_eq!(find_string_end(b"AB CD  "), 5);
    assert_eq!(find_string_end(b"ABCD"), 4);
}

#[test]
fn lossy_texts() {
    assert_eq!(parse_iso_string("Grüße".as_bytes()), "Grüße");
    assert_eq!(parse_iso_string(&[0x80]), "\u{FFFD}");
    let mut units = [0u16; 64];
    units[0] = 0x0047;
    units[1] = 0x00FC;
    assert_eq!(JolietFileIdentifier(units).text(4), "Gü");
    units[0] = 0xD83D;
    units[1] = 0xDE00;
    assert_eq!(JolietFileIdentifier(units).text(4), "😀");
    units[1] = 0x0041;
    assert_eq!(JolietFileIdentifier(units).text(4), "\u{FFFD}A");
}

#[test]
fn iso_strings_are_cut_or_padded_with_spaces() {
    let mut buffer = [0u8; 8];
    write_iso_string(&mut buffer, "VOL");
    assert_eq!(&buffer, b"VOL     ");
    write_iso_string(&mut buffer, "MUCH_TOO_LONG");
    assert_eq!(&buffer, b"MUCH_TOO");
    write_iso_string(&mut buffer, "");
    assert_eq!(&buffer, b"        ");
}

#[test]
fn dual_endian_numbers() {
    let mut buffer = [0xEEu8; 5];
    assert_eq!(write_u16_both(&mut buffer, 0x1234), Ok(()));
    assert_eq!(buffer, [0x34, 0x12, 0x12, 0x34, 0xEE]);
    assert_eq!(parse_u16_both(&buffer), Ok(0x1234));
    assert_eq!(
        parse_u16_both(&buffer[..3]),
        Err(IsoParseError::InputTooSmall { expected: 4, got: 3, when: "u16_both" })
    );
    let mut short = [0xEEu8; 3];
    assert_eq!(
        write_u16_both(&mut short, 0x1234),
        Err(IsoSerializeError::InputTooSmall { expected: 4, got: 3, when: "u16_both" })
    );
    assert_eq!(short, [0xEE; 3]);
    let mut buffer = [0xEEu8; 9];
    assert_eq!(write_u32_both(&mut buffer, 0x01020304), Ok(()));
    assert_eq!(buffer, [4, 3, 2, 1, 1, 2, 3, 4, 0xEE]);
    assert_eq!(parse_u32_both(&buffer), Ok(0x01020304));
    assert_eq!(
        parse_u32_both(&buffer[..7]),
        Err(IsoParseError::InputTooSmall { expected: 8, got: 7, when: "u32_both" })
    );
    let mut short = [0xEEu8; 7];
    assert_eq!(
        write_u32_both(&mut short, 1),
        Err(IsoSerializeError::InputTooSmall { expected: 8, got: 7, when: "u32_both" })
    );
    assert_eq!(short, [0xEE; 7]);
}

#[test]
fn leap_years_and_months() {
    assert!(is_leap_year(2024));
    assert!(is_leap_year(2000));
    assert!(!is_leap_year(1900));
    assert!(!is_leap_year(2023));
    assert_eq!(days_in_month(2023, 1), 0);
    assert_eq!(days_in_month(2023, 2), 31);
    assert_eq!(days_in_month(2023, 3), 59);
    assert_eq!(days_in_month(2024, 3), 60);
    assert_eq!(days_in_month(2024, 2), 31);
    assert_eq!(days_in_month(2023, 12), 334);
    assert_eq!(days_in_month(2023, 13), 0);
    assert_eq!(estimate_month_day(0, false), (1, 1));
    assert_eq!(estimate_month_day(30, false), (1, 31));
    assert_eq!(estimate_month_day(31, false), (2, 1));
    assert_eq!(estimate_month_day(59, false), (3, 1));
    assert_eq!(estimate_month_day(59, true), (2, 29));
    assert_eq!(estimate_month_day(364, false), (12, 31));
    assert_eq!(estimate_month_day(365, true), (12, 31));
    assert_eq!(estimate_month_day(365, false), (12, 31));
    assert_eq!(estimate_month_day(4000, false), (12, 31));
}

#[test]
fn recording_dates() {
    assert_eq!(parse_recording_date(&[70, 1, 1, 0, 0, 0, 0]), Some(0));
    assert_eq!(parse_recording_date(&[70, 1, 2, 3, 4, 5, 0]), Some(86400 + 3 * 3600 + 4 * 60 + 5));
    assert_eq!(parse_recording_date(&[71, 1, 1, 0, 0, 0, 0]), Some(365 * 86400));
    assert_eq!(parse_recording_date(&[73, 3, 1, 0, 0, 0, 0]), Some((3 * 365 + 1 + 59) * 86400));
    assert_eq!(parse_recording_date(&[69, 12, 31, 0, 0, 0, 0]), None);
    assert_eq!(parse_recording_date(&[70, 1, 0, 0, 0, 0, 0]), None);
    assert_eq!(parse_recording_date(&[70, 1, 1, 0, 0, 0]), None);
    let mut buffer = [0xEEu8; 8];
    write_recording_date(&mut buffer, 86400 + 3 * 3600 + 4 * 60 + 5);
    assert_eq!(buffer, [70, 1, 2, 3, 4, 5, 0, 0xEE]);
    write_recording_date(&mut buffer, (365 + 31) * 86400);
    assert_eq!(buffer, [71, 2, 1, 0, 0, 0, 0, 0xEE]);
    let mut short = [0xEEu8; 6];
    write_recording_date(&mut short, 0);
    assert_eq!(short, [0xEE; 6]);
    write_recording_date(&mut buffer, 1_704_164_645);
    assert_eq!(buffer, [124, 1, 2, 3, 4, 5, 0, 0xEE]);
    assert_eq!(parse_recording_date(&buffer), Some(1_704_164_645));
    for time in [0u64, 59, 86_399, 86_400, 68_169_600, 68_256_000, 951_782_400, 951_868_800, 4_102_444_799] {
        write_recording_date(&mut buffer, time);
        assert_eq!(parse_recording_date(&buffer), Some(time));
    }
    write_recording_date(&mut buffer, 951_782_400);
    assert_eq!(&buffer[..3], &[100, 2, 29]);
    write_recording_date(&mut buffer, 68_169_600);
    assert_eq!(&buffer[..3], &[72, 2, 29]);
    write_recording_date(&mut buffer, 1_735_689_599);
    assert_eq!(&buffer[..6], &[124, 12, 31, 23, 59, 59]);
    write_recording_date(&mut buffer, 1_735_689_600);
    assert_eq!(&buffer[..6], &[125, 1, 1, 0, 0, 0]);
    write_recording_date(&mut buffer, 400 * 365 * 86400);
    assert_eq!(buffer[0], ((2369 - 1900) % 256) as u8);
}

#[test]
fn precise_dates() {
    assert_eq!(parse_iso_date(b"1970010100000000\0"), Some(0));
    assert_eq!(parse_iso_date(b"1970010203040599"), Some(86400 + 3 * 3600 + 4 * 60 + 5));
    assert_eq!(parse_iso_date(b"+97101010000+100"), None);
    assert_eq!(parse_iso_date(b"19700101000000"), None);
    assert_eq!(parse_iso_date(b"1970010100000000\xF0"), None);
    assert_eq!(parse_iso_date(b"1970-10100000000\0"), None);
    assert_eq!(parse_iso_date(b"19700101000000+5\0"), Some(0));
    assert_eq!(parse_iso_date(b"197001010000000+\0"), None);
    assert_eq!(parse_iso_date(b"1969123123595900\0"), None);
    assert_eq!(parse_decimal(b"+12", 0, 3), Some(12));
    assert_eq!(parse_decimal(b"0042", 0, 4), Some(42));
    assert_eq!(parse_decimal(b"+", 0, 1), None);
    assert_eq!(parse_decimal(b"1 ", 0, 2), None);
    assert_eq!(parse_decimal(b"", 0, 0), None);
    let mut buffer = [0xEEu8; 18];
    write_iso_date(&mut buffer, 86400 + 3 * 3600 + 4 * 60 + 5);
    assert_eq!(&buffer[..17], b"1970010203040500\0");
    assert_eq!(buffer[17], 0xEE);
    write_iso_date(&mut buffer, 1_704_164_645);
    assert_eq!(&buffer[..17], b"2024010203040500\0");
    assert_eq!(parse_iso_date(&buffer[..17]), Some(1_704_164_645));
    for time in [0u64, 86_399, 68_169_600, 951_782_400, 951_868_800, 4_102_444_799] {
        write_iso_date(&mut buffer, time);
        assert_eq!(parse_iso_date(&buffer[..17]), Some(time));
    }
    write_iso_date(&mut buffer, 86400 + 3 * 3600 + 4 * 60 + 5);
    let mut short = [0xEEu8; 16];
    write_iso_date(&mut short, 0);
    assert_eq!(short, [0xEE; 16]);
    write_iso_date(&mut buffer, 9000 * 365 * 86400);
    assert_eq!(&buffer[..17], b"1970010203040500\0");
    write_iso_date(&mut buffer, 2_932_956 * 86400);
    assert_eq!(&buffer[..8], b"99991231");
}

#[test]
fn files_hold_what_they_are_given() {
    let mut file = File::new("a.txt", vec![1, 2, 3]);
    assert_eq!(file.name(), "a.txt");
    assert_eq!(file.content(), &[1, 2, 3]);
    assert_eq!(file.sector_location(), None);
    assert_eq!(file.size(), Some(3));
    assert_eq!(file.creation_time(), file.modification_time());
    assert!(file.creation_time() > 1_700_000_000);
    file.set_size(10);
    assert_eq!(file.size(), Some(10));
    file.set_content(vec![9; 7]);
    assert_eq!(file.size(), Some(7));
    assert_eq!(file.content(), &[9; 7]);
    file.content_mut().push(8);
    assert_eq!(file.content().len(), 8);
    assert_eq!(file.size(), Some(7));
    file.set_name("b.txt".to_string());
    assert_eq!(file.name(), "b.txt");
    file.set_sector_location(40);
    assert_eq!(file.sector_location(), Some(40));
    file.set_creation_time(5);
    file.set_modification_time(6);
    assert_eq!(file.creation_time(), 5);
    assert_eq!(file.modification_time(), 6);
    let dated = File::new_at("c", vec![], 77);
    assert_eq!(dated.creation_time(), 77);
    assert_eq!(dated.modification_time(), 77);
    assert_eq!(dated.size(), Some(0));
}

#[test]
fn entries_are_read_and_written() {
    let mut entry = DirectoryEntry::new_file("readme.txt", 19, 5);
    entry.set_recording_time(86400);
    assert_eq!(entry.iso_file_identifier(), b"README.TXT;1");
    assert_eq!(entry.record_size(), 46);
    assert!(!entry.is_directory());
    let mut buffer = [0xEEu8; 48];
    assert!(entry.write_to_buffer(&mut buffer).is_ok());
    assert_eq!(buffer[0], 46);
    assert_eq!(buffer[1], 0);
    assert_eq!(&buffer[2..10], &[19, 0, 0, 0, 0, 0, 0, 19]);
    assert_eq!(&buffer[10..18], &[5, 0, 0, 0, 0, 0, 0, 5]);
    assert_eq!(&buffer[18..25], &[70, 1, 2, 0, 0, 0, 0]);
    assert_eq!(buffer[25], 0);
    assert_eq!(&buffer[26..28], &[0, 0]);
    assert_eq!(&buffer[28..32], &[1, 0, 0, 1]);
    assert_eq!(buffer[32], 12);
    assert_eq!(&buffer[33..45], b"README.TXT;1");
    assert_eq!(buffer[45], 0);
    assert_eq!(&buffer[46..], &[0xEE, 0xEE]);
    let parsed = DirectoryEntry::parse_from_buffer(&buffer).unwrap();
    assert_eq!(parsed.name(), "README.TXT");
    assert_eq!(parsed.flags(), 0);
    assert_eq!(parsed.extent_location(), 19);
    assert_eq!(parsed.extent_size(), 5);
    assert_eq!(parsed.recording_time(), 86400);
    let mut small = [0xEEu8; 45];
    assert!(matches!(entry.write_to_buffer(&mut small), Err(Error::InvalidFormat(_))));
    assert_eq!(small, [0xEE; 45]);
    let long = DirectoryEntry::new_directory(&"d".repeat(222), 0, 0);
    let mut big = [0xEEu8; 300];
    assert!(matches!(long.write_to_buffer(&mut big), Err(Error::PathError(_))));
    let fits = DirectoryEntry::new_directory(&"d".repeat(221), 0, 0);
    assert!(fits.write_to_buffer(&mut big).is_ok());
    assert_eq!(big[0], 254);
}

#[test]
fn entries_of_directories() {
    let mut dot = DirectoryEntry::new_directory(".", 20, 68);
    assert_eq!(dot.iso_file_identifier(), vec![0]);
    assert_eq!(dot.record_size(), 34);
    assert!(dot.is_directory());
    assert_eq!(dot.flags(), DirectoryEntryFlag::Directory.bit());
    let dotdot = DirectoryEntry::new_directory("..", 20, 0);
    assert_eq!(dotdot.iso_file_identifier(), vec![1]);
    let file_dot = DirectoryEntry::new_file(".", 0, 0);
    assert_eq!(file_dot.iso_file_identifier(), b".;1");
    let mut buffer = [0u8; 34];
    assert!(dot.write_to_buffer(&mut buffer).is_ok());
    assert_eq!(DirectoryEntry::parse_from_buffer(&buffer).unwrap().name(), ".");
    assert!(dotdot.write_to_buffer(&mut buffer).is_ok());
    assert_eq!(DirectoryEntry::parse_from_buffer(&buffer).unwrap().name(), "..");
    buffer[33] = 207;
    assert_eq!(DirectoryEntry::parse_from_buffer(&buffer).unwrap().name(), "UNKNOWN_207");
    buffer[33] = 45;
    assert_eq!(DirectoryEntry::parse_from_buffer(&buffer).unwrap().name(), "UNKNOWN_45");
    buffer[33] = 7;
    assert_eq!(DirectoryEntry::parse_from_buffer(&buffer).unwrap().name(), "UNKNOWN_7");
    buffer[25] = 0;
    assert_eq!(DirectoryEntry::parse_from_buffer(&buffer).unwrap().name(), "\u{7}");
    dot.set_flags(0x82);
    dot.set_extent_location(7);
    dot.set_extent_size(9);
    assert_eq!((dot.flags(), dot.extent_location(), dot.extent_size()), (0x82, 7, 9));
    assert_eq!(DirectoryEntryFlag::Hidden.bit(), 1);
    assert_eq!(DirectoryEntryFlag::MultiExtent.bit(), 0x80);
}

#[test]
fn records_that_are_none() {
    assert!(DirectoryEntry::parse_from_buffer(&[0u8; 40]).is_none());
    assert!(DirectoryEntry::parse_from_buffer(&[34u8; 32]).is_none());
    let mut buffer = [0u8; 34];
    buffer[0] = 32;
    assert!(DirectoryEntry::parse_from_buffer(&buffer).is_none());
    buffer[0] = 35;
    assert!(DirectoryEntry::parse_from_buffer(&buffer).is_none());
    buffer[0] = 34;
    buffer[32] = 2;
    assert!(DirectoryEntry::parse_from_buffer(&buffer).is_none());
    buffer[32] = 1;
    buffer[33] = b'X';
    let entry = DirectoryEntry::parse_from_buffer(&buffer).unwrap();
    assert_eq!(entry.name(), "X");
    assert_eq!(entry.recording_time(), 0);
}

#[test]
fn directories_keep_their_names_apart() {
    let mut dir = Directory::new("ROOT");
    assert_eq!(dir.name(), "ROOT");
    assert!(dir.add_directory("a".to_string()).is_ok());
    assert!(dir.add_directory("b".to_string()).is_ok());
    assert!(matches!(dir.add_directory("a".to_string()), Err(Error::PathError(_))));
    assert!(dir.add_file("a".to_string(), b"file a").is_ok());
    assert!(dir.add_file("f".to_string(), b"file f").is_ok());
    assert!(matches!(dir.add_file("f".to_string(), b"again"), Err(Error::PathError(_))));
    assert_eq!(dir.directories().len(), 2);
    assert_eq!(dir.files().len(), 2);
    assert_eq!(dir.find_directory("b").unwrap().name(), "b");
    assert!(dir.find_directory("f").is_none());
    assert_eq!(dir.find_file("f").unwrap().content(), b"file f");
    assert!(dir.find_file("b").is_none());
    dir.find_file_mut("f").unwrap().set_content(b"changed".to_vec());
    assert_eq!(dir.find_file("f").unwrap().content(), b"changed");
    dir.find_directory_mut("b").unwrap().add_file("in".to_string(), b"x").unwrap();
    assert_eq!(dir.find_directory("b").unwrap().files().len(), 1);
    assert!(dir.find_directory_mut("zz").is_none());
    assert_eq!(dir.remove_directory("a").unwrap().name(), "a");
    assert!(dir.remove_directory("a").is_none());
    assert_eq!(dir.directories().len(), 1);
    assert_eq!(dir.remove_file("a").unwrap().content(), b"file a");
    assert!(dir.remove_file("nope").is_none());
    dir.directories_mut().clear();
    dir.files_mut().clear();
    assert!(dir.directories().is_empty() && dir.files().is_empty());
    dir.set_name("NEW".to_string());
    assert_eq!(dir.name(), "NEW");
}

#[test]
fn directories_know_their_size() {
    let mut dir = Directory::new("ROOT");
    assert_eq!(dir.calculate_size(), 68);
    dir.add_directory("sub".to_string()).unwrap();
    dir.add_file("a.txt".to_string(), b"").unwrap();
    assert_eq!(dir.calculate_size(), 68 + 36 + 40);
    assert_eq!(dir.size(), None);
    assert_eq!(dir.sector_location(), None);
    let entry = dir.to_entry();
    assert_eq!(entry.name(), "ROOT");
    assert!(entry.is_directory());
    assert_eq!(entry.extent_location(), 0);
    assert_eq!(entry.extent_size(), 144);
    dir.set_size(2048);
    dir.set_sector_location(20);
    assert_eq!(dir.size(), Some(2048));
    assert_eq!(dir.sector_location(), Some(20));
    let entry = dir.to_entry();
    assert_eq!(entry.extent_location(), 20);
    assert_eq!(entry.extent_size(), 2048);
}

#[test]
fn error_messages() {
    assert_eq!(
        Error::PathError("File already exists".to_string()).message(),
        "Path error: File already exists"
    );
    assert_eq!(Error::InvalidFormat("x".to_string()).message(), "Invalid ISO format: x");
    assert_eq!(Error::SizeLimit("y".to_string()).message(), "Size limit exceeded: y");
    assert_eq!(Error::ValidationError("v".to_string()).message(), "Validation error: v");
    assert_eq!(Error::UdfError("u".to_string()).message(), "UDF error: u");
    assert_eq!(Error::JolietError("j".to_string()).message(), "Joliet error: j");
    assert_eq!(Error::RockRidgeError("r".to_string()).message(), "Rock Ridge error: r");
    assert_eq!(Error::ElToritoError("e".to_string()).message(), "El Torito error: e");
}

#[test]
fn volume_descriptors_of_the_model() {
    let mut root = Directory::new("ROOT");
    root.set_sector_location(21);
    let mut descriptor = PrimaryVolumeDescriptor::new("my_disk", "pub", "prep", "app", &root);
    assert_eq!(descriptor.volume_id(), "my_disk");
    assert_eq!(descriptor.block_size(), 2048);
    assert_eq!(descriptor.root_directory_entry().name(), "ROOT");
    assert_eq!(descriptor.root_directory_entry().extent_location(), 0);
    descriptor.update_with_directory(&root);
    assert_eq!(descriptor.root_directory_entry().extent_location(), 21);
    assert_eq!(descriptor.root_directory_entry().extent_size(), 68);
    descriptor.set_creation_time(86400);
    descriptor.set_modification_time(2 * 86400);
    descriptor.root_directory_entry_mut().set_recording_time(0);
    let mut image = vec![0xEEu8; 10];
    assert!(descriptor.write_to(&mut image).is_ok());
    assert_eq!(image.len(), 17 * 2048);
    assert_eq!(&image[..10], &[0xEE; 10]);
    assert!(image[10..16 * 2048].iter().all(|b| *b == 0));
    let sector = &image[16 * 2048..];
    assert_eq!(sector[0], 1);
    assert_eq!(&sector[1..6], b"CD001");
    assert_eq!(sector[6], 1);
    assert_eq!(&sector[8..21], b"ISOPOD_SYSTEM");
    assert_eq!(&sector[40..48], b"MY_DISK ");
    assert_eq!(&sector[80..88], &[20, 0, 0, 0, 0, 0, 0, 20]);
    assert_eq!(&sector[128..132], &[0, 8, 8, 0]);
    assert_eq!(&sector[140..144], &[20, 0, 0, 0]);
    assert_eq!(sector[156], 38);
    assert_eq!(&sector[158..162], &[21, 0, 0, 0]);
    assert_eq!(&sector[189..190], b"R");
    assert_eq!(&sector[318..322], b"pub ");
    assert_eq!(&sector[446..451], b"prep ");
    assert_eq!(&sector[574..578], b"app ");
    assert_eq!(&sector[813..830], b"1970010200000000\0");
    assert_eq!(&sector[830..847], b"1970010300000000\0");
    assert_eq!(sector[881], 1);
    let parsed = PrimaryVolumeDescriptor::parse_from_buffer_at(&image, 5).unwrap();
    assert_eq!(parsed.volume_id(), "MY_DISK");
    assert_eq!(parsed.publisher_id(), "pub");
    assert_eq!(parsed.preparer_id(), "prep");
    assert_eq!(parsed.application_id(), "app");
    assert_eq!(parsed.creation_time(), 86400);
    assert_eq!(parsed.modification_time(), 2 * 86400);
    assert_eq!(parsed.volume_space_size(), 20);
    assert_eq!(parsed.block_size(), 2048);
    assert_eq!(parsed.root_directory_entry().name(), "ROOT");
    assert!(PrimaryVolumeDescriptor::parse_from_buffer(&image).is_some());
    assert!(PrimaryVolumeDescriptor::parse_from_buffer(&image[..16 * 2048 + 2047]).is_none());
    descriptor.set_volume_id("other".to_string());
    descriptor.set_publisher_id("second publisher".to_string());
    descriptor.set_preparer_id("second preparer".to_string());
    descriptor.set_application_id("second application".to_string());
    descriptor.set_volume_space_size(99);
    assert_eq!(descriptor.volume_id(), "other");
    assert_eq!(descriptor.publisher_id(), "second publisher");
    assert_eq!(descriptor.preparer_id(), "second preparer");
    assert_eq!(descriptor.application_id(), "second application");
    assert_eq!(descriptor.volume_space_size(), 99);
    assert_eq!(descriptor.creation_time(), 86400);
    assert_eq!(descriptor.modification_time(), 2 * 86400);
    let long_root = Directory::new("LONGNAME");
    descriptor.update_with_directory(&long_root);
    let before = image.clone();
    assert!(descriptor.write_to(&mut image).is_err());
    assert_eq!(image, before);
}
