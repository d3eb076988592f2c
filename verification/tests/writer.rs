use isofs::parse::IsoParse;
use isofs::reader::{DirectoryEntryRef, DirectoryRef, Error as ReadError, Extensions, Iso};
use isofs::serialize::IsoSerializeError;
use isofs::spec::{
    DirectoryRecord, ElToritoBootIndicator, ElToritoBootMediaType, ElToritoHeaderId,
    ElToritoInitialSectionEntry, ElToritoManufacturerId, ElToritoPlatformId,
    ElToritoValidationEntry, NoExtension, PrimaryVolumeDescriptor,
};
use isofs::writer::entry::{DirectoryLike, EntryLike};
use isofs::writer::error::Error;
use isofs::writer::fs::{
    merge_into, split_path, upsert_into, DirectoryEntry, Entry, FileEntry, Filesystem,
};
use isofs::writer::layout::{make_identifier, to_iso_byte};
use isofs::writer::lba::LbaAllocator;
use isofs::writer::sector::{write_at, SectorWriter};
use isofs::writer::metadata::WriterMetadata;
use isofs::writer::volume::{BootCatalog, BootVolume, PrimaryVolume, Timestamp, Volume};
use isofs::writer::{IsoWriter, Standard, WriterOptions};

fn writing_moment() -> Timestamp {
    Timestamp {
        year: 2024,
        month: 5,
        day: 6,
        hour: 7,
        minute: 8,
        second: 9,
        millisecond: 0,
        unix_seconds: 1714979289,
    }
}

fn writer_with(volume: PrimaryVolume) -> IsoWriter {
    let mut writer = IsoWriter::new(WriterOptions { sector_size: 2048, standard: Standard::Iso9660, metadata: WriterMetadata::new() });
    writer.add_volume(Volume::Primary(volume));
    writer
}

fn names_in(directory: &DirectoryRef<NoExtension>, image: &mut Vec<u8>) -> Vec<(String, bool)> {
    let mut walk = directory.entries();
    let mut names = Vec::new();
    loop {
        match walk.next(image) {
            None => break,
            Some(Ok(DirectoryEntryRef::File(file))) => names.push((file.identifier(), false)),
            Some(Ok(DirectoryEntryRef::Directory(dir))) => names.push((dir.name(), true)),
            Some(Err(e)) => panic!("walk failed: {:?}", error_text(e)),
        }
    }
    names
}

fn error_text(e: ReadError<()>) -> String {
    match e {
        ReadError::Parse(p) => format!("{:?}", p),
        ReadError::Read(()) => "read".to_string(),
    }
}

fn child_directory(
    directory: &DirectoryRef<NoExtension>,
    image: &mut Vec<u8>,
    name: &str,
) -> DirectoryRef<NoExtension> {
    let mut walk = directory.entries();
    loop {
        match walk.next(image) {
            Some(Ok(DirectoryEntryRef::Directory(dir))) => {
                if dir.name() == name {
                    return dir;
                }
            }
            Some(Ok(_)) => {}
            _ => panic!("no directory {}", name),
        }
    }
}

#[test]
fn allocator_hands_out_rising_extents() {
    let mut allocator = LbaAllocator::new(2048, 18);
    assert_eq!(allocator.allocate(5), Ok(18));
    assert_eq!(allocator.allocate(0), Ok(19));
    assert_eq!(allocator.allocate(2048), Ok(19));
    assert_eq!(allocator.allocate(2049), Ok(20));
    assert_eq!(allocator.allocate(1), Ok(22));
    assert_eq!(allocator.next_lba(), 23);
    assert_eq!(allocator.allocate_sectors(7), Ok(23));
    assert_eq!(allocator.next_lba(), 30);
    assert_eq!(allocator.sector_size(), 2048);
}

#[test]
fn allocator_is_monotonic() {
    let sizes = [1u32, 4096, 0, 2047, 2049, 10000];
    let mut allocator = LbaAllocator::new(512, 16);
    let mut previous: Option<(u32, u32)> = None;
    for size in sizes {
        let lba = allocator.allocate(size).unwrap();
        if let Some((lba1, size1)) = previous {
            assert!(lba >= lba1 + (size1 + 511) / 512);
        }
        previous = Some((lba, size));
    }
}

#[test]
fn allocator_can_be_exhausted() {
    let mut allocator = LbaAllocator::new(2048, u32::MAX - 1);
    assert_eq!(allocator.allocate(2048), Ok(u32::MAX - 1));
    assert_eq!(allocator.allocate(1), Err(Error::AllocatorExhausted));
    assert_eq!(allocator.next_lba(), u32::MAX);
    assert_eq!(allocator.allocate(0), Ok(u32::MAX));
}

#[test]
fn sector_writer_keeps_records_in_their_sector() {
    let mut writer = SectorWriter::new(Vec::new(), 1, 16);
    assert_eq!(writer.write_aligned(&[1u8; 10]), Ok(10));
    assert_eq!(writer.sector_ix(), 1);
    assert_eq!(writer.bytes_offset(), 10);
    assert_eq!(writer.write_aligned(&[2u8; 6]), Ok(6));
    assert_eq!(writer.bytes_offset(), 16);
    assert_eq!(writer.write_aligned(&[3u8; 12]), Ok(12));
    assert_eq!(writer.sector_ix(), 2);
    assert_eq!(writer.write_aligned(&[4u8; 5]), Ok(5));
    assert_eq!(writer.sector_ix(), 3);
    assert_eq!(writer.bytes_offset(), 5);
    assert_eq!(writer.write_aligned(&[5u8; 17]), Err(Error::SectorTooSmall));
    let image = writer.into_inner();
    let mut expected = vec![0u8; 16];
    expected.extend_from_slice(&[1u8; 10]);
    expected.extend_from_slice(&[2u8; 6]);
    expected.extend_from_slice(&[3u8; 12]);
    expected.extend_from_slice(&[0u8; 4]);
    expected.extend_from_slice(&[4u8; 5]);
    assert_eq!(image, expected);
}

#[test]
fn writing_past_the_end_fills_with_zeros() {
    let mut storage = vec![9u8; 3];
    write_at(&mut storage, 5, &[1, 2]);
    assert_eq!(storage, vec![9, 9, 9, 0, 0, 1, 2]);
    write_at(&mut storage, 1, &[7, 7]);
    assert_eq!(storage, vec![9, 7, 7, 0, 0, 1, 2]);
    write_at(&mut storage, 6, &[3, 4]);
    assert_eq!(storage, vec![9, 7, 7, 0, 0, 1, 3, 4]);
}

#[test]
fn paths_fall_into_components() {
    assert_eq!(split_path("a/b/c.txt"), vec!["a", "b", "c.txt"]);
    assert_eq!(split_path("/a//b/./c/"), vec!["a", "b", "c"]);
    assert_eq!(split_path("README.TXT"), vec!["README.TXT"]);
    assert_eq!(split_path("a/../b"), vec!["a", "..", "b"]);
    assert!(split_path("").is_empty());
    assert!(split_path("/./").is_empty());
    assert_eq!(split_path("ä/ö"), vec!["ä", "ö"]);
}

#[test]
fn upsert_file_makes_the_directories_on_the_way() {
    let mut fs = Filesystem::new();
    assert_eq!(fs.upsert_file("a/b/c.txt", b"one".to_vec()), Ok(()));
    assert_eq!(fs.root.entries.len(), 1);
    let a = match &fs.root.entries[0] {
        Entry::Directory(d) => d,
        _ => panic!("a is no directory"),
    };
    assert_eq!(a.name, "a");
    assert_eq!(a.entries.len(), 1);
    let b = match &a.entries[0] {
        Entry::Directory(d) => d,
        _ => panic!("b is no directory"),
    };
    assert_eq!(b.name, "b");
    match &b.entries[0] {
        Entry::File(f) => {
            assert_eq!(f.name, "c.txt");
            assert_eq!(f.content, b"one");
            assert_eq!(f.extent_lba, None);
        }
        _ => panic!("c.txt is no file"),
    }
}

#[test]
fn upsert_is_idempotent() {
    let mut once = Filesystem::new();
    once.upsert_file("x/keep.txt", b"k".to_vec()).unwrap();
    once.upsert_file("a/b/c.txt", b"one".to_vec()).unwrap();
    let mut twice = Filesystem::new();
    twice.upsert_file("x/keep.txt", b"k".to_vec()).unwrap();
    twice.upsert_file("a/b/c.txt", b"one".to_vec()).unwrap();
    twice.upsert_file("a/b/c.txt", b"one".to_vec()).unwrap();
    assert_eq!(once, twice);
}

#[test]
fn upsert_replaces_files_and_merges_directories() {
    let mut fs = Filesystem::new();
    fs.upsert_file("d/one", b"1".to_vec()).unwrap();
    fs.upsert_file("top", b"t".to_vec()).unwrap();
    fs.upsert_file("d/two", b"2".to_vec()).unwrap();
    fs.upsert_file("d/one", b"new".to_vec()).unwrap();
    assert_eq!(fs.root.entries.len(), 2);
    let d = match &fs.root.entries[0] {
        Entry::Directory(d) => d,
        _ => panic!("d is no directory"),
    };
    assert_eq!(d.entries.len(), 2);
    assert_eq!(d.entries[0], Entry::File(FileEntry::new("one".to_string(), b"new".to_vec())));
    assert_eq!(d.entries[1], Entry::File(FileEntry::new("two".to_string(), b"2".to_vec())));
    assert_eq!(fs.root.entries[1].name(), "top");
}

#[test]
fn a_file_and_a_directory_of_one_name_stand_side_by_side() {
    let mut entries = vec![Entry::Directory(DirectoryEntry::new("a".to_string(), vec![]))];
    upsert_into(&mut entries, Entry::File(FileEntry::new("a".to_string(), vec![1])));
    upsert_into(&mut entries, Entry::File(FileEntry::new("a".to_string(), vec![2])));
    assert_eq!(entries.len(), 2);
    assert_eq!(entries[1], Entry::File(FileEntry::new("a".to_string(), vec![2])));
    merge_into(
        &mut entries,
        vec![
            Entry::Directory(DirectoryEntry::new(
                "a".to_string(),
                vec![Entry::File(FileEntry::new("in".to_string(), vec![3]))],
            )),
            Entry::File(FileEntry::new("b".to_string(), vec![4])),
        ],
    );
    assert_eq!(entries.len(), 3);
    match &entries[0] {
        Entry::Directory(d) => assert_eq!(d.entries.len(), 1),
        _ => panic!("a is no directory"),
    }
}

#[test]
fn upsert_refuses_bad_paths() {
    let mut fs = Filesystem::new();
    assert_eq!(fs.upsert_file("", vec![]), Err(Error::EmptyPath));
    assert_eq!(fs.upsert_file("//./", vec![]), Err(Error::EmptyPath));
    assert_eq!(fs.upsert_file("a/..", vec![]), Err(Error::MissingFileName));
    let long_file = "F".repeat(31);
    assert_eq!(
        fs.upsert_file(&long_file, vec![]),
        Err(Error::Serialize(IsoSerializeError::InputTooSmall {
            expected: 31,
            got: 30,
            when: "file_identifier"
        }))
    );
    let long_dir = format!("ok/{}/f", "D".repeat(32));
    assert_eq!(
        fs.upsert_file(&long_dir, vec![]),
        Err(Error::Serialize(IsoSerializeError::InputTooSmall {
            expected: 32,
            got: 31,
            when: "directory_identifier"
        }))
    );
    assert_eq!(fs, Filesystem::new());
    assert_eq!(fs.upsert_file(&"F".repeat(30), vec![]), Ok(()));
    assert_eq!(fs.upsert_file(&format!("{}/f", "D".repeat(31)), vec![]), Ok(()));
}

#[test]
fn identifiers_are_folded_to_upper_case() {
    assert_eq!(to_iso_byte('a'), b'A');
    assert_eq!(to_iso_byte('Z'), b'Z');
    assert_eq!(to_iso_byte('7'), b'7');
    assert_eq!(to_iso_byte('.'), b'.');
    assert_eq!(to_iso_byte('_'), b'_');
    assert_eq!(to_iso_byte('-'), b'_');
    assert_eq!(to_iso_byte('é'), b'_');
    let (id, len) = make_identifier("Readme.txt", true);
    assert_eq!(len, 12);
    assert_eq!(&id.0[..12], b"README.TXT;1");
    assert!(id.0[12..].iter().all(|b| *b == 0));
    let (id, len) = make_identifier("docs", false);
    assert_eq!(len, 4);
    assert_eq!(&id.0[..4], b"DOCS");
}

#[test]
fn minimal_image() {
    let mut writer = writer_with(PrimaryVolume::new("VOL".to_string()));
    let mut image = vec![1u8, 2, 3];
    assert_eq!(writer.write_dated(&mut image, writing_moment()), Ok(()));
    assert_eq!(image.len(), 18 * 2048);
    assert!(image[..16 * 2048].iter().all(|b| *b == 0));
    let pvd = &image[16 * 2048..17 * 2048];
    assert_eq!(pvd[0], 1);
    assert_eq!(&pvd[1..6], b"CD001");
    assert_eq!(&pvd[40..43], b"VOL");
    let terminator = &image[17 * 2048..18 * 2048];
    assert_eq!(terminator[0], 255);
    assert_eq!(&terminator[1..6], b"CD001");
    assert_eq!(terminator[6], 1);
    assert!(terminator[7..].iter().all(|b| *b == 0));
    let (parsed, _) = PrimaryVolumeDescriptor::parse(pvd).unwrap();
    assert_eq!(parsed.volume_space_size, 18);
    assert_eq!(parsed.logical_block_size, 2048);
    assert_eq!(parsed.root_directory_record.extent_location, 18);
    assert_eq!(parsed.root_directory_record.data_length, 0);
    assert_eq!(&pvd[813..829], b"2024050607080900");
}

#[test]
fn single_file_image() {
    let mut volume = PrimaryVolume::new("VOL".to_string());
    volume.filesystem.upsert_file("README.TXT", b"Hello".to_vec()).unwrap();
    let mut writer = writer_with(volume);
    let mut image = Vec::new();
    assert_eq!(writer.write_dated(&mut image, writing_moment()), Ok(()));
    assert_eq!(image.len(), 20 * 2048);
    let (pvd, _) = PrimaryVolumeDescriptor::parse(&image[16 * 2048..]).unwrap();
    let root = pvd.root_directory_record;
    assert_eq!(root.extent_location, 18);
    assert_eq!(root.data_length, 46);
    let at = root.extent_location as usize * 2048;
    let (record, _) = DirectoryRecord::<NoExtension>::parse(&image[at..]).unwrap();
    assert_eq!(record.length, 46);
    assert_eq!(record.file_identifier_length, 12);
    assert_eq!(&record.file_identifier.0[..12], b"README.TXT;1");
    assert_eq!(record.data_length, 5);
    assert_eq!(record.extent_location, 19);
    assert!(!record.file_flags.is_directory());
    let content = record.extent_location as usize * 2048;
    assert_eq!(&image[content..content + 5], b"Hello");
    assert!(image[content + 5..].iter().all(|b| *b == 0));
    assert!(image[at + 46..content].iter().all(|b| *b == 0));
    match &writer.volumes()[0] {
        Volume::Primary(p) => {
            assert_eq!(p.filesystem.root.extent_lba, Some(18));
            assert_eq!(p.filesystem.root.entries[0].extent_lba(), Some(19));
        }
        Volume::Boot(_) => panic!("a primary volume was added"),
    }
}

#[test]
fn nested_path_image() {
    let mut volume = PrimaryVolume::new("VOL".to_string());
    volume.filesystem.upsert_file("a/b/c.txt", b"deep".to_vec()).unwrap();
    let mut writer = writer_with(volume);
    let mut image = Vec::new();
    assert_eq!(writer.write_dated(&mut image, writing_moment()), Ok(()));
    let iso = Iso::open(image, Extensions::none()).ok().unwrap();
    let mut image = iso.storage;
    let root = iso.slots.primary.map(|inner| isofs::reader::PrimaryVolumeRef { inner }).unwrap().root();
    assert_eq!(names_in(&root, &mut image), vec![("A".to_string(), true)]);
    let a = child_directory(&root, &mut image, "A");
    assert_eq!(names_in(&a, &mut image), vec![("B".to_string(), true)]);
    let b = child_directory(&a, &mut image, "B");
    assert_eq!(names_in(&b, &mut image), vec![("C.TXT;1".to_string(), false)]);
    let mut walk = b.entries();
    match walk.next(&mut image) {
        Some(Ok(DirectoryEntryRef::File(file))) => {
            assert_eq!(file.name(), "C.TXT");
            assert_eq!(file.revision(), 1);
            assert_eq!(file.size(), 4);
            let mut buf = [0u8; 16];
            assert_eq!(file.read(&mut image, 0, &mut buf).ok(), Some(4));
            assert_eq!(&buf[..4], b"deep");
            assert_eq!(file.read(&mut image, 2, &mut buf).ok(), Some(2));
            assert_eq!(&buf[..2], b"ep");
            assert_eq!(file.read(&mut image, 9, &mut buf).ok(), Some(0));
        }
        _ => panic!("no file in b"),
    }
    assert!(walk.next(&mut image).is_none());
}

#[test]
fn records_do_not_cross_sector_boundaries() {
    let mut volume = PrimaryVolume::new("VOL".to_string());
    for i in 0..50 {
        let name = format!("FILE_NUMBER_{:03}.DAT", i);
        volume.filesystem.upsert_file(&name, vec![i as u8]).unwrap();
    }
    let mut writer = writer_with(volume);
    let mut image = Vec::new();
    assert_eq!(writer.write_dated(&mut image, writing_moment()), Ok(()));
    let (pvd, _) = PrimaryVolumeDescriptor::parse(&image[16 * 2048..]).unwrap();
    let start = pvd.root_directory_record.extent_location as usize * 2048;
    assert_eq!(pvd.root_directory_record.data_length, 50 * 54);
    let mut offset = 0usize;
    let mut seen = 0;
    while seen < 50 {
        if image[start + offset] == 0 {
            offset = (offset / 2048 + 1) * 2048;
            continue;
        }
        let (record, _) = DirectoryRecord::<NoExtension>::parse(&image[start + offset..]).unwrap();
        let len = record.length as usize;
        assert_eq!(len, 54);
        assert_eq!(offset / 2048, (offset + len - 1) / 2048);
        assert_eq!(image[record.extent_location as usize * 2048], seen as u8);
        offset += len;
        seen += 1;
    }
    assert_eq!(offset, 2048 + 13 * 54);
}

#[test]
fn a_directory_whose_padded_records_pass_its_room_is_refused() {
    let mut volume = PrimaryVolume::new("VOL".to_string());
    for i in 0..74 {
        let name = format!("FILE_NUMBER_{:03}.DAT", i);
        volume.filesystem.upsert_file(&name, vec![]).unwrap();
    }
    let mut writer = writer_with(volume);
    let mut image = Vec::new();
    assert_eq!(writer.write_dated(&mut image, writing_moment()), Ok(()));
    assert_eq!(image.len(), 20 * 2048);
    let mut volume = PrimaryVolume::new("VOL".to_string());
    for i in 0..75 {
        let name = format!("FILE_NUMBER_{:03}.DAT", i);
        volume.filesystem.upsert_file(&name, vec![]).unwrap();
    }
    let mut writer = writer_with(volume);
    assert_eq!(writer.write_dated(&mut image, writing_moment()), Err(Error::DirectoryTooLarge));
}

#[test]
fn writer_refuses_what_it_cannot_write() {
    let mut writer = IsoWriter::new(WriterOptions { sector_size: 512, standard: Standard::Iso9660, metadata: WriterMetadata::new() });
    writer.add_volume(Volume::Primary(PrimaryVolume::new("VOL".to_string())));
    let mut image = vec![7u8];
    assert_eq!(writer.write_dated(&mut image, writing_moment()), Err(Error::SectorTooSmall));
    assert_eq!(image, vec![7u8]);
    let mut writer = writer_with(PrimaryVolume::new("lower".to_string()));
    assert_eq!(
        writer.write_dated(&mut image, writing_moment()),
        Err(Error::Serialize(IsoSerializeError::BadCharacter {
            field: "volume_identifier",
            offset: 0
        }))
    );
    let mut volume = PrimaryVolume::new("VOL".to_string());
    volume.filesystem.root.entries.push(Entry::File(FileEntry::new(String::new(), vec![])));
    let mut writer = writer_with(volume);
    assert_eq!(
        writer.write_dated(&mut image, writing_moment()),
        Err(Error::Serialize(IsoSerializeError::BadCharacter {
            field: "file_identifier_length",
            offset: 32
        }))
    );
}

#[test]
fn two_volumes_share_an_image() {
    let mut first = PrimaryVolume::new("ONE".to_string());
    first.publisher = Some("PUBLISHER".to_string());
    first.preparer = Some("PREPARER".to_string());
    first.filesystem.upsert_file("f", vec![1u8; 3000]).unwrap();
    let mut second = PrimaryVolume::new("TWO".to_string());
    second.filesystem.upsert_file("g", vec![2u8; 10]).unwrap();
    let mut writer = IsoWriter::new(WriterOptions { sector_size: 4096, standard: Standard::Iso9660, metadata: WriterMetadata::new() });
    writer.add_volume(Volume::Primary(first));
    writer.add_volume(Volume::Primary(second));
    assert_eq!(writer.options().sector_size, 4096);
    let mut image = Vec::new();
    assert_eq!(writer.write_dated(&mut image, writing_moment()), Ok(()));
    assert_eq!(image.len(), 23 * 4096);
    let (one, _) = PrimaryVolumeDescriptor::parse(&image[16 * 4096..]).unwrap();
    let (two, _) = PrimaryVolumeDescriptor::parse(&image[17 * 4096..]).unwrap();
    assert!(image[16 * 4096 + 2048..17 * 4096].iter().all(|b| *b == 0));
    assert_eq!(image[18 * 4096], 255);
    assert_eq!(&one.volume_identifier.0[..3], b"ONE");
    assert_eq!(&one.publisher_identifier.0[..9], b"PUBLISHER");
    assert_eq!(&one.data_preparer_identifier.0[..8], b"PREPARER");
    assert_eq!(&two.volume_identifier.0[..3], b"TWO");
    assert_eq!(one.root_directory_record.extent_location, 19);
    assert_eq!(two.root_directory_record.extent_location, 21);
    assert_eq!(one.volume_space_size, 23);
    assert_eq!(one.logical_block_size, 4096);
    assert_eq!(image[20 * 4096 + 2999], 1);
    assert_eq!(image[20 * 4096 + 3000], 0);
    assert_eq!(&image[22 * 4096..22 * 4096 + 10], &[2u8; 10]);
}

#[test]
fn write_dates_the_image_with_the_clock() {
    let mut writer = writer_with(PrimaryVolume::new("VOL".to_string()));
    let mut image = Vec::new();
    assert_eq!(writer.write(&mut image), Ok(()));
    let (pvd, _) = PrimaryVolumeDescriptor::parse(&image[16 * 2048..]).unwrap();
    let date = pvd.creation_date;
    assert!(date.year.0 >= 2024);
    assert!((1..=12).contains(&date.month.0));
    assert!((1..=31).contains(&date.day.0));
    assert!(date.hour.0 <= 23 && date.minute.0 <= 59 && date.second.0 <= 59);
    assert!(isofs::file::now_seconds() > 1_700_000_000);
}

#[test]
fn metadata_are_cut_where_a_character_ends() {
    let short = |s: &str| WriterMetadata::new().publisher_identifier(s).publisher_bytes();
    let long = |s: &str| WriterMetadata::new().application_identifier(s).application_bytes();
    assert_eq!(short("ACME"), b"ACME");
    assert_eq!(short(&"X".repeat(40)), "X".repeat(32).into_bytes());
    assert_eq!(short(&"ä".repeat(20)), "ä".repeat(16).into_bytes());
    let odd = format!("a{}", "ä".repeat(20));
    assert_eq!(short(&odd), format!("a{}", "ä".repeat(15)).into_bytes());
    assert_eq!(long(&"Y".repeat(200)), "Y".repeat(128).into_bytes());
    assert_eq!(long(""), b"");
    let metadata = WriterMetadata::new()
        .publisher_identifier("PUB")
        .data_preparer_identifier("PREP")
        .application_identifier("APP")
        .copyright_file_identifier("COPY")
        .abstract_file_identifier([b'A'; 37]);
    assert_eq!(metadata.publisher_bytes(), b"PUB");
    assert_eq!(metadata.data_preparer_bytes(), b"PREP");
    assert_eq!(metadata.application_bytes(), b"APP");
    assert_eq!(metadata.copyright_file_bytes(), b"COPY");
    assert_eq!(metadata.abstract_file_bytes(), vec![b'A'; 37]);
    assert!(WriterMetadata::new().publisher_bytes().is_empty());
}

#[test]
fn descriptors_name_what_the_writer_says() {
    let metadata = WriterMetadata::new()
        .publisher_identifier("WRITER PUBLISHER")
        .data_preparer_identifier("WRITER PREPARER")
        .application_identifier("APPLICATION")
        .copyright_file_identifier("COPYRIGHT")
        .abstract_file_identifier([b'Z'; 37]);
    let mut writer =
        IsoWriter::new(WriterOptions { sector_size: 2048, standard: Standard::Iso9660, metadata });
    let mut own = PrimaryVolume::new("OWN".to_string());
    own.publisher = Some("VOLUME PUBLISHER".to_string());
    writer.add_volume(Volume::Primary(own));
    writer.add_volume(Volume::Primary(PrimaryVolume::new("PLAIN".to_string())));
    let mut image = Vec::new();
    assert_eq!(writer.write_dated(&mut image, writing_moment()), Ok(()));
    let (first, _) = PrimaryVolumeDescriptor::parse(&image[16 * 2048..]).unwrap();
    let (second, _) = PrimaryVolumeDescriptor::parse(&image[17 * 2048..]).unwrap();
    assert_eq!(&first.publisher_identifier.0[..17], b"VOLUME PUBLISHER ");
    assert_eq!(&second.publisher_identifier.0[..17], b"WRITER PUBLISHER ");
    assert_eq!(&first.data_preparer_identifier.0[..16], b"WRITER PREPARER ");
    assert_eq!(&second.application_identifier.0[..12], b"APPLICATION ");
    assert_eq!(&second.copyright_file_identifier.0[..10], b"COPYRIGHT ");
    assert_eq!(second.abstract_file_identifier.0, [b'Z'; 37]);
    let options = WriterOptions::new();
    assert_eq!(options.sector_size, 2048);
    assert!(options.metadata.application_bytes().is_empty());
    let lower = WriterMetadata::new().application_identifier("lower");
    let mut writer = IsoWriter::new(WriterOptions {
        sector_size: 2048,
        standard: Standard::Iso9660,
        metadata: lower,
    });
    writer.add_volume(Volume::Primary(PrimaryVolume::new("V".to_string())));
    assert_eq!(
        writer.write_dated(&mut image, writing_moment()),
        Err(Error::Serialize(IsoSerializeError::BadCharacter {
            field: "application_identifier",
            offset: 0
        }))
    );
}

#[test]
fn entries_describe_themselves() {
    let now = isofs::spec::NumericalDate {
        years_since_1900: isofs::spec::NumericalYear(124),
        month: isofs::spec::NumericalMonth(5),
        day: isofs::spec::NumericalDay(6),
        hour: isofs::spec::NumericalHour(7),
        minute: isofs::spec::NumericalMinute(8),
        second: isofs::spec::NumericalSecond(9),
        gmt_offset: isofs::spec::NumericalGmtOffset(0),
    };
    let mut file = FileEntry::new("readme.txt".to_string(), b"Hello".to_vec());
    assert_eq!(EntryLike::extent_lba(&file), None);
    file.set_extent_lba(40);
    assert_eq!(EntryLike::extent_lba(&file), Some(40));
    let record = EntryLike::descriptor(&file, now);
    assert_eq!(record.extent_location, 40);
    assert_eq!(record.data_length, 5);
    assert_eq!(record.file_flags.bits, 0);
    assert_eq!(record.file_identifier_length, 12);
    assert_eq!(&record.file_identifier.0[..12], b"README.TXT;1");
    assert_eq!(record.length, 46);
    assert_eq!(record.volume_sequence_number, 1);

    let mut directory = DirectoryEntry::new("docs".to_string(), Vec::new());
    DirectoryLike::upsert(&mut directory, Entry::File(file));
    DirectoryLike::upsert(
        &mut directory,
        Entry::File(FileEntry::new("readme.txt".to_string(), b"Bye".to_vec())),
    );
    assert_eq!(directory.entries.len(), 1);
    assert_eq!(EntryLike::extent_lba(&directory.entries[0]), None);
    let record = EntryLike::descriptor(&directory, now);
    assert_eq!(record.data_length, 46);
    assert_eq!(record.file_flags.bits, 2);
    assert_eq!(&record.file_identifier.0[..4], b"DOCS");
    assert_eq!(record.length, 38);
    let whole = Entry::Directory(directory);
    assert_eq!(EntryLike::descriptor(&whole, now).data_length, 46);

    let mut root = isofs::writer::fs::RootDirectory::new();
    DirectoryLike::upsert(&mut root, whole);
    let record = EntryLike::descriptor(&root, now);
    assert_eq!(record.length, 34);
    assert_eq!(record.data_length, 38);
    assert_eq!(record.file_identifier_length, 1);
    assert_eq!(record.file_identifier.0, [0u8; 32]);
    assert_eq!(record.file_flags.bits, 2);

    let mut allocator = LbaAllocator::new(2048, 18);
    assert_eq!(DirectoryLike::assign_extent_lbas(&mut root, &mut allocator), Ok(()));
    assert_eq!(EntryLike::extent_lba(&root), Some(18));
    assert_eq!(EntryLike::extent_lba(&root.entries[0]), Some(19));
    match &root.entries[0] {
        Entry::Directory(d) => assert_eq!(EntryLike::extent_lba(&d.entries[0]), Some(20)),
        Entry::File(_) => panic!("a directory was put there"),
    }
    assert_eq!(allocator.next_lba(), 21);

    let mut alone = DirectoryEntry::new("a".to_string(), Vec::new());
    let mut allocator = LbaAllocator::new(2048, u32::MAX);
    assert_eq!(DirectoryLike::assign_extent_lbas(&mut alone, &mut allocator), Ok(()));
    assert_eq!(EntryLike::extent_lba(&alone), Some(u32::MAX));
    DirectoryLike::upsert(&mut alone, Entry::File(FileEntry::new("b".to_string(), vec![1])));
    assert_eq!(
        DirectoryLike::assign_extent_lbas(&mut alone, &mut allocator),
        Err(Error::AllocatorExhausted)
    );
}

#[test]
fn defaults_are_empty() {
    let options = WriterOptions::default();
    assert_eq!(options.sector_size, 2048);
    assert_eq!(options.standard, Standard::Iso9660);
    assert!(options.metadata.publisher_bytes().is_empty());
    assert!(WriterMetadata::default().abstract_file_bytes().is_empty());
    let filesystem = Filesystem::default();
    assert!(filesystem.root.entries.is_empty());
    assert_eq!(filesystem.root.extent_lba, None);
    assert_eq!(filesystem, Filesystem::new());
}

#[test]
fn boot_volume_gets_a_record_and_a_catalog() {
    let mut writer = IsoWriter::new(WriterOptions::new());
    let mut primary = PrimaryVolume::new("BOOTABLE".to_string());
    primary.filesystem.upsert_file("boot.img", vec![0xEB; 3000]).unwrap();
    writer.add_volume(Volume::Primary(primary));
    let mut id = [0u8; 24];
    id[..4].copy_from_slice(b"ACME");
    let catalog = BootCatalog {
        validation: ElToritoValidationEntry::new(
            ElToritoHeaderId::Standard,
            ElToritoPlatformId::X86,
            ElToritoManufacturerId(id),
        ),
        initial: ElToritoInitialSectionEntry {
            boot_indicator: ElToritoBootIndicator::Bootable,
            boot_media_type: ElToritoBootMediaType(0),
            load_segment: 0,
            system_type: 0,
            sector_count: 4,
            virtual_disk_location: 20,
        },
    };
    let boot = BootVolume::new(catalog);
    assert_eq!(boot.catalog_lba, None);
    writer.add_volume(Volume::Boot(boot));
    let mut image = Vec::new();
    assert_eq!(writer.write_dated(&mut image, writing_moment()), Ok(()));
    assert_eq!(image.len(), 23 * 2048);
    let sector = |k: usize| &image[k * 2048..(k + 1) * 2048];
    let (pvd, _) = PrimaryVolumeDescriptor::parse(sector(16)).unwrap();
    assert_eq!(pvd.volume_space_size, 23);
    assert_eq!(pvd.root_directory_record.extent_location, 19);
    assert_eq!(sector(17)[0], 0);
    assert_eq!(&sector(17)[1..6], b"CD001");
    assert_eq!(sector(17)[6], 1);
    assert_eq!(&sector(17)[7..30], b"EL TORITO SPECIFICATION");
    assert_eq!(&sector(17)[71..75], &[22, 0, 0, 0]);
    assert_eq!(sector(18)[0], 255);
    assert_eq!(&sector(20)[..4], &[0xEB; 4]);
    assert_eq!(sector(21)[3000 - 2048 - 1], 0xEB);
    assert_eq!(sector(21)[3000 - 2048], 0);
    let (validation, rest) = ElToritoValidationEntry::parse(sector(22)).unwrap();
    assert_eq!(validation, catalog.validation);
    assert!(validation.checksum_ok());
    let (initial, rest) = ElToritoInitialSectionEntry::parse(rest).unwrap();
    assert_eq!(initial, catalog.initial);
    assert!(rest.iter().all(|b| *b == 0));
    match &writer.volumes()[1] {
        Volume::Boot(b) => assert_eq!(b.catalog_lba, Some(22)),
        Volume::Primary(_) => panic!("a boot volume was added"),
    }
    let iso = Iso::open(image, Extensions::none()).unwrap();
    assert_eq!(iso.boot_record_volume().unwrap().descriptor().boot_catalog_pointer, 22);
    assert!(iso.primary_volume().is_some());
}

#[test]
fn boot_volume_alone_and_at_the_last_address() {
    let catalog = BootCatalog {
        validation: ElToritoValidationEntry::new(
            ElToritoHeaderId::Standard,
            ElToritoPlatformId::Mac,
            ElToritoManufacturerId([0u8; 24]),
        ),
        initial: ElToritoInitialSectionEntry {
            boot_indicator: ElToritoBootIndicator::NonBootable,
            boot_media_type: ElToritoBootMediaType(3),
            load_segment: 0x07C0,
            system_type: 1,
            sector_count: 1,
            virtual_disk_location: 0,
        },
    };
    let mut writer = IsoWriter::new(WriterOptions {
        sector_size: 4096,
        standard: Standard::Iso9660,
        metadata: WriterMetadata::new(),
    });
    writer.add_volume(Volume::Boot(BootVolume::new(catalog)));
    let mut image = vec![7u8; 10];
    assert_eq!(writer.write_dated(&mut image, writing_moment()), Ok(()));
    assert_eq!(image.len(), 19 * 4096);
    assert_eq!(image[16 * 4096], 0);
    assert_eq!(&image[16 * 4096 + 71..16 * 4096 + 75], &[18, 0, 0, 0]);
    assert!(image[16 * 4096 + 2048..17 * 4096].iter().all(|b| *b == 0));
    assert_eq!(image[17 * 4096], 255);
    assert_eq!(image[18 * 4096], 1);
    assert_eq!(image[18 * 4096 + 1], 2);
    assert_eq!(&image[18 * 4096 + 30..18 * 4096 + 34], &[0x55, 0xAA, 0x00, 3]);
    assert!(image[18 * 4096 + 64..].iter().all(|b| *b == 0));
}
