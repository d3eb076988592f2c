use isofs::directory::{Directory, DirectoryEntry};
use isofs::error::Error;
use isofs::iso::{detect_extensions, level_1, Iso, IsoBuilder, IsoExtensions};
use isofs::writer::fs::Filesystem;
use isofs::writer::metadata::WriterMetadata;
use isofs::writer::volume::{PrimaryVolume, Timestamp, Volume};
use isofs::writer::{IsoWriter, Standard, WriterOptions};

fn empty_image() -> Iso {
    IsoBuilder::new().volume_id("DISK").build().ok().unwrap()
}

fn tree_with_two_levels() -> Directory {
    let mut root = Directory::new("ROOT");
    root.set_sector_location(19);
    root.add_file("a.txt".to_string(), b"alpha").unwrap();
    root.add_file("b.bin".to_string(), &[7u8; 3000]).unwrap();
    root.add_directory("sub".to_string()).unwrap();
    root
}

#[test]
fn builders_collect_names_and_extensions() {
    let builder = IsoBuilder::new();
    let iso = builder.clone().build().ok().unwrap();
    assert_eq!(iso.volume_descriptor().volume_id(), "ISO_VOLUME");
    assert_eq!(iso.volume_descriptor().publisher_id(), "");
    assert_eq!(iso.volume_descriptor().preparer_id(), "isopod");
    assert_eq!(iso.volume_descriptor().application_id(), "isopod 0.1.0");
    assert_eq!(*iso.extensions(), IsoExtensions::none());
    assert!(iso.is_modified());
    assert_eq!(iso.root_directory().name(), "ROOT");
    let iso = Iso::builder()
        .volume_id("V")
        .publisher("P")
        .preparer("R")
        .application("A")
        .joliet(true)
        .rock_ridge(true)
        .el_torito(true)
        .udf(true)
        .joliet(false)
        .build()
        .ok()
        .unwrap();
    assert_eq!(iso.volume_descriptor().volume_id(), "V");
    assert_eq!(iso.volume_descriptor().publisher_id(), "P");
    assert_eq!(iso.volume_descriptor().preparer_id(), "R");
    assert_eq!(iso.volume_descriptor().application_id(), "A");
    assert_eq!(
        *iso.extensions(),
        IsoExtensions { joliet: false, rock_ridge: true, el_torito: true, udf: true }
    );
}

#[test]
fn paths_are_held_to_the_first_level() {
    let iso = empty_image();
    assert!(iso.validate_path("README.TXT").is_ok());
    assert!(iso.validate_path("a/b/c/d/e/f/g/h.txt").is_ok());
    assert!(matches!(iso.validate_path("a/b/c/d/e/f/g/h/i"), Err(Error::PathError(_))));
    assert!(matches!(iso.validate_path("toolongname.txt"), Err(Error::PathError(_))));
    assert!(matches!(iso.validate_path("name.text"), Err(Error::PathError(_))));
    assert!(matches!(iso.validate_path("dir/sp ace"), Err(Error::PathError(_))));
    assert!(matches!(iso.validate_path("ümlaut"), Err(Error::PathError(_))));
    assert!(iso.validate_path("a/../b").is_ok());
    assert!(iso.validate_path("").is_ok());
    assert!(level_1("12345678.123"));
    assert!(level_1("a.b.c"));
    assert!(!level_1("a.b.cd"));
    assert!(!level_1("123456789"));
    assert!(level_1(".abc"));
    assert!(level_1(""));
    let joliet = IsoBuilder::new().joliet(true).build().ok().unwrap();
    assert!(joliet.validate_path("a long name with spaces.text").is_ok());
    assert!(matches!(joliet.validate_path("1/2/3/4/5/6/7/8/9"), Err(Error::PathError(_))));
}

#[test]
fn files_are_found_where_they_were_put() {
    let mut iso = empty_image();
    assert!(iso.add_file_with_content("docs/a/one.txt", b"1").is_ok());
    assert!(iso.add_file_with_content("docs/two.txt", b"22").is_ok());
    assert!(iso.add_file_with_content("top", b"333").is_ok());
    assert!(iso.add_directory("docs/b/c").is_ok());
    assert!(iso.add_directory("docs/b/c").is_ok());
    assert_eq!(iso.get_file_content("docs/a/one.txt").ok(), Some(b"1".to_vec()));
    assert_eq!(iso.get_file_content("../docs/../two.txt").ok(), Some(b"22".to_vec()));
    assert!(matches!(iso.get_file_content("docs/../docs/two.txt"), Err(Error::PathError(_))));
    assert_eq!(iso.get_file_content("/top").ok(), Some(b"333".to_vec()));
    assert!(matches!(iso.get_file_content("docs/none"), Err(Error::PathError(_))));
    assert!(matches!(iso.get_file_content("none/none"), Err(Error::PathError(_))));
    assert!(matches!(iso.get_file_content("docs/.."), Err(Error::PathError(_))));
    assert!(matches!(iso.get_file_content(""), Err(Error::PathError(_))));
    assert!(matches!(iso.add_file_with_content("top", b"again"), Err(Error::PathError(_))));
    assert!(matches!(iso.add_file_with_content("bad name", b""), Err(Error::PathError(_))));
    assert!(matches!(iso.add_file_with_content("x/..", b""), Err(Error::PathError(_))));
    assert_eq!(iso.find_directory("docs/b").ok().unwrap().directories().len(), 1);
    assert_eq!(iso.find_directory("").ok().unwrap().name(), "ROOT");
    assert_eq!(iso.find_directory("docs").ok().unwrap().files().len(), 1);
    assert!(matches!(iso.find_directory("docs/zz"), Err(Error::PathError(_))));
    assert_eq!(iso.root_directory().directories().len(), 1);
    iso.root_directory_mut().set_sector_location(20);
    iso.volume_descriptor_mut().set_volume_space_size(3);
    assert_eq!(iso.volume_descriptor().volume_space_size(), 3);
}

#[test]
fn directory_extents() {
    let mut root = tree_with_two_levels();
    root.find_file_mut("a.txt").unwrap().set_sector_location(30);
    root.find_directory_mut("sub").unwrap().set_sector_location(31);
    let mut out = vec![9u8];
    assert!(root.write_directory_record_at(&mut out, 86400).is_ok());
    assert_eq!(out.len(), 1 + 2048);
    let bytes = &out[1..];
    assert_eq!(bytes[0], 34);
    assert_eq!(bytes[33], 0);
    assert_eq!(&bytes[2..6], &[19, 0, 0, 0]);
    assert_eq!(bytes[34], 34);
    assert_eq!(bytes[34 + 33], 1);
    let file = &bytes[68..];
    assert_eq!(file[0], 40);
    assert_eq!(&file[33..40], b"A.TXT;1");
    assert_eq!(&file[2..6], &[30, 0, 0, 0]);
    assert_eq!(&file[10..14], &[5, 0, 0, 0]);
    assert_eq!(&file[18..25], &[70, 1, 2, 0, 0, 0, 0]);
    assert!(bytes[108..].iter().all(|b| *b == 0));
    root.find_directory_mut("sub").unwrap().set_size(2048);
    let mut out = Vec::new();
    assert!(root.write_directory_record_at(&mut out, 0).is_ok());
    assert_eq!(out[68], 36);
    assert_eq!(&out[68 + 33..68 + 36], b"SUB");
    assert_eq!(out[68 + 25], 2);
    assert_eq!(out[104], 40);
    assert!(root.write_directory_record(&mut out).is_ok());
    assert_eq!(out.len(), 4096);
    assert_eq!(root.create_dot_entry().name(), ".");
    assert_eq!(root.create_dot_entry().extent_location(), 19);
    assert_eq!(root.create_dotdot_entry().name(), "..");
    assert_eq!(root.create_dotdot_entry().extent_size(), 0);
    root.add_file("n".repeat(300), b"").unwrap();
    root.find_file_mut(&"n".repeat(300)).unwrap().set_sector_location(1);
    let before = out.clone();
    assert!(matches!(root.write_directory_record_at(&mut out, 0), Err(Error::PathError(_))));
    assert_eq!(out, before);
}

#[test]
fn a_written_tree_is_read_back() {
    let root = tree_with_two_levels();
    let mut image = Vec::new();
    assert!(root.write_to_iso_at(&mut image, 86400).is_ok());
    assert_eq!(image.len(), 22 * 2048 + 3000);
    assert_eq!(&image[21 * 2048..21 * 2048 + 5], b"alpha");
    assert_eq!(image[22 * 2048 + 2999], 7);
    assert_eq!(image[20 * 2048], 34);
    let entry = DirectoryEntry::new_directory("ROOT", 19, 2048);
    let read = Directory::read_from_iso(&image, &entry).ok().unwrap();
    assert_eq!(read.name(), "ROOT");
    assert_eq!(read.sector_location(), Some(19));
    assert_eq!(read.size(), Some(2048));
    assert_eq!(read.files().len(), 2);
    assert_eq!(read.find_file("A.TXT").unwrap().content(), b"alpha");
    assert_eq!(read.find_file("B.BIN").unwrap().content(), &[7u8; 3000][..]);
    assert_eq!(read.directories().len(), 1);
    let sub = read.find_directory("SUB").unwrap();
    assert_eq!(sub.sector_location(), Some(20));
    assert_eq!(sub.size(), Some(68));
    assert!(sub.files().is_empty() && sub.directories().is_empty());
}

#[test]
fn reading_refuses_what_is_no_directory() {
    let image = vec![0u8; 40 * 2048];
    let file = DirectoryEntry::new_file("F", 20, 10);
    assert!(matches!(Directory::read_from_iso(&image, &file), Err(Error::InvalidFormat(_))));
    let nowhere = DirectoryEntry::new_directory("D", 0, 10);
    assert!(matches!(Directory::read_from_iso(&image, &nowhere), Err(Error::InvalidFormat(_))));
    let empty = DirectoryEntry::new_directory("D", 20, 0);
    assert!(matches!(Directory::read_from_iso(&image, &empty), Err(Error::InvalidFormat(_))));
    let huge = DirectoryEntry::new_directory("D", 20, 10 * 1024 * 1024 + 1);
    assert!(matches!(Directory::read_from_iso(&image, &huge), Err(Error::SizeLimit(_))));
    let beyond = DirectoryEntry::new_directory("D", 39, 2049);
    assert!(matches!(Directory::read_from_iso(&image, &beyond), Err(Error::InvalidFormat(_))));
    let zeros = DirectoryEntry::new_directory("D", 39, 2048);
    let read = Directory::read_from_iso(&image, &zeros).ok().unwrap();
    assert!(read.files().is_empty() && read.directories().is_empty());
}

#[test]
fn reading_does_not_go_in_circles() {
    let mut image = vec![0u8; 23 * 2048];
    let mut at = 20 * 2048;
    for entry in [
        DirectoryEntry::new_directory(".", 20, 2048),
        DirectoryEntry::new_directory("..", 20, 2048),
        DirectoryEntry::new_directory("SELF", 20, 2048),
        DirectoryEntry::new_directory("OTHER", 21, 2048),
        DirectoryEntry::new_file("EMPTY", 22, 0),
        DirectoryEntry::new_file("FAR", 500, 10),
        DirectoryEntry::new_file("DATA", 22, 4),
        DirectoryEntry::new_file("DATA", 22, 2),
    ] {
        let n = entry.record_size();
        entry.write_to_buffer(&mut image[at..at + n]).unwrap();
        at += n;
    }
    let back = DirectoryEntry::new_directory("BACK", 20, 2048);
    back.write_to_buffer(&mut image[21 * 2048..21 * 2048 + 38]).unwrap();
    image[22 * 2048..22 * 2048 + 4].copy_from_slice(b"data");
    let root = DirectoryEntry::new_directory("R", 20, 2048);
    let read = Directory::read_levels(&image, &root, 3).ok().unwrap();
    assert_eq!(read.directories().len(), 1);
    assert_eq!(read.files().len(), 1);
    assert_eq!(read.find_file("DATA").unwrap().content(), b"da");
    let other = read.find_directory("OTHER").unwrap();
    let back = other.find_directory("BACK").unwrap();
    assert_eq!(back.directories().len(), 1);
    let deepest = back.find_directory("OTHER").unwrap();
    assert!(deepest.directories().is_empty());
    let flat = Directory::read_levels(&image, &root, 0).ok().unwrap();
    assert!(flat.directories().is_empty());
    assert_eq!(flat.files().len(), 1);
}

#[test]
fn whole_images_of_the_model() {
    let mut iso = empty_image();
    iso.add_file_with_content("HELLO.TXT", b"Hello").unwrap();
    iso.root_directory_mut().set_name("R".to_string());
    iso.root_directory_mut().set_sector_location(19);
    iso.root_directory_mut().set_size(2048);
    let root = iso.root_directory().to_entry();
    *iso.volume_descriptor_mut().root_directory_entry_mut() = root;
    let mut image = vec![0xEEu8; 5];
    assert!(iso.write_to_at(&mut image, 0).is_ok());
    assert!(image[..16 * 2048].iter().all(|b| *b == 0));
    assert_eq!(image[16 * 2048], 1);
    assert_eq!(&image[16 * 2048 + 40..16 * 2048 + 44], b"DISK");
    assert_eq!(image[17 * 2048], 255);
    assert_eq!(&image[20 * 2048..20 * 2048 + 5], b"Hello");
    let read = Iso::read_from_at(&image, 0).ok().unwrap();
    assert!(!read.is_modified());
    assert_eq!(read.volume_descriptor().volume_id(), "DISK");
    assert_eq!(read.get_file_content("HELLO.TXT").ok(), Some(b"Hello".to_vec()));
    assert!(!read.extensions().joliet);
    assert!(Iso::read_from(&image).is_ok());
    assert!(iso.write_to(&mut image).is_ok());
    assert!(matches!(Iso::read_from(&[0u8; 100]), Err(Error::InvalidFormat(_))));
    let unplaced = empty_image();
    let mut other = Vec::new();
    assert!(unplaced.write_to_at(&mut other, 0).is_ok());
    assert_eq!(other.len(), 18 * 2048);
    assert!(matches!(Iso::read_from(&other), Err(Error::InvalidFormat(_))));
    let mut long_root = empty_image();
    long_root.root_directory_mut().set_name("LONGNAME".to_string());
    let root = long_root.root_directory().to_entry();
    *long_root.volume_descriptor_mut().root_directory_entry_mut() = root;
    assert!(long_root.write_to_at(&mut other, 0).is_err());
    let mut terminator = Vec::new();
    unplaced.write_volume_descriptor_set_terminator(&mut terminator);
    assert_eq!(terminator.len(), 18 * 2048);
    assert_eq!(terminator[17 * 2048], 255);
    assert_eq!(&terminator[17 * 2048 + 1..17 * 2048 + 6], b"CD001");
}

#[test]
fn joliet_is_detected_by_its_escape_sequence() {
    let mut image = vec![0u8; 20 * 2048];
    assert_eq!(detect_extensions(&image), IsoExtensions::none());
    image[17 * 2048] = 2;
    image[17 * 2048 + 1..17 * 2048 + 6].copy_from_slice(b"CD001");
    image[17 * 2048 + 88..17 * 2048 + 91].copy_from_slice(b"%/E");
    assert!(detect_extensions(&image).joliet);
    image[17 * 2048 + 90] = b'@';
    assert!(!detect_extensions(&image).joliet);
    image[17 * 2048 + 90] = b'C';
    assert!(detect_extensions(&image).joliet);
    image[17 * 2048] = 1;
    assert!(!detect_extensions(&image).joliet);
    assert!(!detect_extensions(&image[..10]).joliet);
}

#[test]
fn the_model_reads_what_the_writer_wrote() {
    let mut fs = Filesystem::new();
    fs.upsert_file("docs/readme.txt", b"read me".to_vec()).unwrap();
    fs.upsert_file("top.bin", vec![1, 2, 3]).unwrap();
    let mut volume = PrimaryVolume::new("VOL".to_string());
    volume.filesystem = fs;
    let mut writer = IsoWriter::new(WriterOptions { sector_size: 2048, standard: Standard::Iso9660, metadata: WriterMetadata::new() });
    writer.add_volume(Volume::Primary(volume));
    let mut image = Vec::new();
    let now = Timestamp {
        year: 2001,
        month: 2,
        day: 3,
        hour: 4,
        minute: 5,
        second: 6,
        millisecond: 0,
        unix_seconds: 0,
    };
    writer.write_dated(&mut image, now).unwrap();
    let iso = Iso::read_from(&image).ok().unwrap();
    assert_eq!(iso.volume_descriptor().volume_id(), "VOL");
    assert_eq!(iso.volume_descriptor().volume_space_size(), (image.len() / 2048) as u32);
    assert_eq!(iso.get_file_content("DOCS/README.TXT").ok(), Some(b"read me".to_vec()));
    assert_eq!(iso.get_file_content("TOP.BIN").ok(), Some(vec![1, 2, 3]));
    assert_eq!(iso.root_directory().directories().len(), 1);
}
