use isofs::layout::{
    allocate_all, insert_all, insert_into, FileContentRef, FsDirectory, FsFile, FsNode,
    IsoLayout, PrimaryVolumeInfo,
};
use isofs::spec::ElToritoSelectionEntryExtension;
use isofs::spec::ElToritoExtensionRecordFollowsIndicator;
use isofs::writer::error::Error;
use isofs::writer::lba::LbaAllocator;

fn file(name: &str, size: usize) -> FsNode {
    FsNode::File(FsFile { lba: None, name: name.to_string(), content: FileContentRef::FsFile(size) })
}

fn directory(name: &str, children: Vec<FsNode>) -> FsNode {
    FsNode::Directory(FsDirectory { lba: None, name: name.to_string(), children })
}

fn children_of(node: &FsNode) -> &Vec<FsNode> {
    match node {
        FsNode::Directory(d) => &d.children,
        FsNode::File(_) => panic!("a directory was asked for"),
    }
}

#[test]
fn records_are_sized_by_their_names() {
    assert_eq!(file("README.TXT", 5).calculate_record_size(), 44);
    assert_eq!(file("", 5).calculate_record_size(), 35);
    assert_eq!(file("ä", 5).calculate_record_size(), 36);
    assert_eq!(file(&"x".repeat(221), 0).calculate_record_size(), 255);
    assert_eq!(file("a", 700).calculate_extent(), 700);
    let docs = directory("docs", vec![file("a", 1), file("bcd", 2), directory("", vec![])]);
    assert_eq!(docs.calculate_extent(), 35 + 37 + 35);
    assert_eq!(directory("empty", vec![]).calculate_extent(), 0);
    assert_eq!(docs.name(), "docs");
    assert!(!docs.is_file());
    assert_eq!(docs.lba(), None);
}

#[test]
fn files_are_put_at_their_paths() {
    let mut layout = IsoLayout::new(2048);
    assert_eq!(layout.sector_size, 2048);
    assert_eq!(layout.root, directory("", vec![]));
    layout.insert_file("a/b/c.txt", 10);
    assert_eq!(
        layout.root,
        directory("", vec![directory("a", vec![directory("b", vec![file("c.txt", 10)])])])
    );
    layout.insert_file("a/b/c.txt", 10);
    assert_eq!(
        layout.root,
        directory("", vec![directory("a", vec![directory("b", vec![file("c.txt", 10)])])])
    );
    layout.insert_file("a/b/c.txt", 99);
    layout.insert_file("a/d", 1);
    layout.insert_file("top", 2);
    layout.insert_file("a", 3);
    assert_eq!(
        layout.root,
        directory(
            "",
            vec![
                directory("a", vec![directory("b", vec![file("c.txt", 99)]), file("d", 1)]),
                file("top", 2),
                file("a", 3),
            ]
        )
    );
}

#[test]
fn nodes_are_merged_by_kind_and_name() {
    let mut children = vec![file("x", 1), directory("d", vec![file("y", 2)])];
    insert_into(&mut children, file("x", 7));
    insert_into(&mut children, directory("d", vec![file("y", 8), file("z", 9)]));
    insert_into(&mut children, directory("x", vec![]));
    assert_eq!(
        children,
        vec![file("x", 7), directory("d", vec![file("y", 8), file("z", 9)]), directory("x", vec![])]
    );
    insert_all(&mut children, vec![file("a", 1), file("a", 2)]);
    assert_eq!(children.len(), 4);
    assert_eq!(children[3], file("a", 2));
    let mut holder = FsDirectory { lba: Some(4), name: "h".to_string(), children: vec![] };
    holder.insert(file("f", 1));
    holder.insert(file("f", 2));
    assert_eq!(holder.children, vec![file("f", 2)]);
    assert_eq!(holder.lba, Some(4));
}

#[test]
fn addresses_go_depth_first() {
    let mut root = directory(
        "",
        vec![file("big", 5000), directory("d", vec![file("in", 1), file("none", 0)]), file("last", 2048)],
    );
    let mut allocator = LbaAllocator::new(2048, 20);
    assert_eq!(root.allocate_lbas(&mut allocator), Ok(()));
    assert_eq!(root.lba(), Some(20));
    let top = children_of(&root);
    assert_eq!(top[0].lba(), Some(21));
    assert_eq!(top[1].lba(), Some(24));
    let below = children_of(&top[1]);
    assert_eq!(below[0].lba(), Some(25));
    assert_eq!(below[1].lba(), Some(26));
    assert_eq!(top[2].lba(), Some(26));
    assert_eq!(allocator.next_lba(), 27);
    let record = top[0].into_directory_record();
    assert_eq!(record.length, 37);
    assert_eq!(record.extent_location, 21);
    assert_eq!(record.data_length, 5000);
    assert_eq!(record.file_flags.bits, 0);
    assert_eq!(record.file_identifier_length, 3);
    assert_eq!(&record.file_identifier.0[..4], b"big\0");
    assert_eq!(record.recording_date.years_since_1900.0, 123);
    assert_eq!(record.volume_sequence_number, 1);
    let record = top[1].into_directory_record();
    assert_eq!(record.data_length, 36 + 38);
    assert_eq!(record.file_flags.bits, 2);

    let mut late = vec![file("a", 1), file("b", 1)];
    let mut allocator = LbaAllocator::new(2048, u32::MAX - 1);
    assert_eq!(allocate_all(&mut late, &mut allocator), Err(Error::AllocatorExhausted));
    assert_eq!(late[0].lba(), Some(u32::MAX - 1));
    assert_eq!(late[1].lba(), None);
    if usize::BITS > 32 {
        let mut huge = file("huge", u32::MAX as usize + 1);
        let mut allocator = LbaAllocator::new(2048, 20);
        assert_eq!(huge.allocate_lbas(&mut allocator), Err(Error::FileTooLarge));
        assert_eq!(allocator.next_lba(), 20);
    }
}

#[test]
fn plain_values_of_the_layout() {
    assert_eq!(PrimaryVolumeInfo {}, PrimaryVolumeInfo {});
    let extension = ElToritoSelectionEntryExtension {
        extension_record_follows_indicator: ElToritoExtensionRecordFollowsIndicator::from_bits(0),
        vendor_unique_selection_criteria: [1u8; 29],
    };
    assert_eq!(extension.vendor_unique_selection_criteria.len(), 29);
    assert_eq!(FileContentRef::FsFile(3), FileContentRef::FsFile(3));
}

#[test]
fn a_layout_is_finalized_from_sector_20_on() {
    let mut layout = IsoLayout::new(2048);
    layout.insert_file("boot/image.bin", 4097);
    layout.insert_file("readme", 1);
    assert_eq!(layout.finalize(), Ok(26));
    assert_eq!(layout.root.lba(), Some(20));
    let top = children_of(&layout.root);
    assert_eq!(top[0].lba(), Some(21));
    assert_eq!(children_of(&top[0])[0].lba(), Some(22));
    assert_eq!(top[1].lba(), Some(25));
    let mut empty = IsoLayout::new(512);
    assert_eq!(empty.finalize(), Ok(20));
    assert_eq!(empty.root.lba(), Some(20));
}
