//! Where the extents of a tree lie in an image: each at the sector that its
//! record names.

use crate::bytes::zeros;
use crate::serialize::IsoSerialize;
use crate::spec::{NumericalDate, StandardIdentifier, VolumeDescriptorSetTerminator};
use crate::writer::error::Error;
use crate::writer::fs::Node;
use crate::parse::{record_identifier, IsoParseError};
use crate::parse::{IsoParse, VolumeDescriptor};
use crate::reader::{is_dot, spec_scan_step, spec_step, Extensions, Scan, Slots, Step};
use crate::spec::{DirectoryRecord, Identifier, NoExtension};
use crate::writer::layout::{
    identifier, iso_byte, kept,
    assigned, assigned_first, directory_extent, extent_size, extents, extents_first,
    file_extent, lemma_assigned_first_fails, lemma_no_record_crosses, lemma_packed_prefix,
    lemma_records_len, packed, problem, record_of, record_start, records_len, room_for,
};
use crate::writer::lba::{lemma_sectors_for, sectors_for};
use crate::writer::volume::{boot_record, descriptor_of, Timestamp, VolumeContext, VolumeModel};
use crate::writer::{
    announcement, descriptors, first_lba, in_sector, laid_out, lemma_descriptors_fail,
    lemma_laid_out_fails, lemma_trees_fail, trees, volume_extents, volume_placed, written,
    WriterOptions,
};
use vstd::prelude::*;

verus! {

/// The sectors that the extent of `node` itself fills: the bytes of a file,
/// the records of a directory.
pub open spec fn own_extent(node: Node, sector_size: int, now: NumericalDate) -> Result<
    Seq<u8>,
    Error,
> {
    match node {
        Node::File { content, .. } => Ok(file_extent(content, sector_size)),
        Node::Directory { children, .. } => directory_extent(children, sector_size, now),
    }
}

/// Whether `image` holds `bytes` from the byte `at` on.
pub open spec fn holds_at(image: Seq<u8>, at: int, bytes: Seq<u8>) -> bool {
    &&& 0 <= at
    &&& at + bytes.len() <= image.len()
    &&& image.subrange(at, at + bytes.len()) == bytes
}

/// Whether `image` holds the extent of `node` at the sector that `node` has
/// as its address, and the extent of every entry below `node` at the sector
/// that this entry has.
pub open spec fn in_place(node: Node, image: Seq<u8>, sector_size: int, now: NumericalDate) -> bool
    decreases node, 0nat,
{
    match node.lba() {
        None => false,
        Some(lba) => {
            &&& match own_extent(node, sector_size, now) {
                Ok(bytes) => holds_at(image, lba * sector_size, bytes),
                Err(_) => false,
            }
            &&& match node {
                Node::File { .. } => true,
                Node::Directory { children, .. } => all_in_place(
                    children,
                    image,
                    sector_size,
                    now,
                    children.len(),
                ),
            }
        },
    }
}

/// Whether the first `k` of `children` and all below them are in place.
pub open spec fn all_in_place(
    children: Seq<Node>,
    image: Seq<u8>,
    sector_size: int,
    now: NumericalDate,
    k: nat,
) -> bool
    decreases children, k,
{
    if k == 0 || k > children.len() {
        true
    } else {
        all_in_place(children, image, sector_size, now, (k - 1) as nat) && in_place(
            children[k - 1],
            image,
            sector_size,
            now,
        )
    }
}

/// Of entries that are in place, each is.
pub proof fn lemma_each_in_place(
    children: Seq<Node>,
    image: Seq<u8>,
    sector_size: int,
    now: NumericalDate,
    k: nat,
    j: int,
)
    requires
        0 <= j < k <= children.len(),
        all_in_place(children, image, sector_size, now, k),
    ensures
        in_place(children[j], image, sector_size, now),
    decreases k,
{
    if j < k - 1 {
        lemma_each_in_place(children, image, sector_size, now, (k - 1) as nat, j);
    }
}

/// What holds a run of bytes holds its two parts, one after the other.
pub proof fn lemma_holds_both(image: Seq<u8>, at: int, first: Seq<u8>, second: Seq<u8>)
    requires
        holds_at(image, at, first + second),
    ensures
        holds_at(image, at, first),
        holds_at(image, at + first.len(), second),
{
    let whole = first + second;
    let part = image.subrange(at, at + whole.len());
    assert(image.subrange(at, at + first.len()) =~= part.subrange(0, first.len() as int));
    assert(whole.subrange(0, first.len() as int) =~= first);
    assert(image.subrange(at + first.len(), at + first.len() + second.len()) =~= part.subrange(
        first.len() as int,
        whole.len() as int,
    ));
    assert(whole.subrange(first.len() as int, whole.len() as int) =~= second);
}

/// Entries of the same names and kinds have records of the same sizes.
pub proof fn lemma_records_same(a: Seq<Node>, b: Seq<Node>, k: nat)
    requires
        k <= a.len(),
        k <= b.len(),
        forall|j: int|
            0 <= j < k ==> (#[trigger] a[j]).name() == b[j].name() && (a[j] is File) == (b[j] is File),
    ensures
        records_len(a, k) == records_len(b, k),
    decreases k,
{
    if k > 0 {
        lemma_records_same(a, b, (k - 1) as nat);
        assert(a[k - 1].name() == b[k - 1].name());
    }
}

/// Where the first `k` of `children` can be assigned addresses, fewer can,
/// and get the same.
pub proof fn lemma_assigned_prefix(
    children: Seq<Node>,
    cursor: int,
    sector_size: int,
    k: nat,
    n: nat,
)
    requires
        k <= n <= children.len(),
        assigned_first(children, cursor, sector_size, n) is Ok,
    ensures
        assigned_first(children, cursor, sector_size, k) is Ok,
        assigned_first(children, cursor, sector_size, n).unwrap().0.len() == n,
        assigned_first(children, cursor, sector_size, k).unwrap().0 == assigned_first(
            children,
            cursor,
            sector_size,
            n,
        ).unwrap().0.subrange(0, k as int),
    decreases n - k,
{
    lemma_assigned_count(children, cursor, sector_size, n);
    let all = assigned_first(children, cursor, sector_size, n).unwrap().0;
    if k < n {
        if assigned_first(children, cursor, sector_size, (n - 1) as nat) is Err {
            lemma_assigned_first_fails(children, cursor, sector_size, (n - 1) as nat, n);
        }
        lemma_assigned_prefix(children, cursor, sector_size, k, (n - 1) as nat);
        lemma_assigned_count(children, cursor, sector_size, (n - 1) as nat);
        let shorter = assigned_first(children, cursor, sector_size, (n - 1) as nat).unwrap().0;
        assert(all.subrange(0, n - 1) =~= shorter);
        assert(all.subrange(0, k as int) =~= shorter.subrange(0, k as int));
    } else {
        assert(all.subrange(0, n as int) =~= all);
    }
}

/// As many entries come out of the assignment as went in.
pub proof fn lemma_assigned_count(children: Seq<Node>, cursor: int, sector_size: int, k: nat)
    requires
        k <= children.len(),
        assigned_first(children, cursor, sector_size, k) is Ok,
    ensures
        assigned_first(children, cursor, sector_size, k).unwrap().0.len() == k,
    decreases k,
{
    if k > 0 {
        if assigned_first(children, cursor, sector_size, (k - 1) as nat) is Err {
            lemma_assigned_first_fails(children, cursor, sector_size, (k - 1) as nat, k);
        }
        lemma_assigned_count(children, cursor, sector_size, (k - 1) as nat);
    }
}

/// The assignment of addresses changes nothing but addresses: an entry keeps
/// its name, its kind and the size of its extent, it has no problem after as
/// it had none before, it gets the address of the cursor, and the cursor
/// moves on by the sectors of its extent and of all below it.
pub proof fn lemma_assigned_keeps(node: Node, cursor: int, sector_size: int)
    requires
        0 < sector_size,
        0 <= cursor,
        assigned(node, cursor, sector_size) is Ok,
    ensures
        ({
            let (placed, end) = assigned(node, cursor, sector_size).unwrap();
            &&& placed.name() == node.name()
            &&& (placed is File) == (node is File)
            &&& extent_size(placed) == extent_size(node)
            &&& problem(placed) is None
            &&& placed.lba() == Some(cursor as u32)
            &&& cursor <= u32::MAX
            &&& 0 <= sectors_for(extent_size(node), sector_size)
            &&& cursor + sectors_for(extent_size(node), sector_size) <= end <= u32::MAX
        }),
    decreases node, 0nat,
{
    let size = extent_size(node);
    match node {
        Node::File { content, .. } => {
            lemma_sectors_for(size, sector_size);
        },
        Node::Directory { children, .. } => {
            lemma_records_len(children, children.len());
            lemma_sectors_for(size, sector_size);
            let next = cursor + sectors_for(size, sector_size);
            lemma_assigned_first_keeps(children, next, sector_size, children.len());
            let placed = assigned_first(children, next, sector_size, children.len()).unwrap().0;
            lemma_records_same(placed, children, children.len());
        },
    }
}

/// The assignment of addresses to the first `k` of `children` keeps the
/// name and kind of each, and moves the cursor forward.
pub proof fn lemma_assigned_first_keeps(children: Seq<Node>, cursor: int, sector_size: int, k: nat)
    requires
        0 < sector_size,
        0 <= cursor <= u32::MAX,
        k <= children.len(),
        assigned_first(children, cursor, sector_size, k) is Ok,
    ensures
        ({
            let (placed, end) = assigned_first(children, cursor, sector_size, k).unwrap();
            &&& placed.len() == k
            &&& cursor <= end <= u32::MAX
            &&& forall|j: int|
                0 <= j < k ==> (#[trigger] placed[j]).name() == children[j].name() && (placed[j] is File)
                    == (children[j] is File)
        }),
    decreases children, k,
{
    if k > 0 {
        if assigned_first(children, cursor, sector_size, (k - 1) as nat) is Err {
            lemma_assigned_first_fails(children, cursor, sector_size, (k - 1) as nat, k);
        }
        lemma_assigned_first_keeps(children, cursor, sector_size, (k - 1) as nat);
        let (before, next) = assigned_first(children, cursor, sector_size, (k - 1) as nat).unwrap();
        lemma_assigned_keeps(children[k - 1], next, sector_size);
        let (child, end) = assigned(children[k - 1], next, sector_size).unwrap();
        let (placed, _) = assigned_first(children, cursor, sector_size, k).unwrap();
        assert(placed == before.push(child));
        assert forall|j: int| 0 <= j < k implies (#[trigger] placed[j]).name() == children[j].name()
            && (placed[j] is File) == (children[j] is File) by {
            if j < k - 1 {
                assert(placed[j] == before[j]);
            }
        }
    }
}

/// The extent of a directory fills its room: the sectors that hold its
/// records.
pub proof fn lemma_directory_extent_len(children: Seq<Node>, sector_size: int, now: NumericalDate)
    requires
        0 < sector_size,
        directory_extent(children, sector_size, now) is Ok,
    ensures
        directory_extent(children, sector_size, now).unwrap().len() == room_for(
            children,
            sector_size,
        ),
        room_for(children, sector_size) == sectors_for(
            records_len(children, children.len()),
            sector_size,
        ) * sector_size,
{
    let room = room_for(children, sector_size);
    lemma_records_len(children, children.len());
    lemma_sectors_for(records_len(children, children.len()), sector_size);
    let records = packed(children, sector_size, now, room, children.len()).unwrap();
    assert(records.len() <= room) by {
        if children.len() > 0 {
            let k = children.len();
            assert(packed(children, sector_size, now, room, (k - 1) as nat) is Ok);
        }
    }
}

/// The extent of a file fills the sectors that hold its bytes.
pub proof fn lemma_file_extent_len(content: Seq<u8>, sector_size: int)
    requires
        0 < sector_size,
    ensures
        file_extent(content, sector_size).len() == sectors_for(content.len() as int, sector_size)
            * sector_size,
{
    lemma_sectors_for(content.len() as int, sector_size);
}

/// The extents of a tree lie where its records say. Where an entry is
/// assigned addresses from the sector `cursor` on, and `image` holds the
/// sectors of the entry and of all below it from that sector on, the sectors
/// are as many as the cursor moved, and the entry and all below it are in
/// place: the extent of each starts at the sector that is its address.
pub proof fn lemma_extents_in_place(
    node: Node,
    cursor: int,
    sector_size: int,
    now: NumericalDate,
    image: Seq<u8>,
)
    requires
        0 < sector_size,
        0 <= cursor,
        assigned(node, cursor, sector_size) is Ok,
        extents(assigned(node, cursor, sector_size).unwrap().0, sector_size, now) is Ok,
        holds_at(
            image,
            cursor * sector_size,
            extents(assigned(node, cursor, sector_size).unwrap().0, sector_size, now).unwrap(),
        ),
    ensures
        extents(assigned(node, cursor, sector_size).unwrap().0, sector_size, now).unwrap().len() == (
        assigned(node, cursor, sector_size).unwrap().1 - cursor) * sector_size,
        in_place(assigned(node, cursor, sector_size).unwrap().0, image, sector_size, now),
    decreases node, 0nat,
{
    let (placed, end) = assigned(node, cursor, sector_size).unwrap();
    let bytes = extents(placed, sector_size, now).unwrap();
    lemma_assigned_keeps(node, cursor, sector_size);
    let sectors = sectors_for(extent_size(node), sector_size);
    let next = cursor + sectors;
    assert(next * sector_size == cursor * sector_size + sectors * sector_size)
        by (nonlinear_arith)
        requires
            next == cursor + sectors,
    ;
    match node {
        Node::File { content, .. } => {
            lemma_file_extent_len(content, sector_size);
            assert((end - cursor) * sector_size == sectors * sector_size);
        },
        Node::Directory { children, .. } => {
            let below_children = assigned_first(children, next, sector_size, children.len()).unwrap().0;
            let own = directory_extent(below_children, sector_size, now).unwrap();
            let below = extents_first(below_children, sector_size, now, below_children.len()).unwrap();
            assert(placed->Directory_children == below_children);
            assert(bytes == own + below);
            lemma_directory_extent_len(below_children, sector_size, now);
            lemma_assigned_count(children, next, sector_size, children.len());
            assert(own.len() == sectors * sector_size);
            lemma_holds_both(image, cursor * sector_size, own, below);
            lemma_children_in_place(children, next, sector_size, now, image, children.len());
            assert((end - cursor) * sector_size == sectors * sector_size + (end - next)
                * sector_size) by (nonlinear_arith)
                requires
                    next == cursor + sectors,
            ;
        },
    }
}

/// The same of the first `k` entries of a directory.
pub proof fn lemma_children_in_place(
    children: Seq<Node>,
    cursor: int,
    sector_size: int,
    now: NumericalDate,
    image: Seq<u8>,
    k: nat,
)
    requires
        0 < sector_size,
        0 <= cursor <= u32::MAX,
        k <= children.len(),
        assigned_first(children, cursor, sector_size, children.len()) is Ok,
        extents_first(
            assigned_first(children, cursor, sector_size, children.len()).unwrap().0,
            sector_size,
            now,
            k,
        ) is Ok,
        holds_at(
            image,
            cursor * sector_size,
            extents_first(
                assigned_first(children, cursor, sector_size, children.len()).unwrap().0,
                sector_size,
                now,
                k,
            ).unwrap(),
        ),
    ensures
        assigned_first(children, cursor, sector_size, k) is Ok,
        extents_first(
            assigned_first(children, cursor, sector_size, children.len()).unwrap().0,
            sector_size,
            now,
            k,
        ).unwrap().len() == (assigned_first(children, cursor, sector_size, k).unwrap().1 - cursor)
            * sector_size,
        all_in_place(
            assigned_first(children, cursor, sector_size, children.len()).unwrap().0,
            image,
            sector_size,
            now,
            k,
        ),
    decreases children, k,
{
    let n = children.len();
    let placed = assigned_first(children, cursor, sector_size, n).unwrap().0;
    lemma_assigned_prefix(children, cursor, sector_size, k, n);
    if k > 0 {
        lemma_assigned_prefix(children, cursor, sector_size, (k - 1) as nat, n);
        let (first, next) = assigned_first(children, cursor, sector_size, (k - 1) as nat).unwrap();
        let (child, end) = assigned(children[k - 1], next, sector_size).unwrap();
        let upto = assigned_first(children, cursor, sector_size, k).unwrap().0;
        assert(upto == first.push(child));
        assert(placed[k - 1] == upto[k - 1]);
        assert(placed[k - 1] == child);
        let before = extents_first(placed, sector_size, now, (k - 1) as nat).unwrap();
        let own = extents(placed[k - 1], sector_size, now).unwrap();
        assert(extents_first(placed, sector_size, now, k).unwrap() == before + own);
        lemma_holds_both(image, cursor * sector_size, before, own);
        lemma_children_in_place(children, cursor, sector_size, now, image, (k - 1) as nat);
        lemma_assigned_first_keeps(children, cursor, sector_size, (k - 1) as nat);
        assert(cursor * sector_size + (next - cursor) * sector_size == next * sector_size)
            by (nonlinear_arith);
        lemma_extents_in_place(children[k - 1], next, sector_size, now, image);
        assert((end - cursor) * sector_size == (next - cursor) * sector_size + (end - next)
            * sector_size) by (nonlinear_arith);
    } else {
        assert(0 == (cursor - cursor) * sector_size) by (nonlinear_arith);
    }
}

/// Whether `image` holds what `volume` fills where the volume says. Of a
/// primary volume: the extent of the root directory at the sector that the
/// volume names, and the extent of every entry below it at the sector that is
/// the address of the entry. Of a boot volume: the catalog, in a sector of
/// its own, at the sector that the volume names.
pub open spec fn volume_in_place(
    volume: VolumeModel,
    image: Seq<u8>,
    sector_size: int,
    now: NumericalDate,
) -> bool {
    match volume.root_lba {
        None => false,
        Some(lba) => match volume.boot {
            Some(catalog) => holds_at(
                image,
                lba * sector_size,
                in_sector(catalog.spec_bytes(), sector_size),
            ),
            None => {
                &&& match directory_extent(volume.children, sector_size, now) {
                    Ok(bytes) => holds_at(image, lba * sector_size, bytes),
                    Err(_) => false,
                }
                &&& all_in_place(volume.children, image, sector_size, now, volume.children.len())
            },
        },
    }
}

/// What a volume fills lies where the volume says. Where a volume is
/// assigned addresses from the sector `cursor` on, and `image` holds its
/// sectors from that sector on, the sectors are as many as the cursor moved,
/// and the volume is in place.
pub proof fn lemma_volume_in_place(
    volume: VolumeModel,
    cursor: int,
    sector_size: int,
    now: NumericalDate,
    image: Seq<u8>,
)
    requires
        2048 <= sector_size,
        0 <= cursor <= u32::MAX,
        volume_placed(volume, cursor, sector_size) is Ok,
        volume_extents(volume_placed(volume, cursor, sector_size).unwrap().0, sector_size, now) is Ok,
        holds_at(
            image,
            cursor * sector_size,
            volume_extents(
                volume_placed(volume, cursor, sector_size).unwrap().0,
                sector_size,
                now,
            ).unwrap(),
        ),
    ensures
        volume_extents(
            volume_placed(volume, cursor, sector_size).unwrap().0,
            sector_size,
            now,
        ).unwrap().len() == (volume_placed(volume, cursor, sector_size).unwrap().1 - cursor)
            * sector_size,
        cursor <= volume_placed(volume, cursor, sector_size).unwrap().1 <= u32::MAX,
        volume_placed(volume, cursor, sector_size).unwrap().0.root_lba == Some(cursor as u32),
        volume_placed(volume, cursor, sector_size).unwrap().0.boot == volume.boot,
        volume_in_place(
            volume_placed(volume, cursor, sector_size).unwrap().0,
            image,
            sector_size,
            now,
        ),
{
    let (placed, end) = volume_placed(volume, cursor, sector_size).unwrap();
    let bytes = volume_extents(placed, sector_size, now).unwrap();
    match volume.boot {
        Some(catalog) => {
            catalog.validation.lemma_reserved_zero();
            catalog.initial.lemma_reserved_zero();
            assert(bytes.len() == sector_size);
            assert((end - cursor) * sector_size == sector_size) by (nonlinear_arith)
                requires
                    end == cursor + 1,
            ;
        },
        None => {
            let children = volume.children;
            let size = records_len(children, children.len());
            lemma_records_len(children, children.len());
            lemma_sectors_for(size, sector_size);
            let start = cursor + sectors_for(size, sector_size);
            let below_children = assigned_first(children, start, sector_size, children.len()).unwrap().0;
            assert(placed.children == below_children);
            lemma_assigned_first_keeps(children, start, sector_size, children.len());
            lemma_records_same(below_children, children, children.len());
            lemma_directory_extent_len(below_children, sector_size, now);
            let root = directory_extent(below_children, sector_size, now).unwrap();
            let below = extents_first(below_children, sector_size, now, below_children.len()).unwrap();
            assert(bytes == root + below);
            lemma_holds_both(image, cursor * sector_size, root, below);
            assert(cursor * sector_size + sectors_for(size, sector_size) * sector_size == start
                * sector_size) by (nonlinear_arith)
                requires
                    start == cursor + sectors_for(size, sector_size),
            ;
            lemma_children_in_place(children, start, sector_size, now, image, children.len());
            assert((end - cursor) * sector_size == sectors_for(size, sector_size) * sector_size + (
            end - start) * sector_size) by (nonlinear_arith)
                requires
                    start == cursor + sectors_for(size, sector_size),
            ;
        },
    }
}

/// What a volume fills takes the sectors that the cursor moved over it.
pub proof fn lemma_volume_len(volume: VolumeModel, cursor: int, sector_size: int, now: NumericalDate)
    requires
        2048 <= sector_size,
        0 <= cursor <= u32::MAX,
        volume_placed(volume, cursor, sector_size) is Ok,
        volume_extents(volume_placed(volume, cursor, sector_size).unwrap().0, sector_size, now) is Ok,
    ensures
        volume_extents(
            volume_placed(volume, cursor, sector_size).unwrap().0,
            sector_size,
            now,
        ).unwrap().len() == (volume_placed(volume, cursor, sector_size).unwrap().1 - cursor)
            * sector_size,
        cursor <= volume_placed(volume, cursor, sector_size).unwrap().1 <= u32::MAX,
{
    let bytes = volume_extents(
        volume_placed(volume, cursor, sector_size).unwrap().0,
        sector_size,
        now,
    ).unwrap();
    let image = zeros((cursor * sector_size) as nat) + bytes;
    assert(0 <= cursor * sector_size) by (nonlinear_arith)
        requires
            0 <= cursor,
            0 < sector_size,
    ;
    assert(image.subrange(cursor * sector_size, cursor * sector_size + bytes.len()) =~= bytes);
    lemma_volume_in_place(volume, cursor, sector_size, now, image);
}

/// A volume can be assigned addresses only up to the last address.
pub proof fn lemma_volume_placed_bounds(volume: VolumeModel, cursor: int, sector_size: int)
    requires
        0 < sector_size,
        0 <= cursor <= u32::MAX,
        volume_placed(volume, cursor, sector_size) is Ok,
    ensures
        cursor <= volume_placed(volume, cursor, sector_size).unwrap().1 <= u32::MAX,
{
    if volume.boot is None {
        let children = volume.children;
        let size = records_len(children, children.len());
        lemma_records_len(children, children.len());
        lemma_sectors_for(size, sector_size);
        lemma_assigned_first_keeps(
            children,
            cursor + sectors_for(size, sector_size),
            sector_size,
            children.len(),
        );
    }
}

/// Where the first `n` of `volumes` can be laid out, fewer can, and get the
/// same addresses; the cursor stays within the addresses of 32 bits.
pub proof fn lemma_laid_out_prefix(
    volumes: Seq<VolumeModel>,
    cursor: int,
    sector_size: int,
    k: nat,
    n: nat,
)
    requires
        0 < sector_size,
        0 <= cursor <= u32::MAX,
        k <= n <= volumes.len(),
        laid_out(volumes, cursor, sector_size, n) is Ok,
    ensures
        laid_out(volumes, cursor, sector_size, k) is Ok,
        laid_out(volumes, cursor, sector_size, n).unwrap().0.len() == n,
        laid_out(volumes, cursor, sector_size, k).unwrap().0 == laid_out(
            volumes,
            cursor,
            sector_size,
            n,
        ).unwrap().0.subrange(0, k as int),
        cursor <= laid_out(volumes, cursor, sector_size, k).unwrap().1 <= laid_out(
            volumes,
            cursor,
            sector_size,
            n,
        ).unwrap().1 <= u32::MAX,
    decreases n,
{
    let all = laid_out(volumes, cursor, sector_size, n).unwrap().0;
    if n == 0 {
        assert(all.subrange(0, 0) =~= all);
    } else {
        if laid_out(volumes, cursor, sector_size, (n - 1) as nat) is Err {
            lemma_laid_out_fails(volumes, cursor, sector_size, (n - 1) as nat, n);
        }
        let (shorter, next) = laid_out(volumes, cursor, sector_size, (n - 1) as nat).unwrap();
        lemma_laid_out_prefix(volumes, cursor, sector_size, (n - 1) as nat, (n - 1) as nat);
        lemma_volume_placed_bounds(volumes[n - 1], next, sector_size);
        assert(all.subrange(0, n - 1) =~= shorter);
        if k < n {
            lemma_laid_out_prefix(volumes, cursor, sector_size, k, (n - 1) as nat);
            assert(all.subrange(0, k as int) =~= shorter.subrange(0, k as int));
        } else {
            assert(all.subrange(0, n as int) =~= all);
        }
    }
}

/// The descriptor that announces a volume takes 2048 bytes.
pub proof fn lemma_announcement_len(volume: VolumeModel, context: VolumeContext<'_>)
    requires
        announcement(volume, context) is Ok,
    ensures
        announcement(volume, context).unwrap().len() == 2048,
{
    match volume.boot {
        Some(_) => {
            boot_record(volume.root_lba, context.standard_identifier).lemma_layout();
        },
        None => {
            descriptor_of(volume, context).lemma_extent();
        },
    }
}

/// The descriptors of `k` volumes take `k` sectors.
pub proof fn lemma_descriptors_len(volumes: Seq<VolumeModel>, context: VolumeContext<'_>, k: nat)
    requires
        context.sector_size >= 2048,
        k <= volumes.len(),
        descriptors(volumes, context, k) is Ok,
    ensures
        descriptors(volumes, context, k).unwrap().len() == k * context.sector_size,
        k > 0 ==> descriptors(volumes, context, (k - 1) as nat) is Ok && announcement(
            volumes[k - 1],
            context,
        ) is Ok,
    decreases k,
{
    let sector_size = context.sector_size as int;
    if k > 0 {
        if descriptors(volumes, context, (k - 1) as nat) is Err {
            lemma_descriptors_fail(volumes, context, (k - 1) as nat, k);
        }
        lemma_descriptors_len(volumes, context, (k - 1) as nat);
        lemma_announcement_len(volumes[k - 1], context);
        assert((k - 1) * sector_size + sector_size == k * sector_size) by (nonlinear_arith);
    } else {
        assert(0 * sector_size == 0);
    }
}

/// The descriptors of `k` volumes take `k` sectors, and the descriptor of
/// each volume starts its sector.
pub proof fn lemma_descriptors_in_place(
    volumes: Seq<VolumeModel>,
    context: VolumeContext<'_>,
    k: nat,
    v: int,
)
    requires
        context.sector_size >= 2048,
        0 <= v < k <= volumes.len(),
        descriptors(volumes, context, k) is Ok,
    ensures
        descriptors(volumes, context, k).unwrap().len() == k * context.sector_size,
        announcement(volumes[v], context) is Ok,
        holds_at(
            descriptors(volumes, context, k).unwrap(),
            v * context.sector_size,
            announcement(volumes[v], context).unwrap(),
        ),
    decreases k,
{
    let sector_size = context.sector_size as int;
    lemma_descriptors_len(volumes, context, k);
    lemma_descriptors_len(volumes, context, (k - 1) as nat);
    let all = descriptors(volumes, context, k).unwrap();
    let before = descriptors(volumes, context, (k - 1) as nat).unwrap();
    let last = announcement(volumes[k - 1], context).unwrap();
    lemma_announcement_len(volumes[k - 1], context);
    assert(all == before + in_sector(last, sector_size));
    assert((k - 1) * sector_size + sector_size == k * sector_size) by (nonlinear_arith);
    if v == k - 1 {
        assert(all.subrange(v * sector_size, v * sector_size + last.len()) =~= last);
    } else {
        lemma_descriptors_in_place(volumes, context, (k - 1) as nat, v);
        let bytes = announcement(volumes[v], context).unwrap();
        lemma_announcement_len(volumes[v], context);
        assert((v + 1) * sector_size <= (k - 1) * sector_size) by (nonlinear_arith)
            requires
                v + 1 <= k - 1,
                0 < sector_size,
        ;
        assert(v * sector_size + sector_size == (v + 1) * sector_size) by (nonlinear_arith);
        assert(all.subrange(v * sector_size, v * sector_size + bytes.len()) =~= before.subrange(
            v * sector_size,
            v * sector_size + bytes.len(),
        ));
    }
}

/// What the first `k` volumes fill takes the sectors that the cursor moved
/// over these volumes.
pub proof fn lemma_trees_len(
    volumes: Seq<VolumeModel>,
    cursor: int,
    sector_size: int,
    now: NumericalDate,
    k: nat,
)
    requires
        2048 <= sector_size,
        0 <= cursor <= u32::MAX,
        k <= volumes.len(),
        laid_out(volumes, cursor, sector_size, volumes.len()) is Ok,
        trees(laid_out(volumes, cursor, sector_size, volumes.len()).unwrap().0, sector_size, now, k) is Ok,
    ensures
        laid_out(volumes, cursor, sector_size, k) is Ok,
        k > 0 ==> trees(
            laid_out(volumes, cursor, sector_size, volumes.len()).unwrap().0,
            sector_size,
            now,
            (k - 1) as nat,
        ) is Ok,
        k > 0 ==> laid_out(volumes, cursor, sector_size, (k - 1) as nat) is Ok && volume_placed(
            volumes[k - 1],
            laid_out(volumes, cursor, sector_size, (k - 1) as nat).unwrap().1,
            sector_size,
        ) == Ok::<(VolumeModel, int), Error>(
            (
                laid_out(volumes, cursor, sector_size, volumes.len()).unwrap().0[k - 1],
                laid_out(volumes, cursor, sector_size, k).unwrap().1,
            ),
        ),
        trees(
            laid_out(volumes, cursor, sector_size, volumes.len()).unwrap().0,
            sector_size,
            now,
            k,
        ).unwrap().len() == (laid_out(volumes, cursor, sector_size, k).unwrap().1 - cursor)
            * sector_size,
    decreases k,
{
    let n = volumes.len();
    let placed = laid_out(volumes, cursor, sector_size, n).unwrap().0;
    lemma_laid_out_prefix(volumes, cursor, sector_size, k, n);
    if k == 0 {
        assert(0 == (cursor - cursor) * sector_size) by (nonlinear_arith);
    } else {
        if trees(placed, sector_size, now, (k - 1) as nat) is Err {
            lemma_trees_fail(placed, sector_size, now, (k - 1) as nat, k);
        }
        lemma_trees_len(volumes, cursor, sector_size, now, (k - 1) as nat);
        lemma_laid_out_prefix(volumes, cursor, sector_size, (k - 1) as nat, n);
        let (first, next) = laid_out(volumes, cursor, sector_size, (k - 1) as nat).unwrap();
        let (upto, end) = laid_out(volumes, cursor, sector_size, k).unwrap();
        let (volume, after) = volume_placed(volumes[k - 1], next, sector_size).unwrap();
        assert(upto == first.push(volume));
        assert(placed[k - 1] == upto[k - 1]);
        assert(placed[k - 1] == volume);
        lemma_volume_len(volumes[k - 1], next, sector_size, now);
        assert((end - cursor) * sector_size == (next - cursor) * sector_size + (end - next)
            * sector_size) by (nonlinear_arith);
    }
}

/// What volumes fill lies where the volumes say. Where `volumes` are laid
/// out from the sector `cursor` on, and `image` holds what the first `k` of
/// them fill from that sector on, each of them is in place.
pub proof fn lemma_trees_in_place(
    volumes: Seq<VolumeModel>,
    cursor: int,
    sector_size: int,
    now: NumericalDate,
    image: Seq<u8>,
    k: nat,
    v: int,
)
    requires
        2048 <= sector_size,
        0 <= cursor <= u32::MAX,
        0 <= v < k <= volumes.len(),
        laid_out(volumes, cursor, sector_size, volumes.len()) is Ok,
        trees(laid_out(volumes, cursor, sector_size, volumes.len()).unwrap().0, sector_size, now, k) is Ok,
        holds_at(
            image,
            cursor * sector_size,
            trees(
                laid_out(volumes, cursor, sector_size, volumes.len()).unwrap().0,
                sector_size,
                now,
                k,
            ).unwrap(),
        ),
    ensures
        volume_in_place(
            laid_out(volumes, cursor, sector_size, volumes.len()).unwrap().0[v],
            image,
            sector_size,
            now,
        ),
        laid_out(volumes, cursor, sector_size, volumes.len()).unwrap().0[v].root_lba is Some,
        laid_out(volumes, cursor, sector_size, volumes.len()).unwrap().0[v].boot
            == volumes[v].boot,
    decreases k,
{
    let n = volumes.len();
    let placed = laid_out(volumes, cursor, sector_size, n).unwrap().0;
    lemma_laid_out_prefix(volumes, cursor, sector_size, k, n);
    lemma_trees_len(volumes, cursor, sector_size, now, k);
    lemma_trees_len(volumes, cursor, sector_size, now, (k - 1) as nat);
    let next = laid_out(volumes, cursor, sector_size, (k - 1) as nat).unwrap().1;
    let before = trees(placed, sector_size, now, (k - 1) as nat).unwrap();
    let own = volume_extents(placed[k - 1], sector_size, now).unwrap();
    assert(trees(placed, sector_size, now, k).unwrap() == before + own);
    lemma_holds_both(image, cursor * sector_size, before, own);
    if v < k - 1 {
        lemma_trees_in_place(volumes, cursor, sector_size, now, image, (k - 1) as nat, v);
    } else {
        lemma_laid_out_prefix(volumes, cursor, sector_size, (k - 1) as nat, n);
        assert(cursor * sector_size + (next - cursor) * sector_size == next * sector_size)
            by (nonlinear_arith);
        lemma_volume_in_place(volumes[k - 1], next, sector_size, now, image);
    }
}

/// The descriptor that announces a volume names the sector where the volume
/// lies: the boot record of a boot volume the sector of the catalog, the
/// descriptor of a primary volume the sector of the root directory, beside the
/// number of sectors of the image.
pub proof fn lemma_announcement_names(volume: VolumeModel, context: VolumeContext<'_>)
    requires
        volume.root_lba is Some,
        announcement(volume, context) is Ok,
    ensures
        match volume.boot {
            Some(_) => announcement(volume, context).unwrap() == boot_record(
                volume.root_lba,
                context.standard_identifier,
            ).spec_bytes() && boot_record(
                volume.root_lba,
                context.standard_identifier,
            ).boot_catalog_pointer == volume.root_lba.unwrap(),
            None => announcement(volume, context).unwrap() == descriptor_of(
                volume,
                context,
            ).spec_bytes() && descriptor_of(volume, context).volume_space_size
                == context.volume_space_size && descriptor_of(
                volume,
                context,
            ).root_directory_record.extent_location == volume.root_lba.unwrap(),
        },
{
}

/// In an image that was written, everything lies where something says it
/// does. The image has as many sectors as the cursor passed, which is the
/// number that the descriptors are written with; the descriptor of each
/// volume starts its sector, from sector 16 on; and the volume is in place:
/// the catalog of a boot volume lies at the sector of the volume, and so does
/// the extent of the root directory of a primary volume, with the extent of
/// every file and directory below it at the sector that its record names.
/// What the descriptor says of that sector, `lemma_announcement_names` has.
#[verifier::rlimit(40)]
pub proof fn lemma_written_in_place(
    volumes: Seq<VolumeModel>,
    options: WriterOptions,
    now: Timestamp,
    v: int,
)
    requires
        0 <= v < volumes.len(),
        written(volumes, options, now) is Ok,
    ensures
        ({
            let (placed, image) = written(volumes, options, now).unwrap();
            let sector_size = options.sector_size as int;
            let sectors = laid_out(
                volumes,
                first_lba(volumes.len() as int),
                sector_size,
                volumes.len(),
            ).unwrap().1;
            let context = VolumeContext {
                sector_size: options.sector_size as u32,
                standard_identifier: StandardIdentifier::Cd001,
                now,
                volume_space_size: sectors as u32,
                metadata: &options.metadata,
            };
            &&& placed.len() == volumes.len()
            &&& 0 <= sectors <= u32::MAX
            &&& image.len() == sectors * sector_size
            &&& announcement(placed[v], context) is Ok
            &&& holds_at(image, (16 + v) * sector_size, announcement(placed[v], context).unwrap())
            &&& placed[v].root_lba is Some
            &&& volume_in_place(
                placed[v],
                image,
                sector_size,
                NumericalDate::spec_from_timestamp(now),
            )
        }),
{
    let n = volumes.len();
    let (placed, image) = written(volumes, options, now).unwrap();
    let sector_size = options.sector_size as int;
    let first = first_lba(n as int);
    let date = NumericalDate::spec_from_timestamp(now);
    let (laid, sectors) = laid_out(volumes, first, sector_size, n).unwrap();
    let context = VolumeContext {
        sector_size: options.sector_size as u32,
        standard_identifier: StandardIdentifier::Cd001,
        now,
        volume_space_size: sectors as u32,
        metadata: &options.metadata,
    };
    assert(placed == laid);
    lemma_laid_out_prefix(volumes, first, sector_size, n, n);
    let announced = descriptors(placed, context, n).unwrap();
    let below = trees(placed, sector_size, date, n).unwrap();
    let terminator = in_sector(VolumeDescriptorSetTerminator.spec_bytes(), sector_size);
    let system = zeros((16 * sector_size) as nat);
    assert(image == system + announced + terminator + below);
    lemma_descriptors_in_place(placed, context, n, v);
    lemma_trees_len(volumes, first, sector_size, date, n);
    assert(terminator.len() == sector_size);
    assert(16 * sector_size + n * sector_size + sector_size == first * sector_size)
        by (nonlinear_arith)
        requires
            first == 16 + n + 1,
    ;
    assert(first * sector_size + (sectors - first) * sector_size == sectors * sector_size)
        by (nonlinear_arith);
    assert(image.subrange(first * sector_size, first * sector_size + below.len()) =~= below);
    lemma_trees_in_place(volumes, first, sector_size, date, image, n, v);
    let bytes = announcement(placed[v], context).unwrap();
    lemma_announcement_len(placed[v], context);
    assert(16 * sector_size + v * sector_size == (16 + v) * sector_size) by (nonlinear_arith);
    assert((v + 1) * sector_size <= n * sector_size) by (nonlinear_arith)
        requires
            v + 1 <= n,
            0 < sector_size,
    ;
    assert(v * sector_size + sector_size == (v + 1) * sector_size) by (nonlinear_arith);
    assert(image.subrange((16 + v) * sector_size, (16 + v) * sector_size + bytes.len())
        =~= announced.subrange(v * sector_size, v * sector_size + bytes.len()));
}

/// The record of an entry lies in the extent of its directory and says
/// where the entry lies. Where `image` holds the extent of a directory with
/// the entries `children` at the sector `lba`, and the entries are in place,
/// the record of each entry stands in that extent where `record_start` says,
/// within one sector; it names the sector and the length of the extent of the
/// entry; and `image` holds the bytes of a file at the sector that its record
/// names, followed by zeros to the end of its last sector.
pub proof fn lemma_record_in_place(
    children: Seq<Node>,
    lba: int,
    sector_size: int,
    now: NumericalDate,
    image: Seq<u8>,
    j: int,
)
    requires
        2048 <= sector_size,
        0 <= lba,
        0 <= j < children.len(),
        directory_extent(children, sector_size, now) is Ok,
        holds_at(image, lba * sector_size, directory_extent(children, sector_size, now).unwrap()),
        all_in_place(children, image, sector_size, now, children.len()),
    ensures
        ({
            let record = record_of(children[j], now);
            let start = record_start(
                children,
                sector_size,
                now,
                room_for(children, sector_size),
                j as nat,
            );
            &&& 0 <= start
            &&& start / sector_size == (start + record.spec_bytes().len() - 1) / sector_size
            &&& holds_at(image, lba * sector_size + start, record.spec_bytes())
            &&& children[j].lba() == Some(record.extent_location)
            &&& record.data_length == extent_size(children[j])
            &&& match children[j] {
                Node::File { content, .. } => holds_at(
                    image,
                    record.extent_location * sector_size,
                    file_extent(content, sector_size),
                ) && holds_at(image, record.extent_location * sector_size, content),
                Node::Directory { children: below, .. } => directory_extent(
                    below,
                    sector_size,
                    now,
                ) is Ok && holds_at(
                    image,
                    record.extent_location * sector_size,
                    directory_extent(below, sector_size, now).unwrap(),
                ),
            }
        }),
{
    lemma_record_held(children, lba, sector_size, now, image, j);
    lemma_record_names(children, sector_size, now, image, j);
}

/// The record of an entry stands in the extent of its directory where
/// `record_start` says, within one sector.
proof fn lemma_record_held(
    children: Seq<Node>,
    lba: int,
    sector_size: int,
    now: NumericalDate,
    image: Seq<u8>,
    j: int,
)
    requires
        2048 <= sector_size,
        0 <= lba,
        0 <= j < children.len(),
        directory_extent(children, sector_size, now) is Ok,
        holds_at(image, lba * sector_size, directory_extent(children, sector_size, now).unwrap()),
    ensures
        ({
            let bytes = record_of(children[j], now).spec_bytes();
            let start = record_start(
                children,
                sector_size,
                now,
                room_for(children, sector_size),
                j as nat,
            );
            &&& 0 <= start
            &&& start / sector_size == (start + bytes.len() - 1) / sector_size
            &&& holds_at(image, lba * sector_size + start, bytes)
            &&& problem(children[j]) is None
        }),
{
    let n = children.len();
    let room = room_for(children, sector_size);
    let extent = directory_extent(children, sector_size, now).unwrap();
    let all = packed(children, sector_size, now, room, n).unwrap();
    let bytes = record_of(children[j], now).spec_bytes();
    let start = record_start(children, sector_size, now, room, j as nat);
    lemma_no_record_crosses(children, sector_size, now, room, j as nat);
    lemma_packed_prefix(children, sector_size, now, room, (j + 1) as nat, n);
    lemma_packed_prefix(children, sector_size, now, room, j as nat, n);
    assert(problem(children[j]) is None);
    assert(extent == all + zeros((room - all.len()) as nat));
    assert(extent.subrange(start, start + bytes.len()) =~= all.subrange(
        start,
        start + bytes.len(),
    ));
    let part = image.subrange(lba * sector_size, lba * sector_size + extent.len());
    assert(image.subrange(lba * sector_size + start, lba * sector_size + start + bytes.len())
        =~= part.subrange(start, start + bytes.len()));
    assert(0 <= lba * sector_size) by (nonlinear_arith)
        requires
            0 <= lba,
            0 < sector_size,
    ;
}

/// The record of an entry that is in place and has no problem names the
/// sector and the length of the extent of the entry, and the image holds
/// there the bytes of a file and the records of a directory.
proof fn lemma_record_names(
    children: Seq<Node>,
    sector_size: int,
    now: NumericalDate,
    image: Seq<u8>,
    j: int,
)
    requires
        2048 <= sector_size,
        0 <= j < children.len(),
        problem(children[j]) is None,
        all_in_place(children, image, sector_size, now, children.len()),
    ensures
        ({
            let record = record_of(children[j], now);
            &&& children[j].lba() == Some(record.extent_location)
            &&& record.data_length == extent_size(children[j])
            &&& match children[j] {
                Node::File { content, .. } => holds_at(
                    image,
                    record.extent_location * sector_size,
                    file_extent(content, sector_size),
                ) && holds_at(image, record.extent_location * sector_size, content),
                Node::Directory { children: below, .. } => directory_extent(
                    below,
                    sector_size,
                    now,
                ) is Ok && holds_at(
                    image,
                    record.extent_location * sector_size,
                    directory_extent(below, sector_size, now).unwrap(),
                ),
            }
        }),
{
    lemma_each_in_place(children, image, sector_size, now, children.len(), j);
    let record = record_of(children[j], now);
    match children[j] {
        Node::File { content, .. } => {
            let padded = file_extent(content, sector_size);
            let at = record.extent_location * sector_size;
            lemma_sectors_for(content.len() as int, sector_size);
            assert(image.subrange(at, at + content.len()) =~= image.subrange(
                at,
                at + padded.len(),
            ).subrange(0, content.len() as int));
            assert(padded.subrange(0, content.len() as int) =~= content);
        },
        Node::Directory { children: below, .. } => {
            lemma_records_len(below, below.len());
        },
    }
}

/// In an image that was written, the root directory of a primary volume
/// names its entries: the record of each entry of the root stands in the
/// extent of the root, which lies at the sector that the descriptor of the
/// volume names, and what the record says of the place and length of the
/// entry is so. See `lemma_record_in_place` for what is stated of the record.
pub proof fn lemma_written_root_records(
    volumes: Seq<VolumeModel>,
    options: WriterOptions,
    now: Timestamp,
    v: int,
    j: int,
)
    requires
        0 <= v < volumes.len(),
        volumes[v].boot is None,
        written(volumes, options, now) is Ok,
        0 <= j < written(volumes, options, now).unwrap().0[v].children.len(),
    ensures
        ({
            let (placed, image) = written(volumes, options, now).unwrap();
            let sector_size = options.sector_size as int;
            let date = NumericalDate::spec_from_timestamp(now);
            let children = placed[v].children;
            let record = record_of(children[j], date);
            let start = record_start(
                children,
                sector_size,
                date,
                room_for(children, sector_size),
                j as nat,
            );
            &&& placed[v].root_lba is Some
            &&& holds_at(
                image,
                placed[v].root_lba.unwrap() * sector_size + start,
                record.spec_bytes(),
            )
            &&& children[j].lba() == Some(record.extent_location)
            &&& record.data_length == extent_size(children[j])
            &&& children[j] matches Node::File { content, .. } ==> holds_at(
                image,
                record.extent_location * sector_size,
                content,
            )
        }),
{
    let (placed, image) = written(volumes, options, now).unwrap();
    let sector_size = options.sector_size as int;
    let date = NumericalDate::spec_from_timestamp(now);
    lemma_written_in_place(volumes, options, now, v);
    lemma_written_keeps_kind(volumes, options, now, v);
    lemma_record_in_place(
        placed[v].children,
        placed[v].root_lba.unwrap() as int,
        sector_size,
        date,
        image,
        j,
    );
}

/// Writing leaves a volume the kind that it had.
pub proof fn lemma_written_keeps_kind(
    volumes: Seq<VolumeModel>,
    options: WriterOptions,
    now: Timestamp,
    v: int,
)
    requires
        0 <= v < volumes.len(),
        written(volumes, options, now) is Ok,
    ensures
        written(volumes, options, now).unwrap().0.len() == volumes.len(),
        written(volumes, options, now).unwrap().0[v].boot == volumes[v].boot,
{
    let n = volumes.len();
    let sector_size = options.sector_size as int;
    let first = first_lba(n as int);
    let date = NumericalDate::spec_from_timestamp(now);
    let (placed, sectors) = laid_out(volumes, first, sector_size, n).unwrap();
    let context = VolumeContext {
        sector_size: options.sector_size as u32,
        standard_identifier: StandardIdentifier::Cd001,
        now,
        volume_space_size: sectors as u32,
        metadata: &options.metadata,
    };
    lemma_laid_out_prefix(volumes, first, sector_size, n, n);
    let below = trees(placed, sector_size, date, n).unwrap();
    let image = zeros((first * sector_size) as nat) + below;
    assert(0 <= first * sector_size) by (nonlinear_arith)
        requires
            0 <= first,
            0 < sector_size,
    ;
    assert(image.subrange(first * sector_size, first * sector_size + below.len()) =~= below);
    lemma_trees_in_place(volumes, first, sector_size, date, image, n, v);
}

/// The record of an entry with a name holds the identifier of the entry:
/// its name in upper case, and for a file the version `;1`. The record can
/// stand on disk, it starts with its length, which is not zero, and it is
/// neither the record `.` nor the record `..`.
pub proof fn lemma_record_identifier(node: Node, now: NumericalDate)
    requires
        node.name().len() > 0,
    ensures
        ({
            let record = record_of(node, now);
            let id = identifier(node.name(), node is File);
            &&& 1 <= id.len() <= 32
            &&& record.file_identifier_length == id.len()
            &&& record_identifier(record) == id
            &&& record.wf()
            &&& record.length >= 34
            &&& record.spec_bytes().len() == record.length
            &&& record.spec_bytes()[0] == record.length
            &&& !is_dot(record)
        }),
{
    let record = record_of(node, now);
    let id = identifier(node.name(), node is File);
    let held = crate::spec::fit(id, 32, 0);
    crate::bytes::lemma_array_of_view::<32>(held);
    assert(record.file_identifier.0@ == held);
    assert(record_identifier(record) =~= id);
    assert(id[0] == iso_byte(node.name()[0]));
    assert(id[0] >= 46);
    record.lemma_layout();
}

/// What the writer writes, the reader reads. Where `image` holds the extent
/// of a directory with the entries `children` at the sector `lba`, in sectors
/// of 2048 bytes, and a walk through that directory stands where the record
/// of an entry starts, before the length that the record of the directory
/// gives, its step on the sector of that place hands out the record of that
/// entry and moves the walk past it. An entry that is a directory at the
/// place of the directory itself would be passed over, so none is.
pub proof fn lemma_step_reads_record(
    directory: DirectoryRecord<NoExtension>,
    children: Seq<Node>,
    now: NumericalDate,
    image: Seq<u8>,
    j: int,
)
    requires
        0 <= j < children.len(),
        directory_extent(children, 2048, now) is Ok,
        holds_at(
            image,
            directory.extent_location * 2048,
            directory_extent(children, 2048, now).unwrap(),
        ),
        record_start(children, 2048, now, room_for(children, 2048), j as nat)
            < directory.data_length,
        children[j] is File || record_of(children[j], now).extent_location
            != directory.extent_location,
    ensures
        ({
            let record = record_of(children[j], now);
            let start = record_start(children, 2048, now, room_for(children, 2048), j as nat);
            let index = directory.extent_location + start / 2048;
            &&& 0 <= start
            &&& (index + 1) * 2048 <= image.len()
            &&& spec_step(directory, start as u64, image.subrange(index * 2048, (index + 1) * 2048))
                == Step::<NoExtension>::Entry { record, offset: (start + record.length) as u64 }
        }),
{
    let record = record_of(children[j], now);
    let start = record_start(children, 2048, now, room_for(children, 2048), j as nat);
    lemma_record_sector(directory.extent_location as int, children, now, image, j);
    lemma_record_identifier(children[j], now);
    let index = directory.extent_location + start / 2048;
    let sector = image.subrange(index * 2048, (index + 1) * 2048);
    let rest = sector.subrange(start % 2048 + record.spec_bytes().len(), 2048);
    assert(record.file_flags.spec_is_directory() ==> !(children[j] is File)) by {
        assert(0u8 & 0x02 != 0x02) by (bit_vector);
    }
    lemma_step_on_record(directory, record, start, sector, rest);
}

/// A record that stands whole in the sector of a walk, at the place of the
/// walk, is what the step of the walk hands out.
proof fn lemma_step_on_record(
    directory: DirectoryRecord<NoExtension>,
    record: DirectoryRecord<NoExtension>,
    start: int,
    sector: Seq<u8>,
    rest: Seq<u8>,
)
    requires
        0 <= start < directory.data_length,
        sector.len() == 2048,
        sector.subrange(start % 2048, 2048) == record.spec_bytes() + rest,
        record.wf(),
        record.length >= 34,
        record.spec_bytes().len() == record.length,
        record.spec_bytes()[0] == record.length,
        !is_dot(record),
        !(record.file_flags.spec_is_directory() && record.extent_location
            == directory.extent_location),
    ensures
        spec_step(directory, start as u64, sector) == (Step::<NoExtension>::Entry {
            record,
            offset: (start + record.length) as u64,
        }),
{
    let at = start % 2048;
    record.lemma_round_trip(rest);
    assert(sector.subrange(at, sector.len() as int) == record.spec_bytes() + rest);
    assert(sector[at] == sector.subrange(at, 2048)[0]);
    assert((record.spec_bytes() + rest)[0] == record.spec_bytes()[0]);
}

/// The record of an entry stands whole in one sector of the image.
proof fn lemma_record_sector(
    lba: int,
    children: Seq<Node>,
    now: NumericalDate,
    image: Seq<u8>,
    j: int,
)
    requires
        0 <= lba,
        0 <= j < children.len(),
        directory_extent(children, 2048, now) is Ok,
        holds_at(image, lba * 2048, directory_extent(children, 2048, now).unwrap()),
    ensures
        ({
            let bytes = record_of(children[j], now).spec_bytes();
            let start = record_start(children, 2048, now, room_for(children, 2048), j as nat);
            let index = lba + start / 2048;
            let sector = image.subrange(index * 2048, (index + 1) * 2048);
            &&& 0 <= start
            &&& (index + 1) * 2048 <= image.len()
            &&& sector.len() == 2048
            &&& start % 2048 + bytes.len() <= 2048
            &&& sector.subrange(start % 2048, 2048) == bytes + sector.subrange(
                start % 2048 + bytes.len(),
                2048,
            )
            &&& problem(children[j]) is None
        }),
{
    let room = room_for(children, 2048);
    let extent = directory_extent(children, 2048, now).unwrap();
    let bytes = record_of(children[j], now).spec_bytes();
    let start = record_start(children, 2048, now, room, j as nat);
    lemma_record_held(children, lba, 2048, now, image, j);
    lemma_directory_extent_len(children, 2048, now);
    lemma_records_len(children, children.len());
    lemma_sectors_for(records_len(children, children.len()), 2048);
    lemma_no_record_crosses(children, 2048, now, room, j as nat);
    record_of(children[j], now).lemma_extent();
    let all = packed(children, 2048, now, room, children.len()).unwrap();
    assert(start + bytes.len() <= all.len() <= room);
    assert(extent.len() == room);
    lemma_sector_holds(image, lba, room, start, bytes);
}

/// The sector that holds the start of a run of bytes which crosses no sector
/// boundary holds all of the run.
proof fn lemma_sector_holds(image: Seq<u8>, lba: int, room: int, start: int, bytes: Seq<u8>)
    requires
        0 <= lba,
        0 <= start,
        bytes.len() > 0,
        room % 2048 == 0,
        start + bytes.len() <= room,
        lba * 2048 + room <= image.len(),
        holds_at(image, lba * 2048 + start, bytes),
        start / 2048 == (start + bytes.len() - 1) / 2048,
    ensures
        ({
            let index = lba + start / 2048;
            let at = start % 2048;
            let sector = image.subrange(index * 2048, (index + 1) * 2048);
            &&& (index + 1) * 2048 <= image.len()
            &&& at + bytes.len() <= 2048
            &&& sector.len() == 2048
            &&& sector.subrange(at, 2048) == bytes + sector.subrange(at + bytes.len(), 2048)
        }),
{
    let len = bytes.len() as int;
    let q = start / 2048;
    let at = start % 2048;
    let index = lba + q;
    let sector = image.subrange(index * 2048, (index + 1) * 2048);
    let run = image.subrange(lba * 2048 + start, lba * 2048 + start + len);
    assert forall|i: int| 0 <= i < len implies sector[at + i] == bytes[i] by {
        assert(run[i] == bytes[i]);
    }
    assert(sector.subrange(at, 2048) =~= bytes + sector.subrange(at + len, 2048));
}

/// What the writer announces, the scan finds. In an image that was written
/// with sectors of 2048 bytes, the step of a scan on the sector of the
/// descriptor of a primary volume offers that descriptor to the slots and
/// goes on, and its step on the sector after the last descriptor, which
/// holds the terminator of the set, stops.
pub proof fn lemma_scan_reads_descriptor(
    volumes: Seq<VolumeModel>,
    options: WriterOptions,
    now: Timestamp,
    v: int,
    slots: Slots,
    extensions: Extensions,
)
    requires
        0 <= v < volumes.len(),
        volumes[v].boot is None,
        options.sector_size == 2048,
        written(volumes, options, now) is Ok,
    ensures
        ({
            let (placed, image) = written(volumes, options, now).unwrap();
            let sectors = laid_out(volumes, first_lba(volumes.len() as int), 2048, volumes.len()).unwrap().1;
            let context = VolumeContext {
                sector_size: 2048,
                standard_identifier: StandardIdentifier::Cd001,
                now,
                volume_space_size: sectors as u32,
                metadata: &options.metadata,
            };
            let last = 16 + volumes.len() as int;
            &&& (last + 1) * 2048 <= image.len()
            &&& spec_scan_step(
                slots,
                extensions,
                image.subrange((16 + v) * 2048, (16 + v + 1) * 2048),
                2048,
            ) == (Scan::GoOn {
                slots: slots.spec_accept(
                    extensions,
                    VolumeDescriptor::Primary(descriptor_of(placed[v], context)),
                ),
            })
            &&& spec_scan_step(slots, extensions, image.subrange(last * 2048, (last + 1) * 2048), 2048)
                == Scan::Stop
        }),
{
    let n = volumes.len();
    let (placed, image) = written(volumes, options, now).unwrap();
    let sectors = laid_out(volumes, first_lba(n as int), 2048, n).unwrap().1;
    let context = VolumeContext {
        sector_size: 2048,
        standard_identifier: StandardIdentifier::Cd001,
        now,
        volume_space_size: sectors as u32,
        metadata: &options.metadata,
    };
    lemma_descriptor_sectors(volumes, options, now, v);
    lemma_written_keeps_kind(volumes, options, now, v);
    lemma_descriptor_wf(placed[v], context);
    lemma_scan_step_on_descriptor(descriptor_of(placed[v], context), slots, extensions);
}

/// The descriptor of a primary volume that passes its check is well formed.
proof fn lemma_descriptor_wf(volume: VolumeModel, context: VolumeContext<'_>)
    requires
        volume.boot is None,
        context.standard_identifier == StandardIdentifier::Cd001,
        announcement(volume, context) is Ok,
    ensures
        descriptor_of(volume, context).wf(),
{
}

/// The step of a scan on the bytes of a descriptor that is well formed
/// offers the descriptor to the slots; on those of the terminator it stops.
#[verifier::rlimit(50)]
proof fn lemma_scan_step_on_descriptor(
    descriptor: crate::spec::PrimaryVolumeDescriptor,
    slots: Slots,
    extensions: Extensions,
)
    requires
        descriptor.wf(),
    ensures
        spec_scan_step(slots, extensions, descriptor.spec_bytes(), 2048) == (Scan::GoOn {
            slots: slots.spec_accept(extensions, VolumeDescriptor::Primary(descriptor)),
        }),
        spec_scan_step(slots, extensions, VolumeDescriptorSetTerminator.spec_bytes(), 2048)
            == Scan::Stop,
{
    let b = descriptor.spec_bytes();
    assert(b.len() == 2048) by {
        descriptor.lemma_extent();
    }
    assert(b[0] == 1) by {
        descriptor.lemma_front_layout();
        descriptor.lemma_extent();
        assert(b[0] == b.subrange(0, 156)[0]);
    }
    assert(crate::spec::PrimaryVolumeDescriptor::spec_parse(b) == Ok::<
        (crate::spec::PrimaryVolumeDescriptor, int),
        IsoParseError,
    >((descriptor, 2048))) by {
        descriptor.lemma_round_trip(Seq::<u8>::empty());
        assert(b + Seq::<u8>::empty() =~= b);
    }
    let t = VolumeDescriptorSetTerminator.spec_bytes();
    assert(t.len() == 2048 && t[0] == 255) by {
        VolumeDescriptorSetTerminator.lemma_reserved_zero();
    }
}

/// In an image that was written with sectors of 2048 bytes, the sector of
/// the descriptor of a primary volume holds the bytes of the descriptor, and
/// the sector after the last descriptor those of the terminator.
proof fn lemma_descriptor_sectors(
    volumes: Seq<VolumeModel>,
    options: WriterOptions,
    now: Timestamp,
    v: int,
)
    requires
        0 <= v < volumes.len(),
        volumes[v].boot is None,
        options.sector_size == 2048,
        written(volumes, options, now) is Ok,
    ensures
        ({
            let (placed, image) = written(volumes, options, now).unwrap();
            let sectors = laid_out(volumes, first_lba(volumes.len() as int), 2048, volumes.len()).unwrap().1;
            let context = VolumeContext {
                sector_size: 2048,
                standard_identifier: StandardIdentifier::Cd001,
                now,
                volume_space_size: sectors as u32,
                metadata: &options.metadata,
            };
            let last = 16 + volumes.len() as int;
            &&& (last + 1) * 2048 <= image.len()
            &&& announcement(placed[v], context) is Ok
            &&& image.subrange((16 + v) * 2048, (16 + v + 1) * 2048) == descriptor_of(
                placed[v],
                context,
            ).spec_bytes()
            &&& image.subrange(last * 2048, (last + 1) * 2048)
                == VolumeDescriptorSetTerminator.spec_bytes()
        }),
{
    let n = volumes.len();
    let m = n as int;
    let (placed, image) = written(volumes, options, now).unwrap();
    let sectors = laid_out(volumes, first_lba(n as int), 2048, n).unwrap().1;
    let context = VolumeContext {
        sector_size: 2048,
        standard_identifier: StandardIdentifier::Cd001,
        now,
        volume_space_size: sectors as u32,
        metadata: &options.metadata,
    };
    lemma_written_in_place(volumes, options, now, v);
    lemma_written_keeps_kind(volumes, options, now, v);
    let bytes = announcement(placed[v], context).unwrap();
    lemma_announcement_len(placed[v], context);
    assert(bytes == descriptor_of(placed[v], context).spec_bytes());
    assert(image.subrange((16 + v) * 2048, (16 + v + 1) * 2048) =~= image.subrange(
        (16 + v) * 2048,
        (16 + v) * 2048 + bytes.len(),
    ));
    lemma_terminator_sector(volumes, options, now);
}

/// In an image that was written with sectors of 2048 bytes, the sector
/// after the last descriptor holds the terminator of the set.
#[verifier::rlimit(50)]
proof fn lemma_terminator_sector(volumes: Seq<VolumeModel>, options: WriterOptions, now: Timestamp)
    requires
        options.sector_size == 2048,
        written(volumes, options, now) is Ok,
    ensures
        ({
            let image = written(volumes, options, now).unwrap().1;
            let last = 16 + volumes.len() as int;
            &&& (last + 1) * 2048 <= image.len()
            &&& image.subrange(last * 2048, (last + 1) * 2048)
                == VolumeDescriptorSetTerminator.spec_bytes()
        }),
{
    let n = volumes.len();
    let m = n as int;
    let (placed, image) = written(volumes, options, now).unwrap();
    let sectors = laid_out(volumes, first_lba(n as int), 2048, n).unwrap().1;
    let context = VolumeContext {
        sector_size: 2048,
        standard_identifier: StandardIdentifier::Cd001,
        now,
        volume_space_size: sectors as u32,
        metadata: &options.metadata,
    };
    lemma_laid_out_prefix(volumes, first_lba(n as int), 2048, n, n);
    lemma_descriptors_len(placed, context, n);
    let announced = descriptors(placed, context, n).unwrap();
    let terminator = in_sector(VolumeDescriptorSetTerminator.spec_bytes(), 2048);
    let below = trees(placed, 2048, NumericalDate::spec_from_timestamp(now), n).unwrap();
    let head = zeros((16 * 2048) as nat) + announced;
    let t = VolumeDescriptorSetTerminator.spec_bytes();
    assert(t.len() == 2048) by {
        VolumeDescriptorSetTerminator.lemma_reserved_zero();
    }
    assert(terminator =~= t);
    assert(image == head + t + below);
    assert(head.len() == (16 + m) * 2048);
    lemma_middle(head, t, below);
}

/// Between what stands before and what stands after it, a run of bytes is
/// where the bytes before it end.
proof fn lemma_middle(head: Seq<u8>, middle: Seq<u8>, tail: Seq<u8>)
    ensures
        (head + middle + tail).subrange(head.len() as int, (head.len() + middle.len()) as int) == middle,
        head.len() + middle.len() <= (head + middle + tail).len(),
{
    assert((head + middle + tail).subrange(head.len() as int, (head.len() + middle.len()) as int)
        =~= middle);
}

} // verus!
