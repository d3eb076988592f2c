//! Writing an image: a tree of files, the allocation of their sectors, and
//! the bytes of the finished image.

pub mod entry;
pub mod error;
pub mod fs;
pub mod layout;
pub mod lba;
pub mod sector;
pub mod metadata;
pub mod placement;
pub mod volume;

use crate::bytes::zeros;
use crate::serialize::IsoSerialize;
use crate::spec::{NumericalDate, StandardIdentifier, VolumeDescriptorSetTerminator};
use crate::writer::error::Error;
use crate::writer::fs::Node;
use crate::writer::layout::{emit_tree, push_zeros, tree_extents};
use crate::writer::lba::LbaAllocator;
use crate::writer::metadata::WriterMetadata;
use crate::writer::volume::{
    assigned_root, boot_record, descriptor_of, utc_now, Timestamp, Volume, VolumeContext,
    VolumeLike, VolumeModel,
};
use vstd::prelude::*;

verus! {

/// The standard that an image follows.
#[derive(Debug, Clone, Copy, PartialEq, Eq)]
pub enum Standard {
    Iso9660,
}

impl Standard {
    /// The identifier that the descriptors of the standard carry.
    pub fn standard_identifier(&self) -> (r: StandardIdentifier)
        ensures
            r == StandardIdentifier::Cd001,
    {
        match self {
            Standard::Iso9660 => StandardIdentifier::Cd001,
        }
    }
}

/// How an image is written.
pub struct WriterOptions {
    pub sector_size: u16,
    pub standard: Standard,
    pub metadata: WriterMetadata,
}

impl WriterOptions {
    /// Sectors of 2048 bytes, ISO 9660, and metadata that say nothing.
    pub fn new() -> (r: Self)
        ensures
            r.sector_size == 2048,
            r.standard == Standard::Iso9660,
            r.metadata.spec_publisher() is None,
            r.metadata.spec_data_preparer() is None,
            r.metadata.spec_application() is None,
            r.metadata.spec_copyright_file() is None,
            r.metadata.spec_abstract_file() is None,
    {
        WriterOptions {
            sector_size: 2048,
            standard: Standard::Iso9660,
            metadata: WriterMetadata::new(),
        }
    }
}

impl Default for WriterOptions {
    /// The same as `new`.
    fn default() -> (r: Self)
        ensures
            r.sector_size == 2048,
            r.standard == Standard::Iso9660,
            r.metadata.spec_publisher() is None,
            r.metadata.spec_data_preparer() is None,
            r.metadata.spec_application() is None,
            r.metadata.spec_copyright_file() is None,
            r.metadata.spec_abstract_file() is None,
    {
        WriterOptions::new()
    }
}

/// Collects volumes and writes them out as one image.
pub struct IsoWriter {
    options: WriterOptions,
    volumes: Vec<Volume>,
}

/// What each of `volumes` is.
pub open spec fn models(volumes: Seq<Volume>) -> Seq<VolumeModel> {
    Seq::new(volumes.len(), |i: int| volumes[i].model())
}

/// A volume with its root at `lba` and these children.
pub open spec fn placed_at(volume: VolumeModel, lba: int, children: Seq<Node>) -> VolumeModel {
    VolumeModel {
        volume_id: volume.volume_id,
        publisher: volume.publisher,
        preparer: volume.preparer,
        root_lba: Some(lba as u32),
        children,
        boot: volume.boot,
    }
}

/// A volume with its addresses assigned from the sector `cursor` on, and the
/// cursor after it: the catalog of a boot volume gets one sector, a primary
/// volume what its tree needs.
pub open spec fn volume_placed(volume: VolumeModel, cursor: int, sector_size: int) -> Result<
    (VolumeModel, int),
    Error,
> {
    match volume.boot {
        Some(_) => if cursor + 1 > u32::MAX {
            Err(Error::AllocatorExhausted)
        } else {
            Ok((placed_at(volume, cursor, volume.children), cursor + 1))
        },
        None => match assigned_root(volume.children, cursor, sector_size) {
            Ok((children, end)) => Ok((placed_at(volume, cursor, children), end)),
            Err(e) => Err(e),
        },
    }
}

/// The bytes of the descriptor that announces a volume: the boot record of
/// a boot volume, the primary volume descriptor of a primary volume, which
/// must pass its check.
pub open spec fn announcement(volume: VolumeModel, context: VolumeContext<'_>) -> Result<
    Seq<u8>,
    Error,
> {
    match volume.boot {
        Some(_) => Ok(boot_record(volume.root_lba, context.standard_identifier).spec_bytes()),
        None => {
            let descriptor = descriptor_of(volume, context);
            match descriptor.spec_check() {
                Some(e) => Err(Error::Serialize(e)),
                None => Ok(descriptor.spec_bytes()),
            }
        },
    }
}

/// The sectors that a volume fills beside its descriptor: the catalog of a
/// boot volume in a sector of its own, the tree of a primary volume.
pub open spec fn volume_extents(volume: VolumeModel, sector_size: int, now: NumericalDate) -> Result<
    Seq<u8>,
    Error,
> {
    match volume.boot {
        Some(catalog) => Ok(in_sector(catalog.spec_bytes(), sector_size)),
        None => tree_extents(volume.children, sector_size, now),
    }
}

/// The first `k` of `volumes` with their addresses assigned, one volume
/// after the other, and the cursor after them.
pub open spec fn laid_out(volumes: Seq<VolumeModel>, cursor: int, sector_size: int, k: nat) -> Result<
    (Seq<VolumeModel>, int),
    Error,
>
    decreases k,
{
    if k == 0 || k > volumes.len() {
        Ok((Seq::<VolumeModel>::empty(), cursor))
    } else {
        match laid_out(volumes, cursor, sector_size, (k - 1) as nat) {
            Err(e) => Err(e),
            Ok((done, next)) => match volume_placed(volumes[k - 1], next, sector_size) {
                Ok((volume, end)) => Ok((done.push(volume), end)),
                Err(e) => Err(e),
            },
        }
    }
}

/// `bytes` in a sector of their own: followed by zeros up to the sector size.
pub open spec fn in_sector(bytes: Seq<u8>, sector_size: int) -> Seq<u8> {
    bytes + zeros((sector_size - bytes.len()) as nat)
}

/// The descriptors of the first `k` of `volumes`, one to a sector; or the
/// error of the first that cannot be written.
pub open spec fn descriptors(volumes: Seq<VolumeModel>, context: VolumeContext<'_>, k: nat) -> Result<
    Seq<u8>,
    Error,
>
    decreases k,
{
    if k == 0 || k > volumes.len() {
        Ok(Seq::<u8>::empty())
    } else {
        match descriptors(volumes, context, (k - 1) as nat) {
            Err(e) => Err(e),
            Ok(before) => match announcement(volumes[k - 1], context) {
                Err(e) => Err(e),
                Ok(bytes) => Ok(before + in_sector(bytes, context.sector_size as int)),
            },
        }
    }
}

/// The sectors that the first `k` of `volumes` fill beside their
/// descriptors, one volume after the other; or the error of the first entry
/// that cannot be written.
pub open spec fn trees(volumes: Seq<VolumeModel>, sector_size: int, now: NumericalDate, k: nat) -> Result<
    Seq<u8>,
    Error,
>
    decreases k,
{
    if k == 0 || k > volumes.len() {
        Ok(Seq::<u8>::empty())
    } else {
        match trees(volumes, sector_size, now, (k - 1) as nat) {
            Err(e) => Err(e),
            Ok(before) => match volume_extents(volumes[k - 1], sector_size, now) {
                Ok(own) => Ok(before + own),
                Err(e) => Err(e),
            },
        }
    }
}

/// The image of volumes whose addresses are assigned: sixteen sectors of
/// zeros, the descriptor of each volume in a sector of its own, the
/// terminator of the set in the next, and then the sectors of the trees and
/// catalogs.
pub open spec fn rendered(volumes: Seq<VolumeModel>, context: VolumeContext<'_>) -> Result<
    Seq<u8>,
    Error,
> {
    let sector_size = context.sector_size as int;
    match descriptors(volumes, context, volumes.len()) {
        Err(e) => Err(e),
        Ok(announced) => match trees(
            volumes,
            sector_size,
            NumericalDate::spec_from_timestamp(context.now),
            volumes.len(),
        ) {
            Err(e) => Err(e),
            Ok(below) => Ok(
                zeros((16 * sector_size) as nat) + announced + in_sector(
                    VolumeDescriptorSetTerminator.spec_bytes(),
                    sector_size,
                ) + below,
            ),
        },
    }
}

/// The first address that a tree or a catalog can get: after the sixteen
/// sectors of the system area, the descriptors and the terminator.
pub open spec fn first_lba(volumes: int) -> int {
    16 + volumes + 1
}

/// What writing `volumes` at the moment `now` comes to: the volumes with
/// their addresses and the image, or why there is none. Sectors under 2048
/// bytes hold no descriptor.
pub open spec fn written(
    volumes: Seq<VolumeModel>,
    options: WriterOptions,
    now: Timestamp,
) -> Result<(Seq<VolumeModel>, Seq<u8>), Error> {
    let sector_size = options.sector_size as int;
    if sector_size < 2048 {
        Err(Error::SectorTooSmall)
    } else if first_lba(volumes.len() as int) > u32::MAX {
        Err(Error::AllocatorExhausted)
    } else {
        match laid_out(volumes, first_lba(volumes.len() as int), sector_size, volumes.len()) {
            Err(e) => Err(e),
            Ok((placed, end)) => match rendered(
                placed,
                VolumeContext {
                    sector_size: options.sector_size as u32,
                    standard_identifier: StandardIdentifier::Cd001,
                    now,
                    volume_space_size: end as u32,
                    metadata: &options.metadata,
                },
            ) {
                Ok(image) => Ok((placed, image)),
                Err(e) => Err(e),
            },
        }
    }
}

/// Once a volume cannot be laid out, no longer run of volumes can.
pub proof fn lemma_laid_out_fails(
    volumes: Seq<VolumeModel>,
    cursor: int,
    sector_size: int,
    k: nat,
    n: nat,
)
    requires
        k <= n <= volumes.len(),
        laid_out(volumes, cursor, sector_size, k) is Err,
    ensures
        laid_out(volumes, cursor, sector_size, n) == laid_out(volumes, cursor, sector_size, k),
    decreases n - k,
{
    if k < n {
        lemma_laid_out_fails(volumes, cursor, sector_size, k, (n - 1) as nat);
    }
}

/// Once a descriptor cannot be written, no longer run of descriptors can.
pub proof fn lemma_descriptors_fail(
    volumes: Seq<VolumeModel>,
    context: VolumeContext<'_>,
    k: nat,
    n: nat,
)
    requires
        k <= n <= volumes.len(),
        descriptors(volumes, context, k) is Err,
    ensures
        descriptors(volumes, context, n) == descriptors(volumes, context, k),
    decreases n - k,
{
    if k < n {
        lemma_descriptors_fail(volumes, context, k, (n - 1) as nat);
    }
}

/// Once a tree cannot be written, no longer run of trees can.
pub proof fn lemma_trees_fail(
    volumes: Seq<VolumeModel>,
    sector_size: int,
    now: NumericalDate,
    k: nat,
    n: nat,
)
    requires
        k <= n <= volumes.len(),
        trees(volumes, sector_size, now, k) is Err,
    ensures
        trees(volumes, sector_size, now, n) == trees(volumes, sector_size, now, k),
    decreases n - k,
{
    if k < n {
        lemma_trees_fail(volumes, sector_size, now, k, (n - 1) as nat);
    }
}

/// Appends `bytes` in a sector of their own.
fn push_sector(out: &mut Vec<u8>, bytes: &[u8], sector_size: u32)
    requires
        bytes@.len() <= sector_size,
    ensures
        final(out)@ == old(out)@ + in_sector(bytes@, sector_size as int),
{
    out.extend_from_slice(bytes);
    push_zeros(out, (sector_size as usize - bytes.len()) as u64);
    assert(out@ =~= old(out)@ + in_sector(bytes@, sector_size as int));
}

/// Assigns the addresses of a volume from the cursor of `allocator` on.
fn place_volume(volume: &mut Volume, allocator: &mut LbaAllocator) -> (r: Result<(), Error>)
    requires
        old(allocator).wf(),
    ensures
        final(allocator).wf(),
        final(allocator).spec_sector_size() == old(allocator).spec_sector_size(),
        match volume_placed(
            old(volume).model(),
            old(allocator).spec_next_lba() as int,
            old(allocator).spec_sector_size() as int,
        ) {
            Ok((placed, end)) => r is Ok && final(volume).model() == placed && final(allocator).spec_next_lba() == end,
            Err(e) => r == Err::<(), Error>(e),
        },
{
    match volume {
        Volume::Primary(primary) => primary.filesystem.root.assign_extent_lbas(allocator),
        Volume::Boot(boot) => match allocator.allocate_sectors(1) {
            Ok(lba) => {
                boot.catalog_lba = Some(lba);
                assert(boot.model().children =~= old(volume).model().children);
                Ok(())
            },
            Err(e) => Err(e),
        },
    }
}

/// Writes the descriptor that announces `volume` into `sector`.
fn announce(volume: &Volume, context: &VolumeContext<'_>, sector: &mut Vec<u8>) -> (r: Result<
    (),
    Error,
>)
    requires
        old(sector)@.len() == 2048,
    ensures
        final(sector)@.len() == 2048,
        match announcement(volume.model(), *context) {
            Ok(bytes) => r is Ok && final(sector)@ == bytes,
            Err(e) => r == Err::<(), Error>(e),
        },
{
    match volume {
        Volume::Primary(primary) => {
            let descriptor = primary.descriptor(context);
            proof {
                descriptor.lemma_extent();
            }
            match descriptor.serialize(sector.as_mut_slice()) {
                Ok(_) => {
                    assert(sector@ =~= descriptor.spec_bytes());
                    Ok(())
                },
                Err(e) => Err(Error::Serialize(e)),
            }
        },
        Volume::Boot(boot) => {
            let descriptor = boot.descriptor(context);
            proof {
                descriptor.lemma_layout();
            }
            match descriptor.serialize(sector.as_mut_slice()) {
                Ok(_) => {
                    assert(sector@ =~= descriptor.spec_bytes());
                    Ok(())
                },
                Err(e) => {
                    proof {
                        assert(false);
                    }
                    Err(Error::Serialize(e))
                },
            }
        },
    }
}

/// Appends the sectors that `volume` fills beside its descriptor.
fn emit_volume(out: &mut Vec<u8>, volume: &Volume, sector_size: u32, now: NumericalDate) -> (r:
    Result<(), Error>)
    requires
        sector_size >= 2048,
    ensures
        match volume_extents(volume.model(), sector_size as int, now) {
            Ok(bytes) => r is Ok && final(out)@ == old(out)@ + bytes,
            Err(e) => r == Err::<(), Error>(e),
        },
{
    match volume {
        Volume::Primary(primary) => emit_tree(
            out,
            &primary.filesystem.root.entries,
            sector_size,
            now,
        ),
        Volume::Boot(boot) => {
            let mut catalog: Vec<u8> = Vec::new();
            push_zeros(&mut catalog, 64);
            let mut entry: Vec<u8> = Vec::new();
            push_zeros(&mut entry, 32);
            match boot.catalog.validation.serialize(entry.as_mut_slice()) {
                Ok(_) => {},
                Err(e) => {
                    proof {
                        assert(false);
                    }
                    return Err(Error::Serialize(e));
                },
            }
            assert(entry@ =~= boot.catalog.validation.spec_bytes());
            let p = crate::bytes::put_bytes(catalog.as_mut_slice(), 0, entry.as_slice());
            match boot.catalog.initial.serialize(entry.as_mut_slice()) {
                Ok(_) => {},
                Err(e) => {
                    proof {
                        assert(false);
                    }
                    return Err(Error::Serialize(e));
                },
            }
            assert(entry@ =~= boot.catalog.initial.spec_bytes());
            let _ = crate::bytes::put_bytes(catalog.as_mut_slice(), p, entry.as_slice());
            assert(catalog@ =~= boot.catalog.spec_bytes());
            push_sector(out, catalog.as_slice(), sector_size);
            Ok(())
        },
    }
}

impl IsoWriter {
    /// What the volumes of the writer are.
    pub closed spec fn spec_volumes(&self) -> Seq<VolumeModel> {
        models(self.volumes@)
    }

    pub closed spec fn spec_options(&self) -> WriterOptions {
        self.options
    }

    /// A writer without volumes.
    pub fn new(options: WriterOptions) -> (r: Self)
        ensures
            r.spec_options() == options,
            r.spec_volumes().len() == 0,
    {
        IsoWriter { options, volumes: Vec::new() }
    }

    pub fn options(&self) -> (r: &WriterOptions)
        ensures
            *r == self.spec_options(),
    {
        &self.options
    }

    /// The volumes in the order in which they were added.
    pub fn volumes(&self) -> (r: &Vec<Volume>)
        ensures
            models(r@) == self.spec_volumes(),
    {
        &self.volumes
    }

    /// Adds a volume after those that are there: a primary volume with its
    /// tree, or a boot volume with its catalog. The descriptors stand in the
    /// image in the order in which the volumes were added.
    pub fn add_volume(&mut self, volume: Volume)
        ensures
            final(self).spec_options() == old(self).spec_options(),
            final(self).spec_volumes() == old(self).spec_volumes().push(volume.model()),
    {
        self.volumes.push(volume);
        assert(models(self.volumes@) =~= models(old(self).volumes@).push(volume.model()));
    }

    /// Assigns the addresses of the trees of all volumes, the first tree at
    /// `start`, and returns the cursor after the last.
    fn lay_out(&mut self, start: u32) -> (r: Result<u32, Error>)
        requires
            old(self).options.sector_size >= 2048,
        ensures
            final(self).options == old(self).options,
            match laid_out(
                models(old(self).volumes@),
                start as int,
                old(self).options.sector_size as int,
                old(self).volumes@.len(),
            ) {
                Ok((placed, end)) => r == Ok::<u32, Error>(end as u32) && end <= u32::MAX && models(
                    final(self).volumes@,
                ) == placed,
                Err(e) => r == Err::<u32, Error>(e),
            },
    {
        let ghost before = models(self.volumes@);
        let ghost ss = self.options.sector_size as int;
        let mut allocator = LbaAllocator::new(self.options.sector_size as u32, start);
        let n = self.volumes.len();
        let mut i: usize = 0;
        proof {
            assert(models(self.volumes@).subrange(0, 0) =~= Seq::<VolumeModel>::empty());
        }
        while i < n
            invariant
                i <= n,
                n == before.len(),
                self.volumes@.len() == n,
                self.options == old(self).options,
                before == models(old(self).volumes@),
                ss == old(self).options.sector_size,
                allocator.wf(),
                allocator.spec_sector_size() == ss,
                forall|j: int| i <= j < n ==> self.volumes@[j].model() == before[j],
                laid_out(before, start as int, ss, i as nat) == Ok::<
                    (Seq<VolumeModel>, int),
                    Error,
                >((models(self.volumes@).subrange(0, i as int), allocator.spec_next_lba() as int)),
            decreases n - i,
        {
            let ghost done = models(self.volumes@).subrange(0, i as int);
            let ghost cursor = allocator.spec_next_lba();
            let mut volume = self.volumes.remove(i);
            assert(volume.model() == before[i as int]);
            let r = place_volume(&mut volume, &mut allocator);
            self.volumes.insert(i, volume);
            proof {
                assert(models(self.volumes@).subrange(0, i as int) =~= done);
            }
            match r {
                Ok(()) => {
                    proof {
                        assert(models(self.volumes@).subrange(0, i + 1) =~= done.push(
                            volume.model(),
                        ));
                    }
                },
                Err(e) => {
                    proof {
                        assert(laid_out(before, start as int, ss, (i + 1) as nat) is Err);
                        lemma_laid_out_fails(before, start as int, ss, (i + 1) as nat, n as nat);
                    }
                    return Err(e);
                },
            }
            i += 1;
        }
        proof {
            assert(models(self.volumes@).subrange(0, n as int) =~= models(self.volumes@));
        }
        Ok(allocator.next_lba())
    }

    /// Writes the image of the volumes as they are: with the addresses that
    /// their trees have. What `out` held is replaced.
    pub fn render(&self, out: &mut Vec<u8>, context: &VolumeContext<'_>) -> (r: Result<(), Error>)
        requires
            context.sector_size >= 2048,
        ensures
            match rendered(self.spec_volumes(), *context) {
                Ok(image) => r is Ok && final(out)@ == image,
                Err(e) => r == Err::<(), Error>(e),
            },
    {
        let ghost volumes = models(self.volumes@);
        let ghost ss = context.sector_size as int;
        let now = NumericalDate::from_timestamp(&context.now);
        let n = self.volumes.len();
        out.clear();
        push_zeros(out, 16 * (context.sector_size as u64));
        let ghost system = out@;
        let mut sector: Vec<u8> = Vec::new();
        push_zeros(&mut sector, 2048);
        let mut k: usize = 0;
        assert(out@ =~= system + Seq::<u8>::empty());
        while k < n
            invariant
                k <= n,
                n == self.volumes@.len(),
                volumes == models(self.volumes@),
                ss == context.sector_size,
                context.sector_size >= 2048,
                sector@.len() == 2048,
                system == zeros((16 * ss) as nat),
                descriptors(volumes, *context, k as nat) is Ok,
                out@ == system + descriptors(volumes, *context, k as nat).unwrap(),
            decreases n - k,
        {
            let ghost before = descriptors(volumes, *context, k as nat).unwrap();
            assert(self.volumes@[k as int].model() == volumes[k as int]);
            match announce(&self.volumes[k], context, &mut sector) {
                Ok(()) => {},
                Err(e) => {
                    proof {
                        assert(descriptors(volumes, *context, (k + 1) as nat) is Err);
                        lemma_descriptors_fail(volumes, *context, (k + 1) as nat, n as nat);
                    }
                    return Err(e);
                },
            }
            let ghost bytes = sector@;
            push_sector(out, sector.as_slice(), context.sector_size);
            proof {
                assert(out@ =~= system + (before + in_sector(bytes, ss)));
            }
            k += 1;
        }
        let ghost announced = descriptors(volumes, *context, n as nat).unwrap();
        match VolumeDescriptorSetTerminator.serialize(sector.as_mut_slice()) {
            Ok(_) => {},
            Err(_) => {
                proof {
                    assert(false);
                }
                return Err(Error::SectorTooSmall);
            },
        }
        assert(sector@ =~= VolumeDescriptorSetTerminator.spec_bytes());
        push_sector(out, sector.as_slice(), context.sector_size);
        let ghost head = out@;
        let mut k: usize = 0;
        assert(out@ =~= head + Seq::<u8>::empty());
        while k < n
            invariant
                k <= n,
                n == self.volumes@.len(),
                volumes == models(self.volumes@),
                ss == context.sector_size,
                context.sector_size >= 2048,
                now == NumericalDate::spec_from_timestamp(context.now),
                descriptors(volumes, *context, n as nat) == Ok::<Seq<u8>, Error>(announced),
                head == system + announced + in_sector(
                    VolumeDescriptorSetTerminator.spec_bytes(),
                    ss,
                ),
                system == zeros((16 * ss) as nat),
                trees(volumes, ss, now, k as nat) is Ok,
                out@ == head + trees(volumes, ss, now, k as nat).unwrap(),
            decreases n - k,
        {
            let ghost before = trees(volumes, ss, now, k as nat).unwrap();
            assert(self.volumes@[k as int].model() == volumes[k as int]);
            let r = emit_volume(out, &self.volumes[k], context.sector_size, now);
            match r {
                Ok(()) => {
                    proof {
                        let own = volume_extents(volumes[k as int], ss, now).unwrap();
                        assert(out@ =~= head + (before + own));
                    }
                },
                Err(e) => {
                    proof {
                        assert(trees(volumes, ss, now, (k + 1) as nat) is Err);
                        lemma_trees_fail(volumes, ss, now, (k + 1) as nat, n as nat);
                    }
                    return Err(e);
                },
            }
            k += 1;
        }
        Ok(())
    }

    /// Writes the image as of the moment `now`: assigns the addresses of the
    /// trees and catalogs of all volumes, the first after the descriptors and
    /// the terminator, and writes the image into `out`, replacing what it
    /// held. On an error `out` and the addresses are left as far as the work
    /// had come.
    pub fn write_dated(&mut self, out: &mut Vec<u8>, now: Timestamp) -> (r: Result<(), Error>)
        ensures
            final(self).spec_options() == old(self).spec_options(),
            match written(old(self).spec_volumes(), old(self).spec_options(), now) {
                Ok((placed, image)) => r is Ok && final(self).spec_volumes() == placed && final(out)@ == image,
                Err(e) => r == Err::<(), Error>(e),
            },
    {
        if self.options.sector_size < 2048 {
            return Err(Error::SectorTooSmall);
        }
        let n = self.volumes.len();
        if n > (u32::MAX - 17) as usize {
            return Err(Error::AllocatorExhausted);
        }
        let start: u32 = 17 + n as u32;
        let end = match self.lay_out(start) {
            Ok(end) => end,
            Err(e) => {
                return Err(e);
            },
        };
        let context = VolumeContext {
            sector_size: self.options.sector_size as u32,
            standard_identifier: self.options.standard.standard_identifier(),
            now,
            volume_space_size: end,
            metadata: &self.options.metadata,
        };
        self.render(out, &context)
    }

    /// Writes the image as of now. See `write_dated` for what is written;
    /// the moment is the one that the clock of the machine gives.
    pub fn write(&mut self, out: &mut Vec<u8>) -> (r: Result<(), Error>)
        ensures
            final(self).spec_options() == old(self).spec_options(),
            exists|now: Timestamp|
                match #[trigger] written(old(self).spec_volumes(), old(self).spec_options(), now) {
                    Ok((placed, image)) => r is Ok && final(self).spec_volumes() == placed
                        && final(out)@ == image,
                    Err(e) => r == Err::<(), Error>(e),
                },
    {
        let now = utc_now();
        self.write_dated(out, now)
    }
}

} // verus!
