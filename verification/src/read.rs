//! Where the sectors of an image come from.

use vstd::prelude::*;

verus! {

/// The size of the sectors that a storage hands out.
pub const SECTOR_SIZE: usize = 2048;

/// A storage that hands out an image sector by sector.
pub trait IsoRead {
    type Error;

    /// Reads the sector `sector` into the first 2048 bytes of `out` and
    /// returns how many bytes it read: 2048 for a whole sector, fewer at the
    /// end of the image, none past it.
    fn read_sector(&mut self, sector: u64, out: &mut [u8]) -> (r: Result<usize, Self::Error>)
        requires
            old(out)@.len() >= SECTOR_SIZE,
        ensures
            final(out)@.len() == old(out)@.len(),
            r is Ok ==> r->Ok_0 <= SECTOR_SIZE,
    ;
}

/// What reading the sector `sector` of `image` gives: its bytes as far as the
/// image has them.
pub open spec fn sector_of(image: Seq<u8>, sector: int) -> Seq<u8> {
    if sector * 2048 >= image.len() {
        Seq::<u8>::empty()
    } else if (sector + 1) * 2048 <= image.len() {
        image.subrange(sector * 2048, (sector + 1) * 2048)
    } else {
        image.subrange(sector * 2048, image.len() as int)
    }
}

/// An image held in memory is a storage that never fails.
impl IsoRead for Vec<u8> {
    type Error = ();

    /// Copies the bytes of the sector to the front of `out` and leaves the
    /// rest of `out` as it was.
    fn read_sector(&mut self, sector: u64, out: &mut [u8]) -> (r: Result<usize, ()>)
        ensures
            *final(self) == *old(self),
            r == Ok::<usize, ()>(sector_of(old(self)@, sector as int).len() as usize),
            final(out)@ == sector_of(old(self)@, sector as int) + old(out)@.skip(
                sector_of(old(self)@, sector as int).len() as int,
            ),
    {
        let len = self.len() as u64;
        let start: u64 = match sector.checked_mul(2048) {
            Some(start) => start,
            None => {
                assert(out@ =~= Seq::<u8>::empty() + old(out)@.skip(0));
                return Ok(0);
            },
        };
        if start >= len {
            assert(out@ =~= Seq::<u8>::empty() + old(out)@.skip(0));
            return Ok(0);
        }
        let count: usize = if len - start >= 2048 {
            2048
        } else {
            (len - start) as usize
        };
        let _ = crate::bytes::put_bytes(
            out,
            0,
            vstd::slice::slice_subrange(self.as_slice(), start as usize, start as usize + count),
        );
        proof {
            crate::serialize::lemma_written(old(out)@, out@, sector_of(self@, sector as int));
        }
        Ok(count)
    }
}

} // verus!
