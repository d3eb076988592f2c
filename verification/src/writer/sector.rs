//! Writing records into sectors so that none crosses a sector boundary.

use crate::bytes::zeros;
use crate::writer::error::Error;
use vstd::prelude::*;

verus! {

/// `storage` after `buf` was written at the position `at`: what lies between
/// the end of `storage` and `at` is zero, as after a seek past the end.
pub open spec fn overlay(storage: Seq<u8>, at: int, buf: Seq<u8>) -> Seq<u8> {
    Seq::new(
        (if storage.len() >= at + buf.len() {
            storage.len()
        } else {
            (at + buf.len()) as nat
        }),
        |i: int|
            if at <= i < at + buf.len() {
                buf[i - at]
            } else if i < storage.len() {
                storage[i]
            } else {
                0u8
            },
    )
}

/// Writing at or past the end appends: the gap in zeros, then the bytes.
pub proof fn lemma_overlay_appends(storage: Seq<u8>, at: int, buf: Seq<u8>)
    requires
        storage.len() <= at,
    ensures
        overlay(storage, at, buf) == storage + zeros((at - storage.len()) as nat) + buf,
{
    assert(overlay(storage, at, buf) =~= storage + zeros((at - storage.len()) as nat) + buf);
}

/// Writes `buf` into `storage` at `at`, growing it as needed.
pub fn write_at(storage: &mut Vec<u8>, at: usize, buf: &[u8])
    requires
        at + buf@.len() <= usize::MAX,
    ensures
        final(storage)@ == overlay(old(storage)@, at as int, buf@),
{
    let n = buf.len();
    while storage.len() < at
        invariant
            old(storage)@.len() <= storage@.len(),
            storage@.len() <= at || storage@.len() == old(storage)@.len(),
            forall|i: int| 0 <= i < old(storage)@.len() ==> storage@[i] == old(storage)@[i],
            forall|i: int| old(storage)@.len() <= i < storage@.len() ==> storage@[i] == 0,
        decreases at - storage@.len(),
    {
        storage.push(0);
    }
    let ghost padded = storage@;
    let mut i: usize = 0;
    while i < n
        invariant
            i <= n,
            n == buf@.len(),
            at + n <= usize::MAX,
            at <= padded.len(),
            padded.len() <= storage@.len(),
            padded.len() == (if old(storage)@.len() >= at {
                old(storage)@.len()
            } else {
                at as nat
            }),
            forall|j: int| 0 <= j < old(storage)@.len() ==> padded[j] == old(storage)@[j],
            forall|j: int| old(storage)@.len() <= j < padded.len() ==> padded[j] == 0,
            storage@.len() == (if padded.len() >= at + i {
                padded.len()
            } else {
                (at + i) as nat
            }),
            forall|j: int| at <= j < at + i ==> storage@[j] == buf@[j - at],
            forall|j: int|
                0 <= j < storage@.len() && !(at <= j < at + i) ==> storage@[j] == padded[j],
        decreases n - i,
    {
        if at + i < storage.len() {
            storage[at + i] = buf[i];
        } else {
            storage.push(buf[i]);
        }
        i += 1;
    }
    let ghost want = overlay(old(storage)@, at as int, buf@);
    assert(storage@.len() == want.len());
    assert forall|j: int| 0 <= j < storage@.len() implies storage@[j] == want[j] by {
        if !(at <= j < at + n) {
            assert(storage@[j] == padded[j]);
        }
    }
    assert(storage@ =~= want);
}

/// A cursor over the sectors of an in-memory image. It knows the sector it is
/// in and how far into it, and never lets a record cross into the next.
pub struct SectorWriter {
    storage: Vec<u8>,
    sector_ix: u64,
    sector_size: u64,
    bytes_offset: u64,
}

impl SectorWriter {
    /// The bytes written so far, with what was there before.
    pub closed spec fn spec_storage(&self) -> Seq<u8> {
        self.storage@
    }

    /// The sector that the cursor is in.
    pub closed spec fn spec_sector_ix(&self) -> u64 {
        self.sector_ix
    }

    /// The size of a sector in bytes.
    pub closed spec fn spec_sector_size(&self) -> u64 {
        self.sector_size
    }

    /// How far into its sector the cursor is.
    pub closed spec fn spec_bytes_offset(&self) -> u64 {
        self.bytes_offset
    }

    /// The cursor is inside its sector, or just at its end.
    pub open spec fn wf(&self) -> bool {
        self.spec_bytes_offset() <= self.spec_sector_size()
    }

    /// The position in the image that the cursor stands at.
    pub open spec fn spec_position(&self) -> int {
        self.spec_sector_ix() * self.spec_sector_size() + self.spec_bytes_offset()
    }

    /// Whether `len` more bytes fit into the sector that the cursor is in.
    pub open spec fn spec_fits(&self, len: int) -> bool {
        self.spec_bytes_offset() + len <= self.spec_sector_size()
    }

    /// Where a record of `len` bytes is written: at the cursor where it fits
    /// into the sector, at the start of the next sector where it does not.
    pub open spec fn spec_place(&self, len: int) -> int {
        if self.spec_fits(len) {
            self.spec_position()
        } else {
            (self.spec_sector_ix() + 1) * self.spec_sector_size()
        }
    }

    /// A cursor at the start of the sector `sector_offset` of `storage`.
    pub fn new(storage: Vec<u8>, sector_offset: u64, sector_size: u64) -> (r: Self)
        ensures
            r.wf(),
            r.spec_storage() == storage@,
            r.spec_sector_ix() == sector_offset,
            r.spec_sector_size() == sector_size,
            r.spec_bytes_offset() == 0,
    {
        SectorWriter { storage, sector_ix: sector_offset, sector_size, bytes_offset: 0 }
    }

    /// Gives the image back.
    pub fn into_inner(self) -> (r: Vec<u8>)
        ensures
            r@ == self.spec_storage(),
    {
        self.storage
    }

    pub fn sector_ix(&self) -> (r: u64)
        ensures
            r == self.spec_sector_ix(),
    {
        self.sector_ix
    }

    pub fn bytes_offset(&self) -> (r: u64)
        ensures
            r == self.spec_bytes_offset(),
    {
        self.bytes_offset
    }

    /// Writes `buf` where it does not cross a sector boundary: at the cursor
    /// if it fits into what is left of the sector, else at the start of the
    /// next sector, leaving the rest of this one as it is (zero, where nothing
    /// was there). Returns how many bytes were written.
    ///
    /// A buffer longer than a sector is refused, and so is a write whose end
    /// this machine cannot address; both leave everything as it was.
    pub fn write_aligned(&mut self, buf: &[u8]) -> (r: Result<usize, Error>)
        requires
            old(self).wf(),
        ensures
            final(self).wf(),
            final(self).spec_sector_size() == old(self).spec_sector_size(),
            match r {
                Ok(n) => {
                    &&& n == buf@.len()
                    &&& buf@.len() <= old(self).spec_sector_size()
                    &&& final(self).spec_storage() == overlay(
                        old(self).spec_storage(),
                        old(self).spec_place(buf@.len() as int),
                        buf@,
                    )
                    &&& final(self).spec_position() == old(self).spec_place(buf@.len() as int)
                        + buf@.len()
                    &&& final(self).spec_sector_ix() == (if old(self).spec_fits(
                        buf@.len() as int,
                    ) {
                        old(self).spec_sector_ix()
                    } else {
                        (old(self).spec_sector_ix() + 1) as u64
                    })
                },
                Err(e) => {
                    &&& *final(self) == *old(self)
                    &&& e == (if buf@.len() > old(self).spec_sector_size() {
                        Error::SectorTooSmall
                    } else {
                        Error::ImageTooLarge
                    })
                    &&& buf@.len() > old(self).spec_sector_size() || old(self).spec_place(
                        buf@.len() as int,
                    ) + buf@.len() > usize::MAX
                },
            },
    {
        let len = buf.len() as u64;
        if len > self.sector_size {
            return Err(Error::SectorTooSmall);
        }
        let fits = len <= self.sector_size - self.bytes_offset;
        let (sector, offset): (u64, u64) = if fits {
            (self.sector_ix, self.bytes_offset)
        } else {
            match self.sector_ix.checked_add(1) {
                Some(next) => (next, 0),
                None => {
                    proof {
                        assert((self.sector_ix + 1) * self.sector_size >= usize::MAX)
                            by (nonlinear_arith)
                            requires
                                self.sector_ix == u64::MAX,
                                self.sector_size >= 1,
                        ;
                    }
                    return Err(Error::ImageTooLarge);
                },
            }
        };
        let start: u64 = match sector.checked_mul(self.sector_size) {
            Some(base) => match base.checked_add(offset) {
                Some(start) => start,
                None => {
                    return Err(Error::ImageTooLarge);
                },
            },
            None => {
                return Err(Error::ImageTooLarge);
            },
        };
        let end: u64 = match start.checked_add(len) {
            Some(end) => end,
            None => {
                return Err(Error::ImageTooLarge);
            },
        };
        if end > usize::MAX as u64 {
            return Err(Error::ImageTooLarge);
        }
        write_at(&mut self.storage, start as usize, buf);
        self.sector_ix = sector;
        self.bytes_offset = offset + len;
        Ok(buf.len())
    }
}

/// A record that was written lies within one sector: it starts in the sector
/// that its last byte is in.
pub proof fn lemma_no_crossing(w: SectorWriter, len: int)
    requires
        w.wf(),
        0 < len <= w.spec_sector_size(),
    ensures
        w.spec_place(len) / (w.spec_sector_size() as int) == (w.spec_place(len) + len - 1) / (
        w.spec_sector_size() as int),
{
    let ss = w.spec_sector_size() as int;
    let ix = w.spec_sector_ix() as int;
    let off = w.spec_bytes_offset() as int;
    if w.spec_fits(len) {
        vstd::arithmetic::div_mod::lemma_fundamental_div_mod_converse(ix * ss + off, ss, ix, off);
        vstd::arithmetic::div_mod::lemma_fundamental_div_mod_converse(
            ix * ss + off + len - 1,
            ss,
            ix,
            off + len - 1,
        );
    } else {
        vstd::arithmetic::div_mod::lemma_fundamental_div_mod_converse((ix + 1) * ss, ss, ix + 1, 0);
        vstd::arithmetic::div_mod::lemma_fundamental_div_mod_converse(
            (ix + 1) * ss + len - 1,
            ss,
            ix + 1,
            len - 1,
        );
    }
}

} // verus!
