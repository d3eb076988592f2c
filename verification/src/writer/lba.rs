//! Handing out the sectors of a volume: a cursor that only moves forward.

use crate::writer::error::Error;
use vstd::prelude::*;

verus! {

/// How many sectors of `sector_size` bytes it takes to hold `size` bytes.
pub open spec fn sectors_for(size: int, sector_size: int) -> int
    recommends
        sector_size > 0,
{
    (size + sector_size - 1) / sector_size
}

/// The sectors that hold `size` bytes hold no fewer, and the last of them is
/// not empty.
pub proof fn lemma_sectors_for(size: int, sector_size: int)
    requires
        0 <= size,
        0 < sector_size,
    ensures
        0 <= sectors_for(size, sector_size),
        size <= sectors_for(size, sector_size) * sector_size < size + sector_size,
        sectors_for(size, sector_size) == size / sector_size + (if size % sector_size == 0 {
            0int
        } else {
            1int
        }),
        sectors_for(size, sector_size) <= size,
{
    let q = size / sector_size;
    let r = size % sector_size;
    vstd::arithmetic::div_mod::lemma_fundamental_div_mod(size, sector_size);
    assert(size == sector_size * q + r);
    assert(0 <= q) by (nonlinear_arith)
        requires
            0 <= size,
            0 < sector_size,
            q == size / sector_size,
    ;
    if r == 0 {
        assert(size + sector_size - 1 == q * sector_size + (sector_size - 1)) by (nonlinear_arith)
            requires
                size == sector_size * q,
        ;
        vstd::arithmetic::div_mod::lemma_fundamental_div_mod_converse(
            size + sector_size - 1,
            sector_size,
            q,
            sector_size - 1,
        );
    } else {
        assert(size + sector_size - 1 == (q + 1) * sector_size + (r - 1)) by (nonlinear_arith)
            requires
                size == sector_size * q + r,
        ;
        vstd::arithmetic::div_mod::lemma_fundamental_div_mod_converse(
            size + sector_size - 1,
            sector_size,
            q + 1,
            r - 1,
        );
    }
    let n = sectors_for(size, sector_size);
    assert(size <= n * sector_size < size + sector_size) by (nonlinear_arith)
        requires
            size == sector_size * q + r,
            0 <= r < sector_size,
            n == q + (if r == 0 {
                0int
            } else {
                1int
            }),
    ;
    assert(n <= size) by (nonlinear_arith)
        requires
            size == sector_size * q + r,
            0 <= r < sector_size,
            0 <= q,
            1 <= sector_size,
            n == q + (if r == 0 {
                0int
            } else {
                1int
            }),
    ;
}

/// Hands out sector-aligned extents in rising order. Nothing is ever given
/// back.
#[derive(Debug, Clone, Copy, PartialEq, Eq)]
pub struct LbaAllocator {
    sector_size: u32,
    next_lba: u32,
}

impl LbaAllocator {
    /// The size of a sector in bytes.
    pub closed spec fn spec_sector_size(&self) -> u32 {
        self.sector_size
    }

    /// The address that the next extent gets.
    pub closed spec fn spec_next_lba(&self) -> u32 {
        self.next_lba
    }

    /// A sector holds at least one byte.
    pub open spec fn wf(&self) -> bool {
        self.spec_sector_size() > 0
    }

    /// An allocator whose first extent starts at `start_lba`.
    pub fn new(sector_size: u32, start_lba: u32) -> (r: Self)
        requires
            sector_size > 0,
        ensures
            r.wf(),
            r.spec_sector_size() == sector_size,
            r.spec_next_lba() == start_lba,
    {
        LbaAllocator { sector_size, next_lba: start_lba }
    }

    pub fn sector_size(&self) -> (r: u32)
        ensures
            r == self.spec_sector_size(),
    {
        self.sector_size
    }

    pub fn next_lba(&self) -> (r: u32)
        ensures
            r == self.spec_next_lba(),
    {
        self.next_lba
    }

    /// Hands out the sectors that hold `size` bytes and returns the address
    /// of the first. Where they would pass the last address, nothing is
    /// handed out.
    pub fn allocate(&mut self, size: u32) -> (r: Result<u32, Error>)
        requires
            old(self).wf(),
        ensures
            final(self).wf(),
            final(self).spec_sector_size() == old(self).spec_sector_size(),
            match r {
                Ok(lba) => lba == old(self).spec_next_lba() && final(self).spec_next_lba()
                    == old(self).spec_next_lba() + sectors_for(
                    size as int,
                    old(self).spec_sector_size() as int,
                ),
                Err(e) => e == Error::AllocatorExhausted && *final(self) == *old(self) && old(
                    self,
                ).spec_next_lba() + sectors_for(size as int, old(self).spec_sector_size() as int)
                    > u32::MAX,
            },
    {
        proof {
            lemma_sectors_for(size as int, self.sector_size as int);
        }
        let sectors: u32 = size / self.sector_size + (if size % self.sector_size == 0 {
            0
        } else {
            1
        });
        self.allocate_sectors(sectors)
    }

    /// Hands out `sectors` sectors and returns the address of the first.
    /// Where they would pass the last address, nothing is handed out.
    pub fn allocate_sectors(&mut self, sectors: u32) -> (r: Result<u32, Error>)
        requires
            old(self).wf(),
        ensures
            final(self).wf(),
            final(self).spec_sector_size() == old(self).spec_sector_size(),
            match r {
                Ok(lba) => lba == old(self).spec_next_lba() && final(self).spec_next_lba()
                    == old(self).spec_next_lba() + sectors,
                Err(e) => e == Error::AllocatorExhausted && *final(self) == *old(self) && old(
                    self,
                ).spec_next_lba() + sectors > u32::MAX,
            },
    {
        let lba = self.next_lba;
        match lba.checked_add(sectors) {
            Some(next) => {
                self.next_lba = next;
                Ok(lba)
            },
            None => Err(Error::AllocatorExhausted),
        }
    }
}

/// The address that the `k`-th of a run of allocations returns, where the
/// first starts at `start` and the `m`-th asks for `sizes[m]` bytes: each call
/// returns the cursor and moves it by the sectors that it hands out.
pub open spec fn lba_at(start: int, sector_size: int, sizes: Seq<u32>, k: int) -> int
    decreases k,
{
    if k <= 0 {
        start
    } else {
        lba_at(start, sector_size, sizes, k - 1) + sectors_for(sizes[k - 1] as int, sector_size)
    }
}

/// The allocator moves forward only: of two allocations of a run, the later
/// starts no earlier than where the earlier ends.
pub proof fn lemma_monotonic(start: int, sector_size: int, sizes: Seq<u32>, i: int, j: int)
    requires
        0 < sector_size,
        0 <= i < j <= sizes.len(),
    ensures
        lba_at(start, sector_size, sizes, j) >= lba_at(start, sector_size, sizes, i) + sectors_for(
            sizes[i] as int,
            sector_size,
        ),
        lba_at(start, sector_size, sizes, i) >= start,
    decreases j,
{
    lemma_sectors_for(sizes[j - 1] as int, sector_size);
    if j - 1 > i {
        lemma_monotonic(start, sector_size, sizes, i, j - 1);
    } else {
        lemma_from_start(start, sector_size, sizes, i);
    }
}

proof fn lemma_from_start(start: int, sector_size: int, sizes: Seq<u32>, k: int)
    requires
        0 < sector_size,
        0 <= k <= sizes.len(),
    ensures
        lba_at(start, sector_size, sizes, k) >= start,
    decreases k,
{
    if k > 0 {
        lemma_sectors_for(sizes[k - 1] as int, sector_size);
        lemma_from_start(start, sector_size, sizes, k - 1);
    }
}

} // verus!
