//! Where the sectors of an image go.

use crate::writer::sector::{overlay, write_at};
use vstd::prelude::*;

verus! {

/// A sink that takes an image sector by sector.
pub trait IsoWrite {
    type Error;

    /// Writes `data` from the start of the sector `sector` on and returns how
    /// many bytes were written.
    fn write_at(&mut self, sector: u64, data: &[u8]) -> (r: Result<usize, Self::Error>)
        ensures
            r is Ok ==> r->Ok_0 <= data@.len(),
    ;
}

/// An image held in memory is a sink: what lies between its end and the
/// place of writing is filled with zeros. A write that this machine cannot
/// address is refused and changes nothing.
impl IsoWrite for Vec<u8> {
    type Error = ();

    fn write_at(&mut self, sector: u64, data: &[u8]) -> (r: Result<usize, ()>)
        ensures
            match r {
                Ok(n) => n == data@.len() && final(self)@ == overlay(
                    old(self)@,
                    sector * 2048,
                    data@,
                ),
                Err(_) => *final(self) == *old(self) && sector * 2048 + data@.len() > usize::MAX,
            },
    {
        let start: u64 = match sector.checked_mul(2048) {
            Some(start) => start,
            None => {
                return Err(());
            },
        };
        if start > usize::MAX as u64 || data.len() > usize::MAX - start as usize {
            return Err(());
        }
        write_at(self, start as usize, data);
        Ok(data.len())
    }
}

} // verus!
