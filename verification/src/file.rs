//! A file of an image held in memory.

use crate::writer::volume::utc_now;
use vstd::prelude::*;

verus! {

/// A file: its name, its bytes, and what is known of its place in an image.
/// Times are seconds since the start of 1970.
#[derive(Debug, Clone, PartialEq, Eq)]
pub struct File {
    name: String,
    content: Vec<u8>,
    sector_location: Option<u32>,
    size: Option<u32>,
    creation_time: u64,
    modification_time: u64,
}

/// The seconds since the start of 1970 as this machine counts them now.
pub fn now_seconds() -> (r: u64) {
    let now = utc_now();
    if now.unix_seconds < 0 {
        0
    } else {
        now.unix_seconds as u64
    }
}

impl File {
    pub closed spec fn spec_name(&self) -> Seq<char> {
        self.name@
    }

    pub closed spec fn spec_content(&self) -> Seq<u8> {
        self.content@
    }

    pub closed spec fn spec_sector_location(&self) -> Option<u32> {
        self.sector_location
    }

    /// The size that was set, if one was.
    pub closed spec fn spec_set_size(&self) -> Option<u32> {
        self.size
    }

    pub closed spec fn spec_creation_time(&self) -> u64 {
        self.creation_time
    }

    pub closed spec fn spec_modification_time(&self) -> u64 {
        self.modification_time
    }

    /// The size of the file: the one that was set, else the number of its
    /// bytes as far as 32 bits count them.
    pub open spec fn spec_size(&self) -> u32 {
        match self.spec_set_size() {
            Some(size) => size,
            None => (self.spec_content().len() % 0x1_0000_0000) as u32,
        }
    }

    /// A file with the time of now as its time of creation and modification,
    /// and without a place or a set size.
    pub fn new(name: &str, content: Vec<u8>) -> (r: Self)
        ensures
            r.spec_name() == name@,
            r.spec_content() == content@,
            r.spec_sector_location() is None,
            r.spec_set_size() is None,
            r.spec_creation_time() == r.spec_modification_time(),
    {
        File::new_at(name, content, now_seconds())
    }

    /// A file whose time of creation and modification is `now`, without a
    /// place or a set size.
    pub fn new_at(name: &str, content: Vec<u8>, now: u64) -> (r: Self)
        ensures
            r.spec_name() == name@,
            r.spec_content() == content@,
            r.spec_sector_location() is None,
            r.spec_set_size() is None,
            r.spec_creation_time() == now,
            r.spec_modification_time() == now,
    {
        File {
            name: name.to_owned(),
            content,
            sector_location: None,
            size: None,
            creation_time: now,
            modification_time: now,
        }
    }

    pub fn name(&self) -> (r: &str)
        ensures
            r@ == self.spec_name(),
    {
        self.name.as_str()
    }

    pub fn set_name(&mut self, name: String)
        ensures
            final(self).spec_name() == name@,
            final(self).spec_content() == old(self).spec_content(),
            final(self).spec_sector_location() == old(self).spec_sector_location(),
            final(self).spec_set_size() == old(self).spec_set_size(),
            final(self).spec_creation_time() == old(self).spec_creation_time(),
            final(self).spec_modification_time() == old(self).spec_modification_time(),
    {
        self.name = name;
    }

    pub fn content(&self) -> (r: &[u8])
        ensures
            r@ == self.spec_content(),
    {
        self.content.as_slice()
    }

    /// The bytes of the file, to be changed in place. The set size is not
    /// kept in step.
    pub fn content_mut(&mut self) -> (r: &mut Vec<u8>)
        ensures
            r@ == old(self).spec_content(),
            final(self).spec_content() == final(r)@,
            final(self).spec_name() == old(self).spec_name(),
            final(self).spec_sector_location() == old(self).spec_sector_location(),
            final(self).spec_set_size() == old(self).spec_set_size(),
            final(self).spec_creation_time() == old(self).spec_creation_time(),
            final(self).spec_modification_time() == old(self).spec_modification_time(),
    {
        &mut self.content
    }

    /// Replaces the bytes of the file and sets its size to their number, as
    /// far as 32 bits count it.
    pub fn set_content(&mut self, content: Vec<u8>)
        ensures
            final(self).spec_content() == content@,
            final(self).spec_set_size() == Some((content@.len() % 0x1_0000_0000) as u32),
            final(self).spec_name() == old(self).spec_name(),
            final(self).spec_sector_location() == old(self).spec_sector_location(),
            final(self).spec_creation_time() == old(self).spec_creation_time(),
            final(self).spec_modification_time() == old(self).spec_modification_time(),
    {
        let size = ((content.len() as u64) % 0x1_0000_0000) as u32;
        self.content = content;
        self.size = Some(size);
    }

    pub fn sector_location(&self) -> (r: Option<u32>)
        ensures
            r == self.spec_sector_location(),
    {
        self.sector_location
    }

    pub fn set_sector_location(&mut self, location: u32)
        ensures
            final(self).spec_sector_location() == Some(location),
            final(self).spec_name() == old(self).spec_name(),
            final(self).spec_content() == old(self).spec_content(),
            final(self).spec_set_size() == old(self).spec_set_size(),
            final(self).spec_creation_time() == old(self).spec_creation_time(),
            final(self).spec_modification_time() == old(self).spec_modification_time(),
    {
        self.sector_location = Some(location);
    }

    /// The size of the file: always `Some`.
    pub fn size(&self) -> (r: Option<u32>)
        ensures
            r == Some(self.spec_size()),
    {
        match self.size {
            Some(size) => Some(size),
            None => Some(((self.content.len() as u64) % 0x1_0000_0000) as u32),
        }
    }

    pub fn set_size(&mut self, size: u32)
        ensures
            final(self).spec_set_size() == Some(size),
            final(self).spec_name() == old(self).spec_name(),
            final(self).spec_content() == old(self).spec_content(),
            final(self).spec_sector_location() == old(self).spec_sector_location(),
            final(self).spec_creation_time() == old(self).spec_creation_time(),
            final(self).spec_modification_time() == old(self).spec_modification_time(),
    {
        self.size = Some(size);
    }

    pub fn creation_time(&self) -> (r: u64)
        ensures
            r == self.spec_creation_time(),
    {
        self.creation_time
    }

    pub fn set_creation_time(&mut self, time: u64)
        ensures
            final(self).spec_creation_time() == time,
            final(self).spec_name() == old(self).spec_name(),
            final(self).spec_content() == old(self).spec_content(),
            final(self).spec_sector_location() == old(self).spec_sector_location(),
            final(self).spec_set_size() == old(self).spec_set_size(),
            final(self).spec_modification_time() == old(self).spec_modification_time(),
    {
        self.creation_time = time;
    }

    pub fn modification_time(&self) -> (r: u64)
        ensures
            r == self.spec_modification_time(),
    {
        self.modification_time
    }

    pub fn set_modification_time(&mut self, time: u64)
        ensures
            final(self).spec_modification_time() == time,
            final(self).spec_name() == old(self).spec_name(),
            final(self).spec_content() == old(self).spec_content(),
            final(self).spec_sector_location() == old(self).spec_sector_location(),
            final(self).spec_set_size() == old(self).spec_set_size(),
            final(self).spec_creation_time() == old(self).spec_creation_time(),
    {
        self.modification_time = time;
    }
}

} // verus!
