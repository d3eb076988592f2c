//! What holds of the bytes of every record, beside the round trips that
//! stand with the parsers: the two halves of a dual-endian field hold the
//! same number, bytes that no field owns are zero, and character fields hold
//! characters of their class.

use crate::bytes::{
    lemma_u16_round_trip, lemma_u32_round_trip, u16_from_be, u16_from_le, u32_from_be,
    u32_from_le,
};
use crate::path_table::path_record_extent;
use crate::serialize::{record_extent, IsoSerialize};
use crate::spec::{
    is_a_character, is_d_field_byte, DirectoryRecord, ElToritoBootRecordVolumeDescriptor,
    ElToritoInitialSectionEntry, ElToritoSectionEntry, ElToritoSectionHeaderEntry,
    ElToritoValidationEntry, Extension, Identifier, PathTableRecord, RootDirectoryRecord,
    VolumeDescriptorSetTerminator, VolumePartitionDescriptor,
};
use vstd::prelude::*;

verus! {

impl RootDirectoryRecord {
    /// In the bytes of a root record the two halves of every dual-endian
    /// field hold the same number: the location at 2, the length at 10, the
    /// sequence number at 28.
    pub proof fn lemma_dual_endian(&self)
        ensures
            u32_from_le(self.spec_bytes().subrange(2, 6)) == u32_from_be(
                self.spec_bytes().subrange(6, 10),
            ),
            u32_from_le(self.spec_bytes().subrange(10, 14)) == u32_from_be(
                self.spec_bytes().subrange(14, 18),
            ),
            u16_from_le(self.spec_bytes().subrange(28, 30)) == u16_from_be(
                self.spec_bytes().subrange(30, 32),
            ),
    {
        self.lemma_layout();
        lemma_u32_round_trip(self.extent_location);
        lemma_u32_round_trip(self.data_length);
        lemma_u16_round_trip(self.volume_sequence_number);
    }
}

impl<Ext: Extension> DirectoryRecord<Ext> {
    /// In the bytes of a record the two halves of every dual-endian field
    /// hold the same number: the location at 2, the length at 10, the
    /// sequence number at 28.
    pub proof fn lemma_dual_endian(&self)
        ensures
            u32_from_le(self.spec_bytes().subrange(2, 6)) == u32_from_be(
                self.spec_bytes().subrange(6, 10),
            ),
            u32_from_le(self.spec_bytes().subrange(10, 14)) == u32_from_be(
                self.spec_bytes().subrange(14, 18),
            ),
            u16_from_le(self.spec_bytes().subrange(28, 30)) == u16_from_be(
                self.spec_bytes().subrange(30, 32),
            ),
    {
        self.lemma_layout();
        lemma_u32_round_trip(self.extent_location);
        lemma_u32_round_trip(self.data_length);
        lemma_u16_round_trip(self.volume_sequence_number);
    }

    /// A record takes an even number of bytes, and the byte that makes it
    /// even, where there is one, is zero.
    pub proof fn lemma_padded(&self)
        ensures
            self.spec_bytes().len() % 2 == 0,
            self.spec_bytes().len() == record_extent(self.file_identifier_length as int),
            self.file_identifier_length % 2 == 0 ==> self.spec_bytes()[33
                + self.file_identifier_length] == 0,
    {
        self.lemma_layout();
    }
}

impl<Ext: Extension> PathTableRecord<Ext> {
    /// A record of a path table takes an even number of bytes, and the byte
    /// that makes it even, where there is one, is zero.
    pub proof fn lemma_padded(&self, big_endian: bool)
        ensures
            self.spec_bytes(big_endian).len() % 2 == 0,
            self.spec_bytes(big_endian).len() == path_record_extent(
                self.directory_identifier_length as int,
            ),
            self.directory_identifier_length % 2 == 1 ==> self.spec_bytes(big_endian)[8
                + self.directory_identifier_length] == 0,
    {
        self.lemma_extent(big_endian);
        self.directory_identifier.lemma_encode_len(self.directory_identifier_length as nat);
    }
}

impl VolumePartitionDescriptor {
    /// In the bytes of a descriptor the two halves of both dual-endian
    /// fields hold the same number: the location at 72 and the size at 80.
    pub proof fn lemma_dual_endian(&self)
        ensures
            u32_from_le(self.spec_bytes().subrange(72, 76)) == u32_from_be(
                self.spec_bytes().subrange(76, 80),
            ),
            u32_from_le(self.spec_bytes().subrange(80, 84)) == u32_from_be(
                self.spec_bytes().subrange(84, 88),
            ),
    {
        self.lemma_layout();
        lemma_u32_round_trip(self.volume_partition_location);
        lemma_u32_round_trip(self.volume_partition_size);
    }

    /// In the bytes of a descriptor every unused byte is zero: byte 7 and
    /// the bytes from 88 on.
    pub proof fn lemma_reserved_zero(&self)
        ensures
            forall|i: int| i == 7 || 88 <= i < 2048 ==> #[trigger] self.spec_bytes()[i] == 0,
    {
        let b = self.spec_bytes();
        self.lemma_layout();
        assert forall|i: int| i == 7 || 88 <= i < 2048 implies #[trigger] b[i] == 0 by {
            if 88 <= i {
                assert(b[i] == b.subrange(88, 2048)[i - 88]);
            }
        }
    }

    /// After a descriptor was written without error, every byte of the
    /// system identifier is an a-character and every byte of the partition
    /// identifier a d-character or the filler.
    pub proof fn lemma_character_classes(&self)
        requires
            self.spec_check() is None,
        ensures
            forall|i: int| 8 <= i < 40 ==> is_a_character(#[trigger] self.spec_bytes()[i]),
            forall|i: int| 40 <= i < 72 ==> is_d_field_byte(#[trigger] self.spec_bytes()[i]),
    {
        let b = self.spec_bytes();
        self.lemma_layout();
        assert forall|i: int| 8 <= i < 40 implies is_a_character(#[trigger] b[i]) by {
            assert(b[i] == b.subrange(8, 40)[i - 8]);
            assert(is_a_character(self.system_identifier.0@[i - 8]));
        }
        assert forall|i: int| 40 <= i < 72 implies is_d_field_byte(#[trigger] b[i]) by {
            assert(b[i] == b.subrange(40, 72)[i - 40]);
            assert(is_d_field_byte(self.volume_partition_identifier.0@[i - 40]));
        }
    }
}

impl VolumeDescriptorSetTerminator {
    /// After its tag, identifier and version the terminator is zero.
    pub proof fn lemma_reserved_zero(&self)
        ensures
            self.spec_bytes().len() == 2048,
            forall|i: int| 7 <= i < 2048 ==> #[trigger] self.spec_bytes()[i] == 0,
    {
    }
}

impl ElToritoBootRecordVolumeDescriptor {
    /// In the bytes of a boot record every unused byte is zero: the bytes
    /// from 39 to 70 and from 75 on.
    pub proof fn lemma_reserved_zero(&self)
        ensures
            forall|i: int| 39 <= i < 71 || 75 <= i < 2048 ==> #[trigger] self.spec_bytes()[i] == 0,
    {
        let b = self.spec_bytes();
        self.lemma_layout();
        assert forall|i: int| 39 <= i < 71 || 75 <= i < 2048 implies #[trigger] b[i] == 0 by {
            if i < 71 {
                assert(b[i] == b.subrange(39, 71)[i - 39]);
            } else {
                assert(b[i] == b.subrange(75, 2048)[i - 75]);
            }
        }
    }
}

impl ElToritoValidationEntry {
    /// An entry takes 32 bytes, of which the two after the platform are zero
    /// and the last two the key.
    pub proof fn lemma_reserved_zero(&self)
        ensures
            self.spec_bytes().len() == 32,
            self.spec_bytes()[2] == 0,
            self.spec_bytes()[3] == 0,
            self.spec_bytes()[30] == 0x55,
            self.spec_bytes()[31] == 0xAA,
    {
    }
}

impl ElToritoInitialSectionEntry {
    /// An entry takes 32 bytes, of which byte 5 and the bytes from 12 on are
    /// zero.
    pub proof fn lemma_reserved_zero(&self)
        ensures
            self.spec_bytes().len() == 32,
            forall|i: int| i == 5 || 12 <= i < 32 ==> #[trigger] self.spec_bytes()[i] == 0,
    {
    }
}

impl ElToritoSectionHeaderEntry {
    /// A header takes 32 bytes, of which the bytes from 20 on are zero.
    pub proof fn lemma_reserved_zero(&self)
        ensures
            self.spec_bytes().len() == 32,
            forall|i: int| 20 <= i < 32 ==> #[trigger] self.spec_bytes()[i] == 0,
    {
    }
}

impl ElToritoSectionEntry {
    /// An entry takes 32 bytes, of which byte 5 is zero.
    pub proof fn lemma_reserved_zero(&self)
        ensures
            self.spec_bytes().len() == 32,
            self.spec_bytes()[5] == 0,
    {
    }
}

} // verus!
