//! Writing values out: every value says how many bytes it takes and which
//! bytes they are, and is written into a caller's buffer.

use crate::bytes::{
    filled, put_bytes, put_fill, put_u16_both, put_u16_le, put_u32_be, put_u32_both, put_u32_le,
    put_u8, u16_both, u16_le, u32_be, u32_both, u32_le, units_be, zeros,
};
use crate::spec::{
    cd001, first_non_a, first_non_d, put_units_be, A1Characters, ACharacters, D1Characters, DCharacters,
    DigitsDate, DigitsDay, DigitsHour, DigitsHundreths, DigitsMinute, DigitsMonth, DigitsSecond,
    DigitsYear, DirectoryIdentifier, DirectoryRecord, ElToritoBootMediaTypeExt,
    ElToritoEmulationType, ElToritoHeaderId, ElToritoPlatformId,
    ElToritoBootRecordVolumeDescriptor, ElToritoInitialSectionEntry, ElToritoManufacturerId,
    ElToritoSectionEntry, ElToritoSectionEntryExtension, ElToritoSectionHeaderEntry,
    ElToritoSectionId, ElToritoValidationEntry, EscapeSequences, ExtendedAttributeRecordVersion,
    Extension, FileFlags, FileIdentifier, FileStructureVersion, GroupIdentification, Identifier,
    JolietDirectoryIdentifier, JolietFileIdentifier, NumericalDate, NumericalDay,
    NumericalGmtOffset, NumericalHour, NumericalMinute, NumericalMonth, NumericalSecond,
    NumericalYear, OwnerIdentification, Permissions, PrimaryVolumeDescriptor, RecordAttributes,
    RecordFormat, RootDirectoryRecord, StandardIdentifier, SupplementaryVolumeDescriptor,
    VariadicEscapeSequences, VolumeDescriptorSetTerminator, VolumeDescriptorVersion, VolumeFlags,
    VolumePartitionDescriptor,
};
use vstd::prelude::*;

verus! {

/// Why a value could not be written.
#[derive(Debug, Clone, Copy, PartialEq, Eq)]
pub enum IsoSerializeError {
    /// The buffer has `got` bytes where the value named by `when` takes `expected`.
    InputTooSmall { expected: usize, got: usize, when: &'static str },
    /// The byte at `offset` of `field` breaks the rule of that field.
    BadCharacter { field: &'static str, offset: usize },
}

/// A value that can be written out.
pub trait IsoSerialize {
    /// The bytes that stand for the value on disk.
    spec fn spec_bytes(&self) -> Seq<u8>;

    /// The first thing about the value that keeps it from being written, if
    /// there is any.
    spec fn spec_check(&self) -> Option<IsoSerializeError>;

    /// What the value is called where a buffer is too small for it.
    spec fn spec_name(&self) -> &'static str;

    fn name(&self) -> (r: &'static str)
        ensures
            r == self.spec_name(),
    ;

    /// How many bytes the value takes.
    fn extent(&self) -> (n: usize)
        ensures
            n == self.spec_bytes().len(),
    ;

    /// Writes the value to the front of a buffer that is known to be large
    /// enough. A value that breaks a rule of its fields is not written at all.
    fn serialize_unchecked(&self, out: &mut [u8]) -> (r: Result<(), IsoSerializeError>)
        requires
            old(out)@.len() >= self.spec_bytes().len(),
        ensures
            final(out)@.len() == old(out)@.len(),
            match self.spec_check() {
                Some(e) => r == Err::<(), IsoSerializeError>(e) && final(out)@ == old(out)@,
                None => r is Ok && final(out)@ == self.spec_bytes() + old(out)@.skip(
                    self.spec_bytes().len() as int,
                ),
            },
    ;

    /// Writes the value to the front of `out` and returns how many bytes it
    /// took. A buffer that is too small, or a value that breaks a rule of its
    /// fields, leaves `out` as it was.
    fn serialize(&self, out: &mut [u8]) -> (r: Result<usize, IsoSerializeError>)
        ensures
            final(out)@.len() == old(out)@.len(),
            old(out)@.len() < self.spec_bytes().len() ==> final(out)@ == old(out)@ && r == Err::<
                usize,
                IsoSerializeError,
            >(
                IsoSerializeError::InputTooSmall {
                    expected: self.spec_bytes().len() as usize,
                    got: old(out)@.len() as usize,
                    when: self.spec_name(),
                },
            ),
            old(out)@.len() >= self.spec_bytes().len() ==> match self.spec_check() {
                Some(e) => r == Err::<usize, IsoSerializeError>(e) && final(out)@ == old(out)@,
                None => r == Ok::<usize, IsoSerializeError>(self.spec_bytes().len() as usize)
                    && final(out)@ == self.spec_bytes() + old(out)@.skip(
                    self.spec_bytes().len() as int,
                ),
            },
    {
        let extent = self.extent();
        if out.len() < extent {
            return Err(
                IsoSerializeError::InputTooSmall {
                    expected: extent,
                    got: out.len(),
                    when: self.name(),
                },
            );
        }
        match self.serialize_unchecked(out) {
            Ok(()) => Ok(extent),
            Err(e) => Err(e),
        }
    }
}

/// A buffer whose front was overwritten with `piece` and whose rest was left
/// alone is `piece` followed by that rest.
pub proof fn lemma_written(before: Seq<u8>, after: Seq<u8>, piece: Seq<u8>)
    requires
        after.len() == before.len(),
        piece.len() <= before.len(),
        after.subrange(0, piece.len() as int) == before.subrange(0, 0) + piece,
        forall|i: int| piece.len() <= i < before.len() ==> after[i] == before[i],
    ensures
        after == piece + before.skip(piece.len() as int),
{
    assert forall|i: int| 0 <= i < piece.len() implies after[i] == piece[i] by {
        assert(after[i] == after.subrange(0, piece.len() as int)[i]);
    }
    assert(after =~= piece + before.skip(piece.len() as int));
}

/// The two ASCII digits of `v`; of a number over 99, those of its last two places.
#[verifier::opaque]
pub open spec fn digits2(v: int) -> Seq<u8> {
    seq![(48 + (v / 10) % 10) as u8, (48 + v % 10) as u8]
}

/// The four ASCII digits of `v`; of a number over 9999, those of its last four places.
pub open spec fn digits4(v: int) -> Seq<u8> {
    digits2(v / 100) + digits2(v % 100)
}

pub proof fn lemma_digits_len(v: int)
    ensures
        digits2(v).len() == 2,
        digits4(v).len() == 4,
{
    reveal(digits2);
}

/// Writes `v` as two ASCII digits at `at`.
pub fn put_digits2(out: &mut [u8], at: usize, v: u16) -> (end: usize)
    requires
        at + 2 <= old(out)@.len(),
    ensures
        end == at + 2,
        final(out)@.len() == old(out)@.len(),
        final(out)@.subrange(0, end as int) == old(out)@.subrange(0, at as int) + digits2(
            v as int,
        ),
        forall|i: int| end <= i < old(out)@.len() ==> final(out)@[i] == old(out)@[i],
{
    out[at] = 48 + ((v / 10) % 10) as u8;
    out[at + 1] = 48 + (v % 10) as u8;
    reveal(digits2);
    assert(out@.subrange(0, at + 2) =~= old(out)@.subrange(0, at as int) + digits2(v as int));
    at + 2
}

/// Writes `v` as four ASCII digits at `at`.
pub fn put_digits4(out: &mut [u8], at: usize, v: u16) -> (end: usize)
    requires
        at + 4 <= old(out)@.len(),
    ensures
        end == at + 4,
        final(out)@.len() == old(out)@.len(),
        final(out)@.subrange(0, end as int) == old(out)@.subrange(0, at as int) + digits4(
            v as int,
        ),
        forall|i: int| end <= i < old(out)@.len() ==> final(out)@[i] == old(out)@[i],
{
    let mid = put_digits2(out, at, v / 100);
    let end = put_digits2(out, mid, v % 100);
    proof {
        lemma_digits_len(v as int / 100);
        lemma_digits_len(v as int % 100);
        assert(out@.subrange(0, at + 4) =~= old(out)@.subrange(0, at as int) + digits4(v as int));
    }
    at + 4
}

impl<const LENGTH: usize> IsoSerialize for ACharacters<LENGTH> {
    open spec fn spec_bytes(&self) -> Seq<u8> {
        self.0@
    }

    open spec fn spec_check(&self) -> Option<IsoSerializeError> {
        match first_non_a(self.0@) {
            Some(k) => Some(IsoSerializeError::BadCharacter { field: "ACharacters", offset: k as usize }),
            None => None,
        }
    }

    open spec fn spec_name(&self) -> &'static str {
        "ACharacters"
    }

    fn name(&self) -> (r: &'static str) {
        "ACharacters"
    }

    fn extent(&self) -> (n: usize) {
        LENGTH
    }

    fn serialize_unchecked(&self, out: &mut [u8]) -> (r: Result<(), IsoSerializeError>) {
        if let Some(k) = self.first_invalid() {
            return Err(IsoSerializeError::BadCharacter { field: "ACharacters", offset: k });
        }
        let _end = put_bytes(out, 0, self.0.as_slice());
        proof {
            lemma_written(old(out)@, out@, self.spec_bytes());
        }
        Ok(())
    }
}

impl<const LENGTH: usize> IsoSerialize for DCharacters<LENGTH> {
    open spec fn spec_bytes(&self) -> Seq<u8> {
        self.0@
    }

    open spec fn spec_check(&self) -> Option<IsoSerializeError> {
        match first_non_d(self.0@) {
            Some(k) => Some(IsoSerializeError::BadCharacter { field: "DCharacters", offset: k as usize }),
            None => None,
        }
    }

    open spec fn spec_name(&self) -> &'static str {
        "DCharacters"
    }

    fn name(&self) -> (r: &'static str) {
        "DCharacters"
    }

    fn extent(&self) -> (n: usize) {
        LENGTH
    }

    fn serialize_unchecked(&self, out: &mut [u8]) -> (r: Result<(), IsoSerializeError>) {
        if let Some(k) = self.first_invalid() {
            return Err(IsoSerializeError::BadCharacter { field: "DCharacters", offset: k });
        }
        let _end = put_bytes(out, 0, self.0.as_slice());
        proof {
            lemma_written(old(out)@, out@, self.spec_bytes());
        }
        Ok(())
    }
}

impl<const LENGTH: usize> IsoSerialize for A1Characters<LENGTH> {
    open spec fn spec_bytes(&self) -> Seq<u8> {
        self.0@
    }

    open spec fn spec_check(&self) -> Option<IsoSerializeError> {
        None
    }

    open spec fn spec_name(&self) -> &'static str {
        "A1Characters"
    }

    fn name(&self) -> (r: &'static str) {
        "A1Characters"
    }

    fn extent(&self) -> (n: usize) {
        LENGTH
    }

    fn serialize_unchecked(&self, out: &mut [u8]) -> (r: Result<(), IsoSerializeError>) {
        let _end = put_bytes(out, 0, self.0.as_slice());
        proof {
            lemma_written(old(out)@, out@, self.spec_bytes());
        }
        Ok(())
    }
}

impl<const LENGTH: usize> IsoSerialize for D1Characters<LENGTH> {
    open spec fn spec_bytes(&self) -> Seq<u8> {
        self.0@
    }

    open spec fn spec_check(&self) -> Option<IsoSerializeError> {
        None
    }

    open spec fn spec_name(&self) -> &'static str {
        "D1Characters"
    }

    fn name(&self) -> (r: &'static str) {
        "D1Characters"
    }

    fn extent(&self) -> (n: usize) {
        LENGTH
    }

    fn serialize_unchecked(&self, out: &mut [u8]) -> (r: Result<(), IsoSerializeError>) {
        let _end = put_bytes(out, 0, self.0.as_slice());
        proof {
            lemma_written(old(out)@, out@, self.spec_bytes());
        }
        Ok(())
    }
}

impl<const LENGTH: usize> IsoSerialize for EscapeSequences<LENGTH> {
    open spec fn spec_bytes(&self) -> Seq<u8> {
        self.0@
    }

    open spec fn spec_check(&self) -> Option<IsoSerializeError> {
        None
    }

    open spec fn spec_name(&self) -> &'static str {
        "EscapeSequences"
    }

    fn name(&self) -> (r: &'static str) {
        "EscapeSequences"
    }

    fn extent(&self) -> (n: usize) {
        LENGTH
    }

    fn serialize_unchecked(&self, out: &mut [u8]) -> (r: Result<(), IsoSerializeError>) {
        let _end = put_bytes(out, 0, self.0.as_slice());
        proof {
            lemma_written(old(out)@, out@, self.spec_bytes());
        }
        Ok(())
    }
}

impl IsoSerialize for VariadicEscapeSequences {
    open spec fn spec_bytes(&self) -> Seq<u8> {
        self.0@
    }

    open spec fn spec_check(&self) -> Option<IsoSerializeError> {
        None
    }

    open spec fn spec_name(&self) -> &'static str {
        "VariadicEscapeSequences"
    }

    fn name(&self) -> (r: &'static str) {
        "VariadicEscapeSequences"
    }

    fn extent(&self) -> (n: usize) {
        self.0.len()
    }

    fn serialize_unchecked(&self, out: &mut [u8]) -> (r: Result<(), IsoSerializeError>) {
        let _end = put_bytes(out, 0, self.0.as_slice());
        proof {
            lemma_written(old(out)@, out@, self.spec_bytes());
        }
        Ok(())
    }
}

impl<const LENGTH: usize> IsoSerialize for FileIdentifier<LENGTH> {
    open spec fn spec_bytes(&self) -> Seq<u8> {
        self.0@
    }

    open spec fn spec_check(&self) -> Option<IsoSerializeError> {
        None
    }

    open spec fn spec_name(&self) -> &'static str {
        "FileIdentifier"
    }

    fn name(&self) -> (r: &'static str) {
        "FileIdentifier"
    }

    fn extent(&self) -> (n: usize) {
        LENGTH
    }

    fn serialize_unchecked(&self, out: &mut [u8]) -> (r: Result<(), IsoSerializeError>) {
        let _end = put_bytes(out, 0, self.0.as_slice());
        proof {
            lemma_written(old(out)@, out@, self.spec_bytes());
        }
        Ok(())
    }
}

impl<const LENGTH: usize> IsoSerialize for DirectoryIdentifier<LENGTH> {
    open spec fn spec_bytes(&self) -> Seq<u8> {
        self.0@
    }

    open spec fn spec_check(&self) -> Option<IsoSerializeError> {
        None
    }

    open spec fn spec_name(&self) -> &'static str {
        "DirectoryIdentifier"
    }

    fn name(&self) -> (r: &'static str) {
        "DirectoryIdentifier"
    }

    fn extent(&self) -> (n: usize) {
        LENGTH
    }

    fn serialize_unchecked(&self, out: &mut [u8]) -> (r: Result<(), IsoSerializeError>) {
        let _end = put_bytes(out, 0, self.0.as_slice());
        proof {
            lemma_written(old(out)@, out@, self.spec_bytes());
        }
        Ok(())
    }
}

impl IsoSerialize for JolietFileIdentifier {
    open spec fn spec_bytes(&self) -> Seq<u8> {
        units_be(self.0@)
    }

    open spec fn spec_check(&self) -> Option<IsoSerializeError> {
        None
    }

    open spec fn spec_name(&self) -> &'static str {
        "JolietFileIdentifier"
    }

    fn name(&self) -> (r: &'static str) {
        "JolietFileIdentifier"
    }

    fn extent(&self) -> (n: usize) {
        proof {
            assert(units_be(self.0@).len() == 128);
        }
        128
    }

    fn serialize_unchecked(&self, out: &mut [u8]) -> (r: Result<(), IsoSerializeError>) {
        let _end = put_units_be(out, 0, &self.0, 128);
        proof {
            assert(units_be(self.0@).subrange(0, 128) =~= units_be(self.0@));
            lemma_written(old(out)@, out@, self.spec_bytes());
        }
        Ok(())
    }
}

impl IsoSerialize for JolietDirectoryIdentifier {
    open spec fn spec_bytes(&self) -> Seq<u8> {
        units_be(self.0@)
    }

    open spec fn spec_check(&self) -> Option<IsoSerializeError> {
        None
    }

    open spec fn spec_name(&self) -> &'static str {
        "JolietDirectoryIdentifier"
    }

    fn name(&self) -> (r: &'static str) {
        "JolietDirectoryIdentifier"
    }

    fn extent(&self) -> (n: usize) {
        proof {
            assert(units_be(self.0@).len() == 128);
        }
        128
    }

    fn serialize_unchecked(&self, out: &mut [u8]) -> (r: Result<(), IsoSerializeError>) {
        let _end = put_units_be(out, 0, &self.0, 128);
        proof {
            assert(units_be(self.0@).subrange(0, 128) =~= units_be(self.0@));
            lemma_written(old(out)@, out@, self.spec_bytes());
        }
        Ok(())
    }
}

impl IsoSerialize for FileFlags {
    open spec fn spec_bytes(&self) -> Seq<u8> {
        seq![self.bits]
    }

    open spec fn spec_check(&self) -> Option<IsoSerializeError> {
        None
    }

    open spec fn spec_name(&self) -> &'static str {
        "FileFlags"
    }

    fn name(&self) -> (r: &'static str) {
        "FileFlags"
    }

    fn extent(&self) -> (n: usize) {
        1
    }

    fn serialize_unchecked(&self, out: &mut [u8]) -> (r: Result<(), IsoSerializeError>) {
        let _end = put_u8(out, 0, self.bits);
        proof {
            lemma_written(old(out)@, out@, self.spec_bytes());
        }
        Ok(())
    }
}

impl IsoSerialize for Permissions {
    open spec fn spec_bytes(&self) -> Seq<u8> {
        u16_le(self.bits)
    }

    open spec fn spec_check(&self) -> Option<IsoSerializeError> {
        None
    }

    open spec fn spec_name(&self) -> &'static str {
        "Permissions"
    }

    fn name(&self) -> (r: &'static str) {
        "Permissions"
    }

    fn extent(&self) -> (n: usize) {
        2
    }

    fn serialize_unchecked(&self, out: &mut [u8]) -> (r: Result<(), IsoSerializeError>) {
        let _end = put_u16_le(out, 0, self.bits);
        proof {
            lemma_written(old(out)@, out@, self.spec_bytes());
        }
        Ok(())
    }
}

impl IsoSerialize for VolumeFlags {
    open spec fn spec_bytes(&self) -> Seq<u8> {
        seq![self.bits]
    }

    open spec fn spec_check(&self) -> Option<IsoSerializeError> {
        None
    }

    open spec fn spec_name(&self) -> &'static str {
        "VolumeFlags"
    }

    fn name(&self) -> (r: &'static str) {
        "VolumeFlags"
    }

    fn extent(&self) -> (n: usize) {
        1
    }

    fn serialize_unchecked(&self, out: &mut [u8]) -> (r: Result<(), IsoSerializeError>) {
        let _end = put_u8(out, 0, self.bits);
        proof {
            lemma_written(old(out)@, out@, self.spec_bytes());
        }
        Ok(())
    }
}

impl IsoSerialize for OwnerIdentification {
    open spec fn spec_bytes(&self) -> Seq<u8> {
        u16_le(self.0)
    }

    open spec fn spec_check(&self) -> Option<IsoSerializeError> {
        None
    }

    open spec fn spec_name(&self) -> &'static str {
        "OwnerIdentification"
    }

    fn name(&self) -> (r: &'static str) {
        "OwnerIdentification"
    }

    fn extent(&self) -> (n: usize) {
        2
    }

    fn serialize_unchecked(&self, out: &mut [u8]) -> (r: Result<(), IsoSerializeError>) {
        let _end = put_u16_le(out, 0, self.0);
        proof {
            lemma_written(old(out)@, out@, self.spec_bytes());
        }
        Ok(())
    }
}

impl IsoSerialize for GroupIdentification {
    open spec fn spec_bytes(&self) -> Seq<u8> {
        u16_le(self.0)
    }

    open spec fn spec_check(&self) -> Option<IsoSerializeError> {
        None
    }

    open spec fn spec_name(&self) -> &'static str {
        "GroupIdentification"
    }

    fn name(&self) -> (r: &'static str) {
        "GroupIdentification"
    }

    fn extent(&self) -> (n: usize) {
        2
    }

    fn serialize_unchecked(&self, out: &mut [u8]) -> (r: Result<(), IsoSerializeError>) {
        let _end = put_u16_le(out, 0, self.0);
        proof {
            lemma_written(old(out)@, out@, self.spec_bytes());
        }
        Ok(())
    }
}

impl IsoSerialize for RecordFormat {
    open spec fn spec_bytes(&self) -> Seq<u8> {
        seq![self.spec_to_u8()]
    }

    open spec fn spec_check(&self) -> Option<IsoSerializeError> {
        None
    }

    open spec fn spec_name(&self) -> &'static str {
        "RecordFormat"
    }

    fn name(&self) -> (r: &'static str) {
        "RecordFormat"
    }

    fn extent(&self) -> (n: usize) {
        1
    }

    fn serialize_unchecked(&self, out: &mut [u8]) -> (r: Result<(), IsoSerializeError>) {
        let _end = put_u8(out, 0, self.to_u8());
        proof {
            lemma_written(old(out)@, out@, self.spec_bytes());
        }
        Ok(())
    }
}

impl IsoSerialize for RecordAttributes {
    open spec fn spec_bytes(&self) -> Seq<u8> {
        seq![self.spec_to_u8()]
    }

    open spec fn spec_check(&self) -> Option<IsoSerializeError> {
        None
    }

    open spec fn spec_name(&self) -> &'static str {
        "RecordAttributes"
    }

    fn name(&self) -> (r: &'static str) {
        "RecordAttributes"
    }

    fn extent(&self) -> (n: usize) {
        1
    }

    fn serialize_unchecked(&self, out: &mut [u8]) -> (r: Result<(), IsoSerializeError>) {
        let _end = put_u8(out, 0, self.to_u8());
        proof {
            lemma_written(old(out)@, out@, self.spec_bytes());
        }
        Ok(())
    }
}

impl IsoSerialize for ExtendedAttributeRecordVersion {
    open spec fn spec_bytes(&self) -> Seq<u8> {
        seq![self.spec_to_u8()]
    }

    open spec fn spec_check(&self) -> Option<IsoSerializeError> {
        None
    }

    open spec fn spec_name(&self) -> &'static str {
        "ExtendedAttributeRecordVersion"
    }

    fn name(&self) -> (r: &'static str) {
        "ExtendedAttributeRecordVersion"
    }

    fn extent(&self) -> (n: usize) {
        1
    }

    fn serialize_unchecked(&self, out: &mut [u8]) -> (r: Result<(), IsoSerializeError>) {
        let _end = put_u8(out, 0, self.to_u8());
        proof {
            lemma_written(old(out)@, out@, self.spec_bytes());
        }
        Ok(())
    }
}

impl IsoSerialize for StandardIdentifier {
    open spec fn spec_bytes(&self) -> Seq<u8> {
        self.spec_as_bytes()
    }

    open spec fn spec_check(&self) -> Option<IsoSerializeError> {
        None
    }

    open spec fn spec_name(&self) -> &'static str {
        "StandardIdentifier"
    }

    fn name(&self) -> (r: &'static str) {
        "StandardIdentifier"
    }

    fn extent(&self) -> (n: usize) {
        5
    }

    fn serialize_unchecked(&self, out: &mut [u8]) -> (r: Result<(), IsoSerializeError>) {
        let _end = put_bytes(out, 0, self.as_bytes().as_slice());
        proof {
            lemma_written(old(out)@, out@, self.spec_bytes());
        }
        Ok(())
    }
}

impl IsoSerialize for VolumeDescriptorVersion {
    open spec fn spec_bytes(&self) -> Seq<u8> {
        seq![self.spec_to_u8()]
    }

    open spec fn spec_check(&self) -> Option<IsoSerializeError> {
        None
    }

    open spec fn spec_name(&self) -> &'static str {
        "VolumeDescriptorVersion"
    }

    fn name(&self) -> (r: &'static str) {
        "VolumeDescriptorVersion"
    }

    fn extent(&self) -> (n: usize) {
        1
    }

    fn serialize_unchecked(&self, out: &mut [u8]) -> (r: Result<(), IsoSerializeError>) {
        let _end = put_u8(out, 0, self.to_u8());
        proof {
            lemma_written(old(out)@, out@, self.spec_bytes());
        }
        Ok(())
    }
}

impl IsoSerialize for FileStructureVersion {
    open spec fn spec_bytes(&self) -> Seq<u8> {
        seq![self.spec_to_u8()]
    }

    open spec fn spec_check(&self) -> Option<IsoSerializeError> {
        None
    }

    open spec fn spec_name(&self) -> &'static str {
        "FileStructureVersion"
    }

    fn name(&self) -> (r: &'static str) {
        "FileStructureVersion"
    }

    fn extent(&self) -> (n: usize) {
        1
    }

    fn serialize_unchecked(&self, out: &mut [u8]) -> (r: Result<(), IsoSerializeError>) {
        let _end = put_u8(out, 0, self.to_u8());
        proof {
            lemma_written(old(out)@, out@, self.spec_bytes());
        }
        Ok(())
    }
}

impl IsoSerialize for DigitsYear {
    open spec fn spec_bytes(&self) -> Seq<u8> {
        digits4(self.0 as int)
    }

    open spec fn spec_check(&self) -> Option<IsoSerializeError> {
        if self.0 > 9999 {
            Some(IsoSerializeError::BadCharacter { field: "DigitsYear", offset: 0 })
        } else {
            None
        }
    }

    open spec fn spec_name(&self) -> &'static str {
        "DigitsYear"
    }

    fn name(&self) -> (r: &'static str) {
        "DigitsYear"
    }

    fn extent(&self) -> (n: usize) {
        proof {
            lemma_digits_len(self.0 as int / 100);
            lemma_digits_len(self.0 as int % 100);
        }
        4
    }

    fn serialize_unchecked(&self, out: &mut [u8]) -> (r: Result<(), IsoSerializeError>) {
        if self.0 > 9999 {
            return Err(IsoSerializeError::BadCharacter { field: "DigitsYear", offset: 0 });
        }
        proof {
            lemma_digits_len(self.0 as int / 100);
            lemma_digits_len(self.0 as int % 100);
        }
        let _end = put_digits4(out, 0, self.0);
        proof {
            lemma_written(old(out)@, out@, self.spec_bytes());
        }
        Ok(())
    }
}

impl IsoSerialize for DigitsMonth {
    open spec fn spec_bytes(&self) -> Seq<u8> {
        digits2(self.0 as int)
    }

    open spec fn spec_check(&self) -> Option<IsoSerializeError> {
        if self.0 > 99 {
            Some(IsoSerializeError::BadCharacter { field: "DigitsMonth", offset: 0 })
        } else {
            None
        }
    }

    open spec fn spec_name(&self) -> &'static str {
        "DigitsMonth"
    }

    fn name(&self) -> (r: &'static str) {
        "DigitsMonth"
    }

    fn extent(&self) -> (n: usize) {
        proof {
            lemma_digits_len(self.0 as int);
        }
        2
    }

    fn serialize_unchecked(&self, out: &mut [u8]) -> (r: Result<(), IsoSerializeError>) {
        if self.0 > 99 {
            return Err(IsoSerializeError::BadCharacter { field: "DigitsMonth", offset: 0 });
        }
        proof {
            lemma_digits_len(self.0 as int);
        }
        let _end = put_digits2(out, 0, self.0 as u16);
        proof {
            lemma_written(old(out)@, out@, self.spec_bytes());
        }
        Ok(())
    }
}

impl IsoSerialize for DigitsDay {
    open spec fn spec_bytes(&self) -> Seq<u8> {
        digits2(self.0 as int)
    }

    open spec fn spec_check(&self) -> Option<IsoSerializeError> {
        if self.0 > 99 {
            Some(IsoSerializeError::BadCharacter { field: "DigitsDay", offset: 0 })
        } else {
            None
        }
    }

    open spec fn spec_name(&self) -> &'static str {
        "DigitsDay"
    }

    fn name(&self) -> (r: &'static str) {
        "DigitsDay"
    }

    fn extent(&self) -> (n: usize) {
        proof {
            lemma_digits_len(self.0 as int);
        }
        2
    }

    fn serialize_unchecked(&self, out: &mut [u8]) -> (r: Result<(), IsoSerializeError>) {
        if self.0 > 99 {
            return Err(IsoSerializeError::BadCharacter { field: "DigitsDay", offset: 0 });
        }
        proof {
            lemma_digits_len(self.0 as int);
        }
        let _end = put_digits2(out, 0, self.0 as u16);
        proof {
            lemma_written(old(out)@, out@, self.spec_bytes());
        }
        Ok(())
    }
}

impl IsoSerialize for DigitsHour {
    open spec fn spec_bytes(&self) -> Seq<u8> {
        digits2(self.0 as int)
    }

    open spec fn spec_check(&self) -> Option<IsoSerializeError> {
        if self.0 > 99 {
            Some(IsoSerializeError::BadCharacter { field: "DigitsHour", offset: 0 })
        } else {
            None
        }
    }

    open spec fn spec_name(&self) -> &'static str {
        "DigitsHour"
    }

    fn name(&self) -> (r: &'static str) {
        "DigitsHour"
    }

    fn extent(&self) -> (n: usize) {
        proof {
            lemma_digits_len(self.0 as int);
        }
        2
    }

    fn serialize_unchecked(&self, out: &mut [u8]) -> (r: Result<(), IsoSerializeError>) {
        if self.0 > 99 {
            return Err(IsoSerializeError::BadCharacter { field: "DigitsHour", offset: 0 });
        }
        proof {
            lemma_digits_len(self.0 as int);
        }
        let _end = put_digits2(out, 0, self.0 as u16);
        proof {
            lemma_written(old(out)@, out@, self.spec_bytes());
        }
        Ok(())
    }
}

impl IsoSerialize for DigitsMinute {
    open spec fn spec_bytes(&self) -> Seq<u8> {
        digits2(self.0 as int)
    }

    open spec fn spec_check(&self) -> Option<IsoSerializeError> {
        if self.0 > 99 {
            Some(IsoSerializeError::BadCharacter { field: "DigitsMinute", offset: 0 })
        } else {
            None
        }
    }

    open spec fn spec_name(&self) -> &'static str {
        "DigitsMinute"
    }

    fn name(&self) -> (r: &'static str) {
        "DigitsMinute"
    }

    fn extent(&self) -> (n: usize) {
        proof {
            lemma_digits_len(self.0 as int);
        }
        2
    }

    fn serialize_unchecked(&self, out: &mut [u8]) -> (r: Result<(), IsoSerializeError>) {
        if self.0 > 99 {
            return Err(IsoSerializeError::BadCharacter { field: "DigitsMinute", offset: 0 });
        }
        proof {
            lemma_digits_len(self.0 as int);
        }
        let _end = put_digits2(out, 0, self.0 as u16);
        proof {
            lemma_written(old(out)@, out@, self.spec_bytes());
        }
        Ok(())
    }
}

impl IsoSerialize for DigitsSecond {
    open spec fn spec_bytes(&self) -> Seq<u8> {
        digits2(self.0 as int)
    }

    open spec fn spec_check(&self) -> Option<IsoSerializeError> {
        if self.0 > 99 {
            Some(IsoSerializeError::BadCharacter { field: "DigitsSecond", offset: 0 })
        } else {
            None
        }
    }

    open spec fn spec_name(&self) -> &'static str {
        "DigitsSecond"
    }

    fn name(&self) -> (r: &'static str) {
        "DigitsSecond"
    }

    fn extent(&self) -> (n: usize) {
        proof {
            lemma_digits_len(self.0 as int);
        }
        2
    }

    fn serialize_unchecked(&self, out: &mut [u8]) -> (r: Result<(), IsoSerializeError>) {
        if self.0 > 99 {
            return Err(IsoSerializeError::BadCharacter { field: "DigitsSecond", offset: 0 });
        }
        proof {
            lemma_digits_len(self.0 as int);
        }
        let _end = put_digits2(out, 0, self.0 as u16);
        proof {
            lemma_written(old(out)@, out@, self.spec_bytes());
        }
        Ok(())
    }
}

impl IsoSerialize for DigitsHundreths {
    open spec fn spec_bytes(&self) -> Seq<u8> {
        digits2(self.0 as int)
    }

    open spec fn spec_check(&self) -> Option<IsoSerializeError> {
        if self.0 > 99 {
            Some(IsoSerializeError::BadCharacter { field: "DigitsHundreths", offset: 0 })
        } else {
            None
        }
    }

    open spec fn spec_name(&self) -> &'static str {
        "DigitsHundreths"
    }

    fn name(&self) -> (r: &'static str) {
        "DigitsHundreths"
    }

    fn extent(&self) -> (n: usize) {
        proof {
            lemma_digits_len(self.0 as int);
        }
        2
    }

    fn serialize_unchecked(&self, out: &mut [u8]) -> (r: Result<(), IsoSerializeError>) {
        if self.0 > 99 {
            return Err(IsoSerializeError::BadCharacter { field: "DigitsHundreths", offset: 0 });
        }
        proof {
            lemma_digits_len(self.0 as int);
        }
        let _end = put_digits2(out, 0, self.0 as u16);
        proof {
            lemma_written(old(out)@, out@, self.spec_bytes());
        }
        Ok(())
    }
}

impl IsoSerialize for NumericalYear {
    open spec fn spec_bytes(&self) -> Seq<u8> {
        seq![self.0]
    }

    open spec fn spec_check(&self) -> Option<IsoSerializeError> {
        None
    }

    open spec fn spec_name(&self) -> &'static str {
        "NumericalYear"
    }

    fn name(&self) -> (r: &'static str) {
        "NumericalYear"
    }

    fn extent(&self) -> (n: usize) {
        1
    }

    fn serialize_unchecked(&self, out: &mut [u8]) -> (r: Result<(), IsoSerializeError>) {
        let _end = put_u8(out, 0, self.0);
        proof {
            lemma_written(old(out)@, out@, self.spec_bytes());
        }
        Ok(())
    }
}

impl IsoSerialize for NumericalMonth {
    open spec fn spec_bytes(&self) -> Seq<u8> {
        seq![self.0]
    }

    open spec fn spec_check(&self) -> Option<IsoSerializeError> {
        None
    }

    open spec fn spec_name(&self) -> &'static str {
        "NumericalMonth"
    }

    fn name(&self) -> (r: &'static str) {
        "NumericalMonth"
    }

    fn extent(&self) -> (n: usize) {
        1
    }

    fn serialize_unchecked(&self, out: &mut [u8]) -> (r: Result<(), IsoSerializeError>) {
        let _end = put_u8(out, 0, self.0);
        proof {
            lemma_written(old(out)@, out@, self.spec_bytes());
        }
        Ok(())
    }
}

impl IsoSerialize for NumericalDay {
    open spec fn spec_bytes(&self) -> Seq<u8> {
        seq![self.0]
    }

    open spec fn spec_check(&self) -> Option<IsoSerializeError> {
        None
    }

    open spec fn spec_name(&self) -> &'static str {
        "NumericalDay"
    }

    fn name(&self) -> (r: &'static str) {
        "NumericalDay"
    }

    fn extent(&self) -> (n: usize) {
        1
    }

    fn serialize_unchecked(&self, out: &mut [u8]) -> (r: Result<(), IsoSerializeError>) {
        let _end = put_u8(out, 0, self.0);
        proof {
            lemma_written(old(out)@, out@, self.spec_bytes());
        }
        Ok(())
    }
}

impl IsoSerialize for NumericalHour {
    open spec fn spec_bytes(&self) -> Seq<u8> {
        seq![self.0]
    }

    open spec fn spec_check(&self) -> Option<IsoSerializeError> {
        None
    }

    open spec fn spec_name(&self) -> &'static str {
        "NumericalHour"
    }

    fn name(&self) -> (r: &'static str) {
        "NumericalHour"
    }

    fn extent(&self) -> (n: usize) {
        1
    }

    fn serialize_unchecked(&self, out: &mut [u8]) -> (r: Result<(), IsoSerializeError>) {
        let _end = put_u8(out, 0, self.0);
        proof {
            lemma_written(old(out)@, out@, self.spec_bytes());
        }
        Ok(())
    }
}

impl IsoSerialize for NumericalMinute {
    open spec fn spec_bytes(&self) -> Seq<u8> {
        seq![self.0]
    }

    open spec fn spec_check(&self) -> Option<IsoSerializeError> {
        None
    }

    open spec fn spec_name(&self) -> &'static str {
        "NumericalMinute"
    }

    fn name(&self) -> (r: &'static str) {
        "NumericalMinute"
    }

    fn extent(&self) -> (n: usize) {
        1
    }

    fn serialize_unchecked(&self, out: &mut [u8]) -> (r: Result<(), IsoSerializeError>) {
        let _end = put_u8(out, 0, self.0);
        proof {
            lemma_written(old(out)@, out@, self.spec_bytes());
        }
        Ok(())
    }
}

impl IsoSerialize for NumericalSecond {
    open spec fn spec_bytes(&self) -> Seq<u8> {
        seq![self.0]
    }

    open spec fn spec_check(&self) -> Option<IsoSerializeError> {
        None
    }

    open spec fn spec_name(&self) -> &'static str {
        "NumericalSecond"
    }

    fn name(&self) -> (r: &'static str) {
        "NumericalSecond"
    }

    fn extent(&self) -> (n: usize) {
        1
    }

    fn serialize_unchecked(&self, out: &mut [u8]) -> (r: Result<(), IsoSerializeError>) {
        let _end = put_u8(out, 0, self.0);
        proof {
            lemma_written(old(out)@, out@, self.spec_bytes());
        }
        Ok(())
    }
}

impl IsoSerialize for NumericalGmtOffset {
    open spec fn spec_bytes(&self) -> Seq<u8> {
        seq![self.spec_to_u8()]
    }

    open spec fn spec_check(&self) -> Option<IsoSerializeError> {
        None
    }

    open spec fn spec_name(&self) -> &'static str {
        "NumericalGmtOffset"
    }

    fn name(&self) -> (r: &'static str) {
        "NumericalGmtOffset"
    }

    fn extent(&self) -> (n: usize) {
        1
    }

    fn serialize_unchecked(&self, out: &mut [u8]) -> (r: Result<(), IsoSerializeError>) {
        let _end = put_u8(out, 0, self.to_u8());
        proof {
            lemma_written(old(out)@, out@, self.spec_bytes());
        }
        Ok(())
    }
}

impl IsoSerialize for ElToritoManufacturerId {
    open spec fn spec_bytes(&self) -> Seq<u8> {
        self.0@
    }

    open spec fn spec_check(&self) -> Option<IsoSerializeError> {
        None
    }

    open spec fn spec_name(&self) -> &'static str {
        "ElToritoManufacturerId"
    }

    fn name(&self) -> (r: &'static str) {
        "ElToritoManufacturerId"
    }

    fn extent(&self) -> (n: usize) {
        24
    }

    fn serialize_unchecked(&self, out: &mut [u8]) -> (r: Result<(), IsoSerializeError>) {
        let _end = put_bytes(out, 0, self.0.as_slice());
        proof {
            lemma_written(old(out)@, out@, self.spec_bytes());
        }
        Ok(())
    }
}

impl IsoSerialize for ElToritoSectionId {
    open spec fn spec_bytes(&self) -> Seq<u8> {
        self.0@
    }

    open spec fn spec_check(&self) -> Option<IsoSerializeError> {
        None
    }

    open spec fn spec_name(&self) -> &'static str {
        "ElToritoSectionId"
    }

    fn name(&self) -> (r: &'static str) {
        "ElToritoSectionId"
    }

    fn extent(&self) -> (n: usize) {
        16
    }

    fn serialize_unchecked(&self, out: &mut [u8]) -> (r: Result<(), IsoSerializeError>) {
        let _end = put_bytes(out, 0, self.0.as_slice());
        proof {
            lemma_written(old(out)@, out@, self.spec_bytes());
        }
        Ok(())
    }
}
impl DigitsDate {
    /// Where in the 17 bytes the first field starts that does not fit its
    /// digits, if there is one.
    pub open spec fn spec_first_invalid(&self) -> Option<int> {
        if self.year.0 > 9999 {
            Some(0)
        } else if self.month.0 > 99 {
            Some(4)
        } else if self.day.0 > 99 {
            Some(6)
        } else if self.hour.0 > 99 {
            Some(8)
        } else if self.minute.0 > 99 {
            Some(10)
        } else if self.second.0 > 99 {
            Some(12)
        } else if self.hundreths.0 > 99 {
            Some(14)
        } else {
            None
        }
    }

    pub fn first_invalid(&self) -> (r: Option<usize>)
        ensures
            r is None <==> self.wf(),
            r is None <==> self.spec_first_invalid() is None,
            r is Some ==> self.spec_first_invalid() == Some(r.unwrap() as int),
    {
        if self.year.0 > 9999 {
            Some(0)
        } else if self.month.0 > 99 {
            Some(4)
        } else if self.day.0 > 99 {
            Some(6)
        } else if self.hour.0 > 99 {
            Some(8)
        } else if self.minute.0 > 99 {
            Some(10)
        } else if self.second.0 > 99 {
            Some(12)
        } else if self.hundreths.0 > 99 {
            Some(14)
        } else {
            None
        }
    }

    /// Writes the 17 bytes of the date at `at` and returns the position after them.
    pub fn put(&self, out: &mut [u8], at: usize) -> (end: usize)
        requires
            at + 17 <= old(out)@.len(),
        ensures
            end == at + 17,
            final(out)@.len() == old(out)@.len(),
            final(out)@.subrange(0, end as int) == old(out)@.subrange(0, at as int)
                + self.spec_bytes(),
            forall|i: int| end <= i < old(out)@.len() ==> final(out)@[i] == old(out)@[i],
    {
        let p = put_digits4(out, at, self.year.0);
        let p = put_digits2(out, p, self.month.0 as u16);
        let p = put_digits2(out, p, self.day.0 as u16);
        let p = put_digits2(out, p, self.hour.0 as u16);
        let p = put_digits2(out, p, self.minute.0 as u16);
        let p = put_digits2(out, p, self.second.0 as u16);
        let p = put_digits2(out, p, self.hundreths.0 as u16);
        let p = put_u8(out, p, self.gmt_offset.to_u8());
        proof {
            self.lemma_pieces();
            assert(out@.subrange(0, p as int) =~= old(out)@.subrange(0, at as int)
                + self.spec_bytes());
        }
        p
    }

    /// The lengths of the pieces of a date.
    pub proof fn lemma_pieces(&self)
        ensures
            digits4(self.year.0 as int).len() == 4,
            digits2(self.month.0 as int).len() == 2,
            digits2(self.day.0 as int).len() == 2,
            digits2(self.hour.0 as int).len() == 2,
            digits2(self.minute.0 as int).len() == 2,
            digits2(self.second.0 as int).len() == 2,
            digits2(self.hundreths.0 as int).len() == 2,
            self.spec_bytes().len() == 17,
    {
        lemma_digits_len(self.year.0 as int);
        lemma_digits_len(self.year.0 as int / 100);
        lemma_digits_len(self.year.0 as int % 100);
        lemma_digits_len(self.month.0 as int);
        lemma_digits_len(self.day.0 as int);
        lemma_digits_len(self.hour.0 as int);
        lemma_digits_len(self.minute.0 as int);
        lemma_digits_len(self.second.0 as int);
        lemma_digits_len(self.hundreths.0 as int);
    }
}

impl IsoSerialize for DigitsDate {
    open spec fn spec_bytes(&self) -> Seq<u8> {
        digits4(self.year.0 as int) + digits2(self.month.0 as int) + digits2(self.day.0 as int)
            + digits2(self.hour.0 as int) + digits2(self.minute.0 as int) + digits2(
            self.second.0 as int,
        ) + digits2(self.hundreths.0 as int) + seq![self.gmt_offset.spec_to_u8()]
    }

    open spec fn spec_check(&self) -> Option<IsoSerializeError> {
        match self.spec_first_invalid() {
            Some(k) => Some(IsoSerializeError::BadCharacter { field: "DigitsDate", offset: k as usize }),
            None => None,
        }
    }

    open spec fn spec_name(&self) -> &'static str {
        "DigitsDate"
    }

    fn name(&self) -> (r: &'static str) {
        "DigitsDate"
    }

    fn extent(&self) -> (n: usize) {
        proof {
            self.lemma_pieces();
        }
        17
    }

    fn serialize_unchecked(&self, out: &mut [u8]) -> (r: Result<(), IsoSerializeError>) {
        if let Some(k) = self.first_invalid() {
            return Err(IsoSerializeError::BadCharacter { field: "DigitsDate", offset: k });
        }
        proof {
            self.lemma_pieces();
        }
        let _end = self.put(out, 0);
        proof {
            lemma_written(old(out)@, out@, self.spec_bytes());
        }
        Ok(())
    }
}

impl NumericalDate {
    /// Writes the 7 bytes of the date at `at` and returns the position after them.
    pub fn put(&self, out: &mut [u8], at: usize) -> (end: usize)
        requires
            at + 7 <= old(out)@.len(),
        ensures
            end == at + 7,
            final(out)@.len() == old(out)@.len(),
            final(out)@.subrange(0, end as int) == old(out)@.subrange(0, at as int)
                + self.spec_bytes(),
            forall|i: int| end <= i < old(out)@.len() ==> final(out)@[i] == old(out)@[i],
    {
        let p = put_u8(out, at, self.years_since_1900.0);
        let p = put_u8(out, p, self.month.0);
        let p = put_u8(out, p, self.day.0);
        let p = put_u8(out, p, self.hour.0);
        let p = put_u8(out, p, self.minute.0);
        let p = put_u8(out, p, self.second.0);
        let p = put_u8(out, p, self.gmt_offset.to_u8());
        assert(out@.subrange(0, p as int) =~= old(out)@.subrange(0, at as int) + self.spec_bytes());
        p
    }
}

impl IsoSerialize for NumericalDate {
    open spec fn spec_bytes(&self) -> Seq<u8> {
        seq![
            self.years_since_1900.0,
            self.month.0,
            self.day.0,
            self.hour.0,
            self.minute.0,
            self.second.0,
            self.gmt_offset.spec_to_u8(),
        ]
    }

    open spec fn spec_check(&self) -> Option<IsoSerializeError> {
        None
    }

    open spec fn spec_name(&self) -> &'static str {
        "NumericalDate"
    }

    fn name(&self) -> (r: &'static str) {
        "NumericalDate"
    }

    fn extent(&self) -> (n: usize) {
        7
    }

    fn serialize_unchecked(&self, out: &mut [u8]) -> (r: Result<(), IsoSerializeError>) {
        let _end = self.put(out, 0);
        proof {
            lemma_written(old(out)@, out@, self.spec_bytes());
        }
        Ok(())
    }
}

impl RootDirectoryRecord {
    /// Writes the 34 bytes of the record at `at` and returns the position after them.
    pub fn put(&self, out: &mut [u8], at: usize) -> (end: usize)
        requires
            at + 34 <= old(out)@.len(),
        ensures
            end == at + 34,
            final(out)@.len() == old(out)@.len(),
            final(out)@.subrange(0, end as int) == old(out)@.subrange(0, at as int)
                + self.spec_bytes(),
            forall|i: int| end <= i < old(out)@.len() ==> final(out)@[i] == old(out)@[i],
    {
        let p = put_u8(out, at, 34);
        let p = put_u8(out, p, 0);
        let p = put_u32_both(out, p, self.extent_location);
        let p = put_u32_both(out, p, self.data_length);
        let p = self.recording_date.put(out, p);
        let p = put_u8(out, p, self.file_flags.bits);
        let p = put_u8(out, p, self.file_unit_size);
        let p = put_u8(out, p, self.interleave_gap_size);
        let p = put_u16_both(out, p, self.volume_sequence_number);
        let p = put_u8(out, p, 1);
        let p = put_u8(out, p, 0);
        assert(out@.subrange(0, p as int) =~= old(out)@.subrange(0, at as int) + self.spec_bytes());
        p
    }
}

impl IsoSerialize for RootDirectoryRecord {
    open spec fn spec_bytes(&self) -> Seq<u8> {
        seq![34u8] + seq![0u8] + u32_both(self.extent_location) + u32_both(self.data_length)
            + self.recording_date.spec_bytes() + seq![self.file_flags.bits] + seq![
            self.file_unit_size,
        ] + seq![self.interleave_gap_size] + u16_both(self.volume_sequence_number) + seq![1u8]
            + seq![0u8]
    }

    open spec fn spec_check(&self) -> Option<IsoSerializeError> {
        None
    }

    open spec fn spec_name(&self) -> &'static str {
        "RootDirectoryRecord"
    }

    fn name(&self) -> (r: &'static str) {
        "RootDirectoryRecord"
    }

    fn extent(&self) -> (n: usize) {
        34
    }

    fn serialize_unchecked(&self, out: &mut [u8]) -> (r: Result<(), IsoSerializeError>) {
        let _end = self.put(out, 0);
        proof {
            lemma_written(old(out)@, out@, self.spec_bytes());
        }
        Ok(())
    }
}

/// The first of two findings, where there is one.
pub open spec fn or_else(
    first: Option<IsoSerializeError>,
    second: Option<IsoSerializeError>,
) -> Option<IsoSerializeError> {
    if first is Some {
        first
    } else {
        second
    }
}

/// What is wrong with `s` as a field of a-characters named `field`.
pub open spec fn bad_a(s: Seq<u8>, field: &'static str) -> Option<IsoSerializeError> {
    match first_non_a(s) {
        Some(k) => Some(IsoSerializeError::BadCharacter { field, offset: k as usize }),
        None => None,
    }
}

/// What is wrong with `s` as a field of d-characters named `field`.
pub open spec fn bad_d(s: Seq<u8>, field: &'static str) -> Option<IsoSerializeError> {
    match first_non_d(s) {
        Some(k) => Some(IsoSerializeError::BadCharacter { field, offset: k as usize }),
        None => None,
    }
}

/// What is wrong with `d` as the date field named `field`.
pub open spec fn bad_date(d: DigitsDate, field: &'static str) -> Option<IsoSerializeError> {
    match d.spec_first_invalid() {
        Some(k) => Some(IsoSerializeError::BadCharacter { field, offset: k as usize }),
        None => None,
    }
}

fn check_a<const LENGTH: usize>(f: &ACharacters<LENGTH>, field: &'static str) -> (r: Option<
    IsoSerializeError,
>)
    ensures
        r == bad_a(f.0@, field),
{
    match f.first_invalid() {
        Some(k) => Some(IsoSerializeError::BadCharacter { field, offset: k }),
        None => None,
    }
}

fn check_d<const LENGTH: usize>(f: &DCharacters<LENGTH>, field: &'static str) -> (r: Option<
    IsoSerializeError,
>)
    ensures
        r == bad_d(f.0@, field),
{
    match f.first_invalid() {
        Some(k) => Some(IsoSerializeError::BadCharacter { field, offset: k }),
        None => None,
    }
}

fn check_date(d: &DigitsDate, field: &'static str) -> (r: Option<IsoSerializeError>)
    ensures
        r == bad_date(*d, field),
{
    match d.first_invalid() {
        Some(k) => Some(IsoSerializeError::BadCharacter { field, offset: k }),
        None => None,
    }
}

impl PrimaryVolumeDescriptor {
    /// The first field, in the order of the layout, that breaks its rule.
    pub fn check(&self) -> (r: Option<IsoSerializeError>)
        ensures
            r == self.spec_check(),
    {
        let e = check_a(&self.system_identifier, "system_identifier");
        if e.is_some() {
            return e;
        }
        let e = check_d(&self.volume_identifier, "volume_identifier");
        if e.is_some() {
            return e;
        }
        let e = check_d(&self.volume_set_identifier, "volume_set_identifier");
        if e.is_some() {
            return e;
        }
        let e = check_a(&self.publisher_identifier, "publisher_identifier");
        if e.is_some() {
            return e;
        }
        let e = check_a(&self.data_preparer_identifier, "data_preparer_identifier");
        if e.is_some() {
            return e;
        }
        let e = check_a(&self.application_identifier, "application_identifier");
        if e.is_some() {
            return e;
        }
        let e = check_d(&self.copyright_file_identifier, "copyright_file_identifier");
        if e.is_some() {
            return e;
        }
        let e = check_d(&self.abstract_file_identifier, "abstract_file_identifier");
        if e.is_some() {
            return e;
        }
        let e = check_d(&self.bibliographic_file_identifier, "bibliographic_file_identifier");
        if e.is_some() {
            return e;
        }
        let e = check_date(&self.creation_date, "creation_date");
        if e.is_some() {
            return e;
        }
        let e = check_date(&self.modification_date, "modification_date");
        if e.is_some() {
            return e;
        }
        let e = check_date(&self.expiration_date, "expiration_date");
        if e.is_some() {
            return e;
        }
        check_date(&self.effective_date, "effective_date")
    }

    /// The descriptor up to its root directory record: bytes 0 to 155.
    pub open spec fn spec_front(&self) -> Seq<u8> {
        seq![1u8] + self.standard_identifier.spec_as_bytes() + seq![self.version.spec_to_u8()]
            + zeros(1) + self.system_identifier.0@ + self.volume_identifier.0@ + zeros(8)
            + u32_both(self.volume_space_size) + zeros(32) + u16_both(self.volume_set_size)
            + u16_both(self.volume_sequence_number) + u16_both(self.logical_block_size)
            + u32_both(self.path_table_size) + u32_le(self.type_l_path_table_location) + u32_le(
            self.optional_type_l_path_table_location,
        ) + u32_be(self.type_m_path_table_location) + u32_be(
            self.optional_type_m_path_table_location,
        )
    }
}

impl IsoSerialize for PrimaryVolumeDescriptor {
    open spec fn spec_bytes(&self) -> Seq<u8> {
        self.spec_front() + self.root_directory_record.spec_bytes()
            + self.volume_set_identifier.0@ + self.publisher_identifier.0@
            + self.data_preparer_identifier.0@ + self.application_identifier.0@
            + self.copyright_file_identifier.0@ + self.abstract_file_identifier.0@
            + self.bibliographic_file_identifier.0@ + self.creation_date.spec_bytes()
            + self.modification_date.spec_bytes() + self.expiration_date.spec_bytes()
            + self.effective_date.spec_bytes() + seq![self.file_structure_version.spec_to_u8()]
            + zeros(1) + self.application_use@ + zeros(653)
    }

    open spec fn spec_check(&self) -> Option<IsoSerializeError> {
        or_else(
            bad_a(self.system_identifier.0@, "system_identifier"),
            or_else(
                bad_d(self.volume_identifier.0@, "volume_identifier"),
                or_else(
                    bad_d(self.volume_set_identifier.0@, "volume_set_identifier"),
                    or_else(
                        bad_a(self.publisher_identifier.0@, "publisher_identifier"),
                        or_else(
                            bad_a(self.data_preparer_identifier.0@, "data_preparer_identifier"),
                            or_else(
                                bad_a(self.application_identifier.0@, "application_identifier"),
                                or_else(
                                    bad_d(
                                        self.copyright_file_identifier.0@,
                                        "copyright_file_identifier",
                                    ),
                                    or_else(
                                        bad_d(
                                            self.abstract_file_identifier.0@,
                                            "abstract_file_identifier",
                                        ),
                                        or_else(
                                            bad_d(
                                                self.bibliographic_file_identifier.0@,
                                                "bibliographic_file_identifier",
                                            ),
                                            or_else(
                                                bad_date(self.creation_date, "creation_date"),
                                                or_else(
                                                    bad_date(
                                                        self.modification_date,
                                                        "modification_date",
                                                    ),
                                                    or_else(
                                                        bad_date(
                                                            self.expiration_date,
                                                            "expiration_date",
                                                        ),
                                                        bad_date(
                                                            self.effective_date,
                                                            "effective_date",
                                                        ),
                                                    ),
                                                ),
                                            ),
                                        ),
                                    ),
                                ),
                            ),
                        ),
                    ),
                ),
            ),
        )
    }

    open spec fn spec_name(&self) -> &'static str {
        "PrimaryVolumeDescriptor"
    }

    fn name(&self) -> (r: &'static str) {
        "PrimaryVolumeDescriptor"
    }

    fn extent(&self) -> (n: usize) {
        proof {
            self.lemma_extent();
        }
        2048
    }

    fn serialize_unchecked(&self, out: &mut [u8]) -> (r: Result<(), IsoSerializeError>) {
        if let Some(e) = self.check() {
            return Err(e);
        }
        proof {
            self.lemma_extent();
        }
        let p = put_u8(out, 0, 1);
        assert(out@.subrange(0, 1) =~= seq![1u8]);
        let p = put_bytes(out, p, self.standard_identifier.as_bytes().as_slice());
        let p = put_u8(out, p, self.version.to_u8());
        let p = put_fill(out, p, 1, 0);
        let p = put_bytes(out, p, self.system_identifier.0.as_slice());
        let p = put_bytes(out, p, self.volume_identifier.0.as_slice());
        let p = put_fill(out, p, 8, 0);
        let p = put_u32_both(out, p, self.volume_space_size);
        let p = put_fill(out, p, 32, 0);
        let p = put_u16_both(out, p, self.volume_set_size);
        let p = put_u16_both(out, p, self.volume_sequence_number);
        let p = put_u16_both(out, p, self.logical_block_size);
        let p = put_u32_both(out, p, self.path_table_size);
        let p = put_u32_le(out, p, self.type_l_path_table_location);
        let p = put_u32_le(out, p, self.optional_type_l_path_table_location);
        let p = put_u32_be(out, p, self.type_m_path_table_location);
        let p = put_u32_be(out, p, self.optional_type_m_path_table_location);
        assert(p == 156);
        assert(out@.subrange(0, 156) == self.spec_front());
        let p = self.root_directory_record.put(out, p);
        let p = put_bytes(out, p, self.volume_set_identifier.0.as_slice());
        let p = put_bytes(out, p, self.publisher_identifier.0.as_slice());
        let p = put_bytes(out, p, self.data_preparer_identifier.0.as_slice());
        let p = put_bytes(out, p, self.application_identifier.0.as_slice());
        let p = put_bytes(out, p, self.copyright_file_identifier.0.as_slice());
        let p = put_bytes(out, p, self.abstract_file_identifier.0.as_slice());
        let p = put_bytes(out, p, self.bibliographic_file_identifier.0.as_slice());
        assert(p == 813);
        let p = self.creation_date.put(out, p);
        let p = self.modification_date.put(out, p);
        let p = self.expiration_date.put(out, p);
        let p = self.effective_date.put(out, p);
        let p = put_u8(out, p, self.file_structure_version.to_u8());
        let p = put_fill(out, p, 1, 0);
        let p = put_bytes(out, p, self.application_use.as_slice());
        let p = put_fill(out, p, 653, 0);
        assert(p == 2048);
        assert(out@.subrange(0, 2048) == self.spec_bytes());
        proof {
            assert(old(out)@.subrange(0, 0) + self.spec_bytes() =~= self.spec_bytes());
            lemma_written(old(out)@, out@, self.spec_bytes());
        }
        Ok(())
    }
}

impl PrimaryVolumeDescriptor {
    /// A primary volume descriptor takes one sector of 2048 bytes, of which
    /// the first 156 come before the root directory record.
    #[verifier::rlimit(50)]
    pub proof fn lemma_extent(&self)
        ensures
            self.spec_front().len() == 156,
            self.spec_bytes().len() == 2048,
    {
        assert(self.spec_front().len() == 156);
        self.root_directory_record.lemma_extent();
        self.creation_date.lemma_pieces();
        self.modification_date.lemma_pieces();
        self.expiration_date.lemma_pieces();
        self.effective_date.lemma_pieces();
    }
}

impl RootDirectoryRecord {
    pub proof fn lemma_extent(&self)
        ensures
            self.spec_bytes().len() == 34,
    {
    }
}

impl SupplementaryVolumeDescriptor {
    /// The first field, in the order of the layout, that breaks its rule.
    /// The character fields of a supplementary descriptor have no rule here:
    /// only its dates can fail.
    pub fn check(&self) -> (r: Option<IsoSerializeError>)
        ensures
            r == self.spec_check(),
    {
        let e = check_date(&self.creation_date, "creation_date");
        if e.is_some() {
            return e;
        }
        let e = check_date(&self.modification_date, "modification_date");
        if e.is_some() {
            return e;
        }
        let e = check_date(&self.expiration_date, "expiration_date");
        if e.is_some() {
            return e;
        }
        check_date(&self.effective_date, "effective_date")
    }

    /// The descriptor up to its root directory record: bytes 0 to 155.
    pub open spec fn spec_front(&self) -> Seq<u8> {
        seq![2u8] + self.standard_identifier.spec_as_bytes() + seq![self.version.spec_to_u8()]
            + seq![self.volume_flags.bits] + self.system_identifier.0@
            + self.volume_identifier.0@ + zeros(8) + u32_both(self.volume_space_size)
            + self.escape_sequences.0@ + u16_both(self.volume_set_size) + u16_both(
            self.volume_sequence_number,
        ) + u16_both(self.logical_block_size) + u32_both(self.path_table_size) + u32_le(
            self.type_l_path_table_location,
        ) + u32_le(self.optional_type_l_path_table_location) + u32_be(
            self.type_m_path_table_location,
        ) + u32_be(self.optional_type_m_path_table_location)
    }

    /// A supplementary volume descriptor takes one sector of 2048 bytes, of
    /// which the first 156 come before the root directory record.
    #[verifier::rlimit(50)]
    pub proof fn lemma_extent(&self)
        ensures
            self.spec_front().len() == 156,
            self.spec_bytes().len() == 2048,
    {
        assert(self.spec_front().len() == 156);
        self.root_directory_record.lemma_extent();
        self.creation_date.lemma_pieces();
        self.modification_date.lemma_pieces();
        self.expiration_date.lemma_pieces();
        self.effective_date.lemma_pieces();
    }
}

impl IsoSerialize for SupplementaryVolumeDescriptor {
    open spec fn spec_bytes(&self) -> Seq<u8> {
        self.spec_front() + self.root_directory_record.spec_bytes()
            + self.volume_set_identifier.0@ + self.publisher_identifier.0@
            + self.data_preparer_identifier.0@ + self.application_identifier.0@
            + self.copyright_file_identifier.0@ + self.abstract_file_identifier.0@
            + self.bibliographic_file_identifier.0@ + self.creation_date.spec_bytes()
            + self.modification_date.spec_bytes() + self.expiration_date.spec_bytes()
            + self.effective_date.spec_bytes() + seq![self.file_structure_version.spec_to_u8()]
            + zeros(1) + self.application_use@ + zeros(653)
    }

    open spec fn spec_check(&self) -> Option<IsoSerializeError> {
        or_else(
            bad_date(self.creation_date, "creation_date"),
            or_else(
                bad_date(self.modification_date, "modification_date"),
                or_else(
                    bad_date(self.expiration_date, "expiration_date"),
                    bad_date(self.effective_date, "effective_date"),
                ),
            ),
        )
    }

    open spec fn spec_name(&self) -> &'static str {
        "SupplementaryVolumeDescriptor"
    }

    fn name(&self) -> (r: &'static str) {
        "SupplementaryVolumeDescriptor"
    }

    fn extent(&self) -> (n: usize) {
        proof {
            self.lemma_extent();
        }
        2048
    }

    fn serialize_unchecked(&self, out: &mut [u8]) -> (r: Result<(), IsoSerializeError>) {
        if let Some(e) = self.check() {
            return Err(e);
        }
        proof {
            self.lemma_extent();
        }
        let p = put_u8(out, 0, 2);
        assert(out@.subrange(0, 1) =~= seq![2u8]);
        let p = put_bytes(out, p, self.standard_identifier.as_bytes().as_slice());
        let p = put_u8(out, p, self.version.to_u8());
        let p = put_u8(out, p, self.volume_flags.bits);
        let p = put_bytes(out, p, self.system_identifier.0.as_slice());
        let p = put_bytes(out, p, self.volume_identifier.0.as_slice());
        let p = put_fill(out, p, 8, 0);
        let p = put_u32_both(out, p, self.volume_space_size);
        let p = put_bytes(out, p, self.escape_sequences.0.as_slice());
        let p = put_u16_both(out, p, self.volume_set_size);
        let p = put_u16_both(out, p, self.volume_sequence_number);
        let p = put_u16_both(out, p, self.logical_block_size);
        let p = put_u32_both(out, p, self.path_table_size);
        let p = put_u32_le(out, p, self.type_l_path_table_location);
        let p = put_u32_le(out, p, self.optional_type_l_path_table_location);
        let p = put_u32_be(out, p, self.type_m_path_table_location);
        let p = put_u32_be(out, p, self.optional_type_m_path_table_location);
        assert(p == 156);
        assert(out@.subrange(0, 156) == self.spec_front());
        let p = self.root_directory_record.put(out, p);
        let p = put_bytes(out, p, self.volume_set_identifier.0.as_slice());
        let p = put_bytes(out, p, self.publisher_identifier.0.as_slice());
        let p = put_bytes(out, p, self.data_preparer_identifier.0.as_slice());
        let p = put_bytes(out, p, self.application_identifier.0.as_slice());
        let p = put_bytes(out, p, self.copyright_file_identifier.0.as_slice());
        let p = put_bytes(out, p, self.abstract_file_identifier.0.as_slice());
        let p = put_bytes(out, p, self.bibliographic_file_identifier.0.as_slice());
        assert(p == 813);
        let p = self.creation_date.put(out, p);
        let p = self.modification_date.put(out, p);
        let p = self.expiration_date.put(out, p);
        let p = self.effective_date.put(out, p);
        let p = put_u8(out, p, self.file_structure_version.to_u8());
        let p = put_fill(out, p, 1, 0);
        let p = put_bytes(out, p, self.application_use.as_slice());
        let p = put_fill(out, p, 653, 0);
        assert(p == 2048);
        assert(out@.subrange(0, 2048) == self.spec_bytes());
        proof {
            assert(old(out)@.subrange(0, 0) + self.spec_bytes() =~= self.spec_bytes());
            lemma_written(old(out)@, out@, self.spec_bytes());
        }
        Ok(())
    }
}

impl IsoSerialize for VolumePartitionDescriptor {
    open spec fn spec_bytes(&self) -> Seq<u8> {
        seq![3u8] + self.standard_identifier.spec_as_bytes() + seq![self.version.spec_to_u8()]
            + zeros(1) + self.system_identifier.0@ + self.volume_partition_identifier.0@
            + u32_both(self.volume_partition_location) + u32_both(self.volume_partition_size)
            + zeros(1960)
    }

    open spec fn spec_check(&self) -> Option<IsoSerializeError> {
        or_else(
            bad_a(self.system_identifier.0@, "system_identifier"),
            bad_d(self.volume_partition_identifier.0@, "volume_partition_identifier"),
        )
    }

    open spec fn spec_name(&self) -> &'static str {
        "VolumePartitionDescriptor"
    }

    fn name(&self) -> (r: &'static str) {
        "VolumePartitionDescriptor"
    }

    fn extent(&self) -> (n: usize) {
        2048
    }

    fn serialize_unchecked(&self, out: &mut [u8]) -> (r: Result<(), IsoSerializeError>) {
        let e = check_a(&self.system_identifier, "system_identifier");
        if let Some(e) = e {
            return Err(e);
        }
        let e = check_d(&self.volume_partition_identifier, "volume_partition_identifier");
        if let Some(e) = e {
            return Err(e);
        }
        let p = put_u8(out, 0, 3);
        assert(out@.subrange(0, 1) =~= seq![3u8]);
        let p = put_bytes(out, p, self.standard_identifier.as_bytes().as_slice());
        let p = put_u8(out, p, self.version.to_u8());
        let p = put_fill(out, p, 1, 0);
        let p = put_bytes(out, p, self.system_identifier.0.as_slice());
        let p = put_bytes(out, p, self.volume_partition_identifier.0.as_slice());
        let p = put_u32_both(out, p, self.volume_partition_location);
        let p = put_u32_both(out, p, self.volume_partition_size);
        let p = put_fill(out, p, 1960, 0);
        assert(out@.subrange(0, 2048) == self.spec_bytes());
        proof {
            assert(old(out)@.subrange(0, 0) + self.spec_bytes() =~= self.spec_bytes());
            lemma_written(old(out)@, out@, self.spec_bytes());
        }
        Ok(())
    }
}

impl IsoSerialize for VolumeDescriptorSetTerminator {
    open spec fn spec_bytes(&self) -> Seq<u8> {
        seq![255u8] + cd001() + seq![1u8] + zeros(2041)
    }

    open spec fn spec_check(&self) -> Option<IsoSerializeError> {
        None
    }

    open spec fn spec_name(&self) -> &'static str {
        "VolumeDescriptorSetTerminator"
    }

    fn name(&self) -> (r: &'static str) {
        "VolumeDescriptorSetTerminator"
    }

    fn extent(&self) -> (n: usize) {
        2048
    }

    fn serialize_unchecked(&self, out: &mut [u8]) -> (r: Result<(), IsoSerializeError>) {
        let p = put_u8(out, 0, 255);
        assert(out@.subrange(0, 1) =~= seq![255u8]);
        let p = put_bytes(out, p, StandardIdentifier::Cd001.as_bytes().as_slice());
        let p = put_u8(out, p, 1);
        let p = put_fill(out, p, 2041, 0);
        assert(out@.subrange(0, 2048) == self.spec_bytes());
        proof {
            assert(old(out)@.subrange(0, 0) + self.spec_bytes() =~= self.spec_bytes());
            lemma_written(old(out)@, out@, self.spec_bytes());
        }
        Ok(())
    }
}

/// How many bytes a directory record with an identifier of `id_len` bytes
/// takes: 33, the identifier, and a padding byte where that makes the sum even.
pub open spec fn record_extent(id_len: int) -> int {
    33 + id_len + (if id_len % 2 == 0 {
        1int
    } else {
        0int
    })
}

impl<Ext: Extension> DirectoryRecord<Ext> {
    /// The record is one that can stand on disk: its identifier has a
    /// length that its kind allows, nothing is held beyond it, and the length
    /// field is the length of the record.
    pub open spec fn wf(&self) -> bool {
        &&& self.file_identifier.spec_canonical(self.file_identifier_length as nat)
        &&& self.length == record_extent(self.file_identifier_length as int)
    }

    /// The padding byte after the identifier, where there is one.
    pub open spec fn spec_padding(&self) -> Seq<u8> {
        if self.file_identifier_length % 2 == 0 {
            zeros(1)
        } else {
            zeros(0)
        }
    }

    /// The 33 bytes before the identifier.
    pub open spec fn spec_fixed(&self) -> Seq<u8> {
        seq![self.length] + seq![self.extended_attribute_length] + u32_both(self.extent_location)
            + u32_both(self.data_length) + self.recording_date.spec_bytes() + seq![
            self.file_flags.bits,
        ] + seq![self.file_unit_size] + seq![self.interleave_gap_size] + u16_both(
            self.volume_sequence_number,
        ) + seq![self.file_identifier_length]
    }

    pub proof fn lemma_extent(&self)
        ensures
            self.spec_fixed().len() == 33,
            self.spec_bytes().len() == record_extent(self.file_identifier_length as int),
    {
        self.file_identifier.lemma_encode_len(self.file_identifier_length as nat);
    }

    /// Whether the record can be written: see `wf`. An identifier that can
    /// not be cut to its stated length fails too.
    pub fn check(&self) -> (r: Option<IsoSerializeError>)
        ensures
            r == self.spec_check(),
    {
        let n = self.file_identifier_length as usize;
        if !Ext::FileIdentifier::valid_len(n) {
            return Some(
                IsoSerializeError::BadCharacter { field: "file_identifier_length", offset: 32 },
            );
        }
        let pad: usize = if n % 2 == 0 {
            1
        } else {
            0
        };
        if self.length as usize != 33 + n + pad {
            return Some(IsoSerializeError::BadCharacter { field: "length", offset: 0 });
        }
        None
    }
}

impl<Ext: Extension> IsoSerialize for DirectoryRecord<Ext> {
    open spec fn spec_bytes(&self) -> Seq<u8> {
        self.spec_fixed() + self.file_identifier.spec_encode(self.file_identifier_length as nat)
            + self.spec_padding()
    }

    open spec fn spec_check(&self) -> Option<IsoSerializeError> {
        if !Ext::FileIdentifier::spec_valid_len(self.file_identifier_length as nat) {
            Some(IsoSerializeError::BadCharacter { field: "file_identifier_length", offset: 32 })
        } else if self.length != record_extent(self.file_identifier_length as int) {
            Some(IsoSerializeError::BadCharacter { field: "length", offset: 0 })
        } else {
            None
        }
    }

    open spec fn spec_name(&self) -> &'static str {
        "DirectoryRecord"
    }

    fn name(&self) -> (r: &'static str) {
        "DirectoryRecord"
    }

    fn extent(&self) -> (n: usize) {
        let n = self.file_identifier_length as usize;
        proof {
            self.lemma_extent();
        }
        if n % 2 == 0 {
            34 + n
        } else {
            33 + n
        }
    }

    fn serialize_unchecked(&self, out: &mut [u8]) -> (r: Result<(), IsoSerializeError>) {
        if let Some(e) = self.check() {
            return Err(e);
        }
        proof {
            self.lemma_extent();
        }
        let n = self.file_identifier_length as usize;
        proof {
            Ext::FileIdentifier::lemma_valid_len(n as nat);
        }
        let p = put_u8(out, 0, self.length);
        assert(out@.subrange(0, 1) =~= seq![self.length]);
        let p = put_u8(out, p, self.extended_attribute_length);
        let p = put_u32_both(out, p, self.extent_location);
        let p = put_u32_both(out, p, self.data_length);
        let p = self.recording_date.put(out, p);
        let p = put_u8(out, p, self.file_flags.bits);
        let p = put_u8(out, p, self.file_unit_size);
        let p = put_u8(out, p, self.interleave_gap_size);
        let p = put_u16_both(out, p, self.volume_sequence_number);
        let p = put_u8(out, p, self.file_identifier_length);
        assert(p == 33);
        let p = self.file_identifier.put(out, p, n);
        let p = if n % 2 == 0 {
            put_fill(out, p, 1, 0)
        } else {
            put_fill(out, p, 0, 0)
        };
        assert(out@.subrange(0, p as int) == self.spec_bytes());
        proof {
            assert(old(out)@.subrange(0, 0) + self.spec_bytes() =~= self.spec_bytes());
            lemma_written(old(out)@, out@, self.spec_bytes());
        }
        Ok(())
    }
}

impl ElToritoBootMediaTypeExt {
    /// The byte that holds the emulation type in its low bits and the three
    /// flags in bits 5, 6 and 7.
    pub open spec fn spec_to_u8(&self) -> u8 {
        (self.emulation_type.spec_to_u8() + (if self.continuation_entry_follows {
            32int
        } else {
            0int
        }) + (if self.contains_atapi_driver {
            64int
        } else {
            0int
        }) + (if self.contains_scsi_drivers {
            128int
        } else {
            0int
        })) as u8
    }

    /// The media type that the byte `b` holds, where its low five bits name
    /// an emulation type.
    pub open spec fn spec_from_u8(b: u8) -> Option<Self> {
        match ElToritoEmulationType::spec_from_u8((b % 32) as u8) {
            Some(emulation_type) => Some(
                ElToritoBootMediaTypeExt {
                    emulation_type,
                    continuation_entry_follows: (b / 32) % 2 == 1,
                    contains_atapi_driver: (b / 64) % 2 == 1,
                    contains_scsi_drivers: b / 128 == 1,
                },
            ),
            None => None,
        }
    }

    pub fn to_u8(&self) -> (b: u8)
        ensures
            b == self.spec_to_u8(),
    {
        let mut b: u8 = self.emulation_type.to_u8();
        if self.continuation_entry_follows {
            b = b + 32;
        }
        if self.contains_atapi_driver {
            b = b + 64;
        }
        if self.contains_scsi_drivers {
            b = b + 128;
        }
        b
    }

    pub fn from_u8(b: u8) -> (r: Option<Self>)
        ensures
            r == Self::spec_from_u8(b),
            r is Some ==> r.unwrap().spec_to_u8() == b,
    {
        match ElToritoEmulationType::from_u8(b % 32) {
            Some(emulation_type) => Some(
                ElToritoBootMediaTypeExt {
                    emulation_type,
                    continuation_entry_follows: (b / 32) % 2 == 1,
                    contains_atapi_driver: (b / 64) % 2 == 1,
                    contains_scsi_drivers: b / 128 == 1,
                },
            ),
            None => None,
        }
    }

    /// Reading the byte of a media type gives the media type back.
    pub proof fn lemma_round_trip(self)
        ensures
            Self::spec_from_u8(self.spec_to_u8()) == Some(self),
    {
    }
}

impl IsoSerialize for ElToritoBootMediaTypeExt {
    open spec fn spec_bytes(&self) -> Seq<u8> {
        seq![self.spec_to_u8()]
    }

    open spec fn spec_check(&self) -> Option<IsoSerializeError> {
        None
    }

    open spec fn spec_name(&self) -> &'static str {
        "ElToritoBootMediaTypeExt"
    }

    fn name(&self) -> (r: &'static str) {
        "ElToritoBootMediaTypeExt"
    }

    fn extent(&self) -> (n: usize) {
        1
    }

    fn serialize_unchecked(&self, out: &mut [u8]) -> (r: Result<(), IsoSerializeError>) {
        let _end = put_u8(out, 0, self.to_u8());
        proof {
            lemma_written(old(out)@, out@, self.spec_bytes());
        }
        Ok(())
    }
}

impl IsoSerialize for ElToritoInitialSectionEntry {
    open spec fn spec_bytes(&self) -> Seq<u8> {
        seq![self.boot_indicator.spec_to_u8()] + seq![self.boot_media_type.0] + u16_le(
            self.load_segment,
        ) + seq![self.system_type] + zeros(1) + u16_le(self.sector_count) + u32_le(
            self.virtual_disk_location,
        ) + zeros(20)
    }

    open spec fn spec_check(&self) -> Option<IsoSerializeError> {
        None
    }

    open spec fn spec_name(&self) -> &'static str {
        "ElToritoInitialSectionEntry"
    }

    fn name(&self) -> (r: &'static str) {
        "ElToritoInitialSectionEntry"
    }

    fn extent(&self) -> (n: usize) {
        32
    }

    fn serialize_unchecked(&self, out: &mut [u8]) -> (r: Result<(), IsoSerializeError>) {
        let p = put_u8(out, 0, self.boot_indicator.to_u8());
        assert(out@.subrange(0, 1) =~= seq![self.boot_indicator.spec_to_u8()]);
        let p = put_u8(out, p, self.boot_media_type.0);
        let p = put_u16_le(out, p, self.load_segment);
        let p = put_u8(out, p, self.system_type);
        let p = put_fill(out, p, 1, 0);
        let p = put_u16_le(out, p, self.sector_count);
        let p = put_u32_le(out, p, self.virtual_disk_location);
        let p = put_fill(out, p, 20, 0);
        assert(out@.subrange(0, 32) == self.spec_bytes());
        proof {
            assert(old(out)@.subrange(0, 0) + self.spec_bytes() =~= self.spec_bytes());
            lemma_written(old(out)@, out@, self.spec_bytes());
        }
        Ok(())
    }
}

impl IsoSerialize for ElToritoSectionHeaderEntry {
    open spec fn spec_bytes(&self) -> Seq<u8> {
        seq![self.header_indicator.spec_to_u8()] + seq![self.platform_id.spec_to_u8()] + u16_le(
            self.succeeding_section_entries,
        ) + self.section_id.0@ + zeros(12)
    }

    open spec fn spec_check(&self) -> Option<IsoSerializeError> {
        None
    }

    open spec fn spec_name(&self) -> &'static str {
        "ElToritoSectionHeaderEntry"
    }

    fn name(&self) -> (r: &'static str) {
        "ElToritoSectionHeaderEntry"
    }

    fn extent(&self) -> (n: usize) {
        32
    }

    fn serialize_unchecked(&self, out: &mut [u8]) -> (r: Result<(), IsoSerializeError>) {
        let p = put_u8(out, 0, self.header_indicator.to_u8());
        assert(out@.subrange(0, 1) =~= seq![self.header_indicator.spec_to_u8()]);
        let p = put_u8(out, p, self.platform_id.to_u8());
        let p = put_u16_le(out, p, self.succeeding_section_entries);
        let p = put_bytes(out, p, self.section_id.0.as_slice());
        let p = put_fill(out, p, 12, 0);
        assert(out@.subrange(0, 32) == self.spec_bytes());
        proof {
            assert(old(out)@.subrange(0, 0) + self.spec_bytes() =~= self.spec_bytes());
            lemma_written(old(out)@, out@, self.spec_bytes());
        }
        Ok(())
    }
}

/// The 16-bit word that the bytes `2 * i` and `2 * i + 1` of `s` hold little-endian.
pub open spec fn word(s: Seq<u8>, i: int) -> int {
    s[2 * i] as int + 256 * (s[2 * i + 1] as int)
}

/// The sum of the first `n` words of `s`.
pub open spec fn word_sum(s: Seq<u8>, n: nat) -> int
    decreases n,
{
    if n == 0 {
        0
    } else {
        word_sum(s, (n - 1) as nat) + word(s, n - 1)
    }
}

impl ElToritoValidationEntry {
    /// The sum of the sixteen words of the entry is zero modulo 65536.
    pub open spec fn spec_checksum_ok(&self) -> bool {
        word_sum(self.spec_bytes(), 16) % 65536 == 0
    }

    /// The sum of the words of the entry but for its checksum: the word of
    /// the two ids, the twelve words of the manufacturer and the key word 0xAA55.
    pub open spec fn spec_other_words(&self) -> int {
        self.header_id.spec_to_u8() + 256 * self.platform_id.spec_to_u8() + word_sum(
            self.manufacturer_id.0@,
            12,
        ) + 0xAA55
    }

    /// The words of an entry add up to its other words and its checksum.
    pub proof fn lemma_word_sum(&self)
        ensures
            self.spec_bytes().len() == 32,
            word_sum(self.spec_bytes(), 16) == self.spec_other_words() + self.checksum,
    {
        let s = self.spec_bytes();
        let m = self.manufacturer_id.0@;
        assert(s.len() == 32);
        assert forall|i: int| 0 <= i < 24 implies s[4 + i] == m[i] by {}
        assert(word_sum(m, 0) == 0);
        assert(word_sum(s, 2) == word(s, 0) + word(s, 1)) by {
            assert(word_sum(s, 0) == 0);
            assert(word_sum(s, 1) == word_sum(s, 0) + word(s, 0));
        }
        Self::lemma_shifted(s, m, 12);
        assert(word_sum(s, 14) == word_sum(s, 2) + word_sum(m, 12));
        assert(word_sum(s, 15) == word_sum(s, 14) + word(s, 14));
        assert(word_sum(s, 16) == word_sum(s, 15) + word(s, 15));
        assert(s[28] == (self.checksum % 256) as u8 && s[29] == (self.checksum / 256) as u8);
        assert(s[30] == 0x55 && s[31] == 0xAA);
        assert(s[0] == self.header_id.spec_to_u8() && s[1] == self.platform_id.spec_to_u8());
        assert(s[2] == 0 && s[3] == 0);
    }

    proof fn lemma_shifted(s: Seq<u8>, m: Seq<u8>, k: nat)
        requires
            s.len() == 32,
            m.len() == 24,
            k <= 12,
            forall|i: int| 0 <= i < 24 ==> s[4 + i] == m[i],
        ensures
            word_sum(s, 2 + k) == word_sum(s, 2) + word_sum(m, k),
        decreases k,
    {
        if k > 0 {
            Self::lemma_shifted(s, m, (k - 1) as nat);
            assert(word(s, 2 + k - 1) == word(m, k - 1)) by {
                assert(s[4 + 2 * (k - 1)] == m[2 * (k - 1)]);
                assert(s[4 + 2 * (k - 1) + 1] == m[2 * (k - 1) + 1]);
            }
        }
    }

    /// The entry with these ids and this manufacturer whose checksum makes
    /// its words add up to zero.
    pub fn new(
        header_id: ElToritoHeaderId,
        platform_id: ElToritoPlatformId,
        manufacturer_id: ElToritoManufacturerId,
    ) -> (r: Self)
        ensures
            r.header_id == header_id,
            r.platform_id == platform_id,
            r.manufacturer_id == manufacturer_id,
            r.spec_checksum_ok(),
    {
        let first: u32 = (header_id.to_u8() as u32) + 256 * (platform_id.to_u8() as u32) + 0xAA55;
        let mut sum: u32 = first % 65536;
        let ghost base = first as int;
        let mut i: usize = 0;
        while i < 12
            invariant
                i <= 12,
                sum < 65536,
                base < 0x20000,
                (base + word_sum(manufacturer_id.0@, i as nat)) % 65536 == sum as int,
            decreases 12 - i,
        {
            let w: u32 = (manufacturer_id.0[2 * i] as u32) + 256 * (manufacturer_id.0[2 * i
                + 1] as u32);
            assert(w == word(manufacturer_id.0@, i as int));
            assert(word_sum(manufacturer_id.0@, (i + 1) as nat) == word_sum(
                manufacturer_id.0@,
                i as nat,
            ) + w);
            sum = (sum + w) % 65536;
            i += 1;
        }
        let checksum: u16 = ((65536 - sum) % 65536) as u16;
        let r = ElToritoValidationEntry { header_id, platform_id, manufacturer_id, checksum };
        proof {
            r.lemma_word_sum();
        }
        r
    }

    /// Whether the words of the entry add up to zero modulo 65536.
    pub fn checksum_ok(&self) -> (r: bool)
        ensures
            r == self.spec_checksum_ok(),
    {
        let first: u32 = (self.header_id.to_u8() as u32) + 256 * (
        self.platform_id.to_u8() as u32) + 0xAA55;
        let mut sum: u32 = first % 65536;
        let ghost base = first as int;
        let mut i: usize = 0;
        while i < 12
            invariant
                i <= 12,
                sum < 65536,
                base < 0x20000,
                (base + word_sum(self.manufacturer_id.0@, i as nat)) % 65536 == sum as int,
            decreases 12 - i,
        {
            let w: u32 = (self.manufacturer_id.0[2 * i] as u32) + 256 * (self.manufacturer_id.0[2
                * i + 1] as u32);
            assert(w == word(self.manufacturer_id.0@, i as int));
            assert(word_sum(self.manufacturer_id.0@, (i + 1) as nat) == word_sum(
                self.manufacturer_id.0@,
                i as nat,
            ) + w);
            sum = (sum + w) % 65536;
            i += 1;
        }
        proof {
            self.lemma_word_sum();
        }
        (sum + self.checksum as u32) % 65536 == 0
    }
}

impl IsoSerialize for ElToritoValidationEntry {
    open spec fn spec_bytes(&self) -> Seq<u8> {
        seq![self.header_id.spec_to_u8()] + seq![self.platform_id.spec_to_u8()] + zeros(2)
            + self.manufacturer_id.0@ + u16_le(self.checksum) + seq![0x55u8] + seq![0xAAu8]
    }

    open spec fn spec_check(&self) -> Option<IsoSerializeError> {
        None
    }

    open spec fn spec_name(&self) -> &'static str {
        "ElToritoValidationEntry"
    }

    fn name(&self) -> (r: &'static str) {
        "ElToritoValidationEntry"
    }

    fn extent(&self) -> (n: usize) {
        32
    }

    fn serialize_unchecked(&self, out: &mut [u8]) -> (r: Result<(), IsoSerializeError>) {
        let p = put_u8(out, 0, self.header_id.to_u8());
        assert(out@.subrange(0, 1) =~= seq![self.header_id.spec_to_u8()]);
        let p = put_u8(out, p, self.platform_id.to_u8());
        let p = put_fill(out, p, 2, 0);
        let p = put_bytes(out, p, self.manufacturer_id.0.as_slice());
        let p = put_u16_le(out, p, self.checksum);
        let p = put_u8(out, p, 0x55);
        let p = put_u8(out, p, 0xAA);
        assert(out@.subrange(0, 32) == self.spec_bytes());
        proof {
            assert(old(out)@.subrange(0, 0) + self.spec_bytes() =~= self.spec_bytes());
            lemma_written(old(out)@, out@, self.spec_bytes());
        }
        Ok(())
    }
}

impl IsoSerialize for ElToritoSectionEntry {
    open spec fn spec_bytes(&self) -> Seq<u8> {
        seq![self.boot_indicator.spec_to_u8()] + seq![self.boot_media_type.spec_to_u8()] + u16_le(
            self.load_segment,
        ) + seq![self.system_type] + zeros(1) + u16_le(self.sector_count) + u32_le(
            self.virtual_disk_location,
        ) + seq![self.selection_criteria_type.spec_to_u8()] + self.vendor_selection_criteria@
    }

    open spec fn spec_check(&self) -> Option<IsoSerializeError> {
        None
    }

    open spec fn spec_name(&self) -> &'static str {
        "ElToritoSectionEntry"
    }

    fn name(&self) -> (r: &'static str) {
        "ElToritoSectionEntry"
    }

    fn extent(&self) -> (n: usize) {
        32
    }

    fn serialize_unchecked(&self, out: &mut [u8]) -> (r: Result<(), IsoSerializeError>) {
        let p = put_u8(out, 0, self.boot_indicator.to_u8());
        assert(out@.subrange(0, 1) =~= seq![self.boot_indicator.spec_to_u8()]);
        let p = put_u8(out, p, self.boot_media_type.to_u8());
        let p = put_u16_le(out, p, self.load_segment);
        let p = put_u8(out, p, self.system_type);
        let p = put_fill(out, p, 1, 0);
        let p = put_u16_le(out, p, self.sector_count);
        let p = put_u32_le(out, p, self.virtual_disk_location);
        let p = put_u8(out, p, self.selection_criteria_type.to_u8());
        let p = put_bytes(out, p, self.vendor_selection_criteria.as_slice());
        assert(out@.subrange(0, 32) == self.spec_bytes());
        proof {
            assert(old(out)@.subrange(0, 0) + self.spec_bytes() =~= self.spec_bytes());
            lemma_written(old(out)@, out@, self.spec_bytes());
        }
        Ok(())
    }
}

impl IsoSerialize for ElToritoSectionEntryExtension {
    open spec fn spec_bytes(&self) -> Seq<u8> {
        seq![44u8] + seq![self.extension_record_follows_indicator.bits]
            + self.vendor_unique_selection_criteria@
    }

    open spec fn spec_check(&self) -> Option<IsoSerializeError> {
        None
    }

    open spec fn spec_name(&self) -> &'static str {
        "ElToritoSectionEntryExtension"
    }

    fn name(&self) -> (r: &'static str) {
        "ElToritoSectionEntryExtension"
    }

    fn extent(&self) -> (n: usize) {
        32
    }

    fn serialize_unchecked(&self, out: &mut [u8]) -> (r: Result<(), IsoSerializeError>) {
        let p = put_u8(out, 0, 44);
        assert(out@.subrange(0, 1) =~= seq![44u8]);
        let p = put_u8(out, p, self.extension_record_follows_indicator.bits);
        let p = put_bytes(out, p, self.vendor_unique_selection_criteria.as_slice());
        assert(out@.subrange(0, 32) == self.spec_bytes());
        proof {
            assert(old(out)@.subrange(0, 0) + self.spec_bytes() =~= self.spec_bytes());
            lemma_written(old(out)@, out@, self.spec_bytes());
        }
        Ok(())
    }
}

/// "EL TORITO SPECIFICATION", the boot system identifier of an El Torito boot
/// record.
pub open spec fn el_torito_specification() -> Seq<u8> {
    seq![
        0x45u8, 0x4C, 0x20, 0x54, 0x4F, 0x52, 0x49, 0x54, 0x4F, 0x20, 0x53, 0x50, 0x45, 0x43, 0x49,
        0x46, 0x49, 0x43, 0x41, 0x54, 0x49, 0x4F, 0x4E,
    ]
}

impl IsoSerialize for ElToritoBootRecordVolumeDescriptor {
    open spec fn spec_bytes(&self) -> Seq<u8> {
        seq![0u8] + self.standard_identifier.spec_as_bytes() + seq![self.version.spec_to_u8()]
            + el_torito_specification() + zeros(9) + zeros(32) + u32_le(self.boot_catalog_pointer)
            + zeros(1973)
    }

    open spec fn spec_check(&self) -> Option<IsoSerializeError> {
        None
    }

    open spec fn spec_name(&self) -> &'static str {
        "ElToritoBootRecordVolumeDescriptor"
    }

    fn name(&self) -> (r: &'static str) {
        "ElToritoBootRecordVolumeDescriptor"
    }

    fn extent(&self) -> (n: usize) {
        2048
    }

    fn serialize_unchecked(&self, out: &mut [u8]) -> (r: Result<(), IsoSerializeError>) {
        let system: [u8; 23] = [
            0x45, 0x4C, 0x20, 0x54, 0x4F, 0x52, 0x49, 0x54, 0x4F, 0x20, 0x53, 0x50, 0x45, 0x43,
            0x49, 0x46, 0x49, 0x43, 0x41, 0x54, 0x49, 0x4F, 0x4E,
        ];
        assert(system@ =~= el_torito_specification());
        let p = put_u8(out, 0, 0);
        assert(out@.subrange(0, 1) =~= seq![0u8]);
        let p = put_bytes(out, p, self.standard_identifier.as_bytes().as_slice());
        let p = put_u8(out, p, self.version.to_u8());
        let p = put_bytes(out, p, system.as_slice());
        let p = put_fill(out, p, 9, 0);
        let p = put_fill(out, p, 32, 0);
        let p = put_u32_le(out, p, self.boot_catalog_pointer);
        let p = put_fill(out, p, 1973, 0);
        assert(out@.subrange(0, 2048) == self.spec_bytes());
        proof {
            assert(old(out)@.subrange(0, 0) + self.spec_bytes() =~= self.spec_bytes());
            lemma_written(old(out)@, out@, self.spec_bytes());
        }
        Ok(())
    }
}


} // verus!
