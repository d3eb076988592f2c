//! The value types of the on-disk structures of ISO 9660 and of its Joliet and
//! El Torito extensions.
//!
//! A value holds the fields of its structure with their meaning. How
//! a value is laid out in bytes is said in [`crate::serialize`], how it is read
//! back in [`crate::parse`].

use crate::bytes::{
    array_of, lemma_array_of, lemma_units_of, put_bytes, put_u8, read_u16_be, units_be,
    units_from_be, units_of,
};
use crate::utils::{from_utf16_lossy, from_utf8_lossy, utf16_lossy, utf8_lossy};
use vstd::slice::slice_subrange;
use vstd::prelude::*;

verus! {

/// The byte that pads a character field: an ASCII space.
pub const FILLER: u8 = 0x20;

/// Whether `b` is a d-character: a digit, an upper-case letter or an underscore.
pub open spec fn is_d_character(b: u8) -> bool {
    (0x30 <= b <= 0x39) || (0x41 <= b <= 0x5A) || b == 0x5F
}

/// Whether `b` is an a-character: a d-character, a space or one of
/// `! " % & ' ( ) * + , - . / : ; < = > ?`.
pub open spec fn is_a_character(b: u8) -> bool {
    b == 0x20 || b == 0x21 || b == 0x22 || (0x25 <= b <= 0x2F) || (0x30 <= b <= 0x39) || (0x3A <= b
        <= 0x3F) || (0x41 <= b <= 0x5A) || b == 0x5F
}

/// Whether `b` may stand in a field of d-characters: a d-character, or the
/// filler that pads the field.
pub open spec fn is_d_field_byte(b: u8) -> bool {
    is_d_character(b) || b == FILLER
}

/// `bytes` cut or padded with `pad` to exactly `len` bytes.
pub open spec fn fit(bytes: Seq<u8>, len: nat, pad: u8) -> Seq<u8> {
    Seq::new(len, |i: int| if i < bytes.len() { bytes[i] } else { pad })
}

/// `units` cut or padded with `pad` to exactly `len` code units.
pub open spec fn fit_units(units: Seq<u16>, len: nat, pad: u16) -> Seq<u16> {
    Seq::new(len, |i: int| if i < units.len() { units[i] } else { pad })
}

pub fn d_character(b: u8) -> (r: bool)
    ensures
        r == is_d_character(b),
{
    (0x30 <= b && b <= 0x39) || (0x41 <= b && b <= 0x5A) || b == 0x5F
}

pub fn a_character(b: u8) -> (r: bool)
    ensures
        r == is_a_character(b),
{
    b == 0x20 || b == 0x21 || b == 0x22 || (0x25 <= b && b <= 0x2F) || (0x30 <= b && b <= 0x39) || (
    0x3A <= b && b <= 0x3F) || (0x41 <= b && b <= 0x5A) || b == 0x5F
}

/// The first `LENGTH` bytes of `bytes`, padded with `pad` where `bytes` is shorter.
pub fn fitted<const LENGTH: usize>(bytes: &[u8], pad: u8) -> (r: [u8; LENGTH])
    ensures
        r@ == fit(bytes@, LENGTH as nat, pad),
{
    let mut cs: [u8; LENGTH] = [pad; LENGTH];
    let mut i: usize = 0;
    while i < LENGTH && i < bytes.len()
        invariant
            i <= LENGTH,
            i <= bytes@.len(),
            forall|j: int| 0 <= j < i ==> cs@[j] == bytes@[j],
            forall|j: int| i <= j < LENGTH ==> cs@[j] == pad,
        decreases LENGTH - i,
    {
        cs[i] = bytes[i];
        i += 1;
    }
    assert(cs@ =~= fit(bytes@, LENGTH as nat, pad));
    cs
}

/// The position of the first byte of `s` that is no a-character, if there is one.
pub open spec fn first_non_a(s: Seq<u8>) -> Option<int> {
    if forall|i: int| 0 <= i < s.len() ==> is_a_character(#[trigger] s[i]) {
        None
    } else {
        Some(
            choose|k: int|
                0 <= k < s.len() && !is_a_character(s[k]) && forall|i: int|
                    0 <= i < k ==> is_a_character(#[trigger] s[i]),
        )
    }
}

/// The position of the first byte of `s` that may not stand in a field of
/// d-characters, if there is one.
pub open spec fn first_non_d(s: Seq<u8>) -> Option<int> {
    if forall|i: int| 0 <= i < s.len() ==> is_d_field_byte(#[trigger] s[i]) {
        None
    } else {
        Some(
            choose|k: int|
                0 <= k < s.len() && !is_d_field_byte(s[k]) && forall|i: int|
                    0 <= i < k ==> is_d_field_byte(#[trigger] s[i]),
        )
    }
}

/// A first offender is the only position that is one: this is what makes
/// `first_non_a` a function of the bytes.
pub proof fn lemma_first_non_a(s: Seq<u8>, k: int)
    requires
        0 <= k < s.len(),
        !is_a_character(s[k]),
        forall|i: int| 0 <= i < k ==> is_a_character(#[trigger] s[i]),
    ensures
        first_non_a(s) == Some(k),
{
    let c = choose|c: int|
        0 <= c < s.len() && !is_a_character(s[c]) && forall|i: int|
            0 <= i < c ==> is_a_character(#[trigger] s[i]);
    assert(!(c < k));
    assert(!(k < c));
}

/// A first offender is the only position that is one: this is what makes
/// `first_non_d` a function of the bytes.
pub proof fn lemma_first_non_d(s: Seq<u8>, k: int)
    requires
        0 <= k < s.len(),
        !is_d_field_byte(s[k]),
        forall|i: int| 0 <= i < k ==> is_d_field_byte(#[trigger] s[i]),
    ensures
        first_non_d(s) == Some(k),
{
    let c = choose|c: int|
        0 <= c < s.len() && !is_d_field_byte(s[c]) && forall|i: int|
            0 <= i < c ==> is_d_field_byte(#[trigger] s[i]);
    assert(!(c < k));
    assert(!(k < c));
}

/// A field of a-characters of fixed length:
/// `[ !"%&'()*+,-./0-9:;<=>?A-Z_]`.
///
/// The type does not enforce the class: a value may hold any bytes, and
/// writing it out is where the class is checked.
#[derive(Debug, Clone, Copy, PartialEq, Eq)]
pub struct ACharacters<const LENGTH: usize>(pub [u8; LENGTH]);

impl<const LENGTH: usize> ACharacters<LENGTH> {
    /// Every byte is an a-character.
    pub open spec fn wf(&self) -> bool {
        forall|i: int| 0 <= i < LENGTH ==> is_a_character(#[trigger] self.0@[i])
    }

    /// Takes the first `LENGTH` bytes of `bytes`, padding with the filler
    /// where `bytes` is shorter.
    pub fn from_bytes_truncated(bytes: &[u8]) -> (r: Self)
        ensures
            r.0@ == fit(bytes@, LENGTH as nat, FILLER),
    {
        ACharacters(fitted::<LENGTH>(bytes, FILLER))
    }

    /// The position of the first byte outside the class.
    pub fn first_invalid(&self) -> (r: Option<usize>)
        ensures
            r is None <==> self.wf(),
            r is None <==> first_non_a(self.0@) is None,
            r is Some ==> first_non_a(self.0@) == Some(r.unwrap() as int) && r.unwrap() < LENGTH,
    {
        let mut i: usize = 0;
        while i < LENGTH
            invariant
                i <= LENGTH,
                forall|j: int| 0 <= j < i ==> is_a_character(#[trigger] self.0@[j]),
            decreases LENGTH - i,
        {
            if !a_character(self.0[i]) {
                proof {
                    lemma_first_non_a(self.0@, i as int);
                }
                return Some(i);
            }
            i += 1;
        }
        None
    }
}

/// A field of d-characters of fixed length: `[0-9A-Z_]`, padded with the filler.
///
/// The type does not enforce the class: a value may hold any bytes, and
/// writing it out is where the class is checked.
#[derive(Debug, Clone, Copy, PartialEq, Eq)]
pub struct DCharacters<const LENGTH: usize>(pub [u8; LENGTH]);

impl<const LENGTH: usize> DCharacters<LENGTH> {
    /// Every byte is a d-character or the filler.
    pub open spec fn wf(&self) -> bool {
        forall|i: int| 0 <= i < LENGTH ==> is_d_field_byte(#[trigger] self.0@[i])
    }

    /// Takes the first `LENGTH` bytes of `bytes`, padding with the filler
    /// where `bytes` is shorter.
    pub fn from_bytes_truncated(bytes: &[u8]) -> (r: Self)
        ensures
            r.0@ == fit(bytes@, LENGTH as nat, FILLER),
    {
        DCharacters(fitted::<LENGTH>(bytes, FILLER))
    }

    /// The position of the first byte outside the class.
    pub fn first_invalid(&self) -> (r: Option<usize>)
        ensures
            r is None <==> self.wf(),
            r is None <==> first_non_d(self.0@) is None,
            r is Some ==> first_non_d(self.0@) == Some(r.unwrap() as int) && r.unwrap() < LENGTH,
    {
        let mut i: usize = 0;
        while i < LENGTH
            invariant
                i <= LENGTH,
                forall|j: int| 0 <= j < i ==> is_d_field_byte(#[trigger] self.0@[j]),
            decreases LENGTH - i,
        {
            let b = self.0[i];
            if !(d_character(b) || b == FILLER) {
                proof {
                    lemma_first_non_d(self.0@, i as int);
                }
                return Some(i);
            }
            i += 1;
        }
        None
    }
}

/// A field of a1-characters of fixed length: the bytes of whatever coded
/// character set the escape sequences of the volume descriptor name.
#[derive(Debug, Clone, Copy, PartialEq, Eq)]
pub struct A1Characters<const LENGTH: usize>(pub [u8; LENGTH]);

impl<const LENGTH: usize> A1Characters<LENGTH> {
    /// Takes the first `LENGTH` bytes of `bytes`, padding with zero bytes
    /// where `bytes` is shorter.
    pub fn from_bytes_truncated(bytes: &[u8]) -> (r: Self)
        ensures
            r.0@ == fit(bytes@, LENGTH as nat, 0),
    {
        A1Characters(fitted::<LENGTH>(bytes, 0))
    }
}

/// A field of d1-characters of fixed length: the bytes of whatever coded
/// character set the escape sequences of the volume descriptor name.
#[derive(Debug, Clone, Copy, PartialEq, Eq)]
pub struct D1Characters<const LENGTH: usize>(pub [u8; LENGTH]);

impl<const LENGTH: usize> D1Characters<LENGTH> {
    /// Takes the first `LENGTH` bytes of `bytes`, padding with zero bytes
    /// where `bytes` is shorter.
    pub fn from_bytes_truncated(bytes: &[u8]) -> (r: Self)
        ensures
            r.0@ == fit(bytes@, LENGTH as nat, 0),
    {
        D1Characters(fitted::<LENGTH>(bytes, 0))
    }
}

/// Escape sequences after ISO/IEC 2022, escape characters included.
///
/// All zero means that the a1-characters are the a-characters.
#[derive(Debug, Clone, Copy, PartialEq, Eq)]
pub struct EscapeSequences<const LENGTH: usize>(pub [u8; LENGTH]);

impl<const LENGTH: usize> EscapeSequences<LENGTH> {
    /// Takes the first `LENGTH` bytes of `bytes`, padding with zero bytes
    /// where `bytes` is shorter.
    pub fn from_bytes_truncated(bytes: &[u8]) -> (r: Self)
        ensures
            r.0@ == fit(bytes@, LENGTH as nat, 0),
    {
        EscapeSequences(fitted::<LENGTH>(bytes, 0))
    }
}

/// Escape sequences after ISO/IEC 2022 without the escape characters, of any length.
#[derive(Debug, Clone, PartialEq, Eq)]
pub struct VariadicEscapeSequences(pub Vec<u8>);

/// The identifier of a file in a directory record: up to `LENGTH` bytes, of
/// which the record's identifier length says how many count.
///
/// A value is canonical for a length when the bytes after it are zero.
#[derive(Debug, Clone, Copy, PartialEq, Eq)]
pub struct FileIdentifier<const LENGTH: usize>(pub [u8; LENGTH]);

impl<const LENGTH: usize> FileIdentifier<LENGTH> {
    /// Takes the first `LENGTH` bytes of `bytes`, padding with zero bytes
    /// where `bytes` is shorter.
    pub fn from_bytes_truncated(bytes: &[u8]) -> (r: Self)
        ensures
            r.0@ == fit(bytes@, LENGTH as nat, 0),
    {
        FileIdentifier(fitted::<LENGTH>(bytes, 0))
    }
}

/// The identifier of a directory in a path table record: up to `LENGTH`
/// bytes, of which the record's identifier length says how many count.
#[derive(Debug, Clone, Copy, PartialEq, Eq)]
pub struct DirectoryIdentifier<const LENGTH: usize>(pub [u8; LENGTH]);

impl<const LENGTH: usize> DirectoryIdentifier<LENGTH> {
    /// Takes the first `LENGTH` bytes of `bytes`, padding with zero bytes
    /// where `bytes` is shorter.
    pub fn from_bytes_truncated(bytes: &[u8]) -> (r: Self)
        ensures
            r.0@ == fit(bytes@, LENGTH as nat, 0),
    {
        DirectoryIdentifier(fitted::<LENGTH>(bytes, 0))
    }
}

/// A Joliet file identifier: up to 64 UCS-2 code units.
#[derive(Debug, Clone, Copy, PartialEq, Eq)]
pub struct JolietFileIdentifier(pub [u16; 64]);

/// A Joliet directory identifier: up to 64 UCS-2 code units.
#[derive(Debug, Clone, Copy, PartialEq, Eq)]
pub struct JolietDirectoryIdentifier(pub [u16; 64]);

/// The first 64 code units of `units`, padded with zero where `units` is shorter.
pub fn fitted_units(units: &[u16]) -> (r: [u16; 64])
    ensures
        r@ == fit_units(units@, 64, 0),
{
    let mut cs: [u16; 64] = [0u16; 64];
    let mut i: usize = 0;
    while i < 64 && i < units.len()
        invariant
            i <= 64,
            i <= units@.len(),
            forall|j: int| 0 <= j < i ==> cs@[j] == units@[j],
            forall|j: int| i <= j < 64 ==> cs@[j] == 0,
        decreases 64 - i,
    {
        cs[i] = units[i];
        i += 1;
    }
    assert(cs@ =~= fit_units(units@, 64, 0));
    cs
}

impl JolietFileIdentifier {
    /// Takes the first 64 code units of `units`, padding with zero.
    pub fn from_units_truncated(units: &[u16]) -> (r: Self)
        ensures
            r.0@ == fit_units(units@, 64, 0),
    {
        JolietFileIdentifier(fitted_units(units))
    }
}

impl JolietDirectoryIdentifier {
    /// Takes the first 64 code units of `units`, padding with zero.
    pub fn from_units_truncated(units: &[u16]) -> (r: Self)
        ensures
            r.0@ == fit_units(units@, 64, 0),
    {
        JolietDirectoryIdentifier(fitted_units(units))
    }
}

/// The flags of a directory record. Bits without a name are kept as they are.
#[derive(Debug, Clone, Copy, PartialEq, Eq)]
pub struct FileFlags {
    pub bits: u8,
}

impl FileFlags {
    /// The file is hidden from the user.
    pub const EXISTENCE: u8 = 0x01;

    /// The record stands for a directory.
    pub const DIRECTORY: u8 = 0x02;

    pub const ASSOCIATED_FILE: u8 = 0x04;

    pub const RECORD: u8 = 0x08;

    pub const PROTECTION: u8 = 0x10;

    pub const RESERVED_5: u8 = 0x20;

    pub const RESERVED_6: u8 = 0x40;

    /// This is not the last record of the file.
    pub const MULTI_EXTENT: u8 = 0x80;

    /// Whether every bit of `mask` is set.
    pub open spec fn spec_contains(&self, mask: u8) -> bool {
        self.bits & mask == mask
    }

    pub fn empty() -> (r: Self)
        ensures
            r.bits == 0,
    {
        FileFlags { bits: 0 }
    }

    pub fn from_bits(bits: u8) -> (r: Self)
        ensures
            r.bits == bits,
    {
        FileFlags { bits }
    }

    pub fn bits(&self) -> (r: u8)
        ensures
            r == self.bits,
    {
        self.bits
    }

    pub fn is_empty(&self) -> (r: bool)
        ensures
            r == (self.bits == 0),
    {
        self.bits == 0
    }

    pub fn contains(&self, mask: u8) -> (r: bool)
        ensures
            r == self.spec_contains(mask),
    {
        self.bits & mask == mask
    }

    /// Whether the record stands for a directory.
    pub open spec fn spec_is_directory(&self) -> bool {
        self.bits & 0x02 == 0x02
    }

    pub fn is_directory(&self) -> (r: bool)
        ensures
            r == self.spec_is_directory(),
    {
        self.bits & 0x02 == 0x02
    }
}

/// The permissions of an extended attribute record. The odd bits "shall be set
/// to 1"; nothing here enforces that.
#[derive(Debug, Clone, Copy, PartialEq, Eq)]
pub struct Permissions {
    pub bits: u16,
}

impl Permissions {
    pub const SYSTEM_READ: u16 = 0x0001;

    pub const PERMISSION_1: u16 = 0x0002;

    pub const SYSTEM_EXECUTE: u16 = 0x0004;

    pub const PERMISSION_3: u16 = 0x0008;

    pub const USER_READ: u16 = 0x0010;

    pub const PERMISSION_5: u16 = 0x0020;

    pub const USER_EXECUTE: u16 = 0x0040;

    pub const PERMISSION_7: u16 = 0x0080;

    pub const OTHER_READ: u16 = 0x0100;

    pub const PERMISSION_9: u16 = 0x0200;

    pub const OTHER_EXECUTE: u16 = 0x0400;

    pub const PERMISSION_11: u16 = 0x0800;

    pub const ALL_READ: u16 = 0x1000;

    pub const PERMISSION_13: u16 = 0x2000;

    pub const ALL_EXECUTE: u16 = 0x4000;

    pub const PERMISSION_15: u16 = 0x8000;

    /// Whether every bit of `mask` is set.
    pub open spec fn spec_contains(&self, mask: u16) -> bool {
        self.bits & mask == mask
    }

    pub fn from_bits(bits: u16) -> (r: Self)
        ensures
            r.bits == bits,
    {
        Permissions { bits }
    }

    pub fn bits(&self) -> (r: u16)
        ensures
            r == self.bits,
    {
        self.bits
    }

    pub fn contains(&self, mask: u16) -> (r: bool)
        ensures
            r == self.spec_contains(mask),
    {
        self.bits & mask == mask
    }
}

/// The flags of a supplementary volume descriptor.
#[derive(Debug, Clone, Copy, PartialEq, Eq)]
pub struct VolumeFlags {
    pub bits: u8,
}

impl VolumeFlags {
    /// Set when the escape sequences hold one that ISO/IEC 2375 does not register.
    pub const UNREGISTERED_ESCAPE_SEQUENCES: u8 = 0x01;

    /// Whether every bit of `mask` is set.
    pub open spec fn spec_contains(&self, mask: u8) -> bool {
        self.bits & mask == mask
    }

    pub fn empty() -> (r: Self)
        ensures
            r.bits == 0,
    {
        VolumeFlags { bits: 0 }
    }

    pub fn from_bits(bits: u8) -> (r: Self)
        ensures
            r.bits == bits,
    {
        VolumeFlags { bits }
    }

    pub fn bits(&self) -> (r: u8)
        ensures
            r == self.bits,
    {
        self.bits
    }

    pub fn contains(&self, mask: u8) -> (r: bool)
        ensures
            r == self.spec_contains(mask),
    {
        self.bits & mask == mask
    }
}

/// Bit 5 of the second byte of an El Torito section entry extension: another
/// extension record follows.
#[derive(Debug, Clone, Copy, PartialEq, Eq)]
pub struct ElToritoExtensionRecordFollowsIndicator {
    pub bits: u8,
}

impl ElToritoExtensionRecordFollowsIndicator {
    pub const EXTENSION_RECORD_FOLLOWS: u8 = 0x20;

    /// Whether every bit of `mask` is set.
    pub open spec fn spec_contains(&self, mask: u8) -> bool {
        self.bits & mask == mask
    }

    pub fn from_bits(bits: u8) -> (r: Self)
        ensures
            r.bits == bits,
    {
        ElToritoExtensionRecordFollowsIndicator { bits }
    }

    pub fn bits(&self) -> (r: u8)
        ensures
            r == self.bits,
    {
        self.bits
    }

    pub fn contains(&self, mask: u8) -> (r: bool)
        ensures
            r == self.spec_contains(mask),
    {
        self.bits & mask == mask
    }
}

/// Who owns a file, as an extended attribute record says.
#[derive(Debug, Clone, Copy, PartialEq, Eq)]
pub struct OwnerIdentification(pub u16);

/// The group of the owner of a file, as an extended attribute record says.
#[derive(Debug, Clone, Copy, PartialEq, Eq)]
pub struct GroupIdentification(pub u16);

/// The five bytes after the tag of a volume descriptor.
#[derive(Debug, Clone, Copy, PartialEq, Eq)]
pub enum StandardIdentifier {
    /// ISO 9660: "CD001".
    Cd001,
    /// Start of the extended descriptor section: "BEA01".
    Bea01,
    /// The volume holds a UDF file system: "NSR02".
    Nsr02,
    /// The volume holds a UDF file system: "NSR03".
    Nsr03,
    /// Where the boot loader is and where it is entered: "BOOT2".
    Boot2,
    /// End of the extended descriptor section: "TEA01".
    Tea01,
    /// Any other five bytes.
    Other([u8; 5]),
}

pub open spec fn cd001() -> Seq<u8> {
    seq![0x43u8, 0x44, 0x30, 0x30, 0x31]
}

pub open spec fn bea01() -> Seq<u8> {
    seq![0x42u8, 0x45, 0x41, 0x30, 0x31]
}

pub open spec fn nsr02() -> Seq<u8> {
    seq![0x4Eu8, 0x53, 0x52, 0x30, 0x32]
}

pub open spec fn nsr03() -> Seq<u8> {
    seq![0x4Eu8, 0x53, 0x52, 0x30, 0x33]
}

pub open spec fn boot2() -> Seq<u8> {
    seq![0x42u8, 0x4F, 0x4F, 0x54, 0x32]
}

pub open spec fn tea01() -> Seq<u8> {
    seq![0x54u8, 0x45, 0x41, 0x30, 0x31]
}

impl StandardIdentifier {
    /// The five bytes that stand for this identifier on disk.
    pub open spec fn spec_as_bytes(&self) -> Seq<u8> {
        match self {
            StandardIdentifier::Cd001 => cd001(),
            StandardIdentifier::Bea01 => bea01(),
            StandardIdentifier::Nsr02 => nsr02(),
            StandardIdentifier::Nsr03 => nsr03(),
            StandardIdentifier::Boot2 => boot2(),
            StandardIdentifier::Tea01 => tea01(),
            StandardIdentifier::Other(v) => v@,
        }
    }

    /// The identifier that five bytes stand for.
    pub open spec fn spec_from_bytes(s: Seq<u8>) -> Self
        recommends
            s.len() == 5,
    {
        if s == cd001() {
            StandardIdentifier::Cd001
        } else if s == bea01() {
            StandardIdentifier::Bea01
        } else if s == nsr02() {
            StandardIdentifier::Nsr02
        } else if s == nsr03() {
            StandardIdentifier::Nsr03
        } else if s == boot2() {
            StandardIdentifier::Boot2
        } else if s == tea01() {
            StandardIdentifier::Tea01
        } else {
            StandardIdentifier::Other(array_of::<5>(s))
        }
    }

    /// `Other` holds no bytes that a named variant stands for.
    pub open spec fn wf(&self) -> bool {
        match self {
            StandardIdentifier::Other(v) => v@ != cd001() && v@ != bea01() && v@ != nsr02() && v@
                != nsr03() && v@ != boot2() && v@ != tea01(),
            _ => true,
        }
    }

    pub fn as_bytes(&self) -> (r: [u8; 5])
        ensures
            r@ == self.spec_as_bytes(),
    {
        let r: [u8; 5] = match self {
            StandardIdentifier::Cd001 => [0x43, 0x44, 0x30, 0x30, 0x31],
            StandardIdentifier::Bea01 => [0x42, 0x45, 0x41, 0x30, 0x31],
            StandardIdentifier::Nsr02 => [0x4E, 0x53, 0x52, 0x30, 0x32],
            StandardIdentifier::Nsr03 => [0x4E, 0x53, 0x52, 0x30, 0x33],
            StandardIdentifier::Boot2 => [0x42, 0x4F, 0x4F, 0x54, 0x32],
            StandardIdentifier::Tea01 => [0x54, 0x45, 0x41, 0x30, 0x31],
            StandardIdentifier::Other(v) => *v,
        };
        assert(r@ =~= self.spec_as_bytes());
        r
    }

    pub fn from_bytes(b: [u8; 5]) -> (r: Self)
        ensures
            r == Self::spec_from_bytes(b@),
            r.wf(),
            r.spec_as_bytes() == b@,
    {
        let r = if b[0] == 0x43 && b[1] == 0x44 && b[2] == 0x30 && b[3] == 0x30 && b[4] == 0x31 {
            assert(b@ =~= cd001());
            StandardIdentifier::Cd001
        } else if b[0] == 0x42 && b[1] == 0x45 && b[2] == 0x41 && b[3] == 0x30 && b[4] == 0x31 {
            assert(b@ =~= bea01());
            StandardIdentifier::Bea01
        } else if b[0] == 0x4E && b[1] == 0x53 && b[2] == 0x52 && b[3] == 0x30 && b[4] == 0x32 {
            assert(b@ =~= nsr02());
            StandardIdentifier::Nsr02
        } else if b[0] == 0x4E && b[1] == 0x53 && b[2] == 0x52 && b[3] == 0x30 && b[4] == 0x33 {
            assert(b@ =~= nsr03());
            StandardIdentifier::Nsr03
        } else if b[0] == 0x42 && b[1] == 0x4F && b[2] == 0x4F && b[3] == 0x54 && b[4] == 0x32 {
            assert(b@ =~= boot2());
            StandardIdentifier::Boot2
        } else if b[0] == 0x54 && b[1] == 0x45 && b[2] == 0x41 && b[3] == 0x30 && b[4] == 0x31 {
            assert(b@ =~= tea01());
            StandardIdentifier::Tea01
        } else {
            proof {
                lemma_array_of::<5>(b);
            }
            StandardIdentifier::Other(b)
        };
        r
    }

    /// Reading the bytes of a well-formed identifier gives the identifier back.
    pub proof fn lemma_round_trip(self)
        requires
            self.wf(),
        ensures
            self.spec_as_bytes().len() == 5,
            Self::spec_from_bytes(self.spec_as_bytes()) == self,
    {
        match self {
            StandardIdentifier::Other(v) => {
                lemma_array_of::<5>(v);
            },
            _ => {},
        }
    }
}

/// How the records of a file are laid out, as an extended attribute record says.
///
/// A byte that no named variant stands for is kept in `Other`, so that nothing
/// is lost between reading and writing.
#[derive(Debug, Clone, Copy, PartialEq, Eq)]
pub enum RecordFormat {
    StructureNotSpecified,
    FixedLengthRecords,
    VariableLengthRecordsMsb,
    VariableLengthRecordsLsb,
    Other(u8),
}

impl RecordFormat {
    /// The byte that stands for this value on disk.
    pub open spec fn spec_to_u8(self) -> u8 {
        match self {
            RecordFormat::StructureNotSpecified => 0,
            RecordFormat::FixedLengthRecords => 1,
            RecordFormat::VariableLengthRecordsMsb => 2,
            RecordFormat::VariableLengthRecordsLsb => 3,
            RecordFormat::Other(v) => v,
        }
    }

    /// The value that the byte `b` stands for.
    pub open spec fn spec_from_u8(b: u8) -> Self {
        if b == 0 {
            RecordFormat::StructureNotSpecified
        } else if b == 1 {
            RecordFormat::FixedLengthRecords
        } else if b == 2 {
            RecordFormat::VariableLengthRecordsMsb
        } else if b == 3 {
            RecordFormat::VariableLengthRecordsLsb
        } else {
            RecordFormat::Other(b)
        }
    }

    /// `Other` holds no byte that a named variant stands for.
    pub open spec fn wf(self) -> bool {
        match self {
            RecordFormat::Other(v) => v != 0 && v != 1 && v != 2 && v != 3,
            _ => true,
        }
    }

    pub fn to_u8(self) -> (b: u8)
        ensures
            b == self.spec_to_u8(),
    {
        match self {
            RecordFormat::StructureNotSpecified => 0,
            RecordFormat::FixedLengthRecords => 1,
            RecordFormat::VariableLengthRecordsMsb => 2,
            RecordFormat::VariableLengthRecordsLsb => 3,
            RecordFormat::Other(v) => v,
        }
    }

    pub fn from_u8(b: u8) -> (r: Self)
        ensures
            r == Self::spec_from_u8(b),
            r.wf(),
            r.spec_to_u8() == b,
    {
        if b == 0 {
            RecordFormat::StructureNotSpecified
        } else if b == 1 {
            RecordFormat::FixedLengthRecords
        } else if b == 2 {
            RecordFormat::VariableLengthRecordsMsb
        } else if b == 3 {
            RecordFormat::VariableLengthRecordsLsb
        } else {
            RecordFormat::Other(b)
        }
    }

    /// Reading the byte of a well-formed value gives the value back.
    pub proof fn lemma_round_trip(self)
        requires
            self.wf(),
        ensures
            Self::spec_from_u8(self.spec_to_u8()) == self,
    {
    }
}

/// How the records of a file are to be shown.
///
/// A byte that no named variant stands for is kept in `Other`, so that nothing
/// is lost between reading and writing.
#[derive(Debug, Clone, Copy, PartialEq, Eq)]
pub enum RecordAttributes {
    PreceededByLfcFollowedByCrc,
    /// The first byte of the record is read as ISO/IEC 1539-1 says for vertical spacing.
    FirstByteInterpretedByIso15391,
    ContainsNecessaryControlInformation,
    Other(u8),
}

impl RecordAttributes {
    /// The byte that stands for this value on disk.
    pub open spec fn spec_to_u8(self) -> u8 {
        match self {
            RecordAttributes::PreceededByLfcFollowedByCrc => 0,
            RecordAttributes::FirstByteInterpretedByIso15391 => 1,
            RecordAttributes::ContainsNecessaryControlInformation => 2,
            RecordAttributes::Other(v) => v,
        }
    }

    /// The value that the byte `b` stands for.
    pub open spec fn spec_from_u8(b: u8) -> Self {
        if b == 0 {
            RecordAttributes::PreceededByLfcFollowedByCrc
        } else if b == 1 {
            RecordAttributes::FirstByteInterpretedByIso15391
        } else if b == 2 {
            RecordAttributes::ContainsNecessaryControlInformation
        } else {
            RecordAttributes::Other(b)
        }
    }

    /// `Other` holds no byte that a named variant stands for.
    pub open spec fn wf(self) -> bool {
        match self {
            RecordAttributes::Other(v) => v != 0 && v != 1 && v != 2,
            _ => true,
        }
    }

    pub fn to_u8(self) -> (b: u8)
        ensures
            b == self.spec_to_u8(),
    {
        match self {
            RecordAttributes::PreceededByLfcFollowedByCrc => 0,
            RecordAttributes::FirstByteInterpretedByIso15391 => 1,
            RecordAttributes::ContainsNecessaryControlInformation => 2,
            RecordAttributes::Other(v) => v,
        }
    }

    pub fn from_u8(b: u8) -> (r: Self)
        ensures
            r == Self::spec_from_u8(b),
            r.wf(),
            r.spec_to_u8() == b,
    {
        if b == 0 {
            RecordAttributes::PreceededByLfcFollowedByCrc
        } else if b == 1 {
            RecordAttributes::FirstByteInterpretedByIso15391
        } else if b == 2 {
            RecordAttributes::ContainsNecessaryControlInformation
        } else {
            RecordAttributes::Other(b)
        }
    }

    /// Reading the byte of a well-formed value gives the value back.
    pub proof fn lemma_round_trip(self)
        requires
            self.wf(),
        ensures
            Self::spec_from_u8(self.spec_to_u8()) == self,
    {
    }
}

/// Version byte of an extended attribute record.
///
/// A byte that no named variant stands for is kept in `Other`, so that nothing
/// is lost between reading and writing.
#[derive(Debug, Clone, Copy, PartialEq, Eq)]
pub enum ExtendedAttributeRecordVersion {
    Standard,
    Other(u8),
}

impl ExtendedAttributeRecordVersion {
    /// The byte that stands for this value on disk.
    pub open spec fn spec_to_u8(self) -> u8 {
        match self {
            ExtendedAttributeRecordVersion::Standard => 1,
            ExtendedAttributeRecordVersion::Other(v) => v,
        }
    }

    /// The value that the byte `b` stands for.
    pub open spec fn spec_from_u8(b: u8) -> Self {
        if b == 1 {
            ExtendedAttributeRecordVersion::Standard
        } else {
            ExtendedAttributeRecordVersion::Other(b)
        }
    }

    /// `Other` holds no byte that a named variant stands for.
    pub open spec fn wf(self) -> bool {
        match self {
            ExtendedAttributeRecordVersion::Other(v) => v != 1,
            _ => true,
        }
    }

    pub fn to_u8(self) -> (b: u8)
        ensures
            b == self.spec_to_u8(),
    {
        match self {
            ExtendedAttributeRecordVersion::Standard => 1,
            ExtendedAttributeRecordVersion::Other(v) => v,
        }
    }

    pub fn from_u8(b: u8) -> (r: Self)
        ensures
            r == Self::spec_from_u8(b),
            r.wf(),
            r.spec_to_u8() == b,
    {
        if b == 1 {
            ExtendedAttributeRecordVersion::Standard
        } else {
            ExtendedAttributeRecordVersion::Other(b)
        }
    }

    /// Reading the byte of a well-formed value gives the value back.
    pub proof fn lemma_round_trip(self)
        requires
            self.wf(),
        ensures
            Self::spec_from_u8(self.spec_to_u8()) == self,
    {
    }
}

/// The tag in the first byte of a volume descriptor.
///
/// A byte that no named variant stands for is kept in `Other`, so that nothing
/// is lost between reading and writing.
#[derive(Debug, Clone, Copy, PartialEq, Eq)]
pub enum VolumeDescriptorType {
    BootRecord,
    Primary,
    Supplementary,
    Partition,
    Terminator,
    Other(u8),
}

impl VolumeDescriptorType {
    /// The byte that stands for this value on disk.
    pub open spec fn spec_to_u8(self) -> u8 {
        match self {
            VolumeDescriptorType::BootRecord => 0,
            VolumeDescriptorType::Primary => 1,
            VolumeDescriptorType::Supplementary => 2,
            VolumeDescriptorType::Partition => 3,
            VolumeDescriptorType::Terminator => 255,
            VolumeDescriptorType::Other(v) => v,
        }
    }

    /// The value that the byte `b` stands for.
    pub open spec fn spec_from_u8(b: u8) -> Self {
        if b == 0 {
            VolumeDescriptorType::BootRecord
        } else if b == 1 {
            VolumeDescriptorType::Primary
        } else if b == 2 {
            VolumeDescriptorType::Supplementary
        } else if b == 3 {
            VolumeDescriptorType::Partition
        } else if b == 255 {
            VolumeDescriptorType::Terminator
        } else {
            VolumeDescriptorType::Other(b)
        }
    }

    /// `Other` holds no byte that a named variant stands for.
    pub open spec fn wf(self) -> bool {
        match self {
            VolumeDescriptorType::Other(v) => v != 0 && v != 1 && v != 2 && v != 3 && v != 255,
            _ => true,
        }
    }

    pub fn to_u8(self) -> (b: u8)
        ensures
            b == self.spec_to_u8(),
    {
        match self {
            VolumeDescriptorType::BootRecord => 0,
            VolumeDescriptorType::Primary => 1,
            VolumeDescriptorType::Supplementary => 2,
            VolumeDescriptorType::Partition => 3,
            VolumeDescriptorType::Terminator => 255,
            VolumeDescriptorType::Other(v) => v,
        }
    }

    pub fn from_u8(b: u8) -> (r: Self)
        ensures
            r == Self::spec_from_u8(b),
            r.wf(),
            r.spec_to_u8() == b,
    {
        if b == 0 {
            VolumeDescriptorType::BootRecord
        } else if b == 1 {
            VolumeDescriptorType::Primary
        } else if b == 2 {
            VolumeDescriptorType::Supplementary
        } else if b == 3 {
            VolumeDescriptorType::Partition
        } else if b == 255 {
            VolumeDescriptorType::Terminator
        } else {
            VolumeDescriptorType::Other(b)
        }
    }

    /// Reading the byte of a well-formed value gives the value back.
    pub proof fn lemma_round_trip(self)
        requires
            self.wf(),
        ensures
            Self::spec_from_u8(self.spec_to_u8()) == self,
    {
    }
}

/// Version byte of a volume descriptor.
///
/// A byte that no named variant stands for is kept in `Other`, so that nothing
/// is lost between reading and writing.
#[derive(Debug, Clone, Copy, PartialEq, Eq)]
pub enum VolumeDescriptorVersion {
    Standard,
    Other(u8),
}

impl VolumeDescriptorVersion {
    /// The byte that stands for this value on disk.
    pub open spec fn spec_to_u8(self) -> u8 {
        match self {
            VolumeDescriptorVersion::Standard => 1,
            VolumeDescriptorVersion::Other(v) => v,
        }
    }

    /// The value that the byte `b` stands for.
    pub open spec fn spec_from_u8(b: u8) -> Self {
        if b == 1 {
            VolumeDescriptorVersion::Standard
        } else {
            VolumeDescriptorVersion::Other(b)
        }
    }

    /// `Other` holds no byte that a named variant stands for.
    pub open spec fn wf(self) -> bool {
        match self {
            VolumeDescriptorVersion::Other(v) => v != 1,
            _ => true,
        }
    }

    pub fn to_u8(self) -> (b: u8)
        ensures
            b == self.spec_to_u8(),
    {
        match self {
            VolumeDescriptorVersion::Standard => 1,
            VolumeDescriptorVersion::Other(v) => v,
        }
    }

    pub fn from_u8(b: u8) -> (r: Self)
        ensures
            r == Self::spec_from_u8(b),
            r.wf(),
            r.spec_to_u8() == b,
    {
        if b == 1 {
            VolumeDescriptorVersion::Standard
        } else {
            VolumeDescriptorVersion::Other(b)
        }
    }

    /// Reading the byte of a well-formed value gives the value back.
    pub proof fn lemma_round_trip(self)
        requires
            self.wf(),
        ensures
            Self::spec_from_u8(self.spec_to_u8()) == self,
    {
    }
}

/// Version byte of the directory records and path tables of a volume.
///
/// A byte that no named variant stands for is kept in `Other`, so that nothing
/// is lost between reading and writing.
#[derive(Debug, Clone, Copy, PartialEq, Eq)]
pub enum FileStructureVersion {
    Standard,
    Other(u8),
}

impl FileStructureVersion {
    /// The byte that stands for this value on disk.
    pub open spec fn spec_to_u8(self) -> u8 {
        match self {
            FileStructureVersion::Standard => 1,
            FileStructureVersion::Other(v) => v,
        }
    }

    /// The value that the byte `b` stands for.
    pub open spec fn spec_from_u8(b: u8) -> Self {
        if b == 1 {
            FileStructureVersion::Standard
        } else {
            FileStructureVersion::Other(b)
        }
    }

    /// `Other` holds no byte that a named variant stands for.
    pub open spec fn wf(self) -> bool {
        match self {
            FileStructureVersion::Other(v) => v != 1,
            _ => true,
        }
    }

    pub fn to_u8(self) -> (b: u8)
        ensures
            b == self.spec_to_u8(),
    {
        match self {
            FileStructureVersion::Standard => 1,
            FileStructureVersion::Other(v) => v,
        }
    }

    pub fn from_u8(b: u8) -> (r: Self)
        ensures
            r == Self::spec_from_u8(b),
            r.wf(),
            r.spec_to_u8() == b,
    {
        if b == 1 {
            FileStructureVersion::Standard
        } else {
            FileStructureVersion::Other(b)
        }
    }

    /// Reading the byte of a well-formed value gives the value back.
    pub proof fn lemma_round_trip(self)
        requires
            self.wf(),
        ensures
            Self::spec_from_u8(self.spec_to_u8()) == self,
    {
    }
}

/// Header id of an El Torito validation entry.
///
/// A byte that no named variant stands for is kept in `Other`, so that nothing
/// is lost between reading and writing.
#[derive(Debug, Clone, Copy, PartialEq, Eq)]
pub enum ElToritoHeaderId {
    Standard,
    Other(u8),
}

impl ElToritoHeaderId {
    /// The byte that stands for this value on disk.
    pub open spec fn spec_to_u8(self) -> u8 {
        match self {
            ElToritoHeaderId::Standard => 1,
            ElToritoHeaderId::Other(v) => v,
        }
    }

    /// The value that the byte `b` stands for.
    pub open spec fn spec_from_u8(b: u8) -> Self {
        if b == 1 {
            ElToritoHeaderId::Standard
        } else {
            ElToritoHeaderId::Other(b)
        }
    }

    /// `Other` holds no byte that a named variant stands for.
    pub open spec fn wf(self) -> bool {
        match self {
            ElToritoHeaderId::Other(v) => v != 1,
            _ => true,
        }
    }

    pub fn to_u8(self) -> (b: u8)
        ensures
            b == self.spec_to_u8(),
    {
        match self {
            ElToritoHeaderId::Standard => 1,
            ElToritoHeaderId::Other(v) => v,
        }
    }

    pub fn from_u8(b: u8) -> (r: Self)
        ensures
            r == Self::spec_from_u8(b),
            r.wf(),
            r.spec_to_u8() == b,
    {
        if b == 1 {
            ElToritoHeaderId::Standard
        } else {
            ElToritoHeaderId::Other(b)
        }
    }

    /// Reading the byte of a well-formed value gives the value back.
    pub proof fn lemma_round_trip(self)
        requires
            self.wf(),
        ensures
            Self::spec_from_u8(self.spec_to_u8()) == self,
    {
    }
}

/// The platform an El Torito boot image is meant for.
///
/// A byte that no named variant stands for is kept in `Other`, so that nothing
/// is lost between reading and writing.
#[derive(Debug, Clone, Copy, PartialEq, Eq)]
pub enum ElToritoPlatformId {
    X86,
    PowerPc,
    Mac,
    Other(u8),
}

impl ElToritoPlatformId {
    /// The byte that stands for this value on disk.
    pub open spec fn spec_to_u8(self) -> u8 {
        match self {
            ElToritoPlatformId::X86 => 0,
            ElToritoPlatformId::PowerPc => 1,
            ElToritoPlatformId::Mac => 2,
            ElToritoPlatformId::Other(v) => v,
        }
    }

    /// The value that the byte `b` stands for.
    pub open spec fn spec_from_u8(b: u8) -> Self {
        if b == 0 {
            ElToritoPlatformId::X86
        } else if b == 1 {
            ElToritoPlatformId::PowerPc
        } else if b == 2 {
            ElToritoPlatformId::Mac
        } else {
            ElToritoPlatformId::Other(b)
        }
    }

    /// `Other` holds no byte that a named variant stands for.
    pub open spec fn wf(self) -> bool {
        match self {
            ElToritoPlatformId::Other(v) => v != 0 && v != 1 && v != 2,
            _ => true,
        }
    }

    pub fn to_u8(self) -> (b: u8)
        ensures
            b == self.spec_to_u8(),
    {
        match self {
            ElToritoPlatformId::X86 => 0,
            ElToritoPlatformId::PowerPc => 1,
            ElToritoPlatformId::Mac => 2,
            ElToritoPlatformId::Other(v) => v,
        }
    }

    pub fn from_u8(b: u8) -> (r: Self)
        ensures
            r == Self::spec_from_u8(b),
            r.wf(),
            r.spec_to_u8() == b,
    {
        if b == 0 {
            ElToritoPlatformId::X86
        } else if b == 1 {
            ElToritoPlatformId::PowerPc
        } else if b == 2 {
            ElToritoPlatformId::Mac
        } else {
            ElToritoPlatformId::Other(b)
        }
    }

    /// Reading the byte of a well-formed value gives the value back.
    pub proof fn lemma_round_trip(self)
        requires
            self.wf(),
        ensures
            Self::spec_from_u8(self.spec_to_u8()) == self,
    {
    }
}

/// Whether an El Torito entry can be booted.
///
/// A byte that no named variant stands for is kept in `Other`, so that nothing
/// is lost between reading and writing.
#[derive(Debug, Clone, Copy, PartialEq, Eq)]
pub enum ElToritoBootIndicator {
    Bootable,
    NonBootable,
    Other(u8),
}

impl ElToritoBootIndicator {
    /// The byte that stands for this value on disk.
    pub open spec fn spec_to_u8(self) -> u8 {
        match self {
            ElToritoBootIndicator::Bootable => 0x88,
            ElToritoBootIndicator::NonBootable => 0,
            ElToritoBootIndicator::Other(v) => v,
        }
    }

    /// The value that the byte `b` stands for.
    pub open spec fn spec_from_u8(b: u8) -> Self {
        if b == 0x88 {
            ElToritoBootIndicator::Bootable
        } else if b == 0 {
            ElToritoBootIndicator::NonBootable
        } else {
            ElToritoBootIndicator::Other(b)
        }
    }

    /// `Other` holds no byte that a named variant stands for.
    pub open spec fn wf(self) -> bool {
        match self {
            ElToritoBootIndicator::Other(v) => v != 0x88 && v != 0,
            _ => true,
        }
    }

    pub fn to_u8(self) -> (b: u8)
        ensures
            b == self.spec_to_u8(),
    {
        match self {
            ElToritoBootIndicator::Bootable => 0x88,
            ElToritoBootIndicator::NonBootable => 0,
            ElToritoBootIndicator::Other(v) => v,
        }
    }

    pub fn from_u8(b: u8) -> (r: Self)
        ensures
            r == Self::spec_from_u8(b),
            r.wf(),
            r.spec_to_u8() == b,
    {
        if b == 0x88 {
            ElToritoBootIndicator::Bootable
        } else if b == 0 {
            ElToritoBootIndicator::NonBootable
        } else {
            ElToritoBootIndicator::Other(b)
        }
    }

    /// Reading the byte of a well-formed value gives the value back.
    pub proof fn lemma_round_trip(self)
        requires
            self.wf(),
        ensures
            Self::spec_from_u8(self.spec_to_u8()) == self,
    {
    }
}

/// How the selection criteria of an El Torito section entry are read.
///
/// A byte that no named variant stands for is kept in `Other`, so that nothing
/// is lost between reading and writing.
#[derive(Debug, Clone, Copy, PartialEq, Eq)]
pub enum ElToritoSelectionCriteriaType {
    NoSelectionCriteria,
    LanguageAndVersionInformation,
    Other(u8),
}

impl ElToritoSelectionCriteriaType {
    /// The byte that stands for this value on disk.
    pub open spec fn spec_to_u8(self) -> u8 {
        match self {
            ElToritoSelectionCriteriaType::NoSelectionCriteria => 0,
            ElToritoSelectionCriteriaType::LanguageAndVersionInformation => 1,
            ElToritoSelectionCriteriaType::Other(v) => v,
        }
    }

    /// The value that the byte `b` stands for.
    pub open spec fn spec_from_u8(b: u8) -> Self {
        if b == 0 {
            ElToritoSelectionCriteriaType::NoSelectionCriteria
        } else if b == 1 {
            ElToritoSelectionCriteriaType::LanguageAndVersionInformation
        } else {
            ElToritoSelectionCriteriaType::Other(b)
        }
    }

    /// `Other` holds no byte that a named variant stands for.
    pub open spec fn wf(self) -> bool {
        match self {
            ElToritoSelectionCriteriaType::Other(v) => v != 0 && v != 1,
            _ => true,
        }
    }

    pub fn to_u8(self) -> (b: u8)
        ensures
            b == self.spec_to_u8(),
    {
        match self {
            ElToritoSelectionCriteriaType::NoSelectionCriteria => 0,
            ElToritoSelectionCriteriaType::LanguageAndVersionInformation => 1,
            ElToritoSelectionCriteriaType::Other(v) => v,
        }
    }

    pub fn from_u8(b: u8) -> (r: Self)
        ensures
            r == Self::spec_from_u8(b),
            r.wf(),
            r.spec_to_u8() == b,
    {
        if b == 0 {
            ElToritoSelectionCriteriaType::NoSelectionCriteria
        } else if b == 1 {
            ElToritoSelectionCriteriaType::LanguageAndVersionInformation
        } else {
            ElToritoSelectionCriteriaType::Other(b)
        }
    }

    /// Reading the byte of a well-formed value gives the value back.
    pub proof fn lemma_round_trip(self)
        requires
            self.wf(),
        ensures
            Self::spec_from_u8(self.spec_to_u8()) == self,
    {
    }
}

/// The medium that an El Torito boot image emulates.
#[derive(Debug, Clone, Copy, PartialEq, Eq)]
pub enum ElToritoEmulationType {
    NoEmulation,
    Floppy12M,
    Floppy144M,
    Floppy288M,
    HardDisk,
}

impl ElToritoEmulationType {
    /// The byte that stands for this value on disk.
    pub open spec fn spec_to_u8(self) -> u8 {
        match self {
            ElToritoEmulationType::NoEmulation => 0,
            ElToritoEmulationType::Floppy12M => 1,
            ElToritoEmulationType::Floppy144M => 2,
            ElToritoEmulationType::Floppy288M => 3,
            ElToritoEmulationType::HardDisk => 4,
        }
    }

    /// The value that the byte `b` stands for, if any.
    pub open spec fn spec_from_u8(b: u8) -> Option<Self> {
        if b == 0 {
            Some(ElToritoEmulationType::NoEmulation)
        } else if b == 1 {
            Some(ElToritoEmulationType::Floppy12M)
        } else if b == 2 {
            Some(ElToritoEmulationType::Floppy144M)
        } else if b == 3 {
            Some(ElToritoEmulationType::Floppy288M)
        } else if b == 4 {
            Some(ElToritoEmulationType::HardDisk)
        } else {
            None
        }
    }

    pub fn to_u8(self) -> (b: u8)
        ensures
            b == self.spec_to_u8(),
    {
        match self {
            ElToritoEmulationType::NoEmulation => 0,
            ElToritoEmulationType::Floppy12M => 1,
            ElToritoEmulationType::Floppy144M => 2,
            ElToritoEmulationType::Floppy288M => 3,
            ElToritoEmulationType::HardDisk => 4,
        }
    }

    pub fn from_u8(b: u8) -> (r: Option<Self>)
        ensures
            r == Self::spec_from_u8(b),
            r is Some ==> r.unwrap().spec_to_u8() == b,
    {
        if b == 0 {
            Some(ElToritoEmulationType::NoEmulation)
        } else if b == 1 {
            Some(ElToritoEmulationType::Floppy12M)
        } else if b == 2 {
            Some(ElToritoEmulationType::Floppy144M)
        } else if b == 3 {
            Some(ElToritoEmulationType::Floppy288M)
        } else if b == 4 {
            Some(ElToritoEmulationType::HardDisk)
        } else {
            None
        }
    }

    /// Reading the byte of a value gives the value back.
    pub proof fn lemma_round_trip(self)
        ensures
            Self::spec_from_u8(self.spec_to_u8()) == Some(self),
    {
    }
}

/// Whether further El Torito section headers follow this one.
#[derive(Debug, Clone, Copy, PartialEq, Eq)]
pub enum ElToritoHeaderIndicator {
    MoreHeadersFollow,
    FinalHeader,
}

impl ElToritoHeaderIndicator {
    /// The byte that stands for this value on disk.
    pub open spec fn spec_to_u8(self) -> u8 {
        match self {
            ElToritoHeaderIndicator::MoreHeadersFollow => 90,
            ElToritoHeaderIndicator::FinalHeader => 91,
        }
    }

    /// The value that the byte `b` stands for, if any.
    pub open spec fn spec_from_u8(b: u8) -> Option<Self> {
        if b == 90 {
            Some(ElToritoHeaderIndicator::MoreHeadersFollow)
        } else if b == 91 {
            Some(ElToritoHeaderIndicator::FinalHeader)
        } else {
            None
        }
    }

    pub fn to_u8(self) -> (b: u8)
        ensures
            b == self.spec_to_u8(),
    {
        match self {
            ElToritoHeaderIndicator::MoreHeadersFollow => 90,
            ElToritoHeaderIndicator::FinalHeader => 91,
        }
    }

    pub fn from_u8(b: u8) -> (r: Option<Self>)
        ensures
            r == Self::spec_from_u8(b),
            r is Some ==> r.unwrap().spec_to_u8() == b,
    {
        if b == 90 {
            Some(ElToritoHeaderIndicator::MoreHeadersFollow)
        } else if b == 91 {
            Some(ElToritoHeaderIndicator::FinalHeader)
        } else {
            None
        }
    }

    /// Reading the byte of a value gives the value back.
    pub proof fn lemma_round_trip(self)
        ensures
            Self::spec_from_u8(self.spec_to_u8()) == Some(self),
    {
    }
}
/// The year of a precise date, written as four ASCII digits.
#[derive(Debug, Clone, Copy, PartialEq, Eq)]
pub struct DigitsYear(pub u16);

/// The month of a precise date, written as two ASCII digits.
#[derive(Debug, Clone, Copy, PartialEq, Eq)]
pub struct DigitsMonth(pub u8);

/// The day of a precise date, written as two ASCII digits.
#[derive(Debug, Clone, Copy, PartialEq, Eq)]
pub struct DigitsDay(pub u8);

/// The hour of a precise date, written as two ASCII digits.
#[derive(Debug, Clone, Copy, PartialEq, Eq)]
pub struct DigitsHour(pub u8);

/// The minute of a precise date, written as two ASCII digits.
#[derive(Debug, Clone, Copy, PartialEq, Eq)]
pub struct DigitsMinute(pub u8);

/// The second of a precise date, written as two ASCII digits.
#[derive(Debug, Clone, Copy, PartialEq, Eq)]
pub struct DigitsSecond(pub u8);

/// The hundredths of a second of a precise date, written as two ASCII digits.
#[derive(Debug, Clone, Copy, PartialEq, Eq)]
pub struct DigitsHundreths(pub u8);

/// Years since 1900, in one byte.
#[derive(Debug, Clone, Copy, PartialEq, Eq)]
pub struct NumericalYear(pub u8);

#[derive(Debug, Clone, Copy, PartialEq, Eq)]
pub struct NumericalMonth(pub u8);

#[derive(Debug, Clone, Copy, PartialEq, Eq)]
pub struct NumericalDay(pub u8);

#[derive(Debug, Clone, Copy, PartialEq, Eq)]
pub struct NumericalHour(pub u8);

#[derive(Debug, Clone, Copy, PartialEq, Eq)]
pub struct NumericalMinute(pub u8);

#[derive(Debug, Clone, Copy, PartialEq, Eq)]
pub struct NumericalSecond(pub u8);

/// Offset from Greenwich Mean Time in steps of 15 minutes, as a signed byte.
#[derive(Debug, Clone, Copy, PartialEq, Eq)]
pub struct NumericalGmtOffset(pub i8);

impl NumericalGmtOffset {
    /// The byte that holds the offset in two's complement.
    pub open spec fn spec_to_u8(self) -> u8 {
        if self.0 >= 0 {
            self.0 as u8
        } else {
            (self.0 + 256) as u8
        }
    }

    /// The offset that the byte `b` holds in two's complement.
    pub open spec fn spec_from_u8(b: u8) -> Self {
        if b < 128 {
            NumericalGmtOffset(b as i8)
        } else {
            NumericalGmtOffset((b - 256) as i8)
        }
    }

    pub fn to_u8(self) -> (b: u8)
        ensures
            b == self.spec_to_u8(),
    {
        if self.0 >= 0 {
            self.0 as u8
        } else {
            (self.0 as i16 + 256) as u8
        }
    }

    pub fn from_u8(b: u8) -> (r: Self)
        ensures
            r == Self::spec_from_u8(b),
            r.spec_to_u8() == b,
    {
        if b < 128 {
            NumericalGmtOffset(b as i8)
        } else {
            NumericalGmtOffset((b as i16 - 256) as i8)
        }
    }

    /// Reading the byte of an offset gives the offset back.
    pub proof fn lemma_round_trip(self)
        ensures
            Self::spec_from_u8(self.spec_to_u8()) == self,
    {
    }
}

/// A precise date: 16 ASCII digits "YYYYMMDDHHMMSSCC" and a signed byte for the
/// offset from Greenwich Mean Time. All digits zero and offset zero means that
/// no date is given.
#[derive(Debug, Clone, Copy, PartialEq, Eq)]
pub struct DigitsDate {
    pub year: DigitsYear,
    pub month: DigitsMonth,
    pub day: DigitsDay,
    pub hour: DigitsHour,
    pub minute: DigitsMinute,
    pub second: DigitsSecond,
    pub hundreths: DigitsHundreths,
    pub gmt_offset: NumericalGmtOffset,
}

impl DigitsDate {
    /// Every field fits the digits that it is written in.
    pub open spec fn wf(&self) -> bool {
        &&& self.year.0 <= 9999
        &&& self.month.0 <= 99
        &&& self.day.0 <= 99
        &&& self.hour.0 <= 99
        &&& self.minute.0 <= 99
        &&& self.second.0 <= 99
        &&& self.hundreths.0 <= 99
    }

    /// The date that stands for "no date given".
    pub fn unspecified() -> (r: Self)
        ensures
            r.wf(),
            r == (DigitsDate {
                year: DigitsYear(0),
                month: DigitsMonth(0),
                day: DigitsDay(0),
                hour: DigitsHour(0),
                minute: DigitsMinute(0),
                second: DigitsSecond(0),
                hundreths: DigitsHundreths(0),
                gmt_offset: NumericalGmtOffset(0),
            }),
    {
        DigitsDate {
            year: DigitsYear(0),
            month: DigitsMonth(0),
            day: DigitsDay(0),
            hour: DigitsHour(0),
            minute: DigitsMinute(0),
            second: DigitsSecond(0),
            hundreths: DigitsHundreths(0),
            gmt_offset: NumericalGmtOffset(0),
        }
    }
}

/// A numerical date: seven bytes, the first counting years from 1900, the last
/// a signed offset from Greenwich Mean Time in steps of 15 minutes.
#[derive(Debug, Clone, Copy, PartialEq, Eq)]
pub struct NumericalDate {
    pub years_since_1900: NumericalYear,
    pub month: NumericalMonth,
    pub day: NumericalDay,
    pub hour: NumericalHour,
    pub minute: NumericalMinute,
    pub second: NumericalSecond,
    pub gmt_offset: NumericalGmtOffset,
}

/// What a record needs of the identifier that it holds: how many bytes the
/// identifier may take, which bytes stand for it, and which identifier given
/// bytes stand for. NoExtension and Joliet differ in nothing else.
pub trait Identifier: Sized + Copy {
    /// The most bytes that an identifier takes on disk.
    spec fn spec_capacity() -> nat;

    /// The first `len` bytes of the identifier on disk.
    spec fn spec_encode(&self, len: nat) -> Seq<u8>;

    /// The identifier that `bytes` stand for.
    spec fn spec_decode(bytes: Seq<u8>) -> Self;

    /// Whether an identifier can have `len` bytes.
    spec fn spec_valid_len(len: nat) -> bool;

    /// `len` is a length that the identifier can have, and what the value
    /// holds beyond `len` bytes is zero.
    spec fn spec_canonical(&self, len: nat) -> bool;

    proof fn lemma_encode_len(&self, len: nat)
        ensures
            self.spec_encode(len).len() == len,
    ;

    proof fn lemma_decode_encode(&self, len: nat)
        requires
            self.spec_canonical(len),
        ensures
            Self::spec_valid_len(len),
            Self::spec_decode(self.spec_encode(len)) == *self,
    ;

    proof fn lemma_valid_len(len: nat)
        requires
            Self::spec_valid_len(len),
        ensures
            1 <= len <= Self::spec_capacity(),
    ;

    proof fn lemma_take(bytes: Seq<u8>)
        requires
            Self::spec_valid_len(bytes.len()),
        ensures
            Self::spec_decode(bytes).spec_canonical(bytes.len()),
            Self::spec_decode(bytes).spec_encode(bytes.len()) == bytes,
    ;

    /// The name that the first `len` bytes of the identifier spell.
    spec fn spec_text(&self, len: nat) -> Seq<char>;

    fn capacity() -> (r: usize)
        ensures
            r == Self::spec_capacity(),
    ;

    fn valid_len(len: usize) -> (r: bool)
        ensures
            r == Self::spec_valid_len(len as nat),
            r ==> 1 <= len <= Self::spec_capacity(),
    ;

    /// Spells out the first `len` bytes of the identifier.
    fn text(&self, len: usize) -> (r: String)
        requires
            len <= Self::spec_capacity(),
        ensures
            r@ == self.spec_text(len as nat),
    ;

    /// Writes the first `len` bytes of the identifier at `at` and returns the
    /// position after them.
    fn put(&self, out: &mut [u8], at: usize, len: usize) -> (end: usize)
        requires
            len <= Self::spec_capacity(),
            at + len <= old(out)@.len(),
        ensures
            end == at + len,
            final(out)@.len() == old(out)@.len(),
            final(out)@.subrange(0, end as int) == old(out)@.subrange(0, at as int)
                + self.spec_encode(len as nat),
            forall|i: int| end <= i < old(out)@.len() ==> final(out)@[i] == old(out)@[i],
    ;

    /// Reads the identifier that the `len` bytes at `at` stand for.
    fn take(input: &[u8], at: usize, len: usize) -> (r: Self)
        requires
            len <= Self::spec_capacity(),
            at + len <= input@.len(),
        ensures
            r == Self::spec_decode(input@.subrange(at as int, at + len)),
            Self::spec_valid_len(len as nat) ==> r.spec_canonical(len as nat) && r.spec_encode(
                len as nat,
            ) == input@.subrange(at as int, at + len),
    ;
}

impl<const LENGTH: usize> Identifier for FileIdentifier<LENGTH> {
    open spec fn spec_capacity() -> nat {
        LENGTH as nat
    }

    open spec fn spec_encode(&self, len: nat) -> Seq<u8> {
        fit(self.0@, len, 0)
    }

    open spec fn spec_decode(bytes: Seq<u8>) -> Self {
        FileIdentifier(array_of::<LENGTH>(fit(bytes, LENGTH as nat, 0)))
    }

    open spec fn spec_valid_len(len: nat) -> bool {
        1 <= len <= LENGTH
    }

    open spec fn spec_canonical(&self, len: nat) -> bool {
        1 <= len <= LENGTH && forall|i: int| len <= i < LENGTH ==> self.0@[i] == 0
    }

    proof fn lemma_encode_len(&self, len: nat) {
    }

    proof fn lemma_valid_len(len: nat) {
    }

    proof fn lemma_take(bytes: Seq<u8>) {
        let s = fit(bytes, LENGTH as nat, 0);
        crate::bytes::lemma_array_of_view::<LENGTH>(s);
        assert(Self::spec_decode(bytes).spec_encode(bytes.len()) =~= bytes);
    }

    proof fn lemma_decode_encode(&self, len: nat) {
        assert(fit(self.spec_encode(len), LENGTH as nat, 0) =~= self.0@);
        lemma_array_of::<LENGTH>(self.0);
    }

    open spec fn spec_text(&self, len: nat) -> Seq<char> {
        utf8_lossy(self.spec_encode(len))
    }

    fn capacity() -> (r: usize) {
        LENGTH
    }

    fn valid_len(len: usize) -> (r: bool) {
        1 <= len && len <= LENGTH
    }

    fn text(&self, len: usize) -> (r: String) {
        assert(self.0@.subrange(0, len as int) =~= fit(self.0@, len as nat, 0));
        from_utf8_lossy(slice_subrange(self.0.as_slice(), 0, len))
    }

    fn put(&self, out: &mut [u8], at: usize, len: usize) -> (end: usize) {
        assert(self.0@.subrange(0, len as int) =~= fit(self.0@, len as nat, 0));
        put_bytes(out, at, slice_subrange(self.0.as_slice(), 0, len))
    }

    fn take(input: &[u8], at: usize, len: usize) -> (r: Self) {
        let total = input.len();
        let r = FileIdentifier(fitted::<LENGTH>(slice_subrange(input, at, at + len), 0));
        proof {
            lemma_array_of::<LENGTH>(r.0);
            assert(r.spec_encode(len as nat) =~= input@.subrange(at as int, at + len));
        }
        r
    }
}

impl<const LENGTH: usize> Identifier for DirectoryIdentifier<LENGTH> {
    open spec fn spec_capacity() -> nat {
        LENGTH as nat
    }

    open spec fn spec_encode(&self, len: nat) -> Seq<u8> {
        fit(self.0@, len, 0)
    }

    open spec fn spec_decode(bytes: Seq<u8>) -> Self {
        DirectoryIdentifier(array_of::<LENGTH>(fit(bytes, LENGTH as nat, 0)))
    }

    open spec fn spec_valid_len(len: nat) -> bool {
        1 <= len <= LENGTH
    }

    open spec fn spec_canonical(&self, len: nat) -> bool {
        1 <= len <= LENGTH && forall|i: int| len <= i < LENGTH ==> self.0@[i] == 0
    }

    proof fn lemma_encode_len(&self, len: nat) {
    }

    proof fn lemma_valid_len(len: nat) {
    }

    proof fn lemma_take(bytes: Seq<u8>) {
        let s = fit(bytes, LENGTH as nat, 0);
        crate::bytes::lemma_array_of_view::<LENGTH>(s);
        assert(Self::spec_decode(bytes).spec_encode(bytes.len()) =~= bytes);
    }

    proof fn lemma_decode_encode(&self, len: nat) {
        assert(fit(self.spec_encode(len), LENGTH as nat, 0) =~= self.0@);
        lemma_array_of::<LENGTH>(self.0);
    }

    open spec fn spec_text(&self, len: nat) -> Seq<char> {
        utf8_lossy(self.spec_encode(len))
    }

    fn capacity() -> (r: usize) {
        LENGTH
    }

    fn valid_len(len: usize) -> (r: bool) {
        1 <= len && len <= LENGTH
    }

    fn text(&self, len: usize) -> (r: String) {
        assert(self.0@.subrange(0, len as int) =~= fit(self.0@, len as nat, 0));
        from_utf8_lossy(slice_subrange(self.0.as_slice(), 0, len))
    }

    fn put(&self, out: &mut [u8], at: usize, len: usize) -> (end: usize) {
        assert(self.0@.subrange(0, len as int) =~= fit(self.0@, len as nat, 0));
        put_bytes(out, at, slice_subrange(self.0.as_slice(), 0, len))
    }

    fn take(input: &[u8], at: usize, len: usize) -> (r: Self) {
        let total = input.len();
        let r = DirectoryIdentifier(fitted::<LENGTH>(slice_subrange(input, at, at + len), 0));
        proof {
            lemma_array_of::<LENGTH>(r.0);
            assert(r.spec_encode(len as nat) =~= input@.subrange(at as int, at + len));
        }
        r
    }
}

/// Writes the first `len` bytes of the big-endian form of `units` at `at`.
pub fn put_units_be(out: &mut [u8], at: usize, units: &[u16; 64], len: usize) -> (end: usize)
    requires
        len <= 128,
        at + len <= old(out)@.len(),
    ensures
        end == at + len,
        final(out)@.len() == old(out)@.len(),
        final(out)@.subrange(0, end as int) == old(out)@.subrange(0, at as int) + units_be(
            units@,
        ).subrange(0, len as int),
        forall|i: int| end <= i < old(out)@.len() ==> final(out)@[i] == old(out)@[i],
{
    let total = out.len();
    let mut i: usize = 0;
    while i < len
        invariant
            i <= len,
            len <= 128,
            total == out@.len(),
            at + len <= out@.len(),
            out@.len() == old(out)@.len(),
            forall|j: int| 0 <= j < at ==> out@[j] == old(out)@[j],
            forall|j: int| at <= j < at + i ==> out@[j] == units_be(units@)[j - at],
            forall|j: int| at + i <= j < out@.len() ==> out@[j] == old(out)@[j],
        decreases len - i,
    {
        let u = units[i / 2];
        if i % 2 == 0 {
            out[at + i] = (u / 256) as u8;
        } else {
            out[at + i] = (u % 256) as u8;
        }
        i += 1;
    }
    assert(out@.subrange(0, at + len) =~= old(out)@.subrange(0, at as int) + units_be(
        units@,
    ).subrange(0, len as int));
    at + len
}

/// Reads the code units that the `len` bytes at `at` hold big-endian, padded
/// with zero to 64 units.
pub fn take_units_be(input: &[u8], at: usize, len: usize) -> (r: [u16; 64])
    requires
        len <= 128,
        at + len <= input@.len(),
    ensures
        r@ == fit_units(units_from_be(input@.subrange(at as int, at + len)), 64, 0),
{
    let ghost bytes = input@.subrange(at as int, at + len);
    let total = input.len();
    let mut r: [u16; 64] = [0u16; 64];
    let n = len / 2;
    let mut i: usize = 0;
    while i < n
        invariant
            i <= n,
            n == len / 2,
            len <= 128,
            total == input@.len(),
            at + len <= input@.len(),
            bytes == input@.subrange(at as int, at + len),
            forall|j: int| 0 <= j < i ==> r@[j] == units_from_be(bytes)[j],
            forall|j: int| i <= j < 64 ==> r@[j] == 0,
        decreases n - i,
    {
        let pair = slice_subrange(input, at + 2 * i, at + 2 * i + 2);
        let u = read_u16_be(pair);
        assert(pair@[0] == bytes[2 * i] && pair@[1] == bytes[2 * i + 1]);
        r[i] = u;
        i += 1;
    }
    assert(r@ =~= fit_units(units_from_be(bytes), 64, 0));
    r
}

/// Taking the first `len` bytes of the big-endian form of code units that are
/// zero from `len / 2` on, reading them back and padding with zero gives the
/// code units.
pub proof fn lemma_units_prefix_round_trip(units: Seq<u16>, len: nat)
    requires
        units.len() == 64,
        len % 2 == 0,
        len <= 128,
        forall|i: int| len / 2 <= i < 64 ==> units[i] == 0,
    ensures
        fit_units(units_from_be(units_be(units).subrange(0, len as int)), 64, 0) == units,
{
    let b = units_be(units).subrange(0, len as int);
    let d = units_from_be(b);
    assert forall|i: int| 0 <= i < len / 2 implies d[i] == units[i] by {
        assert(b[2 * i] == units_be(units)[2 * i]);
        assert(b[2 * i + 1] == units_be(units)[2 * i + 1]);
    }
    assert(fit_units(d, 64, 0) =~= units);
}

/// The bytes that code units were read from are the big-endian form of the
/// code units, where the bytes are even in number.
pub proof fn lemma_units_from_bytes(bytes: Seq<u8>)
    requires
        bytes.len() % 2 == 0,
        bytes.len() <= 128,
    ensures
        units_be(fit_units(units_from_be(bytes), 64, 0)).subrange(0, bytes.len() as int) == bytes,
{
    let u = fit_units(units_from_be(bytes), 64, 0);
    let e = units_be(u).subrange(0, bytes.len() as int);
    assert forall|i: int| 0 <= i < bytes.len() implies e[i] == bytes[i] by {
        let k = i / 2;
        assert(u[k] == (256 * (bytes[2 * k] as int) + bytes[2 * k + 1] as int) as u16);
    }
    assert(e =~= bytes);
}

/// The code units that the bytes of a Joliet identifier stand for, padded
/// with zero to 64: a single byte stands for itself, as `.` and `..` do,
/// pairs of bytes for a code unit each.
pub open spec fn joliet_units(bytes: Seq<u8>) -> Seq<u16> {
    if bytes.len() == 1 {
        fit_units(seq![bytes[0] as u16], 64, 0)
    } else {
        fit_units(units_from_be(bytes), 64, 0)
    }
}

/// How many code units `len` bytes of a Joliet identifier hold.
pub open spec fn joliet_count(len: nat) -> int {
    if len == 1 {
        1
    } else {
        (len / 2) as int
    }
}

/// Reads the code units of the Joliet identifier in the `len` bytes at `at`.
pub fn take_joliet_units(input: &[u8], at: usize, len: usize) -> (r: [u16; 64])
    requires
        len <= 128,
        at + len <= input@.len(),
    ensures
        r@ == joliet_units(input@.subrange(at as int, at + len)),
{
    if len == 1 {
        let mut r: [u16; 64] = [0u16; 64];
        r[0] = input[at] as u16;
        assert(r@ =~= joliet_units(input@.subrange(at as int, at + len)));
        r
    } else {
        take_units_be(input, at, len)
    }
}

impl Identifier for JolietFileIdentifier {
    open spec fn spec_capacity() -> nat {
        128
    }

    /// The first `len` bytes of the code units, most significant byte first;
    /// of an identifier of one byte, which is how `.` and `..` are written,
    /// the low byte of the first code unit.
    open spec fn spec_encode(&self, len: nat) -> Seq<u8> {
        if len == 1 {
            seq![(self.0@[0] % 256) as u8]
        } else {
            fit(units_be(self.0@), len, 0)
        }
    }

    open spec fn spec_decode(bytes: Seq<u8>) -> Self {
        JolietFileIdentifier(units_of(joliet_units(bytes)))
    }

    open spec fn spec_valid_len(len: nat) -> bool {
        len == 1 || (len % 2 == 0 && 2 <= len <= 128)
    }

    open spec fn spec_canonical(&self, len: nat) -> bool {
        if len == 1 {
            self.0@[0] < 256 && forall|i: int| 1 <= i < 64 ==> self.0@[i] == 0
        } else {
            len % 2 == 0 && 2 <= len <= 128 && forall|i: int|
                len / 2 <= i < 64 ==> self.0@[i] == 0
        }
    }

    proof fn lemma_encode_len(&self, len: nat) {
    }

    proof fn lemma_valid_len(len: nat) {
    }

    proof fn lemma_take(bytes: Seq<u8>) {
        let units = joliet_units(bytes);
        crate::bytes::lemma_units_of_view(units);
        let r = Self::spec_decode(bytes);
        if bytes.len() == 1 {
            assert(r.spec_encode(1) =~= bytes);
        } else {
            lemma_units_from_bytes(bytes);
            assert(units_be(r.0@).subrange(0, bytes.len() as int) =~= fit(
                units_be(r.0@),
                bytes.len(),
                0,
            ));
        }
    }

    proof fn lemma_decode_encode(&self, len: nat) {
        if len == 1 {
            assert(joliet_units(self.spec_encode(len)) =~= self.0@);
        } else {
            assert(units_be(self.0@).subrange(0, len as int) =~= fit(units_be(self.0@), len, 0));
            lemma_units_prefix_round_trip(self.0@, len);
        }
        lemma_units_of(self.0);
    }

    /// The text of the code units that `len` bytes hold.
    open spec fn spec_text(&self, len: nat) -> Seq<char> {
        utf16_lossy(self.0@.subrange(0, joliet_count(len)))
    }

    fn capacity() -> (r: usize) {
        128
    }

    fn valid_len(len: usize) -> (r: bool) {
        len == 1 || (len % 2 == 0 && 2 <= len && len <= 128)
    }

    fn text(&self, len: usize) -> (r: String) {
        let count = if len == 1 {
            1
        } else {
            len / 2
        };
        from_utf16_lossy(slice_subrange(self.0.as_slice(), 0, count))
    }

    fn put(&self, out: &mut [u8], at: usize, len: usize) -> (end: usize) {
        if len == 1 {
            put_u8(out, at, (self.0[0] % 256) as u8)
        } else {
            assert(units_be(self.0@).subrange(0, len as int) =~= fit(
                units_be(self.0@),
                len as nat,
                0,
            ));
            put_units_be(out, at, &self.0, len)
        }
    }

    fn take(input: &[u8], at: usize, len: usize) -> (r: Self) {
        let r = JolietFileIdentifier(take_joliet_units(input, at, len));
        proof {
            lemma_units_of(r.0);
            let bytes = input@.subrange(at as int, at + len);
            if len == 1 {
                assert(r.spec_encode(1) =~= bytes);
            } else if len % 2 == 0 {
                lemma_units_from_bytes(bytes);
                assert(units_be(r.0@).subrange(0, len as int) =~= fit(
                    units_be(r.0@),
                    len as nat,
                    0,
                ));
            }
        }
        r
    }
}

impl Identifier for JolietDirectoryIdentifier {
    open spec fn spec_capacity() -> nat {
        128
    }

    /// The first `len` bytes of the code units, most significant byte first;
    /// of an identifier of one byte, which is how `.` and `..` are written,
    /// the low byte of the first code unit.
    open spec fn spec_encode(&self, len: nat) -> Seq<u8> {
        if len == 1 {
            seq![(self.0@[0] % 256) as u8]
        } else {
            fit(units_be(self.0@), len, 0)
        }
    }

    open spec fn spec_decode(bytes: Seq<u8>) -> Self {
        JolietDirectoryIdentifier(units_of(joliet_units(bytes)))
    }

    open spec fn spec_valid_len(len: nat) -> bool {
        len == 1 || (len % 2 == 0 && 2 <= len <= 128)
    }

    open spec fn spec_canonical(&self, len: nat) -> bool {
        if len == 1 {
            self.0@[0] < 256 && forall|i: int| 1 <= i < 64 ==> self.0@[i] == 0
        } else {
            len % 2 == 0 && 2 <= len <= 128 && forall|i: int|
                len / 2 <= i < 64 ==> self.0@[i] == 0
        }
    }

    proof fn lemma_encode_len(&self, len: nat) {
    }

    proof fn lemma_valid_len(len: nat) {
    }

    proof fn lemma_take(bytes: Seq<u8>) {
        let units = joliet_units(bytes);
        crate::bytes::lemma_units_of_view(units);
        let r = Self::spec_decode(bytes);
        if bytes.len() == 1 {
            assert(r.spec_encode(1) =~= bytes);
        } else {
            lemma_units_from_bytes(bytes);
            assert(units_be(r.0@).subrange(0, bytes.len() as int) =~= fit(
                units_be(r.0@),
                bytes.len(),
                0,
            ));
        }
    }

    proof fn lemma_decode_encode(&self, len: nat) {
        if len == 1 {
            assert(joliet_units(self.spec_encode(len)) =~= self.0@);
        } else {
            assert(units_be(self.0@).subrange(0, len as int) =~= fit(units_be(self.0@), len, 0));
            lemma_units_prefix_round_trip(self.0@, len);
        }
        lemma_units_of(self.0);
    }

    /// The text of the code units that `len` bytes hold.
    open spec fn spec_text(&self, len: nat) -> Seq<char> {
        utf16_lossy(self.0@.subrange(0, joliet_count(len)))
    }

    fn capacity() -> (r: usize) {
        128
    }

    fn valid_len(len: usize) -> (r: bool) {
        len == 1 || (len % 2 == 0 && 2 <= len && len <= 128)
    }

    fn text(&self, len: usize) -> (r: String) {
        let count = if len == 1 {
            1
        } else {
            len / 2
        };
        from_utf16_lossy(slice_subrange(self.0.as_slice(), 0, count))
    }

    fn put(&self, out: &mut [u8], at: usize, len: usize) -> (end: usize) {
        if len == 1 {
            put_u8(out, at, (self.0[0] % 256) as u8)
        } else {
            assert(units_be(self.0@).subrange(0, len as int) =~= fit(
                units_be(self.0@),
                len as nat,
                0,
            ));
            put_units_be(out, at, &self.0, len)
        }
    }

    fn take(input: &[u8], at: usize, len: usize) -> (r: Self) {
        let r = JolietDirectoryIdentifier(take_joliet_units(input, at, len));
        proof {
            lemma_units_of(r.0);
            let bytes = input@.subrange(at as int, at + len);
            if len == 1 {
                assert(r.spec_encode(1) =~= bytes);
            } else if len % 2 == 0 {
                lemma_units_from_bytes(bytes);
                assert(units_be(r.0@).subrange(0, len as int) =~= fit(
                    units_be(r.0@),
                    len as nat,
                    0,
                ));
            }
        }
        r
    }
}

/// Which identifiers the records of a volume hold.
pub trait Extension {
    type FileIdentifier: Identifier;

    type DirectoryIdentifier: Identifier;
}

/// Plain ISO 9660: identifiers of 8-bit characters.
#[derive(Debug, Clone, Copy, PartialEq, Eq)]
pub struct NoExtension;

impl Extension for NoExtension {
    type FileIdentifier = FileIdentifier<32>;

    type DirectoryIdentifier = DirectoryIdentifier<31>;
}

/// The three levels of UCS-2 that Joliet knows.
#[derive(Debug, Clone, Copy, PartialEq, Eq)]
pub enum JolietLevel {
    Level1,
    Level2,
    Level3,
}

impl JolietLevel {
    /// The escape sequence that announces the level in a supplementary volume
    /// descriptor: `%/@`, `%/C` or `%/E`.
    pub open spec fn spec_escape(self) -> Seq<u8> {
        match self {
            JolietLevel::Level1 => seq![0x25u8, 0x2F, 0x40],
            JolietLevel::Level2 => seq![0x25u8, 0x2F, 0x43],
            JolietLevel::Level3 => seq![0x25u8, 0x2F, 0x45],
        }
    }

    /// The level that the first three bytes of `s` announce, if any.
    pub open spec fn spec_from_escape(s: Seq<u8>) -> Option<Self> {
        if s.len() >= 3 && s[0] == 0x25 && s[1] == 0x2F {
            if s[2] == 0x40 {
                Some(JolietLevel::Level1)
            } else if s[2] == 0x43 {
                Some(JolietLevel::Level2)
            } else if s[2] == 0x45 {
                Some(JolietLevel::Level3)
            } else {
                None
            }
        } else {
            None
        }
    }

    pub fn escape(self) -> (r: [u8; 3])
        ensures
            r@ == self.spec_escape(),
    {
        let r: [u8; 3] = match self {
            JolietLevel::Level1 => [0x25, 0x2F, 0x40],
            JolietLevel::Level2 => [0x25, 0x2F, 0x43],
            JolietLevel::Level3 => [0x25, 0x2F, 0x45],
        };
        assert(r@ =~= self.spec_escape());
        r
    }

    pub fn from_escape(s: &[u8]) -> (r: Option<Self>)
        ensures
            r == Self::spec_from_escape(s@),
    {
        if s.len() >= 3 && s[0] == 0x25 && s[1] == 0x2F {
            if s[2] == 0x40 {
                Some(JolietLevel::Level1)
            } else if s[2] == 0x43 {
                Some(JolietLevel::Level2)
            } else if s[2] == 0x45 {
                Some(JolietLevel::Level3)
            } else {
                None
            }
        } else {
            None
        }
    }
}

/// Microsoft's Joliet: identifiers of UCS-2 code units, big-endian.
#[derive(Debug, Clone, Copy, PartialEq, Eq)]
pub struct JolietExtension {
    pub level: JolietLevel,
}

impl Extension for JolietExtension {
    type FileIdentifier = JolietFileIdentifier;

    type DirectoryIdentifier = JolietDirectoryIdentifier;
}

/// The directory record of the root directory as a volume descriptor holds
/// it: a directory record of 34 bytes whose identifier is the single byte 0.
#[derive(Debug, Clone, Copy, PartialEq, Eq)]
pub struct RootDirectoryRecord {
    pub extent_location: u32,
    pub data_length: u32,
    pub recording_date: NumericalDate,
    pub file_flags: FileFlags,
    pub file_unit_size: u8,
    pub interleave_gap_size: u8,
    pub volume_sequence_number: u16,
}

/// A directory record: 33 bytes, the identifier, and one padding byte where
/// that makes the length even.
pub struct DirectoryRecord<Ext: Extension> {
    pub length: u8,
    pub extended_attribute_length: u8,
    pub extent_location: u32,
    pub data_length: u32,
    pub recording_date: NumericalDate,
    pub file_flags: FileFlags,
    pub file_unit_size: u8,
    pub interleave_gap_size: u8,
    pub volume_sequence_number: u16,
    pub file_identifier_length: u8,
    pub file_identifier: Ext::FileIdentifier,
}

/// A record of a path table. The table it stands in decides the byte order of
/// its numbers: little-endian in a type L table, big-endian in a type M table.
pub struct PathTableRecord<Ext: Extension> {
    pub directory_identifier_length: u8,
    pub extended_attribute_length: u8,
    pub extent_location: u32,
    pub parent_directory_number: u16,
    pub directory_identifier: Ext::DirectoryIdentifier,
}

/// The extended attribute record that may precede the data of a file.
#[derive(Debug, Clone, PartialEq, Eq)]
pub struct ExtendedAttributeRecord {
    pub owner_identification: OwnerIdentification,
    pub group_identification: GroupIdentification,
    pub permissions: Permissions,
    pub file_creation_date: DigitsDate,
    pub file_modification_date: DigitsDate,
    pub file_expiration_date: DigitsDate,
    pub file_effective_date: DigitsDate,
    pub record_format: RecordFormat,
    pub record_attributes: RecordAttributes,
    pub extended_attribute_record_version: ExtendedAttributeRecordVersion,
    pub application_use: Vec<u8>,
    pub escape_sequences: VariadicEscapeSequences,
}

/// The primary volume descriptor.
#[derive(Debug, Clone, Copy, PartialEq, Eq)]
pub struct PrimaryVolumeDescriptor {
    pub standard_identifier: StandardIdentifier,
    pub version: VolumeDescriptorVersion,
    pub system_identifier: ACharacters<32>,
    pub volume_identifier: DCharacters<32>,
    pub volume_space_size: u32,
    pub volume_set_size: u16,
    pub volume_sequence_number: u16,
    pub logical_block_size: u16,
    pub path_table_size: u32,
    pub type_l_path_table_location: u32,
    pub optional_type_l_path_table_location: u32,
    pub type_m_path_table_location: u32,
    pub optional_type_m_path_table_location: u32,
    pub root_directory_record: RootDirectoryRecord,
    pub volume_set_identifier: DCharacters<128>,
    pub publisher_identifier: ACharacters<128>,
    pub data_preparer_identifier: ACharacters<128>,
    pub application_identifier: ACharacters<128>,
    pub copyright_file_identifier: DCharacters<37>,
    pub abstract_file_identifier: DCharacters<37>,
    pub bibliographic_file_identifier: DCharacters<37>,
    pub creation_date: DigitsDate,
    pub modification_date: DigitsDate,
    pub expiration_date: DigitsDate,
    pub effective_date: DigitsDate,
    pub file_structure_version: FileStructureVersion,
    pub application_use: [u8; 512],
}

/// A supplementary volume descriptor: a primary one whose character fields
/// are in the coded character set that its escape sequences name.
#[derive(Debug, Clone, Copy, PartialEq, Eq)]
pub struct SupplementaryVolumeDescriptor {
    pub standard_identifier: StandardIdentifier,
    pub version: VolumeDescriptorVersion,
    pub volume_flags: VolumeFlags,
    pub system_identifier: A1Characters<32>,
    pub volume_identifier: D1Characters<32>,
    pub volume_space_size: u32,
    pub escape_sequences: EscapeSequences<32>,
    pub volume_set_size: u16,
    pub volume_sequence_number: u16,
    pub logical_block_size: u16,
    pub path_table_size: u32,
    pub type_l_path_table_location: u32,
    pub optional_type_l_path_table_location: u32,
    pub type_m_path_table_location: u32,
    pub optional_type_m_path_table_location: u32,
    pub root_directory_record: RootDirectoryRecord,
    pub volume_set_identifier: D1Characters<128>,
    pub publisher_identifier: A1Characters<128>,
    pub data_preparer_identifier: A1Characters<128>,
    pub application_identifier: A1Characters<128>,
    pub copyright_file_identifier: D1Characters<37>,
    pub abstract_file_identifier: D1Characters<37>,
    pub bibliographic_file_identifier: D1Characters<37>,
    pub creation_date: DigitsDate,
    pub modification_date: DigitsDate,
    pub expiration_date: DigitsDate,
    pub effective_date: DigitsDate,
    pub file_structure_version: FileStructureVersion,
    pub application_use: [u8; 512],
}

/// A volume partition descriptor.
#[derive(Debug, Clone, Copy, PartialEq, Eq)]
pub struct VolumePartitionDescriptor {
    pub standard_identifier: StandardIdentifier,
    pub version: VolumeDescriptorVersion,
    pub system_identifier: ACharacters<32>,
    pub volume_partition_identifier: DCharacters<32>,
    pub volume_partition_location: u32,
    pub volume_partition_size: u32,
}

/// The descriptor that ends the set of volume descriptors.
#[derive(Debug, Clone, Copy, PartialEq, Eq)]
pub struct VolumeDescriptorSetTerminator;

/// The name of the maker of the disc in an El Torito validation entry.
#[derive(Debug, Clone, Copy, PartialEq, Eq)]
pub struct ElToritoManufacturerId(pub [u8; 24]);

/// The media type byte of an El Torito initial entry, taken as it is.
#[derive(Debug, Clone, Copy, PartialEq, Eq)]
pub struct ElToritoBootMediaType(pub u8);

/// The media type byte of an El Torito section entry, taken apart.
#[derive(Debug, Clone, Copy, PartialEq, Eq)]
pub struct ElToritoBootMediaTypeExt {
    pub emulation_type: ElToritoEmulationType,
    pub continuation_entry_follows: bool,
    pub contains_atapi_driver: bool,
    pub contains_scsi_drivers: bool,
}

/// The name of a section in an El Torito section header.
#[derive(Debug, Clone, Copy, PartialEq, Eq)]
pub struct ElToritoSectionId(pub [u8; 16]);

/// The initial (default) entry of an El Torito boot catalog.
#[derive(Debug, Clone, Copy, PartialEq, Eq)]
pub struct ElToritoInitialSectionEntry {
    pub boot_indicator: ElToritoBootIndicator,
    pub boot_media_type: ElToritoBootMediaType,
    pub load_segment: u16,
    pub system_type: u8,
    pub sector_count: u16,
    pub virtual_disk_location: u32,
}

/// A section header of an El Torito boot catalog.
#[derive(Debug, Clone, Copy, PartialEq, Eq)]
pub struct ElToritoSectionHeaderEntry {
    pub header_indicator: ElToritoHeaderIndicator,
    pub platform_id: ElToritoPlatformId,
    pub succeeding_section_entries: u16,
    pub section_id: ElToritoSectionId,
}

/// The validation entry that opens an El Torito boot catalog.
#[derive(Debug, Clone, Copy, PartialEq, Eq)]
pub struct ElToritoValidationEntry {
    pub header_id: ElToritoHeaderId,
    pub platform_id: ElToritoPlatformId,
    pub manufacturer_id: ElToritoManufacturerId,
    pub checksum: u16,
}

/// A section entry of an El Torito boot catalog.
#[derive(Debug, Clone, Copy, PartialEq, Eq)]
pub struct ElToritoSectionEntry {
    pub boot_indicator: ElToritoBootIndicator,
    pub boot_media_type: ElToritoBootMediaTypeExt,
    pub load_segment: u16,
    pub system_type: u8,
    pub sector_count: u16,
    pub virtual_disk_location: u32,
    pub selection_criteria_type: ElToritoSelectionCriteriaType,
    pub vendor_selection_criteria: [u8; 19],
}

/// An extension of an El Torito section entry.
#[derive(Debug, Clone, Copy, PartialEq, Eq)]
pub struct ElToritoSectionEntryExtension {
    pub extension_record_follows_indicator: ElToritoExtensionRecordFollowsIndicator,
    pub vendor_unique_selection_criteria: [u8; 30],
}

/// The short extension of a section entry: with 29 bytes of selection
/// criteria, one fewer than `ElToritoSectionEntryExtension` holds.
#[derive(Debug, Clone, Copy, PartialEq, Eq)]
pub struct ElToritoSelectionEntryExtension {
    pub extension_record_follows_indicator: ElToritoExtensionRecordFollowsIndicator,
    pub vendor_unique_selection_criteria: [u8; 29],
}

/// The boot record volume descriptor of El Torito: it says where the boot
/// catalog is.
#[derive(Debug, Clone, Copy, PartialEq, Eq)]
pub struct ElToritoBootRecordVolumeDescriptor {
    pub standard_identifier: StandardIdentifier,
    pub version: VolumeDescriptorVersion,
    pub boot_catalog_pointer: u32,
}

} // verus!
