//! Reading values back: which value given bytes stand for, and what is left
//! of the input after it.

use crate::bytes::{
    array_of, get_u16_le, get_u32_be, get_u32_le, lemma_array_of, lemma_u16_both_agree,
    lemma_u32_both_agree, lemma_u32_round_trip, take_array, u16_both, u16_from_le, u32_be,
    u32_both, u32_from_be, u32_from_le, u32_le, zeros,
};
use crate::serialize::{
    digits2, digits4, el_torito_specification, lemma_digits_len, record_extent, IsoSerialize,
};
use crate::spec::{
    cd001, A1Characters, ACharacters, D1Characters, DCharacters, DigitsDate, DigitsDay,
    DigitsHour, DigitsHundreths, DigitsMinute, DigitsMonth, DigitsSecond, DigitsYear,
    DirectoryRecord, ElToritoBootIndicator, ElToritoBootMediaType, ElToritoBootMediaTypeExt,
    ElToritoBootRecordVolumeDescriptor, ElToritoExtensionRecordFollowsIndicator,
    ElToritoHeaderId, ElToritoHeaderIndicator, ElToritoInitialSectionEntry,
    ElToritoManufacturerId, ElToritoPlatformId, ElToritoSectionEntry,
    ElToritoSectionEntryExtension, ElToritoSectionHeaderEntry, ElToritoSectionId,
    ElToritoSelectionCriteriaType, ElToritoValidationEntry, EscapeSequences, Extension,
    FileFlags, FileStructureVersion, Identifier, NumericalDate, NumericalDay,
    NumericalGmtOffset, NumericalHour, NumericalMinute, NumericalMonth, NumericalSecond,
    NumericalYear, PrimaryVolumeDescriptor, RootDirectoryRecord, StandardIdentifier,
    SupplementaryVolumeDescriptor, VolumeDescriptorSetTerminator, VolumeDescriptorVersion,
    VolumeFlags, VolumePartitionDescriptor,
};
use vstd::prelude::*;
use vstd::slice::slice_subrange;

verus! {

/// Why bytes could not be read as a value.
#[derive(Debug, Clone, Copy, PartialEq, Eq)]
pub enum IsoParseError {
    /// The input has `got` bytes where the value named by `when` takes `expected`.
    InputTooSmall { expected: usize, got: usize, when: &'static str },
    /// The byte `value` at `at` is none that may stand there.
    UnknownTag { at: usize, value: u8 },
    /// The byte at `offset` of `field` breaks the rule of that field.
    BadCharacter { field: &'static str, offset: usize },
}

/// A value that can be read from the front of a run of bytes.
pub trait IsoParse: Sized {
    /// The value at the front of `input` and how many bytes it takes, or why
    /// there is none.
    spec fn spec_parse(input: Seq<u8>) -> Result<(Self, int), IsoParseError>;

    /// Reads the value at the front of `input` and returns it with the rest
    /// of the input.
    fn parse(input: &[u8]) -> (r: Result<(Self, &[u8]), IsoParseError>)
        ensures
            match Self::spec_parse(input@) {
                Ok((value, taken)) => r is Ok && r.unwrap().0 == value && 0 <= taken
                    <= input@.len() && r.unwrap().1@ == input@.skip(taken),
                Err(e) => r == Err::<(Self, &[u8]), IsoParseError>(e),
            },
    ;
}

/// Whether `b` is an ASCII digit.
pub open spec fn is_digit(b: u8) -> bool {
    48 <= b <= 57
}

/// The position of the first byte of `s` that is no ASCII digit, if there is one.
pub open spec fn first_non_digit(s: Seq<u8>) -> Option<int> {
    if forall|i: int| 0 <= i < s.len() ==> is_digit(#[trigger] s[i]) {
        None
    } else {
        Some(
            choose|k: int|
                0 <= k < s.len() && !is_digit(s[k]) && forall|i: int|
                    0 <= i < k ==> is_digit(#[trigger] s[i]),
        )
    }
}

/// A first offender is the only position that is one: this is what makes
/// `first_non_digit` a function of the bytes.
pub proof fn lemma_first_non_digit(s: Seq<u8>, k: int)
    requires
        0 <= k < s.len(),
        !is_digit(s[k]),
        forall|i: int| 0 <= i < k ==> is_digit(#[trigger] s[i]),
    ensures
        first_non_digit(s) == Some(k),
{
    let c = choose|c: int|
        0 <= c < s.len() && !is_digit(s[c]) && forall|i: int|
            0 <= i < c ==> is_digit(#[trigger] s[i]);
    assert(!(c < k));
    assert(!(k < c));
}

/// Two runs of bytes that agree in their first `n` bytes agree in every range
/// below `n`.
pub proof fn lemma_same_range(s1: Seq<u8>, s2: Seq<u8>, n: int, from: int, to: int)
    requires
        0 <= from <= to <= n,
        n <= s1.len(),
        n <= s2.len(),
        s1.subrange(0, n) == s2.subrange(0, n),
    ensures
        s1.subrange(from, to) == s2.subrange(from, to),
        from < to ==> s1[from] == s2[from],
{
    assert forall|i: int| from <= i < to implies s1[i] == s2[i] by {
        assert(s1.subrange(0, n)[i] == s1[i]);
        assert(s2.subrange(0, n)[i] == s2[i]);
    }
    assert(s1.subrange(from, to) =~= s2.subrange(from, to));
}

/// The number that two ASCII digits stand for.
pub open spec fn number2(s: Seq<u8>) -> int {
    (s[0] - 48) * 10 + (s[1] - 48)
}

/// The number that four ASCII digits stand for.
pub open spec fn number4(s: Seq<u8>) -> int {
    number2(s.subrange(0, 2)) * 100 + number2(s.subrange(2, 4))
}

/// The digits of a number that fits them are digits, and stand for the number.
pub proof fn lemma_digits_round_trip(v: int)
    ensures
        0 <= v <= 99 ==> number2(digits2(v)) == v,
        0 <= v <= 9999 ==> number4(digits4(v)) == v,
        0 <= v ==> first_non_digit(digits2(v)) is None,
        0 <= v ==> first_non_digit(digits4(v)) is None,
{
    if 0 <= v {
        lemma_digits2(v);
        lemma_digits4(v);
    }
}

proof fn lemma_digits2(v: int)
    requires
        0 <= v,
    ensures
        v <= 99 ==> number2(digits2(v)) == v,
        first_non_digit(digits2(v)) is None,
{
    reveal(digits2);
    let s = digits2(v);
    let a = (v / 10) % 10;
    let b = v % 10;
    assert(s.len() == 2 && s[0] == 48 + a && s[1] == 48 + b);
    assert forall|i: int| 0 <= i < s.len() implies is_digit(#[trigger] s[i]) by {
        assert(i == 0 || i == 1);
    }
}

proof fn lemma_digits4(v: int)
    requires
        0 <= v,
    ensures
        v <= 9999 ==> number4(digits4(v)) == v,
        first_non_digit(digits4(v)) is None,
{
    let s = digits4(v);
    let hi = digits2(v / 100);
    let lo = digits2(v % 100);
    lemma_digits_len(v / 100);
    lemma_digits_len(v % 100);
    lemma_digits2(v / 100);
    lemma_digits2(v % 100);
    assert(s.subrange(0, 2) =~= hi);
    assert(s.subrange(2, 4) =~= lo);
    assert forall|i: int| 0 <= i < s.len() implies is_digit(#[trigger] s[i]) by {
        if i < 2 {
            assert(s[i] == hi[i]);
        } else {
            assert(s[i] == lo[i - 2]);
        }
    }
}

/// Finds the first byte of `input[from..to]` that is no ASCII digit.
pub fn find_non_digit(input: &[u8], from: usize, to: usize) -> (r: Option<usize>)
    requires
        from <= to <= input@.len(),
    ensures
        r is None <==> first_non_digit(input@.subrange(from as int, to as int)) is None,
        r is Some ==> first_non_digit(input@.subrange(from as int, to as int)) == Some(
            r.unwrap() as int,
        ) && r.unwrap() < to - from,
{
    let ghost s = input@.subrange(from as int, to as int);
    let mut i: usize = from;
    while i < to
        invariant
            from <= i <= to,
            to <= input@.len(),
            s == input@.subrange(from as int, to as int),
            forall|j: int| 0 <= j < i - from ==> is_digit(#[trigger] s[j]),
        decreases to - i,
    {
        let b = input[i];
        if !(48 <= b && b <= 57) {
            proof {
                assert(s[i - from] == b);
                lemma_first_non_digit(s, i - from);
            }
            return Some(i - from);
        }
        i += 1;
    }
    None
}

impl DigitsDate {
    /// The date that 17 bytes stand for, where the first 16 are digits.
    pub open spec fn spec_decode(s: Seq<u8>) -> Self {
        DigitsDate {
            year: DigitsYear(number4(s.subrange(0, 4)) as u16),
            month: DigitsMonth(number2(s.subrange(4, 6)) as u8),
            day: DigitsDay(number2(s.subrange(6, 8)) as u8),
            hour: DigitsHour(number2(s.subrange(8, 10)) as u8),
            minute: DigitsMinute(number2(s.subrange(10, 12)) as u8),
            second: DigitsSecond(number2(s.subrange(12, 14)) as u8),
            hundreths: DigitsHundreths(number2(s.subrange(14, 16)) as u8),
            gmt_offset: NumericalGmtOffset::spec_from_u8(s[16]),
        }
    }

    /// Reads the date in the 17 bytes at `at`, whose first 16 are known to be digits.
    pub fn take(input: &[u8], at: usize) -> (r: Self)
        requires
            at + 17 <= input@.len(),
            first_non_digit(input@.subrange(at as int, at + 16)) is None,
        ensures
            r == Self::spec_decode(input@.subrange(at as int, at + 17)),
            r.wf(),
    {
        let ghost s = input@.subrange(at as int, at + 17);
        let ghost d = input@.subrange(at as int, at + 16);
        let total = input.len();
        proof {
            assert(forall|i: int| 0 <= i < 16 ==> is_digit(#[trigger] d[i]));
            assert(d[0] == input@[at + 0] && d[1] == input@[at + 1] && d[2] == input@[at + 2]
                && d[3] == input@[at + 3]);
            assert(d[4] == input@[at + 4] && d[5] == input@[at + 5] && d[6] == input@[at + 6]
                && d[7] == input@[at + 7]);
            assert(d[8] == input@[at + 8] && d[9] == input@[at + 9] && d[10] == input@[at + 10]
                && d[11] == input@[at + 11]);
            assert(d[12] == input@[at + 12] && d[13] == input@[at + 13] && d[14] == input@[at
                + 14] && d[15] == input@[at + 15]);
            assert(forall|i: int| 0 <= i < 17 ==> s[i] == input@[at + i]);
            assert(s.subrange(0, 4).subrange(0, 2) =~= s.subrange(0, 2));
            assert(s.subrange(0, 4).subrange(2, 4) =~= s.subrange(2, 4));
        }
        let year: u16 = (input[at] - 48) as u16 * 1000 + (input[at + 1] - 48) as u16 * 100 + (
        input[at + 2] - 48) as u16 * 10 + (input[at + 3] - 48) as u16;
        let month: u8 = (input[at + 4] - 48) * 10 + (input[at + 5] - 48);
        let day: u8 = (input[at + 6] - 48) * 10 + (input[at + 7] - 48);
        let hour: u8 = (input[at + 8] - 48) * 10 + (input[at + 9] - 48);
        let minute: u8 = (input[at + 10] - 48) * 10 + (input[at + 11] - 48);
        let second: u8 = (input[at + 12] - 48) * 10 + (input[at + 13] - 48);
        let hundreths: u8 = (input[at + 14] - 48) * 10 + (input[at + 15] - 48);
        DigitsDate {
            year: DigitsYear(year),
            month: DigitsMonth(month),
            day: DigitsDay(day),
            hour: DigitsHour(hour),
            minute: DigitsMinute(minute),
            second: DigitsSecond(second),
            hundreths: DigitsHundreths(hundreths),
            gmt_offset: NumericalGmtOffset::from_u8(input[at + 16]),
        }
    }

    /// A date that fits its digits is written in digits, and reading them
    /// gives the date back.
    pub proof fn lemma_round_trip(&self)
        requires
            self.wf(),
        ensures
            self.spec_bytes().len() == 17,
            first_non_digit(self.spec_bytes().subrange(0, 16)) is None,
            Self::spec_decode(self.spec_bytes()) == *self,
    {
        let s = self.spec_bytes();
        self.lemma_pieces();
        lemma_digits_round_trip(self.year.0 as int);
        lemma_digits_round_trip(self.month.0 as int);
        lemma_digits_round_trip(self.day.0 as int);
        lemma_digits_round_trip(self.hour.0 as int);
        lemma_digits_round_trip(self.minute.0 as int);
        lemma_digits_round_trip(self.second.0 as int);
        lemma_digits_round_trip(self.hundreths.0 as int);
        assert(s.subrange(0, 4) =~= digits4(self.year.0 as int));
        assert(s.subrange(4, 6) =~= digits2(self.month.0 as int));
        assert(s.subrange(6, 8) =~= digits2(self.day.0 as int));
        assert(s.subrange(8, 10) =~= digits2(self.hour.0 as int));
        assert(s.subrange(10, 12) =~= digits2(self.minute.0 as int));
        assert(s.subrange(12, 14) =~= digits2(self.second.0 as int));
        assert(s.subrange(14, 16) =~= digits2(self.hundreths.0 as int));
        assert(s[16] == self.gmt_offset.spec_to_u8());
        self.gmt_offset.lemma_round_trip();
        let d = s.subrange(0, 16);
        assert forall|i: int| 0 <= i < 16 implies is_digit(#[trigger] d[i]) by {
            if i < 4 {
                assert(d[i] == s.subrange(0, 4)[i]);
            } else if i < 6 {
                assert(d[i] == s.subrange(4, 6)[i - 4]);
            } else if i < 8 {
                assert(d[i] == s.subrange(6, 8)[i - 6]);
            } else if i < 10 {
                assert(d[i] == s.subrange(8, 10)[i - 8]);
            } else if i < 12 {
                assert(d[i] == s.subrange(10, 12)[i - 10]);
            } else if i < 14 {
                assert(d[i] == s.subrange(12, 14)[i - 12]);
            } else {
                assert(d[i] == s.subrange(14, 16)[i - 14]);
            }
        }
    }
}

impl IsoParse for DigitsDate {
    open spec fn spec_parse(input: Seq<u8>) -> Result<(Self, int), IsoParseError> {
        if input.len() < 17 {
            Err(
                IsoParseError::InputTooSmall {
                    expected: 17,
                    got: input.len() as usize,
                    when: "DigitsDate",
                },
            )
        } else {
            match first_non_digit(input.subrange(0, 16)) {
                Some(k) => Err(IsoParseError::BadCharacter { field: "DigitsDate", offset: k as usize }),
                None => Ok((Self::spec_decode(input.subrange(0, 17)), 17)),
            }
        }
    }

    fn parse(input: &[u8]) -> (r: Result<(Self, &[u8]), IsoParseError>) {
        if input.len() < 17 {
            return Err(
                IsoParseError::InputTooSmall { expected: 17, got: input.len(), when: "DigitsDate" },
            );
        }
        if let Some(k) = find_non_digit(input, 0, 16) {
            return Err(IsoParseError::BadCharacter { field: "DigitsDate", offset: k });
        }
        let value = DigitsDate::take(input, 0);
        Ok((value, slice_subrange(input, 17, input.len())))
    }
}

impl NumericalDate {
    /// The date that seven bytes stand for.
    pub open spec fn spec_decode(s: Seq<u8>) -> Self {
        NumericalDate {
            years_since_1900: NumericalYear(s[0]),
            month: NumericalMonth(s[1]),
            day: NumericalDay(s[2]),
            hour: NumericalHour(s[3]),
            minute: NumericalMinute(s[4]),
            second: NumericalSecond(s[5]),
            gmt_offset: NumericalGmtOffset::spec_from_u8(s[6]),
        }
    }

    /// Reads the date in the seven bytes at `at`.
    pub fn take(input: &[u8], at: usize) -> (r: Self)
        requires
            at + 7 <= input@.len(),
        ensures
            r == Self::spec_decode(input@.subrange(at as int, at + 7)),
    {
        let total = input.len();
        NumericalDate {
            years_since_1900: NumericalYear(input[at]),
            month: NumericalMonth(input[at + 1]),
            day: NumericalDay(input[at + 2]),
            hour: NumericalHour(input[at + 3]),
            minute: NumericalMinute(input[at + 4]),
            second: NumericalSecond(input[at + 5]),
            gmt_offset: NumericalGmtOffset::from_u8(input[at + 6]),
        }
    }

    /// Reading the bytes of a date gives the date back.
    pub proof fn lemma_round_trip(&self)
        ensures
            self.spec_bytes().len() == 7,
            Self::spec_decode(self.spec_bytes()) == *self,
    {
        self.gmt_offset.lemma_round_trip();
    }
}

impl IsoParse for NumericalDate {
    open spec fn spec_parse(input: Seq<u8>) -> Result<(Self, int), IsoParseError> {
        if input.len() < 7 {
            Err(
                IsoParseError::InputTooSmall {
                    expected: 7,
                    got: input.len() as usize,
                    when: "NumericalDate",
                },
            )
        } else {
            Ok((Self::spec_decode(input.subrange(0, 7)), 7))
        }
    }

    fn parse(input: &[u8]) -> (r: Result<(Self, &[u8]), IsoParseError>) {
        if input.len() < 7 {
            return Err(
                IsoParseError::InputTooSmall {
                    expected: 7,
                    got: input.len(),
                    when: "NumericalDate",
                },
            );
        }
        let value = NumericalDate::take(input, 0);
        Ok((value, slice_subrange(input, 7, input.len())))
    }
}

impl RootDirectoryRecord {
    /// The record that 34 bytes stand for. Of each dual-endian number the
    /// little-endian copy counts; the two lengths and the identifier, which
    /// are the same in every root record, are not looked at.
    pub open spec fn spec_decode(s: Seq<u8>) -> Self {
        RootDirectoryRecord {
            extent_location: u32_from_le(s.subrange(2, 6)),
            data_length: u32_from_le(s.subrange(10, 14)),
            recording_date: NumericalDate::spec_decode(s.subrange(18, 25)),
            file_flags: FileFlags { bits: s[25] },
            file_unit_size: s[26],
            interleave_gap_size: s[27],
            volume_sequence_number: u16_from_le(s.subrange(28, 30)),
        }
    }

    /// Reads the record in the 34 bytes at `at`.
    pub fn take(input: &[u8], at: usize) -> (r: Self)
        requires
            at + 34 <= input@.len(),
        ensures
            r == Self::spec_decode(input@.subrange(at as int, at + 34)),
    {
        let ghost s = input@.subrange(at as int, at + 34);
        let total = input.len();
        proof {
            assert(s.subrange(2, 6) =~= input@.subrange(at + 2, at + 6));
            assert(s.subrange(10, 14) =~= input@.subrange(at + 10, at + 14));
            assert(s.subrange(18, 25) =~= input@.subrange(at + 18, at + 25));
            assert(s.subrange(28, 30) =~= input@.subrange(at + 28, at + 30));
        }
        RootDirectoryRecord {
            extent_location: get_u32_le(input, at + 2),
            data_length: get_u32_le(input, at + 10),
            recording_date: NumericalDate::take(input, at + 18),
            file_flags: FileFlags::from_bits(input[at + 25]),
            file_unit_size: input[at + 26],
            interleave_gap_size: input[at + 27],
            volume_sequence_number: get_u16_le(input, at + 28),
        }
    }

    /// Where the fields of a root record stand in its bytes.
    pub proof fn lemma_layout(&self)
        ensures
            self.spec_bytes().len() == 34,
            self.spec_bytes()[0] == 34,
            self.spec_bytes()[1] == 0,
            self.spec_bytes().subrange(2, 10) == u32_both(self.extent_location),
            self.spec_bytes().subrange(2, 6) == u32_le(self.extent_location),
            self.spec_bytes().subrange(6, 10) == u32_be(self.extent_location),
            self.spec_bytes().subrange(10, 18) == u32_both(self.data_length),
            self.spec_bytes().subrange(10, 14) == u32_le(self.data_length),
            self.spec_bytes().subrange(14, 18) == u32_be(self.data_length),
            self.spec_bytes().subrange(18, 25) == self.recording_date.spec_bytes(),
            self.spec_bytes()[25] == self.file_flags.bits,
            self.spec_bytes()[26] == self.file_unit_size,
            self.spec_bytes()[27] == self.interleave_gap_size,
            self.spec_bytes().subrange(28, 32) == u16_both(self.volume_sequence_number),
            self.spec_bytes().subrange(28, 30) == crate::bytes::u16_le(
                self.volume_sequence_number,
            ),
            self.spec_bytes().subrange(30, 32) == crate::bytes::u16_be(
                self.volume_sequence_number,
            ),
            self.spec_bytes()[32] == 1,
            self.spec_bytes()[33] == 0,
    {
        let s = self.spec_bytes();
        assert(s.subrange(2, 10) =~= u32_both(self.extent_location));
        assert(s.subrange(2, 6) =~= u32_le(self.extent_location));
        assert(s.subrange(6, 10) =~= u32_be(self.extent_location));
        assert(s.subrange(10, 18) =~= u32_both(self.data_length));
        assert(s.subrange(10, 14) =~= u32_le(self.data_length));
        assert(s.subrange(14, 18) =~= u32_be(self.data_length));
        assert(s.subrange(18, 25) =~= self.recording_date.spec_bytes());
        assert(s.subrange(28, 32) =~= u16_both(self.volume_sequence_number));
        assert(s.subrange(28, 30) =~= crate::bytes::u16_le(self.volume_sequence_number));
        assert(s.subrange(30, 32) =~= crate::bytes::u16_be(self.volume_sequence_number));
    }

    /// Reading the bytes of a root record gives the record back.
    pub proof fn lemma_round_trip(&self)
        ensures
            self.spec_bytes().len() == 34,
            Self::spec_decode(self.spec_bytes()) == *self,
    {
        self.lemma_layout();
        lemma_u32_round_trip(self.extent_location);
        lemma_u32_round_trip(self.data_length);
        crate::bytes::lemma_u16_round_trip(self.volume_sequence_number);
        self.recording_date.lemma_round_trip();
    }
}

impl IsoParse for RootDirectoryRecord {
    open spec fn spec_parse(input: Seq<u8>) -> Result<(Self, int), IsoParseError> {
        if input.len() < 34 {
            Err(
                IsoParseError::InputTooSmall {
                    expected: 34,
                    got: input.len() as usize,
                    when: "RootDirectoryRecord",
                },
            )
        } else {
            Ok((Self::spec_decode(input.subrange(0, 34)), 34))
        }
    }

    fn parse(input: &[u8]) -> (r: Result<(Self, &[u8]), IsoParseError>) {
        if input.len() < 34 {
            return Err(
                IsoParseError::InputTooSmall {
                    expected: 34,
                    got: input.len(),
                    when: "RootDirectoryRecord",
                },
            );
        }
        let value = RootDirectoryRecord::take(input, 0);
        Ok((value, slice_subrange(input, 34, input.len())))
    }
}

impl PrimaryVolumeDescriptor {
    /// Where the fields before the root directory record stand.
    #[verifier::rlimit(50)]
    pub proof fn lemma_front_layout(&self)
        ensures
            self.spec_front().len() == 156,
            self.spec_front()[0] == 1,
            self.spec_front().subrange(1, 6) == self.standard_identifier.spec_as_bytes(),
            self.spec_front()[6] == self.version.spec_to_u8(),
            self.spec_front()[7] == 0,
            self.spec_front().subrange(8, 40) == self.system_identifier.0@,
            self.spec_front().subrange(40, 72) == self.volume_identifier.0@,
            self.spec_front().subrange(72, 80) == zeros(8),
            self.spec_front().subrange(80, 84) == u32_le(self.volume_space_size),
            self.spec_front().subrange(84, 88) == u32_be(self.volume_space_size),
            self.spec_front().subrange(88, 120) == zeros(32),
            self.spec_front().subrange(120, 122) == crate::bytes::u16_le(self.volume_set_size),
            self.spec_front().subrange(122, 124) == crate::bytes::u16_be(self.volume_set_size),
            self.spec_front().subrange(124, 126) == crate::bytes::u16_le(
                self.volume_sequence_number,
            ),
            self.spec_front().subrange(126, 128) == crate::bytes::u16_be(
                self.volume_sequence_number,
            ),
            self.spec_front().subrange(128, 130) == crate::bytes::u16_le(self.logical_block_size),
            self.spec_front().subrange(130, 132) == crate::bytes::u16_be(self.logical_block_size),
            self.spec_front().subrange(132, 136) == u32_le(self.path_table_size),
            self.spec_front().subrange(136, 140) == u32_be(self.path_table_size),
            self.spec_front().subrange(140, 144) == u32_le(self.type_l_path_table_location),
            self.spec_front().subrange(144, 148) == u32_le(
                self.optional_type_l_path_table_location,
            ),
            self.spec_front().subrange(148, 152) == u32_be(self.type_m_path_table_location),
            self.spec_front().subrange(152, 156) == u32_be(
                self.optional_type_m_path_table_location,
            ),
    {
        let f = self.spec_front();
        assert(f.subrange(1, 6) =~= self.standard_identifier.spec_as_bytes());
        assert(f.subrange(8, 40) =~= self.system_identifier.0@);
        assert(f.subrange(40, 72) =~= self.volume_identifier.0@);
        assert(f.subrange(72, 80) =~= zeros(8));
        assert(f.subrange(80, 84) =~= u32_le(self.volume_space_size));
        assert(f.subrange(84, 88) =~= u32_be(self.volume_space_size));
        assert(f.subrange(88, 120) =~= zeros(32));
        assert(f.subrange(120, 122) =~= crate::bytes::u16_le(self.volume_set_size));
        assert(f.subrange(122, 124) =~= crate::bytes::u16_be(self.volume_set_size));
        assert(f.subrange(124, 126) =~= crate::bytes::u16_le(self.volume_sequence_number));
        assert(f.subrange(126, 128) =~= crate::bytes::u16_be(self.volume_sequence_number));
        assert(f.subrange(128, 130) =~= crate::bytes::u16_le(self.logical_block_size));
        assert(f.subrange(130, 132) =~= crate::bytes::u16_be(self.logical_block_size));
        assert(f.subrange(132, 136) =~= u32_le(self.path_table_size));
        assert(f.subrange(136, 140) =~= u32_be(self.path_table_size));
        assert(f.subrange(140, 144) =~= u32_le(self.type_l_path_table_location));
        assert(f.subrange(144, 148) =~= u32_le(self.optional_type_l_path_table_location));
        assert(f.subrange(148, 152) =~= u32_be(self.type_m_path_table_location));
        assert(f.subrange(152, 156) =~= u32_be(self.optional_type_m_path_table_location));
    }

    /// Where the root directory record and the fields after it stand.
    pub proof fn lemma_back_layout(&self)
        ensures
            self.spec_bytes().len() == 2048,
            self.spec_bytes().subrange(0, 156) == self.spec_front(),
            self.spec_bytes().subrange(156, 190) == self.root_directory_record.spec_bytes(),
            self.spec_bytes().subrange(190, 318) == self.volume_set_identifier.0@,
            self.spec_bytes().subrange(318, 446) == self.publisher_identifier.0@,
            self.spec_bytes().subrange(446, 574) == self.data_preparer_identifier.0@,
            self.spec_bytes().subrange(574, 702) == self.application_identifier.0@,
            self.spec_bytes().subrange(702, 739) == self.copyright_file_identifier.0@,
            self.spec_bytes().subrange(739, 776) == self.abstract_file_identifier.0@,
            self.spec_bytes().subrange(776, 813) == self.bibliographic_file_identifier.0@,
            self.spec_bytes().subrange(813, 830) == self.creation_date.spec_bytes(),
            self.spec_bytes().subrange(830, 847) == self.modification_date.spec_bytes(),
            self.spec_bytes().subrange(847, 864) == self.expiration_date.spec_bytes(),
            self.spec_bytes().subrange(864, 881) == self.effective_date.spec_bytes(),
            self.spec_bytes()[881] == self.file_structure_version.spec_to_u8(),
            self.spec_bytes()[882] == 0,
            self.spec_bytes().subrange(883, 1395) == self.application_use@,
            self.spec_bytes().subrange(1395, 2048) == zeros(653),
    {
        let b = self.spec_bytes();
        self.lemma_extent();
        self.creation_date.lemma_pieces();
        self.modification_date.lemma_pieces();
        self.expiration_date.lemma_pieces();
        self.effective_date.lemma_pieces();
        self.root_directory_record.lemma_extent();
        assert(b.subrange(0, 156) =~= self.spec_front());
        assert(b.subrange(156, 190) =~= self.root_directory_record.spec_bytes());
        assert(b.subrange(190, 318) =~= self.volume_set_identifier.0@);
        assert(b.subrange(318, 446) =~= self.publisher_identifier.0@);
        assert(b.subrange(446, 574) =~= self.data_preparer_identifier.0@);
        assert(b.subrange(574, 702) =~= self.application_identifier.0@);
        assert(b.subrange(702, 739) =~= self.copyright_file_identifier.0@);
        assert(b.subrange(739, 776) =~= self.abstract_file_identifier.0@);
        assert(b.subrange(776, 813) =~= self.bibliographic_file_identifier.0@);
        assert(b.subrange(813, 830) =~= self.creation_date.spec_bytes());
        assert(b.subrange(830, 847) =~= self.modification_date.spec_bytes());
        assert(b.subrange(847, 864) =~= self.expiration_date.spec_bytes());
        assert(b.subrange(864, 881) =~= self.effective_date.spec_bytes());
        assert(b.subrange(883, 1395) =~= self.application_use@);
        assert(b.subrange(1395, 2048) =~= zeros(653));
    }
}

/// What is wrong with the 17 bytes of `s` as the date field named `field`.
pub open spec fn bad_date_digits(s: Seq<u8>, field: &'static str) -> Option<IsoParseError> {
    match first_non_digit(s.subrange(0, 16)) {
        Some(k) => Some(IsoParseError::BadCharacter { field, offset: k as usize }),
        None => None,
    }
}

/// The first of two findings, where there is one.
pub open spec fn or_else(first: Option<IsoParseError>, second: Option<IsoParseError>) -> Option<
    IsoParseError,
> {
    if first is Some {
        first
    } else {
        second
    }
}

/// What is wrong with the four dates of a primary or supplementary volume
/// descriptor, the first in the order of the layout.
pub open spec fn bad_volume_dates(s: Seq<u8>) -> Option<IsoParseError> {
    or_else(
        bad_date_digits(s.subrange(813, 830), "creation_date"),
        or_else(
            bad_date_digits(s.subrange(830, 847), "modification_date"),
            or_else(
                bad_date_digits(s.subrange(847, 864), "expiration_date"),
                bad_date_digits(s.subrange(864, 881), "effective_date"),
            ),
        ),
    )
}

fn check_date_digits(input: &[u8], at: usize, field: &'static str) -> (r: Option<IsoParseError>)
    requires
        at + 17 <= input@.len(),
    ensures
        r == bad_date_digits(input@.subrange(at as int, at + 17), field),
        r is None ==> first_non_digit(input@.subrange(at as int, at + 16)) is None,
{
    let total = input.len();
    assert(input@.subrange(at as int, at + 17).subrange(0, 16) =~= input@.subrange(
        at as int,
        at + 16,
    ));
    match find_non_digit(input, at, at + 16) {
        Some(k) => Some(IsoParseError::BadCharacter { field, offset: k }),
        None => None,
    }
}

fn check_volume_dates(input: &[u8]) -> (r: Option<IsoParseError>)
    requires
        input@.len() >= 2048,
    ensures
        r == bad_volume_dates(input@),
        r is None ==> {
            &&& first_non_digit(input@.subrange(813, 829)) is None
            &&& first_non_digit(input@.subrange(830, 846)) is None
            &&& first_non_digit(input@.subrange(847, 863)) is None
            &&& first_non_digit(input@.subrange(864, 880)) is None
        },
{
    let e = check_date_digits(input, 813, "creation_date");
    if e.is_some() {
        return e;
    }
    let e = check_date_digits(input, 830, "modification_date");
    if e.is_some() {
        return e;
    }
    let e = check_date_digits(input, 847, "expiration_date");
    if e.is_some() {
        return e;
    }
    check_date_digits(input, 864, "effective_date")
}

impl PrimaryVolumeDescriptor {
    /// Every tag is in its named form, every character field holds
    /// characters of its class, and every date fits its digits.
    pub open spec fn wf(&self) -> bool {
        &&& self.standard_identifier.wf()
        &&& self.version.wf()
        &&& self.file_structure_version.wf()
        &&& self.creation_date.wf()
        &&& self.modification_date.wf()
        &&& self.expiration_date.wf()
        &&& self.effective_date.wf()
        &&& self.spec_check() is None
    }

    /// The descriptor that the first 2048 bytes of `s` stand for. Of each
    /// dual-endian number the little-endian copy counts; unused and reserved
    /// bytes are not looked at.
    pub open spec fn spec_decode(s: Seq<u8>) -> Self {
        PrimaryVolumeDescriptor {
            standard_identifier: StandardIdentifier::spec_from_bytes(s.subrange(1, 6)),
            version: VolumeDescriptorVersion::spec_from_u8(s[6]),
            system_identifier: ACharacters(array_of::<32>(s.subrange(8, 40))),
            volume_identifier: DCharacters(array_of::<32>(s.subrange(40, 72))),
            volume_space_size: u32_from_le(s.subrange(80, 84)),
            volume_set_size: u16_from_le(s.subrange(120, 122)),
            volume_sequence_number: u16_from_le(s.subrange(124, 126)),
            logical_block_size: u16_from_le(s.subrange(128, 130)),
            path_table_size: u32_from_le(s.subrange(132, 136)),
            type_l_path_table_location: u32_from_le(s.subrange(140, 144)),
            optional_type_l_path_table_location: u32_from_le(s.subrange(144, 148)),
            type_m_path_table_location: u32_from_be(s.subrange(148, 152)),
            optional_type_m_path_table_location: u32_from_be(s.subrange(152, 156)),
            root_directory_record: RootDirectoryRecord::spec_decode(s.subrange(156, 190)),
            volume_set_identifier: DCharacters(array_of::<128>(s.subrange(190, 318))),
            publisher_identifier: ACharacters(array_of::<128>(s.subrange(318, 446))),
            data_preparer_identifier: ACharacters(array_of::<128>(s.subrange(446, 574))),
            application_identifier: ACharacters(array_of::<128>(s.subrange(574, 702))),
            copyright_file_identifier: DCharacters(array_of::<37>(s.subrange(702, 739))),
            abstract_file_identifier: DCharacters(array_of::<37>(s.subrange(739, 776))),
            bibliographic_file_identifier: DCharacters(array_of::<37>(s.subrange(776, 813))),
            creation_date: DigitsDate::spec_decode(s.subrange(813, 830)),
            modification_date: DigitsDate::spec_decode(s.subrange(830, 847)),
            expiration_date: DigitsDate::spec_decode(s.subrange(847, 864)),
            effective_date: DigitsDate::spec_decode(s.subrange(864, 881)),
            file_structure_version: FileStructureVersion::spec_from_u8(s[881]),
            application_use: array_of::<512>(s.subrange(883, 1395)),
        }
    }

    /// Serializing a well-formed descriptor and parsing the bytes, with
    /// whatever follows them, gives the descriptor back and takes 2048 bytes.
    pub proof fn lemma_round_trip(&self, rest: Seq<u8>)
        requires
            self.wf(),
        ensures
            Self::spec_parse(self.spec_bytes() + rest) == Ok::<(Self, int), IsoParseError>(
                (*self, 2048),
            ),
    {
        let b = self.spec_bytes();
        self.lemma_front_layout();
        self.lemma_back_layout();
        assert((b + rest).subrange(0, 2048) =~= b.subrange(0, 2048));
        lemma_same_range(b + rest, b, 2048, 0, 1);
        lemma_same_range(b + rest, b, 2048, 1, 6);
        lemma_same_range(b + rest, b, 2048, 6, 7);
        lemma_same_range(b + rest, b, 2048, 7, 8);
        lemma_same_range(b + rest, b, 2048, 8, 40);
        lemma_same_range(b + rest, b, 2048, 40, 72);
        lemma_same_range(b + rest, b, 2048, 80, 84);
        lemma_same_range(b + rest, b, 2048, 88, 120);
        lemma_same_range(b + rest, b, 2048, 120, 122);
        lemma_same_range(b + rest, b, 2048, 124, 126);
        lemma_same_range(b + rest, b, 2048, 128, 130);
        lemma_same_range(b + rest, b, 2048, 132, 136);
        lemma_same_range(b + rest, b, 2048, 140, 144);
        lemma_same_range(b + rest, b, 2048, 144, 148);
        lemma_same_range(b + rest, b, 2048, 148, 152);
        lemma_same_range(b + rest, b, 2048, 152, 156);
        lemma_same_range(b + rest, b, 2048, 156, 190);
        lemma_same_range(b + rest, b, 2048, 190, 318);
        lemma_same_range(b + rest, b, 2048, 318, 446);
        lemma_same_range(b + rest, b, 2048, 446, 574);
        lemma_same_range(b + rest, b, 2048, 574, 702);
        lemma_same_range(b + rest, b, 2048, 702, 739);
        lemma_same_range(b + rest, b, 2048, 739, 776);
        lemma_same_range(b + rest, b, 2048, 776, 813);
        lemma_same_range(b + rest, b, 2048, 813, 830);
        lemma_same_range(b + rest, b, 2048, 830, 847);
        lemma_same_range(b + rest, b, 2048, 847, 864);
        lemma_same_range(b + rest, b, 2048, 864, 881);
        lemma_same_range(b + rest, b, 2048, 881, 882);
        lemma_same_range(b + rest, b, 2048, 883, 1395);
        assert(b[0] == b.subrange(0, 156)[0]);
        self.lemma_decode();
        self.creation_date.lemma_round_trip();
        self.modification_date.lemma_round_trip();
        self.expiration_date.lemma_round_trip();
        self.effective_date.lemma_round_trip();
    }

    /// Decoding the bytes of a descriptor whose tags are in their named form
    /// and whose dates fit their digits gives the descriptor back.
    pub proof fn lemma_decode(&self)
        requires
            self.standard_identifier.wf(),
            self.version.wf(),
            self.file_structure_version.wf(),
            self.creation_date.wf(),
            self.modification_date.wf(),
            self.expiration_date.wf(),
            self.effective_date.wf(),
        ensures
            Self::spec_decode(self.spec_bytes()) == *self,
    {
        self.lemma_decode_front();
        self.lemma_decode_back();
    }

    proof fn lemma_decode_front(&self)
        requires
            self.standard_identifier.wf(),
            self.version.wf(),
        ensures
            ({
                let d = Self::spec_decode(self.spec_bytes());
                &&& d.standard_identifier == self.standard_identifier
                &&& d.version == self.version
                &&& d.system_identifier == self.system_identifier
                &&& d.volume_identifier == self.volume_identifier
                &&& d.volume_space_size == self.volume_space_size
                &&& d.volume_set_size == self.volume_set_size
                &&& d.volume_sequence_number == self.volume_sequence_number
                &&& d.logical_block_size == self.logical_block_size
                &&& d.path_table_size == self.path_table_size
                &&& d.type_l_path_table_location == self.type_l_path_table_location
                &&& d.optional_type_l_path_table_location
                    == self.optional_type_l_path_table_location
                &&& d.type_m_path_table_location == self.type_m_path_table_location
                &&& d.optional_type_m_path_table_location
                    == self.optional_type_m_path_table_location
            }),
    {
        let b = self.spec_bytes();
        let f = self.spec_front();
        self.lemma_front_layout();
        assert(b.subrange(0, 156) == f && b.len() == 2048) by {
            self.lemma_back_layout();
        }
        assert(b.subrange(1, 6) =~= f.subrange(1, 6));
        assert(b[6] == f[6]);
        assert(b.subrange(8, 40) =~= f.subrange(8, 40));
        assert(b.subrange(40, 72) =~= f.subrange(40, 72));
        assert(b.subrange(80, 84) =~= f.subrange(80, 84));
        assert(b.subrange(120, 122) =~= f.subrange(120, 122));
        assert(b.subrange(124, 126) =~= f.subrange(124, 126));
        assert(b.subrange(128, 130) =~= f.subrange(128, 130));
        assert(b.subrange(132, 136) =~= f.subrange(132, 136));
        assert(b.subrange(140, 144) =~= f.subrange(140, 144));
        assert(b.subrange(144, 148) =~= f.subrange(144, 148));
        assert(b.subrange(148, 152) =~= f.subrange(148, 152));
        assert(b.subrange(152, 156) =~= f.subrange(152, 156));
        self.standard_identifier.lemma_round_trip();
        self.version.lemma_round_trip();
        lemma_array_of::<32>(self.system_identifier.0);
        lemma_array_of::<32>(self.volume_identifier.0);
        lemma_u32_round_trip(self.volume_space_size);
        lemma_u32_round_trip(self.path_table_size);
        lemma_u32_round_trip(self.type_l_path_table_location);
        lemma_u32_round_trip(self.optional_type_l_path_table_location);
        lemma_u32_round_trip(self.type_m_path_table_location);
        lemma_u32_round_trip(self.optional_type_m_path_table_location);
        crate::bytes::lemma_u16_round_trip(self.volume_set_size);
        crate::bytes::lemma_u16_round_trip(self.volume_sequence_number);
        crate::bytes::lemma_u16_round_trip(self.logical_block_size);
    }

    proof fn lemma_decode_back(&self)
        requires
            self.file_structure_version.wf(),
            self.creation_date.wf(),
            self.modification_date.wf(),
            self.expiration_date.wf(),
            self.effective_date.wf(),
        ensures
            ({
                let d = Self::spec_decode(self.spec_bytes());
                &&& d.root_directory_record == self.root_directory_record
                &&& d.volume_set_identifier == self.volume_set_identifier
                &&& d.publisher_identifier == self.publisher_identifier
                &&& d.data_preparer_identifier == self.data_preparer_identifier
                &&& d.application_identifier == self.application_identifier
                &&& d.copyright_file_identifier == self.copyright_file_identifier
                &&& d.abstract_file_identifier == self.abstract_file_identifier
                &&& d.bibliographic_file_identifier == self.bibliographic_file_identifier
                &&& d.creation_date == self.creation_date
                &&& d.modification_date == self.modification_date
                &&& d.expiration_date == self.expiration_date
                &&& d.effective_date == self.effective_date
                &&& d.file_structure_version == self.file_structure_version
                &&& d.application_use == self.application_use
            }),
    {
        self.lemma_back_layout();
        self.file_structure_version.lemma_round_trip();
        lemma_array_of::<128>(self.volume_set_identifier.0);
        lemma_array_of::<128>(self.publisher_identifier.0);
        lemma_array_of::<128>(self.data_preparer_identifier.0);
        lemma_array_of::<128>(self.application_identifier.0);
        lemma_array_of::<37>(self.copyright_file_identifier.0);
        lemma_array_of::<37>(self.abstract_file_identifier.0);
        lemma_array_of::<37>(self.bibliographic_file_identifier.0);
        lemma_array_of::<512>(self.application_use);
        self.root_directory_record.lemma_round_trip();
        self.creation_date.lemma_round_trip();
        self.modification_date.lemma_round_trip();
        self.expiration_date.lemma_round_trip();
        self.effective_date.lemma_round_trip();
    }

    /// In the bytes of a descriptor the two halves of every dual-endian field
    /// hold the same number: those of 32 bits at 80, 132, 158 and 166, those
    /// of 16 bits at 120, 124, 128 and 184.
    pub proof fn lemma_dual_endian(&self)
        ensures
            u32_from_le(self.spec_bytes().subrange(80, 84)) == u32_from_be(
                self.spec_bytes().subrange(84, 88),
            ),
            u32_from_le(self.spec_bytes().subrange(132, 136)) == u32_from_be(
                self.spec_bytes().subrange(136, 140),
            ),
            u32_from_le(self.spec_bytes().subrange(158, 162)) == u32_from_be(
                self.spec_bytes().subrange(162, 166),
            ),
            u32_from_le(self.spec_bytes().subrange(166, 170)) == u32_from_be(
                self.spec_bytes().subrange(170, 174),
            ),
            u16_from_le(self.spec_bytes().subrange(120, 122)) == crate::bytes::u16_from_be(
                self.spec_bytes().subrange(122, 124),
            ),
            u16_from_le(self.spec_bytes().subrange(124, 126)) == crate::bytes::u16_from_be(
                self.spec_bytes().subrange(126, 128),
            ),
            u16_from_le(self.spec_bytes().subrange(128, 130)) == crate::bytes::u16_from_be(
                self.spec_bytes().subrange(130, 132),
            ),
            u16_from_le(self.spec_bytes().subrange(184, 186)) == crate::bytes::u16_from_be(
                self.spec_bytes().subrange(186, 188),
            ),
    {
        let b = self.spec_bytes();
        let f = self.spec_front();
        let r = self.root_directory_record;
        self.lemma_front_layout();
        self.lemma_back_layout();
        r.lemma_layout();
        assert(b.subrange(80, 84) =~= f.subrange(80, 84));
        assert(b.subrange(84, 88) =~= f.subrange(84, 88));
        assert(b.subrange(132, 136) =~= f.subrange(132, 136));
        assert(b.subrange(136, 140) =~= f.subrange(136, 140));
        assert(b.subrange(120, 122) =~= f.subrange(120, 122));
        assert(b.subrange(122, 124) =~= f.subrange(122, 124));
        assert(b.subrange(124, 126) =~= f.subrange(124, 126));
        assert(b.subrange(126, 128) =~= f.subrange(126, 128));
        assert(b.subrange(128, 130) =~= f.subrange(128, 130));
        assert(b.subrange(130, 132) =~= f.subrange(130, 132));
        assert(b.subrange(158, 162) =~= r.spec_bytes().subrange(2, 6));
        assert(b.subrange(162, 166) =~= r.spec_bytes().subrange(6, 10));
        assert(b.subrange(166, 170) =~= r.spec_bytes().subrange(10, 14));
        assert(b.subrange(170, 174) =~= r.spec_bytes().subrange(14, 18));
        assert(b.subrange(184, 186) =~= r.spec_bytes().subrange(28, 30));
        assert(b.subrange(186, 188) =~= r.spec_bytes().subrange(30, 32));
        lemma_u32_round_trip(self.volume_space_size);
        lemma_u32_round_trip(self.path_table_size);
        lemma_u32_round_trip(r.extent_location);
        lemma_u32_round_trip(r.data_length);
        crate::bytes::lemma_u16_round_trip(self.volume_set_size);
        crate::bytes::lemma_u16_round_trip(self.volume_sequence_number);
        crate::bytes::lemma_u16_round_trip(self.logical_block_size);
        crate::bytes::lemma_u16_round_trip(r.volume_sequence_number);
    }

    /// In the bytes of a descriptor every unused or reserved byte is zero:
    /// byte 7, bytes 72 to 79, 88 to 119, byte 882 and bytes 1395 to 2047.
    pub proof fn lemma_reserved_zero(&self)
        ensures
            forall|i: int|
                i == 7 || 72 <= i < 80 || 88 <= i < 120 || i == 882 || 1395 <= i < 2048
                    ==> #[trigger] self.spec_bytes()[i] == 0,
    {
        let b = self.spec_bytes();
        let f = self.spec_front();
        self.lemma_front_layout();
        self.lemma_back_layout();
        assert forall|i: int|
            i == 7 || 72 <= i < 80 || 88 <= i < 120 || i == 882 || 1395 <= i < 2048 implies b[i]
            == 0 by {
            if i < 156 {
                assert(b[i] == b.subrange(0, 156)[i]);
                if 72 <= i < 80 {
                    assert(f[i] == f.subrange(72, 80)[i - 72]);
                } else if 88 <= i < 120 {
                    assert(f[i] == f.subrange(88, 120)[i - 88]);
                }
            } else if 1395 <= i {
                assert(b[i] == b.subrange(1395, 2048)[i - 1395]);
            }
        }
    }

    /// After a descriptor was written without error, every byte of its
    /// fields of a-characters is an a-character and every byte of its fields
    /// of d-characters a d-character or the filler.
    pub proof fn lemma_character_classes(&self)
        requires
            self.spec_check() is None,
        ensures
            forall|i: int|
                8 <= i < 40 || 318 <= i < 702 ==> crate::spec::is_a_character(
                    #[trigger] self.spec_bytes()[i],
                ),
            forall|i: int|
                40 <= i < 72 || 190 <= i < 318 || 702 <= i < 813
                    ==> crate::spec::is_d_field_byte(#[trigger] self.spec_bytes()[i]),
    {
        let b = self.spec_bytes();
        let f = self.spec_front();
        self.lemma_front_layout();
        self.lemma_back_layout();
        assert forall|i: int| 8 <= i < 40 || 318 <= i < 702 implies crate::spec::is_a_character(
            #[trigger] b[i],
        ) by {
            if i < 40 {
                assert(b[i] == b.subrange(0, 156)[i]);
                assert(f[i] == f.subrange(8, 40)[i - 8]);
                assert(crate::spec::is_a_character(self.system_identifier.0@[i - 8]));
            } else if i < 446 {
                assert(b[i] == b.subrange(318, 446)[i - 318]);
                assert(crate::spec::is_a_character(self.publisher_identifier.0@[i - 318]));
            } else if i < 574 {
                assert(b[i] == b.subrange(446, 574)[i - 446]);
                assert(crate::spec::is_a_character(self.data_preparer_identifier.0@[i - 446]));
            } else {
                assert(b[i] == b.subrange(574, 702)[i - 574]);
                assert(crate::spec::is_a_character(self.application_identifier.0@[i - 574]));
            }
        }
        assert forall|i: int|
            40 <= i < 72 || 190 <= i < 318 || 702 <= i < 813 implies crate::spec::is_d_field_byte(
            #[trigger] b[i],
        ) by {
            if i < 72 {
                assert(b[i] == b.subrange(0, 156)[i]);
                assert(f[i] == f.subrange(40, 72)[i - 40]);
                assert(crate::spec::is_d_field_byte(self.volume_identifier.0@[i - 40]));
            } else if i < 318 {
                assert(b[i] == b.subrange(190, 318)[i - 190]);
                assert(crate::spec::is_d_field_byte(self.volume_set_identifier.0@[i - 190]));
            } else if i < 739 {
                assert(b[i] == b.subrange(702, 739)[i - 702]);
                assert(crate::spec::is_d_field_byte(self.copyright_file_identifier.0@[i - 702]));
            } else if i < 776 {
                assert(b[i] == b.subrange(739, 776)[i - 739]);
                assert(crate::spec::is_d_field_byte(self.abstract_file_identifier.0@[i - 739]));
            } else {
                assert(b[i] == b.subrange(776, 813)[i - 776]);
                assert(crate::spec::is_d_field_byte(
                    self.bibliographic_file_identifier.0@[i - 776],
                ));
            }
        }
    }
}

impl IsoParse for PrimaryVolumeDescriptor {
    open spec fn spec_parse(input: Seq<u8>) -> Result<(Self, int), IsoParseError> {
        if input.len() < 2048 {
            Err(
                IsoParseError::InputTooSmall {
                    expected: 2048,
                    got: input.len() as usize,
                    when: "PrimaryVolumeDescriptor",
                },
            )
        } else if input[0] != 1 {
            Err(IsoParseError::UnknownTag { at: 0, value: input[0] })
        } else {
            match bad_volume_dates(input) {
                Some(e) => Err(e),
                None => Ok((Self::spec_decode(input), 2048)),
            }
        }
    }

    fn parse(input: &[u8]) -> (r: Result<(Self, &[u8]), IsoParseError>) {
        if input.len() < 2048 {
            return Err(
                IsoParseError::InputTooSmall {
                    expected: 2048,
                    got: input.len(),
                    when: "PrimaryVolumeDescriptor",
                },
            );
        }
        if input[0] != 1 {
            return Err(IsoParseError::UnknownTag { at: 0, value: input[0] });
        }
        if let Some(e) = check_volume_dates(input) {
            return Err(e);
        }
        let value = PrimaryVolumeDescriptor {
            standard_identifier: StandardIdentifier::from_bytes(take_array::<5>(input, 1)),
            version: VolumeDescriptorVersion::from_u8(input[6]),
            system_identifier: ACharacters(take_array::<32>(input, 8)),
            volume_identifier: DCharacters(take_array::<32>(input, 40)),
            volume_space_size: get_u32_le(input, 80),
            volume_set_size: get_u16_le(input, 120),
            volume_sequence_number: get_u16_le(input, 124),
            logical_block_size: get_u16_le(input, 128),
            path_table_size: get_u32_le(input, 132),
            type_l_path_table_location: get_u32_le(input, 140),
            optional_type_l_path_table_location: get_u32_le(input, 144),
            type_m_path_table_location: get_u32_be(input, 148),
            optional_type_m_path_table_location: get_u32_be(input, 152),
            root_directory_record: RootDirectoryRecord::take(input, 156),
            volume_set_identifier: DCharacters(take_array::<128>(input, 190)),
            publisher_identifier: ACharacters(take_array::<128>(input, 318)),
            data_preparer_identifier: ACharacters(take_array::<128>(input, 446)),
            application_identifier: ACharacters(take_array::<128>(input, 574)),
            copyright_file_identifier: DCharacters(take_array::<37>(input, 702)),
            abstract_file_identifier: DCharacters(take_array::<37>(input, 739)),
            bibliographic_file_identifier: DCharacters(take_array::<37>(input, 776)),
            creation_date: DigitsDate::take(input, 813),
            modification_date: DigitsDate::take(input, 830),
            expiration_date: DigitsDate::take(input, 847),
            effective_date: DigitsDate::take(input, 864),
            file_structure_version: FileStructureVersion::from_u8(input[881]),
            application_use: take_array::<512>(input, 883),
        };
        Ok((value, slice_subrange(input, 2048, input.len())))
    }
}

impl SupplementaryVolumeDescriptor {
    /// Where the fields before the root directory record stand.
    #[verifier::rlimit(50)]
    pub proof fn lemma_front_layout(&self)
        ensures
            self.spec_front().len() == 156,
            self.spec_front()[0] == 2,
            self.spec_front().subrange(1, 6) == self.standard_identifier.spec_as_bytes(),
            self.spec_front()[6] == self.version.spec_to_u8(),
            self.spec_front()[7] == self.volume_flags.bits,
            self.spec_front().subrange(8, 40) == self.system_identifier.0@,
            self.spec_front().subrange(40, 72) == self.volume_identifier.0@,
            self.spec_front().subrange(72, 80) == zeros(8),
            self.spec_front().subrange(80, 84) == u32_le(self.volume_space_size),
            self.spec_front().subrange(84, 88) == u32_be(self.volume_space_size),
            self.spec_front().subrange(88, 120) == self.escape_sequences.0@,
            self.spec_front().subrange(120, 122) == crate::bytes::u16_le(self.volume_set_size),
            self.spec_front().subrange(122, 124) == crate::bytes::u16_be(self.volume_set_size),
            self.spec_front().subrange(124, 126) == crate::bytes::u16_le(
                self.volume_sequence_number,
            ),
            self.spec_front().subrange(126, 128) == crate::bytes::u16_be(
                self.volume_sequence_number,
            ),
            self.spec_front().subrange(128, 130) == crate::bytes::u16_le(self.logical_block_size),
            self.spec_front().subrange(130, 132) == crate::bytes::u16_be(self.logical_block_size),
            self.spec_front().subrange(132, 136) == u32_le(self.path_table_size),
            self.spec_front().subrange(136, 140) == u32_be(self.path_table_size),
            self.spec_front().subrange(140, 144) == u32_le(self.type_l_path_table_location),
            self.spec_front().subrange(144, 148) == u32_le(
                self.optional_type_l_path_table_location,
            ),
            self.spec_front().subrange(148, 152) == u32_be(self.type_m_path_table_location),
            self.spec_front().subrange(152, 156) == u32_be(
                self.optional_type_m_path_table_location,
            ),
    {
        let f = self.spec_front();
        assert(f.subrange(1, 6) =~= self.standard_identifier.spec_as_bytes());
        assert(f.subrange(8, 40) =~= self.system_identifier.0@);
        assert(f.subrange(40, 72) =~= self.volume_identifier.0@);
        assert(f.subrange(72, 80) =~= zeros(8));
        assert(f.subrange(80, 84) =~= u32_le(self.volume_space_size));
        assert(f.subrange(84, 88) =~= u32_be(self.volume_space_size));
        assert(f.subrange(88, 120) =~= self.escape_sequences.0@);
        assert(f.subrange(120, 122) =~= crate::bytes::u16_le(self.volume_set_size));
        assert(f.subrange(122, 124) =~= crate::bytes::u16_be(self.volume_set_size));
        assert(f.subrange(124, 126) =~= crate::bytes::u16_le(self.volume_sequence_number));
        assert(f.subrange(126, 128) =~= crate::bytes::u16_be(self.volume_sequence_number));
        assert(f.subrange(128, 130) =~= crate::bytes::u16_le(self.logical_block_size));
        assert(f.subrange(130, 132) =~= crate::bytes::u16_be(self.logical_block_size));
        assert(f.subrange(132, 136) =~= u32_le(self.path_table_size));
        assert(f.subrange(136, 140) =~= u32_be(self.path_table_size));
        assert(f.subrange(140, 144) =~= u32_le(self.type_l_path_table_location));
        assert(f.subrange(144, 148) =~= u32_le(self.optional_type_l_path_table_location));
        assert(f.subrange(148, 152) =~= u32_be(self.type_m_path_table_location));
        assert(f.subrange(152, 156) =~= u32_be(self.optional_type_m_path_table_location));
    }

    /// Where the root directory record and the fields after it stand.
    pub proof fn lemma_back_layout(&self)
        ensures
            self.spec_bytes().len() == 2048,
            self.spec_bytes().subrange(0, 156) == self.spec_front(),
            self.spec_bytes().subrange(156, 190) == self.root_directory_record.spec_bytes(),
            self.spec_bytes().subrange(190, 318) == self.volume_set_identifier.0@,
            self.spec_bytes().subrange(318, 446) == self.publisher_identifier.0@,
            self.spec_bytes().subrange(446, 574) == self.data_preparer_identifier.0@,
            self.spec_bytes().subrange(574, 702) == self.application_identifier.0@,
            self.spec_bytes().subrange(702, 739) == self.copyright_file_identifier.0@,
            self.spec_bytes().subrange(739, 776) == self.abstract_file_identifier.0@,
            self.spec_bytes().subrange(776, 813) == self.bibliographic_file_identifier.0@,
            self.spec_bytes().subrange(813, 830) == self.creation_date.spec_bytes(),
            self.spec_bytes().subrange(830, 847) == self.modification_date.spec_bytes(),
            self.spec_bytes().subrange(847, 864) == self.expiration_date.spec_bytes(),
            self.spec_bytes().subrange(864, 881) == self.effective_date.spec_bytes(),
            self.spec_bytes()[881] == self.file_structure_version.spec_to_u8(),
            self.spec_bytes()[882] == 0,
            self.spec_bytes().subrange(883, 1395) == self.application_use@,
            self.spec_bytes().subrange(1395, 2048) == zeros(653),
    {
        let b = self.spec_bytes();
        self.lemma_extent();
        self.creation_date.lemma_pieces();
        self.modification_date.lemma_pieces();
        self.expiration_date.lemma_pieces();
        self.effective_date.lemma_pieces();
        self.root_directory_record.lemma_extent();
        assert(b.subrange(0, 156) =~= self.spec_front());
        assert(b.subrange(156, 190) =~= self.root_directory_record.spec_bytes());
        assert(b.subrange(190, 318) =~= self.volume_set_identifier.0@);
        assert(b.subrange(318, 446) =~= self.publisher_identifier.0@);
        assert(b.subrange(446, 574) =~= self.data_preparer_identifier.0@);
        assert(b.subrange(574, 702) =~= self.application_identifier.0@);
        assert(b.subrange(702, 739) =~= self.copyright_file_identifier.0@);
        assert(b.subrange(739, 776) =~= self.abstract_file_identifier.0@);
        assert(b.subrange(776, 813) =~= self.bibliographic_file_identifier.0@);
        assert(b.subrange(813, 830) =~= self.creation_date.spec_bytes());
        assert(b.subrange(830, 847) =~= self.modification_date.spec_bytes());
        assert(b.subrange(847, 864) =~= self.expiration_date.spec_bytes());
        assert(b.subrange(864, 881) =~= self.effective_date.spec_bytes());
        assert(b.subrange(883, 1395) =~= self.application_use@);
        assert(b.subrange(1395, 2048) =~= zeros(653));
    }
}

impl SupplementaryVolumeDescriptor {
    /// Every tag is in its named form and every date fits its digits.
    pub open spec fn wf(&self) -> bool {
        &&& self.standard_identifier.wf()
        &&& self.version.wf()
        &&& self.file_structure_version.wf()
        &&& self.creation_date.wf()
        &&& self.modification_date.wf()
        &&& self.expiration_date.wf()
        &&& self.effective_date.wf()
    }

    /// The descriptor that the first 2048 bytes of `s` stand for. Of each
    /// dual-endian number the little-endian copy counts; unused and reserved
    /// bytes are not looked at.
    pub open spec fn spec_decode(s: Seq<u8>) -> Self {
        SupplementaryVolumeDescriptor {
            standard_identifier: StandardIdentifier::spec_from_bytes(s.subrange(1, 6)),
            version: VolumeDescriptorVersion::spec_from_u8(s[6]),
            volume_flags: VolumeFlags { bits: s[7] },
            system_identifier: A1Characters(array_of::<32>(s.subrange(8, 40))),
            volume_identifier: D1Characters(array_of::<32>(s.subrange(40, 72))),
            volume_space_size: u32_from_le(s.subrange(80, 84)),
            escape_sequences: EscapeSequences(array_of::<32>(s.subrange(88, 120))),
            volume_set_size: u16_from_le(s.subrange(120, 122)),
            volume_sequence_number: u16_from_le(s.subrange(124, 126)),
            logical_block_size: u16_from_le(s.subrange(128, 130)),
            path_table_size: u32_from_le(s.subrange(132, 136)),
            type_l_path_table_location: u32_from_le(s.subrange(140, 144)),
            optional_type_l_path_table_location: u32_from_le(s.subrange(144, 148)),
            type_m_path_table_location: u32_from_be(s.subrange(148, 152)),
            optional_type_m_path_table_location: u32_from_be(s.subrange(152, 156)),
            root_directory_record: RootDirectoryRecord::spec_decode(s.subrange(156, 190)),
            volume_set_identifier: D1Characters(array_of::<128>(s.subrange(190, 318))),
            publisher_identifier: A1Characters(array_of::<128>(s.subrange(318, 446))),
            data_preparer_identifier: A1Characters(array_of::<128>(s.subrange(446, 574))),
            application_identifier: A1Characters(array_of::<128>(s.subrange(574, 702))),
            copyright_file_identifier: D1Characters(array_of::<37>(s.subrange(702, 739))),
            abstract_file_identifier: D1Characters(array_of::<37>(s.subrange(739, 776))),
            bibliographic_file_identifier: D1Characters(array_of::<37>(s.subrange(776, 813))),
            creation_date: DigitsDate::spec_decode(s.subrange(813, 830)),
            modification_date: DigitsDate::spec_decode(s.subrange(830, 847)),
            expiration_date: DigitsDate::spec_decode(s.subrange(847, 864)),
            effective_date: DigitsDate::spec_decode(s.subrange(864, 881)),
            file_structure_version: FileStructureVersion::spec_from_u8(s[881]),
            application_use: array_of::<512>(s.subrange(883, 1395)),
        }
    }

    /// Serializing a well-formed descriptor and parsing the bytes, with
    /// whatever follows them, gives the descriptor back and takes 2048 bytes.
    pub proof fn lemma_round_trip(&self, rest: Seq<u8>)
        requires
            self.wf(),
        ensures
            Self::spec_parse(self.spec_bytes() + rest) == Ok::<(Self, int), IsoParseError>(
                (*self, 2048),
            ),
    {
        let b = self.spec_bytes();
        self.lemma_front_layout();
        self.lemma_back_layout();
        assert((b + rest).subrange(0, 2048) =~= b.subrange(0, 2048));
        lemma_same_range(b + rest, b, 2048, 0, 1);
        lemma_same_range(b + rest, b, 2048, 1, 6);
        lemma_same_range(b + rest, b, 2048, 6, 7);
        lemma_same_range(b + rest, b, 2048, 7, 8);
        lemma_same_range(b + rest, b, 2048, 8, 40);
        lemma_same_range(b + rest, b, 2048, 40, 72);
        lemma_same_range(b + rest, b, 2048, 80, 84);
        lemma_same_range(b + rest, b, 2048, 88, 120);
        lemma_same_range(b + rest, b, 2048, 120, 122);
        lemma_same_range(b + rest, b, 2048, 124, 126);
        lemma_same_range(b + rest, b, 2048, 128, 130);
        lemma_same_range(b + rest, b, 2048, 132, 136);
        lemma_same_range(b + rest, b, 2048, 140, 144);
        lemma_same_range(b + rest, b, 2048, 144, 148);
        lemma_same_range(b + rest, b, 2048, 148, 152);
        lemma_same_range(b + rest, b, 2048, 152, 156);
        lemma_same_range(b + rest, b, 2048, 156, 190);
        lemma_same_range(b + rest, b, 2048, 190, 318);
        lemma_same_range(b + rest, b, 2048, 318, 446);
        lemma_same_range(b + rest, b, 2048, 446, 574);
        lemma_same_range(b + rest, b, 2048, 574, 702);
        lemma_same_range(b + rest, b, 2048, 702, 739);
        lemma_same_range(b + rest, b, 2048, 739, 776);
        lemma_same_range(b + rest, b, 2048, 776, 813);
        lemma_same_range(b + rest, b, 2048, 813, 830);
        lemma_same_range(b + rest, b, 2048, 830, 847);
        lemma_same_range(b + rest, b, 2048, 847, 864);
        lemma_same_range(b + rest, b, 2048, 864, 881);
        lemma_same_range(b + rest, b, 2048, 881, 882);
        lemma_same_range(b + rest, b, 2048, 883, 1395);
        assert(b[0] == b.subrange(0, 156)[0]);
        self.lemma_decode();
        self.creation_date.lemma_round_trip();
        self.modification_date.lemma_round_trip();
        self.expiration_date.lemma_round_trip();
        self.effective_date.lemma_round_trip();
    }

    /// Decoding the bytes of a descriptor whose tags are in their named form
    /// and whose dates fit their digits gives the descriptor back.
    pub proof fn lemma_decode(&self)
        requires
            self.standard_identifier.wf(),
            self.version.wf(),
            self.file_structure_version.wf(),
            self.creation_date.wf(),
            self.modification_date.wf(),
            self.expiration_date.wf(),
            self.effective_date.wf(),
        ensures
            Self::spec_decode(self.spec_bytes()) == *self,
    {
        self.lemma_decode_front();
        self.lemma_decode_back();
    }

    proof fn lemma_decode_front(&self)
        requires
            self.standard_identifier.wf(),
            self.version.wf(),
        ensures
            ({
                let d = Self::spec_decode(self.spec_bytes());
                &&& d.standard_identifier == self.standard_identifier
                &&& d.version == self.version
                &&& d.volume_flags == self.volume_flags
                &&& d.escape_sequences == self.escape_sequences
                &&& d.system_identifier == self.system_identifier
                &&& d.volume_identifier == self.volume_identifier
                &&& d.volume_space_size == self.volume_space_size
                &&& d.volume_set_size == self.volume_set_size
                &&& d.volume_sequence_number == self.volume_sequence_number
                &&& d.logical_block_size == self.logical_block_size
                &&& d.path_table_size == self.path_table_size
                &&& d.type_l_path_table_location == self.type_l_path_table_location
                &&& d.optional_type_l_path_table_location
                    == self.optional_type_l_path_table_location
                &&& d.type_m_path_table_location == self.type_m_path_table_location
                &&& d.optional_type_m_path_table_location
                    == self.optional_type_m_path_table_location
            }),
    {
        let b = self.spec_bytes();
        let f = self.spec_front();
        self.lemma_front_layout();
        assert(b.subrange(0, 156) == f && b.len() == 2048) by {
            self.lemma_back_layout();
        }
        assert(b.subrange(1, 6) =~= f.subrange(1, 6));
        assert(b[6] == f[6]);
        assert(b[7] == f[7]);
        assert(b.subrange(88, 120) =~= f.subrange(88, 120));
        lemma_array_of::<32>(self.escape_sequences.0);
        assert(b.subrange(8, 40) =~= f.subrange(8, 40));
        assert(b.subrange(40, 72) =~= f.subrange(40, 72));
        assert(b.subrange(80, 84) =~= f.subrange(80, 84));
        assert(b.subrange(120, 122) =~= f.subrange(120, 122));
        assert(b.subrange(124, 126) =~= f.subrange(124, 126));
        assert(b.subrange(128, 130) =~= f.subrange(128, 130));
        assert(b.subrange(132, 136) =~= f.subrange(132, 136));
        assert(b.subrange(140, 144) =~= f.subrange(140, 144));
        assert(b.subrange(144, 148) =~= f.subrange(144, 148));
        assert(b.subrange(148, 152) =~= f.subrange(148, 152));
        assert(b.subrange(152, 156) =~= f.subrange(152, 156));
        self.standard_identifier.lemma_round_trip();
        self.version.lemma_round_trip();
        lemma_array_of::<32>(self.system_identifier.0);
        lemma_array_of::<32>(self.volume_identifier.0);
        lemma_u32_round_trip(self.volume_space_size);
        lemma_u32_round_trip(self.path_table_size);
        lemma_u32_round_trip(self.type_l_path_table_location);
        lemma_u32_round_trip(self.optional_type_l_path_table_location);
        lemma_u32_round_trip(self.type_m_path_table_location);
        lemma_u32_round_trip(self.optional_type_m_path_table_location);
        crate::bytes::lemma_u16_round_trip(self.volume_set_size);
        crate::bytes::lemma_u16_round_trip(self.volume_sequence_number);
        crate::bytes::lemma_u16_round_trip(self.logical_block_size);
    }

    proof fn lemma_decode_back(&self)
        requires
            self.file_structure_version.wf(),
            self.creation_date.wf(),
            self.modification_date.wf(),
            self.expiration_date.wf(),
            self.effective_date.wf(),
        ensures
            ({
                let d = Self::spec_decode(self.spec_bytes());
                &&& d.root_directory_record == self.root_directory_record
                &&& d.volume_set_identifier == self.volume_set_identifier
                &&& d.publisher_identifier == self.publisher_identifier
                &&& d.data_preparer_identifier == self.data_preparer_identifier
                &&& d.application_identifier == self.application_identifier
                &&& d.copyright_file_identifier == self.copyright_file_identifier
                &&& d.abstract_file_identifier == self.abstract_file_identifier
                &&& d.bibliographic_file_identifier == self.bibliographic_file_identifier
                &&& d.creation_date == self.creation_date
                &&& d.modification_date == self.modification_date
                &&& d.expiration_date == self.expiration_date
                &&& d.effective_date == self.effective_date
                &&& d.file_structure_version == self.file_structure_version
                &&& d.application_use == self.application_use
            }),
    {
        self.lemma_back_layout();
        self.file_structure_version.lemma_round_trip();
        lemma_array_of::<128>(self.volume_set_identifier.0);
        lemma_array_of::<128>(self.publisher_identifier.0);
        lemma_array_of::<128>(self.data_preparer_identifier.0);
        lemma_array_of::<128>(self.application_identifier.0);
        lemma_array_of::<37>(self.copyright_file_identifier.0);
        lemma_array_of::<37>(self.abstract_file_identifier.0);
        lemma_array_of::<37>(self.bibliographic_file_identifier.0);
        lemma_array_of::<512>(self.application_use);
        self.root_directory_record.lemma_round_trip();
        self.creation_date.lemma_round_trip();
        self.modification_date.lemma_round_trip();
        self.expiration_date.lemma_round_trip();
        self.effective_date.lemma_round_trip();
    }

    /// In the bytes of a descriptor the two halves of every dual-endian field
    /// hold the same number: those of 32 bits at 80, 132, 158 and 166, those
    /// of 16 bits at 120, 124, 128 and 184.
    pub proof fn lemma_dual_endian(&self)
        ensures
            u32_from_le(self.spec_bytes().subrange(80, 84)) == u32_from_be(
                self.spec_bytes().subrange(84, 88),
            ),
            u32_from_le(self.spec_bytes().subrange(132, 136)) == u32_from_be(
                self.spec_bytes().subrange(136, 140),
            ),
            u32_from_le(self.spec_bytes().subrange(158, 162)) == u32_from_be(
                self.spec_bytes().subrange(162, 166),
            ),
            u32_from_le(self.spec_bytes().subrange(166, 170)) == u32_from_be(
                self.spec_bytes().subrange(170, 174),
            ),
            u16_from_le(self.spec_bytes().subrange(120, 122)) == crate::bytes::u16_from_be(
                self.spec_bytes().subrange(122, 124),
            ),
            u16_from_le(self.spec_bytes().subrange(124, 126)) == crate::bytes::u16_from_be(
                self.spec_bytes().subrange(126, 128),
            ),
            u16_from_le(self.spec_bytes().subrange(128, 130)) == crate::bytes::u16_from_be(
                self.spec_bytes().subrange(130, 132),
            ),
            u16_from_le(self.spec_bytes().subrange(184, 186)) == crate::bytes::u16_from_be(
                self.spec_bytes().subrange(186, 188),
            ),
    {
        let b = self.spec_bytes();
        let f = self.spec_front();
        let r = self.root_directory_record;
        self.lemma_front_layout();
        self.lemma_back_layout();
        r.lemma_layout();
        assert(b.subrange(80, 84) =~= f.subrange(80, 84));
        assert(b.subrange(84, 88) =~= f.subrange(84, 88));
        assert(b.subrange(132, 136) =~= f.subrange(132, 136));
        assert(b.subrange(136, 140) =~= f.subrange(136, 140));
        assert(b.subrange(120, 122) =~= f.subrange(120, 122));
        assert(b.subrange(122, 124) =~= f.subrange(122, 124));
        assert(b.subrange(124, 126) =~= f.subrange(124, 126));
        assert(b.subrange(126, 128) =~= f.subrange(126, 128));
        assert(b.subrange(128, 130) =~= f.subrange(128, 130));
        assert(b.subrange(130, 132) =~= f.subrange(130, 132));
        assert(b.subrange(158, 162) =~= r.spec_bytes().subrange(2, 6));
        assert(b.subrange(162, 166) =~= r.spec_bytes().subrange(6, 10));
        assert(b.subrange(166, 170) =~= r.spec_bytes().subrange(10, 14));
        assert(b.subrange(170, 174) =~= r.spec_bytes().subrange(14, 18));
        assert(b.subrange(184, 186) =~= r.spec_bytes().subrange(28, 30));
        assert(b.subrange(186, 188) =~= r.spec_bytes().subrange(30, 32));
        lemma_u32_round_trip(self.volume_space_size);
        lemma_u32_round_trip(self.path_table_size);
        lemma_u32_round_trip(r.extent_location);
        lemma_u32_round_trip(r.data_length);
        crate::bytes::lemma_u16_round_trip(self.volume_set_size);
        crate::bytes::lemma_u16_round_trip(self.volume_sequence_number);
        crate::bytes::lemma_u16_round_trip(self.logical_block_size);
        crate::bytes::lemma_u16_round_trip(r.volume_sequence_number);
    }

    /// In the bytes of a descriptor every unused or reserved byte is zero:
    /// bytes 72 to 79, byte 882 and bytes 1395 to 2047.
    pub proof fn lemma_reserved_zero(&self)
        ensures
            forall|i: int|
                72 <= i < 80 || i == 882 || 1395 <= i < 2048
                    ==> #[trigger] self.spec_bytes()[i] == 0,
    {
        let b = self.spec_bytes();
        let f = self.spec_front();
        self.lemma_front_layout();
        self.lemma_back_layout();
        assert forall|i: int|
            72 <= i < 80 || i == 882 || 1395 <= i < 2048 implies b[i]
            == 0 by {
            if i < 156 {
                assert(b[i] == b.subrange(0, 156)[i]);
                assert(f[i] == f.subrange(72, 80)[i - 72]);
            } else if 1395 <= i {
                assert(b[i] == b.subrange(1395, 2048)[i - 1395]);
            }
        }
    }
}

impl IsoParse for SupplementaryVolumeDescriptor {
    open spec fn spec_parse(input: Seq<u8>) -> Result<(Self, int), IsoParseError> {
        if input.len() < 2048 {
            Err(
                IsoParseError::InputTooSmall {
                    expected: 2048,
                    got: input.len() as usize,
                    when: "SupplementaryVolumeDescriptor",
                },
            )
        } else if input[0] != 2 {
            Err(IsoParseError::UnknownTag { at: 0, value: input[0] })
        } else {
            match bad_volume_dates(input) {
                Some(e) => Err(e),
                None => Ok((Self::spec_decode(input), 2048)),
            }
        }
    }

    fn parse(input: &[u8]) -> (r: Result<(Self, &[u8]), IsoParseError>) {
        if input.len() < 2048 {
            return Err(
                IsoParseError::InputTooSmall {
                    expected: 2048,
                    got: input.len(),
                    when: "SupplementaryVolumeDescriptor",
                },
            );
        }
        if input[0] != 2 {
            return Err(IsoParseError::UnknownTag { at: 0, value: input[0] });
        }
        if let Some(e) = check_volume_dates(input) {
            return Err(e);
        }
        let value = SupplementaryVolumeDescriptor {
            standard_identifier: StandardIdentifier::from_bytes(take_array::<5>(input, 1)),
            version: VolumeDescriptorVersion::from_u8(input[6]),
            volume_flags: VolumeFlags::from_bits(input[7]),
            system_identifier: A1Characters(take_array::<32>(input, 8)),
            volume_identifier: D1Characters(take_array::<32>(input, 40)),
            volume_space_size: get_u32_le(input, 80),
            escape_sequences: EscapeSequences(take_array::<32>(input, 88)),
            volume_set_size: get_u16_le(input, 120),
            volume_sequence_number: get_u16_le(input, 124),
            logical_block_size: get_u16_le(input, 128),
            path_table_size: get_u32_le(input, 132),
            type_l_path_table_location: get_u32_le(input, 140),
            optional_type_l_path_table_location: get_u32_le(input, 144),
            type_m_path_table_location: get_u32_be(input, 148),
            optional_type_m_path_table_location: get_u32_be(input, 152),
            root_directory_record: RootDirectoryRecord::take(input, 156),
            volume_set_identifier: D1Characters(take_array::<128>(input, 190)),
            publisher_identifier: A1Characters(take_array::<128>(input, 318)),
            data_preparer_identifier: A1Characters(take_array::<128>(input, 446)),
            application_identifier: A1Characters(take_array::<128>(input, 574)),
            copyright_file_identifier: D1Characters(take_array::<37>(input, 702)),
            abstract_file_identifier: D1Characters(take_array::<37>(input, 739)),
            bibliographic_file_identifier: D1Characters(take_array::<37>(input, 776)),
            creation_date: DigitsDate::take(input, 813),
            modification_date: DigitsDate::take(input, 830),
            expiration_date: DigitsDate::take(input, 847),
            effective_date: DigitsDate::take(input, 864),
            file_structure_version: FileStructureVersion::from_u8(input[881]),
            application_use: take_array::<512>(input, 883),
        };
        Ok((value, slice_subrange(input, 2048, input.len())))
    }
}


impl<Ext: Extension> DirectoryRecord<Ext> {
    /// The record that `s` holds at its front, where `s` does hold one.
    pub open spec fn spec_decode(s: Seq<u8>) -> Self {
        DirectoryRecord {
            length: s[0],
            extended_attribute_length: s[1],
            extent_location: u32_from_le(s.subrange(2, 6)),
            data_length: u32_from_le(s.subrange(10, 14)),
            recording_date: NumericalDate::spec_decode(s.subrange(18, 25)),
            file_flags: FileFlags { bits: s[25] },
            file_unit_size: s[26],
            interleave_gap_size: s[27],
            volume_sequence_number: u16_from_le(s.subrange(28, 30)),
            file_identifier_length: s[32],
            file_identifier: Ext::FileIdentifier::spec_decode(s.subrange(33, 33 + s[32])),
        }
    }

    /// Where the fields of a record stand in its bytes.
    #[verifier::rlimit(50)]
    pub proof fn lemma_layout(&self)
        ensures
            self.spec_bytes().len() == record_extent(self.file_identifier_length as int),
            self.spec_bytes()[0] == self.length,
            self.spec_bytes()[1] == self.extended_attribute_length,
            self.spec_bytes().subrange(2, 6) == u32_le(self.extent_location),
            self.spec_bytes().subrange(6, 10) == u32_be(self.extent_location),
            self.spec_bytes().subrange(10, 14) == u32_le(self.data_length),
            self.spec_bytes().subrange(14, 18) == u32_be(self.data_length),
            self.spec_bytes().subrange(18, 25) == self.recording_date.spec_bytes(),
            self.spec_bytes()[25] == self.file_flags.bits,
            self.spec_bytes()[26] == self.file_unit_size,
            self.spec_bytes()[27] == self.interleave_gap_size,
            self.spec_bytes().subrange(28, 30) == crate::bytes::u16_le(
                self.volume_sequence_number,
            ),
            self.spec_bytes().subrange(30, 32) == crate::bytes::u16_be(
                self.volume_sequence_number,
            ),
            self.spec_bytes()[32] == self.file_identifier_length,
            self.spec_bytes().subrange(33, 33 + self.file_identifier_length)
                == self.file_identifier.spec_encode(self.file_identifier_length as nat),
            self.file_identifier_length % 2 == 0 ==> self.spec_bytes()[33
                + self.file_identifier_length] == 0,
    {
        let s = self.spec_bytes();
        let f = self.spec_fixed();
        let n = self.file_identifier_length as int;
        self.lemma_extent();
        self.file_identifier.lemma_encode_len(n as nat);
        assert(s.subrange(0, 33) =~= f);
        assert(f.subrange(2, 6) =~= u32_le(self.extent_location));
        assert(f.subrange(6, 10) =~= u32_be(self.extent_location));
        assert(f.subrange(10, 14) =~= u32_le(self.data_length));
        assert(f.subrange(14, 18) =~= u32_be(self.data_length));
        assert(f.subrange(18, 25) =~= self.recording_date.spec_bytes());
        assert(f.subrange(28, 30) =~= crate::bytes::u16_le(self.volume_sequence_number));
        assert(f.subrange(30, 32) =~= crate::bytes::u16_be(self.volume_sequence_number));
        assert(s.subrange(2, 6) =~= f.subrange(2, 6));
        assert(s.subrange(6, 10) =~= f.subrange(6, 10));
        assert(s.subrange(10, 14) =~= f.subrange(10, 14));
        assert(s.subrange(14, 18) =~= f.subrange(14, 18));
        assert(s.subrange(18, 25) =~= f.subrange(18, 25));
        assert(s.subrange(28, 30) =~= f.subrange(28, 30));
        assert(s.subrange(30, 32) =~= f.subrange(30, 32));
        assert(s[0] == f[0] && s[1] == f[1] && s[25] == f[25] && s[26] == f[26] && s[27] == f[27]
            && s[32] == f[32]);
        assert(s.subrange(33, 33 + n) =~= self.file_identifier.spec_encode(n as nat));
    }

    /// Serializing a well-formed record and parsing the bytes, with whatever
    /// follows them, gives the record back and takes as many bytes as its
    /// length field says.
    pub proof fn lemma_round_trip(&self, rest: Seq<u8>)
        requires
            self.wf(),
        ensures
            Self::spec_parse(self.spec_bytes() + rest) == Ok::<(Self, int), IsoParseError>(
                (*self, self.length as int),
            ),
    {
        let b = self.spec_bytes();
        let n = self.file_identifier_length as int;
        let input = b + rest;
        self.lemma_layout();
        self.file_identifier.lemma_decode_encode(n as nat);
        let m = self.length as int;
        assert(input.subrange(0, m) =~= b.subrange(0, m));
        lemma_same_range(input, b, m, 0, 1);
        lemma_same_range(input, b, m, 1, 2);
        lemma_same_range(input, b, m, 2, 6);
        lemma_same_range(input, b, m, 10, 14);
        lemma_same_range(input, b, m, 18, 25);
        lemma_same_range(input, b, m, 25, 26);
        lemma_same_range(input, b, m, 26, 27);
        lemma_same_range(input, b, m, 27, 28);
        lemma_same_range(input, b, m, 28, 30);
        lemma_same_range(input, b, m, 32, 33);
        lemma_same_range(input, b, m, 33, 33 + n);
        lemma_u32_round_trip(self.extent_location);
        lemma_u32_round_trip(self.data_length);
        crate::bytes::lemma_u16_round_trip(self.volume_sequence_number);
        self.recording_date.lemma_round_trip();
    }
}

impl<Ext: Extension> IsoParse for DirectoryRecord<Ext> {
    /// A record needs its 33 fixed bytes, an identifier of a length that its
    /// kind allows, which is at least one byte, a length that covers the
    /// identifier, and as many bytes of input as that length. What the record
    /// holds after its identifier and padding is passed over.
    open spec fn spec_parse(input: Seq<u8>) -> Result<(Self, int), IsoParseError> {
        if input.len() < 33 {
            Err(
                IsoParseError::InputTooSmall {
                    expected: 33,
                    got: input.len() as usize,
                    when: "DirectoryRecord",
                },
            )
        } else if !Ext::FileIdentifier::spec_valid_len(input[32] as nat) {
            Err(IsoParseError::UnknownTag { at: 32, value: input[32] })
        } else if input[0] < 33 + input[32] {
            Err(IsoParseError::UnknownTag { at: 0, value: input[0] })
        } else if input.len() < input[0] {
            Err(
                IsoParseError::InputTooSmall {
                    expected: input[0] as usize,
                    got: input.len() as usize,
                    when: "DirectoryRecord",
                },
            )
        } else {
            Ok((Self::spec_decode(input), input[0] as int))
        }
    }

    fn parse(input: &[u8]) -> (r: Result<(Self, &[u8]), IsoParseError>) {
        if input.len() < 33 {
            return Err(
                IsoParseError::InputTooSmall {
                    expected: 33,
                    got: input.len(),
                    when: "DirectoryRecord",
                },
            );
        }
        let length = input[0] as usize;
        let n = input[32] as usize;
        if !Ext::FileIdentifier::valid_len(n) {
            return Err(IsoParseError::UnknownTag { at: 32, value: input[32] });
        }
        if length < 33 + n {
            return Err(IsoParseError::UnknownTag { at: 0, value: input[0] });
        }
        if input.len() < length {
            return Err(
                IsoParseError::InputTooSmall {
                    expected: length,
                    got: input.len(),
                    when: "DirectoryRecord",
                },
            );
        }
        let value = DirectoryRecord {
            length: input[0],
            extended_attribute_length: input[1],
            extent_location: get_u32_le(input, 2),
            data_length: get_u32_le(input, 10),
            recording_date: NumericalDate::take(input, 18),
            file_flags: FileFlags::from_bits(input[25]),
            file_unit_size: input[26],
            interleave_gap_size: input[27],
            volume_sequence_number: get_u16_le(input, 28),
            file_identifier_length: input[32],
            file_identifier: Ext::FileIdentifier::take(input, 33, n),
        };
        Ok((value, slice_subrange(input, length, input.len())))
    }
}

/// The identifier of a record as it stands on disk.
pub open spec fn record_identifier<Ext: Extension>(r: DirectoryRecord<Ext>) -> Seq<u8> {
    r.file_identifier.spec_encode(r.file_identifier_length as nat)
}

impl VolumePartitionDescriptor {
    /// Every tag is in its named form and both character fields hold
    /// characters of their class.
    pub open spec fn wf(&self) -> bool {
        &&& self.standard_identifier.wf()
        &&& self.version.wf()
        &&& self.spec_check() is None
    }

    /// The descriptor that the first 2048 bytes of `s` stand for.
    pub open spec fn spec_decode(s: Seq<u8>) -> Self {
        VolumePartitionDescriptor {
            standard_identifier: StandardIdentifier::spec_from_bytes(s.subrange(1, 6)),
            version: VolumeDescriptorVersion::spec_from_u8(s[6]),
            system_identifier: ACharacters(array_of::<32>(s.subrange(8, 40))),
            volume_partition_identifier: DCharacters(array_of::<32>(s.subrange(40, 72))),
            volume_partition_location: u32_from_le(s.subrange(72, 76)),
            volume_partition_size: u32_from_le(s.subrange(80, 84)),
        }
    }

    /// Where the fields of the descriptor stand in its bytes.
    pub proof fn lemma_layout(&self)
        ensures
            self.spec_bytes().len() == 2048,
            self.spec_bytes()[0] == 3,
            self.spec_bytes().subrange(1, 6) == self.standard_identifier.spec_as_bytes(),
            self.spec_bytes()[6] == self.version.spec_to_u8(),
            self.spec_bytes()[7] == 0,
            self.spec_bytes().subrange(8, 40) == self.system_identifier.0@,
            self.spec_bytes().subrange(40, 72) == self.volume_partition_identifier.0@,
            self.spec_bytes().subrange(72, 76) == u32_le(self.volume_partition_location),
            self.spec_bytes().subrange(76, 80) == u32_be(self.volume_partition_location),
            self.spec_bytes().subrange(80, 84) == u32_le(self.volume_partition_size),
            self.spec_bytes().subrange(84, 88) == u32_be(self.volume_partition_size),
            self.spec_bytes().subrange(88, 2048) == zeros(1960),
    {
        let b = self.spec_bytes();
        assert(b.subrange(1, 6) =~= self.standard_identifier.spec_as_bytes());
        assert(b.subrange(8, 40) =~= self.system_identifier.0@);
        assert(b.subrange(40, 72) =~= self.volume_partition_identifier.0@);
        assert(b.subrange(72, 76) =~= u32_le(self.volume_partition_location));
        assert(b.subrange(76, 80) =~= u32_be(self.volume_partition_location));
        assert(b.subrange(80, 84) =~= u32_le(self.volume_partition_size));
        assert(b.subrange(84, 88) =~= u32_be(self.volume_partition_size));
        assert(b.subrange(88, 2048) =~= zeros(1960));
    }

    /// Serializing a well-formed descriptor and parsing the bytes, with
    /// whatever follows them, gives the descriptor back and takes 2048 bytes.
    pub proof fn lemma_round_trip(&self, rest: Seq<u8>)
        requires
            self.wf(),
        ensures
            Self::spec_parse(self.spec_bytes() + rest) == Ok::<(Self, int), IsoParseError>(
                (*self, 2048),
            ),
    {
        let b = self.spec_bytes();
        self.lemma_layout();
        assert((b + rest).subrange(0, 2048) =~= b.subrange(0, 2048));
        lemma_same_range(b + rest, b, 2048, 0, 1);
        lemma_same_range(b + rest, b, 2048, 1, 6);
        lemma_same_range(b + rest, b, 2048, 6, 7);
        lemma_same_range(b + rest, b, 2048, 8, 40);
        lemma_same_range(b + rest, b, 2048, 40, 72);
        lemma_same_range(b + rest, b, 2048, 72, 76);
        lemma_same_range(b + rest, b, 2048, 80, 84);
        self.standard_identifier.lemma_round_trip();
        self.version.lemma_round_trip();
        lemma_array_of::<32>(self.system_identifier.0);
        lemma_array_of::<32>(self.volume_partition_identifier.0);
        lemma_u32_round_trip(self.volume_partition_location);
        lemma_u32_round_trip(self.volume_partition_size);
    }
}

impl IsoParse for VolumePartitionDescriptor {
    open spec fn spec_parse(input: Seq<u8>) -> Result<(Self, int), IsoParseError> {
        if input.len() < 2048 {
            Err(
                IsoParseError::InputTooSmall {
                    expected: 2048,
                    got: input.len() as usize,
                    when: "VolumePartitionDescriptor",
                },
            )
        } else if input[0] != 3 {
            Err(IsoParseError::UnknownTag { at: 0, value: input[0] })
        } else {
            Ok((Self::spec_decode(input), 2048))
        }
    }

    fn parse(input: &[u8]) -> (r: Result<(Self, &[u8]), IsoParseError>) {
        if input.len() < 2048 {
            return Err(
                IsoParseError::InputTooSmall {
                    expected: 2048,
                    got: input.len(),
                    when: "VolumePartitionDescriptor",
                },
            );
        }
        if input[0] != 3 {
            return Err(IsoParseError::UnknownTag { at: 0, value: input[0] });
        }
        let value = VolumePartitionDescriptor {
            standard_identifier: StandardIdentifier::from_bytes(take_array::<5>(input, 1)),
            version: VolumeDescriptorVersion::from_u8(input[6]),
            system_identifier: ACharacters(take_array::<32>(input, 8)),
            volume_partition_identifier: DCharacters(take_array::<32>(input, 40)),
            volume_partition_location: get_u32_le(input, 72),
            volume_partition_size: get_u32_le(input, 80),
        };
        Ok((value, slice_subrange(input, 2048, input.len())))
    }
}

impl VolumeDescriptorSetTerminator {
    /// Serializing the terminator and parsing the bytes, with whatever
    /// follows them, gives the terminator back and takes 2048 bytes.
    pub proof fn lemma_round_trip(&self, rest: Seq<u8>)
        ensures
            Self::spec_parse(self.spec_bytes() + rest) == Ok::<(Self, int), IsoParseError>(
                (*self, 2048),
            ),
    {
        assert((self.spec_bytes() + rest)[0] == self.spec_bytes()[0]);
    }
}

impl IsoParse for VolumeDescriptorSetTerminator {
    /// A terminator is known by its tag alone.
    open spec fn spec_parse(input: Seq<u8>) -> Result<(Self, int), IsoParseError> {
        if input.len() < 2048 {
            Err(
                IsoParseError::InputTooSmall {
                    expected: 2048,
                    got: input.len() as usize,
                    when: "VolumeDescriptorSetTerminator",
                },
            )
        } else if input[0] != 255 {
            Err(IsoParseError::UnknownTag { at: 0, value: input[0] })
        } else {
            Ok((VolumeDescriptorSetTerminator, 2048))
        }
    }

    fn parse(input: &[u8]) -> (r: Result<(Self, &[u8]), IsoParseError>) {
        if input.len() < 2048 {
            return Err(
                IsoParseError::InputTooSmall {
                    expected: 2048,
                    got: input.len(),
                    when: "VolumeDescriptorSetTerminator",
                },
            );
        }
        if input[0] != 255 {
            return Err(IsoParseError::UnknownTag { at: 0, value: input[0] });
        }
        Ok((VolumeDescriptorSetTerminator, slice_subrange(input, 2048, input.len())))
    }
}

/// The 32 bytes of the boot system identifier of El Torito: its name, padded
/// with zero bytes.
pub open spec fn el_torito_system() -> Seq<u8> {
    el_torito_specification() + zeros(9)
}

impl ElToritoBootRecordVolumeDescriptor {
    /// Both tags are in their named form.
    pub open spec fn wf(&self) -> bool {
        &&& self.standard_identifier.wf()
        &&& self.version.wf()
    }

    /// The descriptor that the first 2048 bytes of `s` stand for.
    pub open spec fn spec_decode(s: Seq<u8>) -> Self {
        ElToritoBootRecordVolumeDescriptor {
            standard_identifier: StandardIdentifier::spec_from_bytes(s.subrange(1, 6)),
            version: VolumeDescriptorVersion::spec_from_u8(s[6]),
            boot_catalog_pointer: u32_from_le(s.subrange(71, 75)),
        }
    }

    /// Where the fields of the descriptor stand in its bytes.
    pub proof fn lemma_layout(&self)
        ensures
            self.spec_bytes().len() == 2048,
            self.spec_bytes()[0] == 0,
            self.spec_bytes().subrange(1, 6) == self.standard_identifier.spec_as_bytes(),
            self.spec_bytes()[6] == self.version.spec_to_u8(),
            self.spec_bytes().subrange(7, 39) == el_torito_system(),
            self.spec_bytes().subrange(39, 71) == zeros(32),
            self.spec_bytes().subrange(71, 75) == u32_le(self.boot_catalog_pointer),
            self.spec_bytes().subrange(75, 2048) == zeros(1973),
    {
        let b = self.spec_bytes();
        assert(b.subrange(1, 6) =~= self.standard_identifier.spec_as_bytes());
        assert(b.subrange(7, 39) =~= el_torito_system());
        assert(b.subrange(39, 71) =~= zeros(32));
        assert(b.subrange(71, 75) =~= u32_le(self.boot_catalog_pointer));
        assert(b.subrange(75, 2048) =~= zeros(1973));
    }

    /// Serializing a well-formed descriptor and parsing the bytes, with
    /// whatever follows them, gives the descriptor back and takes 2048 bytes.
    pub proof fn lemma_round_trip(&self, rest: Seq<u8>)
        requires
            self.wf(),
        ensures
            Self::spec_parse(self.spec_bytes() + rest) == Ok::<(Self, int), IsoParseError>(
                (*self, 2048),
            ),
    {
        let b = self.spec_bytes();
        self.lemma_layout();
        assert((b + rest).subrange(0, 2048) =~= b.subrange(0, 2048));
        lemma_same_range(b + rest, b, 2048, 0, 1);
        lemma_same_range(b + rest, b, 2048, 1, 6);
        lemma_same_range(b + rest, b, 2048, 6, 7);
        lemma_same_range(b + rest, b, 2048, 7, 39);
        lemma_same_range(b + rest, b, 2048, 71, 75);
        self.standard_identifier.lemma_round_trip();
        self.version.lemma_round_trip();
        lemma_u32_round_trip(self.boot_catalog_pointer);
    }
}

/// Whether the 32 bytes of `input` from 7 on are the boot system identifier
/// of El Torito.
fn is_el_torito(input: &[u8]) -> (r: bool)
    requires
        input@.len() >= 39,
    ensures
        r == (input@.subrange(7, 39) == el_torito_system()),
{
    let name: [u8; 23] = [
        0x45, 0x4C, 0x20, 0x54, 0x4F, 0x52, 0x49, 0x54, 0x4F, 0x20, 0x53, 0x50, 0x45, 0x43, 0x49,
        0x46, 0x49, 0x43, 0x41, 0x54, 0x49, 0x4F, 0x4E,
    ];
    assert(name@ =~= el_torito_specification());
    let ghost want = el_torito_system();
    let ghost have = input@.subrange(7, 39);
    let mut i: usize = 0;
    while i < 32
        invariant
            i <= 32,
            input@.len() >= 39,
            name@ == el_torito_specification(),
            want == el_torito_system(),
            have == input@.subrange(7, 39),
            forall|j: int| 0 <= j < i ==> have[j] == want[j],
        decreases 32 - i,
    {
        let expected: u8 = if i < 23 {
            name[i]
        } else {
            0
        };
        assert(expected == want[i as int]);
        if input[7 + i] != expected {
            assert(have[i as int] != want[i as int]);
            return false;
        }
        i += 1;
    }
    assert(have =~= want);
    true
}

impl IsoParse for ElToritoBootRecordVolumeDescriptor {
    /// A boot record of El Torito has the tag 0 and names El Torito as its
    /// boot system.
    open spec fn spec_parse(input: Seq<u8>) -> Result<(Self, int), IsoParseError> {
        if input.len() < 2048 {
            Err(
                IsoParseError::InputTooSmall {
                    expected: 2048,
                    got: input.len() as usize,
                    when: "ElToritoBootRecordVolumeDescriptor",
                },
            )
        } else if input[0] != 0 {
            Err(IsoParseError::UnknownTag { at: 0, value: input[0] })
        } else if input.subrange(7, 39) != el_torito_system() {
            Err(IsoParseError::UnknownTag { at: 7, value: input[7] })
        } else {
            Ok((Self::spec_decode(input), 2048))
        }
    }

    fn parse(input: &[u8]) -> (r: Result<(Self, &[u8]), IsoParseError>) {
        if input.len() < 2048 {
            return Err(
                IsoParseError::InputTooSmall {
                    expected: 2048,
                    got: input.len(),
                    when: "ElToritoBootRecordVolumeDescriptor",
                },
            );
        }
        if input[0] != 0 {
            return Err(IsoParseError::UnknownTag { at: 0, value: input[0] });
        }
        if !is_el_torito(input) {
            return Err(IsoParseError::UnknownTag { at: 7, value: input[7] });
        }
        let value = ElToritoBootRecordVolumeDescriptor {
            standard_identifier: StandardIdentifier::from_bytes(take_array::<5>(input, 1)),
            version: VolumeDescriptorVersion::from_u8(input[6]),
            boot_catalog_pointer: get_u32_le(input, 71),
        };
        Ok((value, slice_subrange(input, 2048, input.len())))
    }
}

/// A volume descriptor of one of the kinds that a reader looks at.
#[derive(Debug, Clone, Copy, PartialEq, Eq)]
pub enum VolumeDescriptor {
    Primary(PrimaryVolumeDescriptor),
    Supplementary(SupplementaryVolumeDescriptor),
    Boot(ElToritoBootRecordVolumeDescriptor),
    Partition(VolumePartitionDescriptor),
}

impl VolumeDescriptor {
    /// The descriptor in the sector `input`, told by its first byte; `None`
    /// for the terminator of the set.
    pub open spec fn spec_parse(input: Seq<u8>) -> Result<Option<Self>, IsoParseError> {
        if input.len() < 2048 {
            Err(
                IsoParseError::InputTooSmall {
                    expected: 2048,
                    got: input.len() as usize,
                    when: "VolumeDescriptor",
                },
            )
        } else if input[0] == 1 {
            match PrimaryVolumeDescriptor::spec_parse(input) {
                Ok((d, _)) => Ok(Some(VolumeDescriptor::Primary(d))),
                Err(e) => Err(e),
            }
        } else if input[0] == 2 {
            match SupplementaryVolumeDescriptor::spec_parse(input) {
                Ok((d, _)) => Ok(Some(VolumeDescriptor::Supplementary(d))),
                Err(e) => Err(e),
            }
        } else if input[0] == 0 {
            match ElToritoBootRecordVolumeDescriptor::spec_parse(input) {
                Ok((d, _)) => Ok(Some(VolumeDescriptor::Boot(d))),
                Err(e) => Err(e),
            }
        } else if input[0] == 3 {
            match VolumePartitionDescriptor::spec_parse(input) {
                Ok((d, _)) => Ok(Some(VolumeDescriptor::Partition(d))),
                Err(e) => Err(e),
            }
        } else if input[0] == 255 {
            Ok(None)
        } else {
            Err(IsoParseError::UnknownTag { at: 0, value: input[0] })
        }
    }

    /// Reads the descriptor in the sector `input`.
    pub fn parse(input: &[u8]) -> (r: Result<Option<Self>, IsoParseError>)
        ensures
            r == Self::spec_parse(input@),
    {
        if input.len() < 2048 {
            return Err(
                IsoParseError::InputTooSmall {
                    expected: 2048,
                    got: input.len(),
                    when: "VolumeDescriptor",
                },
            );
        }
        let tag = input[0];
        if tag == 1 {
            match PrimaryVolumeDescriptor::parse(input) {
                Ok((d, _)) => Ok(Some(VolumeDescriptor::Primary(d))),
                Err(e) => Err(e),
            }
        } else if tag == 2 {
            match SupplementaryVolumeDescriptor::parse(input) {
                Ok((d, _)) => Ok(Some(VolumeDescriptor::Supplementary(d))),
                Err(e) => Err(e),
            }
        } else if tag == 0 {
            match ElToritoBootRecordVolumeDescriptor::parse(input) {
                Ok((d, _)) => Ok(Some(VolumeDescriptor::Boot(d))),
                Err(e) => Err(e),
            }
        } else if tag == 3 {
            match VolumePartitionDescriptor::parse(input) {
                Ok((d, _)) => Ok(Some(VolumeDescriptor::Partition(d))),
                Err(e) => Err(e),
            }
        } else if tag == 255 {
            Ok(None)
        } else {
            Err(IsoParseError::UnknownTag { at: 0, value: tag })
        }
    }
}

impl ElToritoValidationEntry {
    /// Every tag is in its named form.
    pub open spec fn wf(&self) -> bool {
        self.header_id.wf() && self.platform_id.wf()
    }

    /// The entry that the first 32 bytes of `s` stand for.
    pub open spec fn spec_decode(s: Seq<u8>) -> Self {
        ElToritoValidationEntry {
            header_id: ElToritoHeaderId::spec_from_u8(s[0]),
            platform_id: ElToritoPlatformId::spec_from_u8(s[1]),
            manufacturer_id: ElToritoManufacturerId(array_of::<24>(s.subrange(4, 28))),
            checksum: u16_from_le(s.subrange(28, 30)),
        }
    }

    /// Serializing a well-formed entry and parsing the bytes, with whatever
    /// follows them, gives the entry back and takes 32 bytes.
    pub proof fn lemma_round_trip(&self, rest: Seq<u8>)
        requires
            self.wf(),
        ensures
            Self::spec_parse(self.spec_bytes() + rest) == Ok::<(Self, int), IsoParseError>(
                (*self, 32),
            ),
    {
        let b = self.spec_bytes();
        let input = b + rest;
        assert(input.subrange(4, 28) =~= self.manufacturer_id.0@);
        assert(input.subrange(28, 30) =~= crate::bytes::u16_le(self.checksum));
        assert(input[0] == b[0] && input[1] == b[1] && input[30] == b[30] && input[31] == b[31]);
        self.header_id.lemma_round_trip();
        self.platform_id.lemma_round_trip();
        lemma_array_of::<24>(self.manufacturer_id.0);
        crate::bytes::lemma_u16_round_trip(self.checksum);
    }
}

impl IsoParse for ElToritoValidationEntry {
    /// A validation entry ends in the key bytes 0x55 and 0xAA. Whether its
    /// words add up to zero is for `checksum_ok` to say.
    open spec fn spec_parse(input: Seq<u8>) -> Result<(Self, int), IsoParseError> {
        if input.len() < 32 {
            Err(
                IsoParseError::InputTooSmall {
                    expected: 32,
                    got: input.len() as usize,
                    when: "ElToritoValidationEntry",
                },
            )
        } else if input[30] != 0x55 {
            Err(IsoParseError::UnknownTag { at: 30, value: input[30] })
        } else if input[31] != 0xAA {
            Err(IsoParseError::UnknownTag { at: 31, value: input[31] })
        } else {
            Ok((Self::spec_decode(input), 32))
        }
    }

    fn parse(input: &[u8]) -> (r: Result<(Self, &[u8]), IsoParseError>) {
        if input.len() < 32 {
            return Err(
                IsoParseError::InputTooSmall {
                    expected: 32,
                    got: input.len(),
                    when: "ElToritoValidationEntry",
                },
            );
        }
        if input[30] != 0x55 {
            return Err(IsoParseError::UnknownTag { at: 30, value: input[30] });
        }
        if input[31] != 0xAA {
            return Err(IsoParseError::UnknownTag { at: 31, value: input[31] });
        }
        let value = ElToritoValidationEntry {
            header_id: ElToritoHeaderId::from_u8(input[0]),
            platform_id: ElToritoPlatformId::from_u8(input[1]),
            manufacturer_id: ElToritoManufacturerId(take_array::<24>(input, 4)),
            checksum: get_u16_le(input, 28),
        };
        Ok((value, slice_subrange(input, 32, input.len())))
    }
}

impl ElToritoInitialSectionEntry {
    /// The boot indicator is in its named form.
    pub open spec fn wf(&self) -> bool {
        self.boot_indicator.wf()
    }

    /// The entry that the first 32 bytes of `s` stand for.
    pub open spec fn spec_decode(s: Seq<u8>) -> Self {
        ElToritoInitialSectionEntry {
            boot_indicator: ElToritoBootIndicator::spec_from_u8(s[0]),
            boot_media_type: ElToritoBootMediaType(s[1]),
            load_segment: u16_from_le(s.subrange(2, 4)),
            system_type: s[4],
            sector_count: u16_from_le(s.subrange(6, 8)),
            virtual_disk_location: u32_from_le(s.subrange(8, 12)),
        }
    }

    /// Serializing a well-formed entry and parsing the bytes, with whatever
    /// follows them, gives the entry back and takes 32 bytes.
    pub proof fn lemma_round_trip(&self, rest: Seq<u8>)
        requires
            self.wf(),
        ensures
            Self::spec_parse(self.spec_bytes() + rest) == Ok::<(Self, int), IsoParseError>(
                (*self, 32),
            ),
    {
        let b = self.spec_bytes();
        let input = b + rest;
        assert(input.subrange(2, 4) =~= crate::bytes::u16_le(self.load_segment));
        assert(input.subrange(6, 8) =~= crate::bytes::u16_le(self.sector_count));
        assert(input.subrange(8, 12) =~= u32_le(self.virtual_disk_location));
        assert(input[0] == b[0] && input[1] == b[1] && input[4] == b[4]);
        self.boot_indicator.lemma_round_trip();
        crate::bytes::lemma_u16_round_trip(self.load_segment);
        crate::bytes::lemma_u16_round_trip(self.sector_count);
        lemma_u32_round_trip(self.virtual_disk_location);
    }
}

impl IsoParse for ElToritoInitialSectionEntry {
    open spec fn spec_parse(input: Seq<u8>) -> Result<(Self, int), IsoParseError> {
        if input.len() < 32 {
            Err(
                IsoParseError::InputTooSmall {
                    expected: 32,
                    got: input.len() as usize,
                    when: "ElToritoInitialSectionEntry",
                },
            )
        } else {
            Ok((Self::spec_decode(input), 32))
        }
    }

    fn parse(input: &[u8]) -> (r: Result<(Self, &[u8]), IsoParseError>) {
        if input.len() < 32 {
            return Err(
                IsoParseError::InputTooSmall {
                    expected: 32,
                    got: input.len(),
                    when: "ElToritoInitialSectionEntry",
                },
            );
        }
        let value = ElToritoInitialSectionEntry {
            boot_indicator: ElToritoBootIndicator::from_u8(input[0]),
            boot_media_type: ElToritoBootMediaType(input[1]),
            load_segment: get_u16_le(input, 2),
            system_type: input[4],
            sector_count: get_u16_le(input, 6),
            virtual_disk_location: get_u32_le(input, 8),
        };
        Ok((value, slice_subrange(input, 32, input.len())))
    }
}

impl ElToritoSectionHeaderEntry {
    /// The platform is in its named form.
    pub open spec fn wf(&self) -> bool {
        self.platform_id.wf()
    }

    /// The entry that the first 32 bytes of `s` stand for, with the header
    /// indicator `header_indicator`.
    pub open spec fn spec_decode(s: Seq<u8>, header_indicator: ElToritoHeaderIndicator) -> Self {
        ElToritoSectionHeaderEntry {
            header_indicator,
            platform_id: ElToritoPlatformId::spec_from_u8(s[1]),
            succeeding_section_entries: u16_from_le(s.subrange(2, 4)),
            section_id: ElToritoSectionId(array_of::<16>(s.subrange(4, 20))),
        }
    }

    /// Serializing a well-formed header and parsing the bytes, with whatever
    /// follows them, gives the header back and takes 32 bytes.
    pub proof fn lemma_round_trip(&self, rest: Seq<u8>)
        requires
            self.wf(),
        ensures
            Self::spec_parse(self.spec_bytes() + rest) == Ok::<(Self, int), IsoParseError>(
                (*self, 32),
            ),
    {
        let b = self.spec_bytes();
        let input = b + rest;
        assert(input.subrange(2, 4) =~= crate::bytes::u16_le(self.succeeding_section_entries));
        assert(input.subrange(4, 20) =~= self.section_id.0@);
        assert(input[0] == b[0] && input[1] == b[1]);
        self.header_indicator.lemma_round_trip();
        self.platform_id.lemma_round_trip();
        crate::bytes::lemma_u16_round_trip(self.succeeding_section_entries);
        lemma_array_of::<16>(self.section_id.0);
    }
}

impl IsoParse for ElToritoSectionHeaderEntry {
    /// A section header starts with the byte that says whether more headers
    /// follow.
    open spec fn spec_parse(input: Seq<u8>) -> Result<(Self, int), IsoParseError> {
        if input.len() < 32 {
            Err(
                IsoParseError::InputTooSmall {
                    expected: 32,
                    got: input.len() as usize,
                    when: "ElToritoSectionHeaderEntry",
                },
            )
        } else {
            match ElToritoHeaderIndicator::spec_from_u8(input[0]) {
                Some(indicator) => Ok((Self::spec_decode(input, indicator), 32)),
                None => Err(IsoParseError::UnknownTag { at: 0, value: input[0] }),
            }
        }
    }

    fn parse(input: &[u8]) -> (r: Result<(Self, &[u8]), IsoParseError>) {
        if input.len() < 32 {
            return Err(
                IsoParseError::InputTooSmall {
                    expected: 32,
                    got: input.len(),
                    when: "ElToritoSectionHeaderEntry",
                },
            );
        }
        let header_indicator = match ElToritoHeaderIndicator::from_u8(input[0]) {
            Some(indicator) => indicator,
            None => {
                return Err(IsoParseError::UnknownTag { at: 0, value: input[0] });
            },
        };
        let value = ElToritoSectionHeaderEntry {
            header_indicator,
            platform_id: ElToritoPlatformId::from_u8(input[1]),
            succeeding_section_entries: get_u16_le(input, 2),
            section_id: ElToritoSectionId(take_array::<16>(input, 4)),
        };
        Ok((value, slice_subrange(input, 32, input.len())))
    }
}

impl ElToritoSectionEntry {
    /// Both tags are in their named form.
    pub open spec fn wf(&self) -> bool {
        self.boot_indicator.wf() && self.selection_criteria_type.wf()
    }

    /// The entry that the first 32 bytes of `s` stand for, with the media
    /// type `boot_media_type`.
    pub open spec fn spec_decode(s: Seq<u8>, boot_media_type: ElToritoBootMediaTypeExt) -> Self {
        ElToritoSectionEntry {
            boot_indicator: ElToritoBootIndicator::spec_from_u8(s[0]),
            boot_media_type,
            load_segment: u16_from_le(s.subrange(2, 4)),
            system_type: s[4],
            sector_count: u16_from_le(s.subrange(6, 8)),
            virtual_disk_location: u32_from_le(s.subrange(8, 12)),
            selection_criteria_type: ElToritoSelectionCriteriaType::spec_from_u8(s[12]),
            vendor_selection_criteria: array_of::<19>(s.subrange(13, 32)),
        }
    }

    /// Serializing a well-formed entry and parsing the bytes, with whatever
    /// follows them, gives the entry back and takes 32 bytes.
    pub proof fn lemma_round_trip(&self, rest: Seq<u8>)
        requires
            self.wf(),
        ensures
            Self::spec_parse(self.spec_bytes() + rest) == Ok::<(Self, int), IsoParseError>(
                (*self, 32),
            ),
    {
        let b = self.spec_bytes();
        let input = b + rest;
        assert(input.subrange(2, 4) =~= crate::bytes::u16_le(self.load_segment));
        assert(input.subrange(6, 8) =~= crate::bytes::u16_le(self.sector_count));
        assert(input.subrange(8, 12) =~= u32_le(self.virtual_disk_location));
        assert(input.subrange(13, 32) =~= self.vendor_selection_criteria@);
        assert(input[0] == b[0] && input[1] == b[1] && input[4] == b[4] && input[12] == b[12]);
        self.boot_indicator.lemma_round_trip();
        self.boot_media_type.lemma_round_trip();
        self.selection_criteria_type.lemma_round_trip();
        crate::bytes::lemma_u16_round_trip(self.load_segment);
        crate::bytes::lemma_u16_round_trip(self.sector_count);
        lemma_u32_round_trip(self.virtual_disk_location);
        lemma_array_of::<19>(self.vendor_selection_criteria);
    }
}

impl IsoParse for ElToritoSectionEntry {
    /// The low five bits of the media type of a section entry name an
    /// emulation type.
    open spec fn spec_parse(input: Seq<u8>) -> Result<(Self, int), IsoParseError> {
        if input.len() < 32 {
            Err(
                IsoParseError::InputTooSmall {
                    expected: 32,
                    got: input.len() as usize,
                    when: "ElToritoSectionEntry",
                },
            )
        } else {
            match ElToritoBootMediaTypeExt::spec_from_u8(input[1]) {
                Some(media) => Ok((Self::spec_decode(input, media), 32)),
                None => Err(IsoParseError::UnknownTag { at: 1, value: input[1] }),
            }
        }
    }

    fn parse(input: &[u8]) -> (r: Result<(Self, &[u8]), IsoParseError>) {
        if input.len() < 32 {
            return Err(
                IsoParseError::InputTooSmall {
                    expected: 32,
                    got: input.len(),
                    when: "ElToritoSectionEntry",
                },
            );
        }
        let boot_media_type = match ElToritoBootMediaTypeExt::from_u8(input[1]) {
            Some(media) => media,
            None => {
                return Err(IsoParseError::UnknownTag { at: 1, value: input[1] });
            },
        };
        let value = ElToritoSectionEntry {
            boot_indicator: ElToritoBootIndicator::from_u8(input[0]),
            boot_media_type,
            load_segment: get_u16_le(input, 2),
            system_type: input[4],
            sector_count: get_u16_le(input, 6),
            virtual_disk_location: get_u32_le(input, 8),
            selection_criteria_type: ElToritoSelectionCriteriaType::from_u8(input[12]),
            vendor_selection_criteria: take_array::<19>(input, 13),
        };
        Ok((value, slice_subrange(input, 32, input.len())))
    }
}

impl ElToritoSectionEntryExtension {
    /// The extension that the first 32 bytes of `s` stand for.
    pub open spec fn spec_decode(s: Seq<u8>) -> Self {
        ElToritoSectionEntryExtension {
            extension_record_follows_indicator: ElToritoExtensionRecordFollowsIndicator {
                bits: s[1],
            },
            vendor_unique_selection_criteria: array_of::<30>(s.subrange(2, 32)),
        }
    }

    /// Serializing an extension and parsing the bytes, with whatever follows
    /// them, gives the extension back and takes 32 bytes.
    pub proof fn lemma_round_trip(&self, rest: Seq<u8>)
        ensures
            Self::spec_parse(self.spec_bytes() + rest) == Ok::<(Self, int), IsoParseError>(
                (*self, 32),
            ),
    {
        let b = self.spec_bytes();
        let input = b + rest;
        assert(input.subrange(2, 32) =~= self.vendor_unique_selection_criteria@);
        assert(input[0] == b[0] && input[1] == b[1]);
        lemma_array_of::<30>(self.vendor_unique_selection_criteria);
    }
}

impl IsoParse for ElToritoSectionEntryExtension {
    /// An extension starts with the byte 44.
    open spec fn spec_parse(input: Seq<u8>) -> Result<(Self, int), IsoParseError> {
        if input.len() < 32 {
            Err(
                IsoParseError::InputTooSmall {
                    expected: 32,
                    got: input.len() as usize,
                    when: "ElToritoSectionEntryExtension",
                },
            )
        } else if input[0] != 44 {
            Err(IsoParseError::UnknownTag { at: 0, value: input[0] })
        } else {
            Ok((Self::spec_decode(input), 32))
        }
    }

    fn parse(input: &[u8]) -> (r: Result<(Self, &[u8]), IsoParseError>) {
        if input.len() < 32 {
            return Err(
                IsoParseError::InputTooSmall {
                    expected: 32,
                    got: input.len(),
                    when: "ElToritoSectionEntryExtension",
                },
            );
        }
        if input[0] != 44 {
            return Err(IsoParseError::UnknownTag { at: 0, value: input[0] });
        }
        let value = ElToritoSectionEntryExtension {
            extension_record_follows_indicator: ElToritoExtensionRecordFollowsIndicator::from_bits(
                input[1],
            ),
            vendor_unique_selection_criteria: take_array::<30>(input, 2),
        };
        Ok((value, slice_subrange(input, 32, input.len())))
    }
}

} // verus!
