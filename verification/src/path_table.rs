//! The records of a path table, in the byte order of the table that holds
//! them.

use crate::bytes::{
    get_u16_be, get_u16_le, get_u32_be, get_u32_le, lemma_u32_round_trip, lemma_u16_round_trip, put_fill,
    put_u16_be, put_u16_le, put_u32_be, put_u32_le, put_u8, u16_be, u16_from_be,
    u16_from_le, u16_le, u32_be, u32_from_be, u32_from_le, u32_le, zeros,
};
use crate::parse::IsoParseError;
use crate::serialize::{lemma_written, IsoSerializeError};
use crate::spec::{Extension, Identifier, PathTableRecord};
use vstd::prelude::*;
use vstd::slice::slice_subrange;

verus! {

/// How many bytes a path table record with an identifier of `id_len` bytes
/// takes: 8, the identifier, and a padding byte after an identifier of odd
/// length.
pub open spec fn path_record_extent(id_len: int) -> int {
    8 + id_len + id_len % 2
}

/// The four bytes of `v` in the order of the table.
pub open spec fn ordered_u32(v: u32, big_endian: bool) -> Seq<u8> {
    if big_endian {
        u32_be(v)
    } else {
        u32_le(v)
    }
}

/// The two bytes of `v` in the order of the table.
pub open spec fn ordered_u16(v: u16, big_endian: bool) -> Seq<u8> {
    if big_endian {
        u16_be(v)
    } else {
        u16_le(v)
    }
}

/// The integer that the first four bytes of `s` hold in the order of the table.
pub open spec fn u32_ordered(s: Seq<u8>, big_endian: bool) -> u32 {
    if big_endian {
        u32_from_be(s)
    } else {
        u32_from_le(s)
    }
}

/// The integer that the first two bytes of `s` hold in the order of the table.
pub open spec fn u16_ordered(s: Seq<u8>, big_endian: bool) -> u16 {
    if big_endian {
        u16_from_be(s)
    } else {
        u16_from_le(s)
    }
}

impl<Ext: Extension> PathTableRecord<Ext> {
    /// The record is one that can stand on disk: its identifier has a length
    /// that its kind allows, and nothing is held beyond it.
    pub open spec fn wf(&self) -> bool {
        self.directory_identifier.spec_canonical(self.directory_identifier_length as nat)
    }

    /// The eight bytes before the identifier.
    pub open spec fn spec_fixed(&self, big_endian: bool) -> Seq<u8> {
        seq![self.directory_identifier_length] + seq![self.extended_attribute_length]
            + ordered_u32(self.extent_location, big_endian) + ordered_u16(
            self.parent_directory_number,
            big_endian,
        )
    }

    /// The record on disk, in a type M table where `big_endian` holds and in
    /// a type L table where it does not.
    pub open spec fn spec_bytes(&self, big_endian: bool) -> Seq<u8> {
        self.spec_fixed(big_endian) + self.directory_identifier.spec_encode(
            self.directory_identifier_length as nat,
        ) + zeros((self.directory_identifier_length % 2) as nat)
    }

    /// The record that `s` holds at its front, where `s` does hold one.
    pub open spec fn spec_decode(s: Seq<u8>, big_endian: bool) -> Self {
        PathTableRecord {
            directory_identifier_length: s[0],
            extended_attribute_length: s[1],
            extent_location: u32_ordered(s.subrange(2, 6), big_endian),
            parent_directory_number: u16_ordered(s.subrange(6, 8), big_endian),
            directory_identifier: Ext::DirectoryIdentifier::spec_decode(s.subrange(8, 8 + s[0])),
        }
    }

    /// A record needs its eight fixed bytes, an identifier of a length that
    /// its kind allows, and as many bytes of input as both take with the
    /// padding. The result names the record and how many bytes it took.
    pub open spec fn spec_parse(input: Seq<u8>, big_endian: bool) -> Result<
        (Self, int),
        IsoParseError,
    > {
        if input.len() < 8 {
            Err(
                IsoParseError::InputTooSmall {
                    expected: 8,
                    got: input.len() as usize,
                    when: "PathTableRecord",
                },
            )
        } else if !Ext::DirectoryIdentifier::spec_valid_len(input[0] as nat) {
            Err(IsoParseError::UnknownTag { at: 0, value: input[0] })
        } else if input.len() < path_record_extent(input[0] as int) {
            Err(
                IsoParseError::InputTooSmall {
                    expected: path_record_extent(input[0] as int) as usize,
                    got: input.len() as usize,
                    when: "PathTableRecord",
                },
            )
        } else {
            Ok((Self::spec_decode(input, big_endian), path_record_extent(input[0] as int)))
        }
    }

    /// Whether the record can be written, and what is wrong with it where it
    /// can not.
    pub open spec fn spec_check(&self, len: nat) -> Option<IsoSerializeError> {
        if !Ext::DirectoryIdentifier::spec_valid_len(self.directory_identifier_length as nat) {
            Some(
                IsoSerializeError::BadCharacter {
                    field: "directory_identifier_length",
                    offset: 0,
                },
            )
        } else if len < path_record_extent(self.directory_identifier_length as int) {
            Some(
                IsoSerializeError::InputTooSmall {
                    expected: path_record_extent(self.directory_identifier_length as int) as usize,
                    got: len as usize,
                    when: "PathTableRecord",
                },
            )
        } else {
            None
        }
    }

    pub proof fn lemma_extent(&self, big_endian: bool)
        ensures
            self.spec_fixed(big_endian).len() == 8,
            self.spec_bytes(big_endian).len() == path_record_extent(
                self.directory_identifier_length as int,
            ),
    {
        self.directory_identifier.lemma_encode_len(self.directory_identifier_length as nat);
        lemma_u32_round_trip(self.extent_location);
        lemma_u16_round_trip(self.parent_directory_number);
    }

    /// How many bytes the record takes on disk.
    pub fn extent(&self) -> (n: usize)
        ensures
            n == path_record_extent(self.directory_identifier_length as int),
    {
        let n = self.directory_identifier_length as usize;
        8 + n + n % 2
    }

    /// Writes the record at the front of `out`, in the byte order of a type M
    /// table where `big_endian` holds and of a type L table where it does
    /// not, and returns how many bytes it took. Nothing is written where the
    /// identifier length is none that its kind allows or `out` is too short.
    pub fn serialize(&self, out: &mut [u8], big_endian: bool) -> (r: Result<
        usize,
        IsoSerializeError,
    >)
        ensures
            final(out)@.len() == old(out)@.len(),
            match self.spec_check(old(out)@.len()) {
                Some(e) => r == Err::<usize, IsoSerializeError>(e) && final(out)@ == old(out)@,
                None => r == Ok::<usize, IsoSerializeError>(
                    path_record_extent(self.directory_identifier_length as int) as usize,
                ) && final(out)@ == self.spec_bytes(big_endian) + old(out)@.skip(
                    path_record_extent(self.directory_identifier_length as int),
                ),
            },
    {
        let n = self.directory_identifier_length as usize;
        if !Ext::DirectoryIdentifier::valid_len(n) {
            return Err(
                IsoSerializeError::BadCharacter {
                    field: "directory_identifier_length",
                    offset: 0,
                },
            );
        }
        let size = self.extent();
        if out.len() < size {
            return Err(
                IsoSerializeError::InputTooSmall {
                    expected: size,
                    got: out.len(),
                    when: "PathTableRecord",
                },
            );
        }
        proof {
            self.lemma_extent(big_endian);
            Ext::DirectoryIdentifier::lemma_valid_len(n as nat);
        }
        let p = put_u8(out, 0, self.directory_identifier_length);
        assert(out@.subrange(0, 1) =~= seq![self.directory_identifier_length]);
        let p = put_u8(out, p, self.extended_attribute_length);
        let p = if big_endian {
            put_u32_be(out, p, self.extent_location)
        } else {
            put_u32_le(out, p, self.extent_location)
        };
        let p = if big_endian {
            put_u16_be(out, p, self.parent_directory_number)
        } else {
            put_u16_le(out, p, self.parent_directory_number)
        };
        assert(p == 8);
        let p = self.directory_identifier.put(out, p, n);
        let p = put_fill(out, p, n % 2, 0);
        assert(out@.subrange(0, p as int) == self.spec_bytes(big_endian));
        proof {
            assert(old(out)@.subrange(0, 0) + self.spec_bytes(big_endian) =~= self.spec_bytes(
                big_endian,
            ));
            lemma_written(old(out)@, out@, self.spec_bytes(big_endian));
        }
        Ok(size)
    }

    /// Reads the record at the front of `input` in the byte order of a type M
    /// table where `big_endian` holds and of a type L table where it does
    /// not, and returns it with the input after it.
    pub fn parse(input: &[u8], big_endian: bool) -> (r: Result<(Self, &[u8]), IsoParseError>)
        ensures
            match Self::spec_parse(input@, big_endian) {
                Ok((value, used)) => r is Ok && r->Ok_0.0 == value && r->Ok_0.1@ == input@.skip(
                    used,
                ),
                Err(e) => r == Err::<(Self, &[u8]), IsoParseError>(e),
            },
    {
        if input.len() < 8 {
            return Err(
                IsoParseError::InputTooSmall {
                    expected: 8,
                    got: input.len(),
                    when: "PathTableRecord",
                },
            );
        }
        let n = input[0] as usize;
        if !Ext::DirectoryIdentifier::valid_len(n) {
            return Err(IsoParseError::UnknownTag { at: 0, value: input[0] });
        }
        let size = 8 + n + n % 2;
        if input.len() < size {
            return Err(
                IsoParseError::InputTooSmall {
                    expected: size,
                    got: input.len(),
                    when: "PathTableRecord",
                },
            );
        }
        let extent_location = if big_endian {
            get_u32_be(input, 2)
        } else {
            get_u32_le(input, 2)
        };
        let parent_directory_number = if big_endian {
            get_u16_be(input, 6)
        } else {
            get_u16_le(input, 6)
        };
        let value = PathTableRecord {
            directory_identifier_length: input[0],
            extended_attribute_length: input[1],
            extent_location,
            parent_directory_number,
            directory_identifier: Ext::DirectoryIdentifier::take(input, 8, n),
        };
        let rest = slice_subrange(input, size, input.len());
        assert(rest@ =~= input@.skip(size as int));
        Ok((value, rest))
    }

    /// Serializing a well-formed record and parsing the bytes in the same
    /// byte order, with whatever follows them, gives the record back and
    /// takes as many bytes as were written.
    pub proof fn lemma_round_trip(&self, big_endian: bool, rest: Seq<u8>)
        requires
            self.wf(),
        ensures
            Self::spec_parse(self.spec_bytes(big_endian) + rest, big_endian) == Ok::<
                (Self, int),
                IsoParseError,
            >((*self, path_record_extent(self.directory_identifier_length as int))),
    {
        let b = self.spec_bytes(big_endian);
        let f = self.spec_fixed(big_endian);
        let n = self.directory_identifier_length as int;
        let input = b + rest;
        self.lemma_extent(big_endian);
        self.directory_identifier.lemma_decode_encode(n as nat);
        self.directory_identifier.lemma_encode_len(n as nat);
        lemma_u32_round_trip(self.extent_location);
        lemma_u16_round_trip(self.parent_directory_number);
        assert(input[0] == f[0] && input[1] == f[1]);
        assert(input.subrange(2, 6) =~= ordered_u32(self.extent_location, big_endian));
        assert(input.subrange(6, 8) =~= ordered_u16(self.parent_directory_number, big_endian));
        assert(input.subrange(8, 8 + n) =~= self.directory_identifier.spec_encode(n as nat));
    }
}

} // verus!
