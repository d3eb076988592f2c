//! Byte-level primitives shared by the codec: fixed fills, little- and
//! big-endian integers, and cursor-style writes into a byte slice.

use byteorder::{BigEndian, ByteOrder};
use vstd::prelude::*;

verus! {

/// `n` copies of the byte `b`.
pub open spec fn filled(n: nat, b: u8) -> Seq<u8> {
    Seq::new(n, |i: int| b)
}

/// `n` zero bytes, the content of every reserved region.
pub open spec fn zeros(n: nat) -> Seq<u8> {
    filled(n, 0u8)
}

/// The two bytes of `v`, least significant first.
pub open spec fn u16_le(v: u16) -> Seq<u8> {
    seq![(v % 256) as u8, (v / 256) as u8]
}

/// The two bytes of `v`, most significant first.
pub open spec fn u16_be(v: u16) -> Seq<u8> {
    seq![(v / 256) as u8, (v % 256) as u8]
}

/// The four bytes of `v`, least significant first.
pub open spec fn u32_le(v: u32) -> Seq<u8> {
    seq![
        (v % 256) as u8,
        ((v / 256) % 256) as u8,
        ((v / 65536) % 256) as u8,
        (v / 16777216) as u8,
    ]
}

/// The four bytes of `v`, most significant first.
pub open spec fn u32_be(v: u32) -> Seq<u8> {
    seq![
        (v / 16777216) as u8,
        ((v / 65536) % 256) as u8,
        ((v / 256) % 256) as u8,
        (v % 256) as u8,
    ]
}

/// A dual-endian 16-bit field: the little-endian copy, then the big-endian one.
pub open spec fn u16_both(v: u16) -> Seq<u8> {
    u16_le(v) + u16_be(v)
}

/// A dual-endian 32-bit field: the little-endian copy, then the big-endian one.
pub open spec fn u32_both(v: u32) -> Seq<u8> {
    u32_le(v) + u32_be(v)
}

/// The integer whose little-endian bytes are `s[0]`, `s[1]`.
pub open spec fn u16_from_le(s: Seq<u8>) -> u16
    recommends
        s.len() >= 2,
{
    (s[0] as int + 256 * (s[1] as int)) as u16
}

/// The integer whose big-endian bytes are `s[0]`, `s[1]`.
pub open spec fn u16_from_be(s: Seq<u8>) -> u16
    recommends
        s.len() >= 2,
{
    (256 * (s[0] as int) + s[1] as int) as u16
}

/// The integer whose little-endian bytes are `s[0]` to `s[3]`.
pub open spec fn u32_from_le(s: Seq<u8>) -> u32
    recommends
        s.len() >= 4,
{
    (s[0] as int + 256 * (s[1] as int) + 65536 * (s[2] as int) + 16777216 * (s[3] as int)) as u32
}

/// The integer whose big-endian bytes are `s[0]` to `s[3]`.
pub open spec fn u32_from_be(s: Seq<u8>) -> u32
    recommends
        s.len() >= 4,
{
    (16777216 * (s[0] as int) + 65536 * (s[1] as int) + 256 * (s[2] as int) + s[3] as int) as u32
}

/// Decoding undoes encoding, in either byte order.
pub proof fn lemma_u16_round_trip(v: u16)
    ensures
        u16_le(v).len() == 2,
        u16_be(v).len() == 2,
        u16_from_le(u16_le(v)) == v,
        u16_from_be(u16_be(v)) == v,
{
}

/// Decoding undoes encoding, in either byte order.
pub proof fn lemma_u32_round_trip(v: u32)
    ensures
        u32_le(v).len() == 4,
        u32_be(v).len() == 4,
        u32_from_le(u32_le(v)) == v,
        u32_from_be(u32_be(v)) == v,
{
    let x = v as int;
    let (a, b, c, d) = (x % 256, (x / 256) % 256, (x / 65536) % 256, x / 16777216);
    assert(a + 256 * b + 65536 * c + 16777216 * d == x && 0 <= a < 256 && 0 <= b < 256 && 0 <= c
        < 256 && 0 <= d < 256) by (nonlinear_arith)
        requires
            0 <= x < 0x1_0000_0000,
            a == x % 256,
            b == (x / 256) % 256,
            c == (x / 65536) % 256,
            d == x / 16777216,
    ;
    assert(u32_le(v)[0] == a && u32_le(v)[1] == b && u32_le(v)[2] == c && u32_le(v)[3] == d);
    assert(u32_be(v)[0] == d && u32_be(v)[1] == c && u32_be(v)[2] == b && u32_be(v)[3] == a);
}

/// Encoding undoes decoding: two bytes are the little-endian (big-endian) form
/// of the integer they decode to.
pub proof fn lemma_u16_bytes_round_trip(s: Seq<u8>)
    requires
        s.len() == 2,
    ensures
        u16_le(u16_from_le(s)) == s,
        u16_be(u16_from_be(s)) == s,
{
    assert(u16_le(u16_from_le(s)) =~= s);
    assert(u16_be(u16_from_be(s)) =~= s);
}

/// Encoding undoes decoding: four bytes are the little-endian (big-endian) form
/// of the integer they decode to.
pub proof fn lemma_u32_bytes_round_trip(s: Seq<u8>)
    requires
        s.len() == 4,
    ensures
        u32_le(u32_from_le(s)) == s,
        u32_be(u32_from_be(s)) == s,
{
    let (a, b, c, d) = (s[0] as int, s[1] as int, s[2] as int, s[3] as int);
    let le = a + 256 * b + 65536 * c + 16777216 * d;
    assert(le % 256 == a && (le / 256) % 256 == b && (le / 65536) % 256 == c && le / 16777216 == d)
        by (nonlinear_arith)
        requires
            le == a + 256 * b + 65536 * c + 16777216 * d,
            0 <= a < 256,
            0 <= b < 256,
            0 <= c < 256,
            0 <= d < 256,
    ;
    let be = 16777216 * a + 65536 * b + 256 * c + d;
    assert(be % 256 == d && (be / 256) % 256 == c && (be / 65536) % 256 == b && be / 16777216 == a)
        by (nonlinear_arith)
        requires
            be == 16777216 * a + 65536 * b + 256 * c + d,
            0 <= a < 256,
            0 <= b < 256,
            0 <= c < 256,
            0 <= d < 256,
    ;
    assert(u32_le(u32_from_le(s)) =~= s);
    assert(u32_be(u32_from_be(s)) =~= s);
}

/// In a dual-endian field both halves encode the same integer.
pub proof fn lemma_u16_both_agree(v: u16)
    ensures
        u16_both(v).len() == 4,
        u16_from_le(u16_both(v).subrange(0, 2)) == v,
        u16_from_be(u16_both(v).subrange(2, 4)) == v,
{
    assert(u16_both(v).subrange(0, 2) =~= u16_le(v));
    assert(u16_both(v).subrange(2, 4) =~= u16_be(v));
}

/// In a dual-endian field both halves encode the same integer.
pub proof fn lemma_u32_both_agree(v: u32)
    ensures
        u32_both(v).len() == 8,
        u32_from_le(u32_both(v).subrange(0, 4)) == v,
        u32_from_be(u32_both(v).subrange(4, 8)) == v,
{
    assert(u32_both(v).subrange(0, 4) =~= u32_le(v));
    assert(u32_both(v).subrange(4, 8) =~= u32_be(v));
}

/// Writes `v` at `at` and returns the position after it.
pub fn put_u8(out: &mut [u8], at: usize, v: u8) -> (end: usize)
    requires
        at < old(out)@.len(),
    ensures
        end == at + 1,
        final(out)@.len() == old(out)@.len(),
        final(out)@.subrange(0, end as int) == old(out)@.subrange(0, at as int) + seq![v],
        forall|i: int| end <= i < old(out)@.len() ==> final(out)@[i] == old(out)@[i],
{
    out[at] = v;
    assert(out@.subrange(0, at + 1) =~= old(out)@.subrange(0, at as int) + seq![v]);
    at + 1
}

/// Writes `n` copies of `b` from `at` on and returns the position after them.
pub fn put_fill(out: &mut [u8], at: usize, n: usize, b: u8) -> (end: usize)
    requires
        at + n <= old(out)@.len(),
    ensures
        end == at + n,
        final(out)@.len() == old(out)@.len(),
        final(out)@.subrange(0, end as int) == old(out)@.subrange(0, at as int) + filled(n as nat, b),
        forall|i: int| end <= i < old(out)@.len() ==> final(out)@[i] == old(out)@[i],
{
    let total = out.len();
    let mut i: usize = 0;
    while i < n
        invariant
            i <= n,
            total == out@.len(),
            at + n <= out@.len(),
            out@.len() == old(out)@.len(),
            forall|j: int| 0 <= j < at ==> out@[j] == old(out)@[j],
            forall|j: int| at <= j < at + i ==> out@[j] == b,
            forall|j: int| at + i <= j < out@.len() ==> out@[j] == old(out)@[j],
        decreases n - i,
    {
        out[at + i] = b;
        i += 1;
    }
    assert(out@.subrange(0, at + n) =~= old(out)@.subrange(0, at as int) + filled(n as nat, b));
    at + n
}

/// Writes the bytes of `src` from `at` on and returns the position after them.
pub fn put_bytes(out: &mut [u8], at: usize, src: &[u8]) -> (end: usize)
    requires
        at + src@.len() <= old(out)@.len(),
    ensures
        end == at + src@.len(),
        final(out)@.len() == old(out)@.len(),
        final(out)@.subrange(0, end as int) == old(out)@.subrange(0, at as int) + src@,
        forall|i: int| end <= i < old(out)@.len() ==> final(out)@[i] == old(out)@[i],
{
    let n = src.len();
    let total = out.len();
    let mut i: usize = 0;
    while i < n
        invariant
            i <= n,
            n == src@.len(),
            total == out@.len(),
            at + n <= out@.len(),
            out@.len() == old(out)@.len(),
            forall|j: int| 0 <= j < at ==> out@[j] == old(out)@[j],
            forall|j: int| at <= j < at + i ==> out@[j] == src@[j - at],
            forall|j: int| at + i <= j < out@.len() ==> out@[j] == old(out)@[j],
        decreases n - i,
    {
        out[at + i] = src[i];
        i += 1;
    }
    assert(out@.subrange(0, at + n) =~= old(out)@.subrange(0, at as int) + src@);
    at + n
}

/// Writes the bytes of `src` from `at` on and leaves the rest as it is.
pub fn put_bytes_at(out: &mut [u8], at: usize, src: &[u8])
    requires
        at + src@.len() <= old(out)@.len(),
    ensures
        final(out)@.len() == old(out)@.len(),
        final(out)@.subrange(at as int, at + src@.len()) == src@,
        forall|i: int|
            0 <= i < old(out)@.len() && !(at <= i < at + src@.len()) ==> final(out)@[i] == old(
                out,
            )@[i],
{
    let ghost before = out@;
    let end = put_bytes(out, at, src);
    assert forall|i: int| 0 <= i < at implies out@[i] == before[i] by {
        assert(out@.subrange(0, end as int)[i] == before.subrange(0, at as int)[i]);
    }
    assert forall|i: int| at <= i < end implies out@[i] == src@[i - at] by {
        assert(out@.subrange(0, end as int)[i] == src@[i - at]);
    }
    assert(out@.subrange(at as int, at + src@.len()) =~= src@);
}

/// Writes `v` little-endian at `at`.
pub fn put_u16_le(out: &mut [u8], at: usize, v: u16) -> (end: usize)
    requires
        at + 2 <= old(out)@.len(),
    ensures
        end == at + 2,
        final(out)@.len() == old(out)@.len(),
        final(out)@.subrange(0, end as int) == old(out)@.subrange(0, at as int) + u16_le(v),
        forall|i: int| end <= i < old(out)@.len() ==> final(out)@[i] == old(out)@[i],
{
    out[at] = (v % 256) as u8;
    out[at + 1] = (v / 256) as u8;
    assert(out@.subrange(0, at + 2) =~= old(out)@.subrange(0, at as int) + u16_le(v));
    at + 2
}

/// Writes `v` big-endian at `at`.
pub fn put_u16_be(out: &mut [u8], at: usize, v: u16) -> (end: usize)
    requires
        at + 2 <= old(out)@.len(),
    ensures
        end == at + 2,
        final(out)@.len() == old(out)@.len(),
        final(out)@.subrange(0, end as int) == old(out)@.subrange(0, at as int) + u16_be(v),
        forall|i: int| end <= i < old(out)@.len() ==> final(out)@[i] == old(out)@[i],
{
    out[at] = (v / 256) as u8;
    out[at + 1] = (v % 256) as u8;
    assert(out@.subrange(0, at + 2) =~= old(out)@.subrange(0, at as int) + u16_be(v));
    at + 2
}

/// Writes `v` little-endian at `at`.
pub fn put_u32_le(out: &mut [u8], at: usize, v: u32) -> (end: usize)
    requires
        at + 4 <= old(out)@.len(),
    ensures
        end == at + 4,
        final(out)@.len() == old(out)@.len(),
        final(out)@.subrange(0, end as int) == old(out)@.subrange(0, at as int) + u32_le(v),
        forall|i: int| end <= i < old(out)@.len() ==> final(out)@[i] == old(out)@[i],
{
    out[at] = (v % 256) as u8;
    out[at + 1] = ((v / 256) % 256) as u8;
    out[at + 2] = ((v / 65536) % 256) as u8;
    out[at + 3] = (v / 16777216) as u8;
    assert(out@.subrange(0, at + 4) =~= old(out)@.subrange(0, at as int) + u32_le(v));
    at + 4
}

/// Writes `v` big-endian at `at`.
pub fn put_u32_be(out: &mut [u8], at: usize, v: u32) -> (end: usize)
    requires
        at + 4 <= old(out)@.len(),
    ensures
        end == at + 4,
        final(out)@.len() == old(out)@.len(),
        final(out)@.subrange(0, end as int) == old(out)@.subrange(0, at as int) + u32_be(v),
        forall|i: int| end <= i < old(out)@.len() ==> final(out)@[i] == old(out)@[i],
{
    out[at] = (v / 16777216) as u8;
    out[at + 1] = ((v / 65536) % 256) as u8;
    out[at + 2] = ((v / 256) % 256) as u8;
    out[at + 3] = (v % 256) as u8;
    assert(out@.subrange(0, at + 4) =~= old(out)@.subrange(0, at as int) + u32_be(v));
    at + 4
}

/// Writes `v` as a dual-endian field at `at`.
pub fn put_u16_both(out: &mut [u8], at: usize, v: u16) -> (end: usize)
    requires
        at + 4 <= old(out)@.len(),
    ensures
        end == at + 4,
        final(out)@.len() == old(out)@.len(),
        final(out)@.subrange(0, end as int) == old(out)@.subrange(0, at as int) + u16_both(v),
        forall|i: int| end <= i < old(out)@.len() ==> final(out)@[i] == old(out)@[i],
{
    let mid = put_u16_le(out, at, v);
    let end = put_u16_be(out, mid, v);
    assert(out@.subrange(0, end as int) =~= old(out)@.subrange(0, at as int) + u16_both(v));
    end
}

/// Writes `v` as a dual-endian field at `at`.
pub fn put_u32_both(out: &mut [u8], at: usize, v: u32) -> (end: usize)
    requires
        at + 8 <= old(out)@.len(),
    ensures
        end == at + 8,
        final(out)@.len() == old(out)@.len(),
        final(out)@.subrange(0, end as int) == old(out)@.subrange(0, at as int) + u32_both(v),
        forall|i: int| end <= i < old(out)@.len() ==> final(out)@[i] == old(out)@[i],
{
    let mid = put_u32_le(out, at, v);
    let end = put_u32_be(out, mid, v);
    assert(out@.subrange(0, end as int) =~= old(out)@.subrange(0, at as int) + u32_both(v));
    end
}

/// Reads the little-endian 16-bit integer at `at`.
pub fn get_u16_le(input: &[u8], at: usize) -> (v: u16)
    requires
        at + 2 <= input@.len(),
    ensures
        v == u16_from_le(input@.subrange(at as int, at + 2)),
{
    (input[at] as u16) + 256 * (input[at + 1] as u16)
}

/// Reads the little-endian 32-bit integer at `at`.
pub fn get_u32_le(input: &[u8], at: usize) -> (v: u32)
    requires
        at + 4 <= input@.len(),
    ensures
        v == u32_from_le(input@.subrange(at as int, at + 4)),
{
    (input[at] as u32) + 256 * (input[at + 1] as u32) + 65536 * (input[at + 2] as u32) + 16777216
        * (input[at + 3] as u32)
}

/// Reads the big-endian 16-bit integer at `at`.
pub fn get_u16_be(input: &[u8], at: usize) -> (v: u16)
    requires
        at + 2 <= input@.len(),
    ensures
        v == u16_from_be(input@.subrange(at as int, at + 2)),
{
    256 * (input[at] as u16) + (input[at + 1] as u16)
}

/// Reads the big-endian 32-bit integer at `at`.
pub fn get_u32_be(input: &[u8], at: usize) -> (v: u32)
    requires
        at + 4 <= input@.len(),
    ensures
        v == u32_from_be(input@.subrange(at as int, at + 4)),
{
    16777216 * (input[at] as u32) + 65536 * (input[at + 1] as u32) + 256 * (input[at + 2] as u32)
        + (input[at + 3] as u32)
}

/// The array that holds the `N` bytes of `s`.
pub open spec fn array_of<const N: usize>(s: Seq<u8>) -> [u8; N]
    recommends
        s.len() == N,
{
    choose|a: [u8; N]| a@ == s
}

/// An array is the one that holds its own bytes.
pub proof fn lemma_array_of<const N: usize>(a: [u8; N])
    ensures
        array_of::<N>(a@) == a,
{
    let c = array_of::<N>(a@);
    assert(c@ == a@);
    assert(c =~= a);
}

/// An array whose first `k` bytes are those of `s`.
pub open spec fn array_prefix<const N: usize>(s: Seq<u8>, k: nat) -> [u8; N]
    decreases k,
{
    if k == 0 {
        vstd::array::spec_array_fill_for_copy_type::<u8, N>(0u8)
    } else {
        vstd::array::spec_array_update(array_prefix::<N>(s, (k - 1) as nat), k - 1, s[k - 1])
    }
}

proof fn lemma_array_prefix<const N: usize>(s: Seq<u8>, k: nat)
    requires
        s.len() == N,
        k <= N,
    ensures
        forall|i: int| 0 <= i < k ==> array_prefix::<N>(s, k)@[i] == s[i],
    decreases k,
{
    if k > 0 {
        lemma_array_prefix::<N>(s, (k - 1) as nat);
    }
}

/// Every sequence of `N` bytes is the content of an array: `array_of` finds it.
pub proof fn lemma_array_of_view<const N: usize>(s: Seq<u8>)
    requires
        s.len() == N,
    ensures
        array_of::<N>(s)@ == s,
{
    let a = array_prefix::<N>(s, N as nat);
    lemma_array_prefix::<N>(s, N as nat);
    assert(a@ =~= s);
}

/// The big-endian bytes of a sequence of 16-bit code units.
pub open spec fn units_be(units: Seq<u16>) -> Seq<u8> {
    Seq::new(
        2 * units.len(),
        |i: int|
            if i % 2 == 0 {
                (units[i / 2] / 256) as u8
            } else {
                (units[i / 2] % 256) as u8
            },
    )
}

/// The 16-bit code units that `bytes` hold big-endian; a last odd byte is left out.
pub open spec fn units_from_be(bytes: Seq<u8>) -> Seq<u16> {
    Seq::new(
        (bytes.len() / 2) as nat,
        |i: int| (256 * (bytes[2 * i] as int) + bytes[2 * i + 1] as int) as u16,
    )
}

/// Decoding undoes encoding of code units.
pub proof fn lemma_units_round_trip(units: Seq<u16>)
    ensures
        units_be(units).len() == 2 * units.len(),
        units_from_be(units_be(units)) == units,
{
    let d = units_from_be(units_be(units));
    assert(d.len() == units.len());
    assert forall|i: int| 0 <= i < units.len() implies d[i] == units[i] by {
        let b = units_be(units);
        assert(b[2 * i] == (units[i] / 256) as u8);
        assert(b[2 * i + 1] == (units[i] % 256) as u8);
    }
    assert(d =~= units);
}

/// `byteorder::BigEndian::read_u16`: the integer that the first two bytes of
/// `buf` hold, most significant byte first. It panics on a shorter buffer,
/// which `requires` leaves out.
#[verifier::external_body]
pub(crate) fn read_u16_be(buf: &[u8]) -> (v: u16)
    requires
        buf@.len() >= 2,
    ensures
        v == u16_from_be(buf@),
{
    BigEndian::read_u16(buf)
}

/// The array that holds the 64 code units of `s`.
pub open spec fn units_of(s: Seq<u16>) -> [u16; 64]
    recommends
        s.len() == 64,
{
    choose|a: [u16; 64]| a@ == s
}

/// An array is the one that holds its own code units.
pub proof fn lemma_units_of(a: [u16; 64])
    ensures
        units_of(a@) == a,
{
    let c = units_of(a@);
    assert(c@ == a@);
    assert(c =~= a);
}

/// An array whose first `k` code units are those of `s`.
pub open spec fn units_prefix(s: Seq<u16>, k: nat) -> [u16; 64]
    decreases k,
{
    if k == 0 {
        vstd::array::spec_array_fill_for_copy_type::<u16, 64>(0u16)
    } else {
        vstd::array::spec_array_update(units_prefix(s, (k - 1) as nat), k - 1, s[k - 1])
    }
}

proof fn lemma_units_prefix(s: Seq<u16>, k: nat)
    requires
        s.len() == 64,
        k <= 64,
    ensures
        forall|i: int| 0 <= i < k ==> units_prefix(s, k)@[i] == s[i],
    decreases k,
{
    if k > 0 {
        lemma_units_prefix(s, (k - 1) as nat);
    }
}

/// Every sequence of 64 code units is the content of an array: `units_of`
/// finds it.
pub proof fn lemma_units_of_view(s: Seq<u16>)
    requires
        s.len() == 64,
    ensures
        units_of(s)@ == s,
{
    let a = units_prefix(s, 64);
    lemma_units_prefix(s, 64);
    assert(a@ =~= s);
}

/// The `N` bytes of `input` from `at` on, as an array.
pub fn take_array<const N: usize>(input: &[u8], at: usize) -> (r: [u8; N])
    requires
        at + N <= input@.len(),
    ensures
        r@ == input@.subrange(at as int, at + N),
        r == array_of::<N>(input@.subrange(at as int, at + N)),
{
    let mut r: [u8; N] = [0u8; N];
    let total = input.len();
    let mut i: usize = 0;
    while i < N
        invariant
            i <= N,
            total == input@.len(),
            at + N <= input@.len(),
            forall|j: int| 0 <= j < i ==> r@[j] == input@[at + j],
        decreases N - i,
    {
        r[i] = input[at + i];
        i += 1;
    }
    assert(r@ =~= input@.subrange(at as int, at + N));
    proof {
        lemma_array_of::<N>(r);
    }
    r
}

} // verus!
