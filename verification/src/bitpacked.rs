//! Block-wise unpacking of a bit-packed array of `u32` values.
//!
//! A bit-packed array stores its values in chunks of 1024, each chunk packed into
//! `32 * bit_width` words by the FastLanes layout. The array may start `offset` values into its
//! first chunk. Iterating it in blocks of `BLOCK_SIZE` values means deciding, step by step,
//! which chunks to unpack into a block buffer and which part of the buffer to hand out
//! (`BlockSteps`), then unpacking those chunks with FastLanes and handing the values out
//! (`BitPackedArrayBlockIter`).

use fastlanes::BitPacking;
use vstd::prelude::*;

use crate::accessor::{slice_as_array, values_in_ranges, ArrayValueIterator};

verus! {

/// Number of values in one packed chunk.
pub const CHUNK_LEN: usize = 1024;

/// Number of chunks that hold the values `[0, n)`.
pub open spec fn chunks_for(n: int) -> int {
    (n + 1023) / 1024
}

/// What FastLanes' `BitPacking::unpack` (for `u32`, at `bit_width` bits per value) makes of
/// the packed words `packed` of one chunk: the chunk's 1024 values.
pub uninterp spec fn fastlanes_unpacked(bit_width: int, packed: Seq<u32>) -> Seq<u32>;

/// FastLanes' `<u32 as BitPacking>::unpack::<0, 0>`: the 1024 values packed at 0 bits each
/// in `packed`, as named by `fastlanes_unpacked`.
#[verifier::external_body]
fn unpack_w0(packed: &[u32; 0]) -> (r: [u32; 1024])
    ensures
        r@ == fastlanes_unpacked(0, packed@),
{
    let mut out = [0u32; 1024];
    BitPacking::unpack::<0, 0>(packed, &mut out);
    out
}

/// FastLanes' `<u32 as BitPacking>::unpack::<1, 32>`: the 1024 values packed at 1 bits each
/// in `packed`, as named by `fastlanes_unpacked`.
#[verifier::external_body]
fn unpack_w1(packed: &[u32; 32]) -> (r: [u32; 1024])
    ensures
        r@ == fastlanes_unpacked(1, packed@),
{
    let mut out = [0u32; 1024];
    BitPacking::unpack::<1, 32>(packed, &mut out);
    out
}

/// FastLanes' `<u32 as BitPacking>::unpack::<2, 64>`: the 1024 values packed at 2 bits each
/// in `packed`, as named by `fastlanes_unpacked`.
#[verifier::external_body]
fn unpack_w2(packed: &[u32; 64]) -> (r: [u32; 1024])
    ensures
        r@ == fastlanes_unpacked(2, packed@),
{
    let mut out = [0u32; 1024];
    BitPacking::unpack::<2, 64>(packed, &mut out);
    out
}

/// FastLanes' `<u32 as BitPacking>::unpack::<3, 96>`: the 1024 values packed at 3 bits each
/// in `packed`, as named by `fastlanes_unpacked`.
#[verifier::external_body]
fn unpack_w3(packed: &[u32; 96]) -> (r: [u32; 1024])
    ensures
        r@ == fastlanes_unpacked(3, packed@),
{
    let mut out = [0u32; 1024];
    BitPacking::unpack::<3, 96>(packed, &mut out);
    out
}

/// FastLanes' `<u32 as BitPacking>::unpack::<4, 128>`: the 1024 values packed at 4 bits each
/// in `packed`, as named by `fastlanes_unpacked`.
#[verifier::external_body]
fn unpack_w4(packed: &[u32; 128]) -> (r: [u32; 1024])
    ensures
        r@ == fastlanes_unpacked(4, packed@),
{
    let mut out = [0u32; 1024];
    BitPacking::unpack::<4, 128>(packed, &mut out);
    out
}

/// FastLanes' `<u32 as BitPacking>::unpack::<5, 160>`: the 1024 values packed at 5 bits each
/// in `packed`, as named by `fastlanes_unpacked`.
#[verifier::external_body]
fn unpack_w5(packed: &[u32; 160]) -> (r: [u32; 1024])
    ensures
        r@ == fastlanes_unpacked(5, packed@),
{
    let mut out = [0u32; 1024];
    BitPacking::unpack::<5, 160>(packed, &mut out);
    out
}

/// FastLanes' `<u32 as BitPacking>::unpack::<6, 192>`: the 1024 values packed at 6 bits each
/// in `packed`, as named by `fastlanes_unpacked`.
#[verifier::external_body]
fn unpack_w6(packed: &[u32; 192]) -> (r: [u32; 1024])
    ensures
        r@ == fastlanes_unpacked(6, packed@),
{
    let mut out = [0u32; 1024];
    BitPacking::unpack::<6, 192>(packed, &mut out);
    out
}

/// FastLanes' `<u32 as BitPacking>::unpack::<7, 224>`: the 1024 values packed at 7 bits each
/// in `packed`, as named by `fastlanes_unpacked`.
#[verifier::external_body]
fn unpack_w7(packed: &[u32; 224]) -> (r: [u32; 1024])
    ensures
        r@ == fastlanes_unpacked(7, packed@),
{
    let mut out = [0u32; 1024];
    BitPacking::unpack::<7, 224>(packed, &mut out);
    out
}

/// FastLanes' `<u32 as BitPacking>::unpack::<8, 256>`: the 1024 values packed at 8 bits each
/// in `packed`, as named by `fastlanes_unpacked`.
#[verifier::external_body]
fn unpack_w8(packed: &[u32; 256]) -> (r: [u32; 1024])
    ensures
        r@ == fastlanes_unpacked(8, packed@),
{
    let mut out = [0u32; 1024];
    BitPacking::unpack::<8, 256>(packed, &mut out);
    out
}

/// FastLanes' `<u32 as BitPacking>::unpack::<9, 288>`: the 1024 values packed at 9 bits each
/// in `packed`, as named by `fastlanes_unpacked`.
#[verifier::external_body]
fn unpack_w9(packed: &[u32; 288]) -> (r: [u32; 1024])
    ensures
        r@ == fastlanes_unpacked(9, packed@),
{
    let mut out = [0u32; 1024];
    BitPacking::unpack::<9, 288>(packed, &mut out);
    out
}

/// FastLanes' `<u32 as BitPacking>::unpack::<10, 320>`: the 1024 values packed at 10 bits each
/// in `packed`, as named by `fastlanes_unpacked`.
#[verifier::external_body]
fn unpack_w10(packed: &[u32; 320]) -> (r: [u32; 1024])
    ensures
        r@ == fastlanes_unpacked(10, packed@),
{
    let mut out = [0u32; 1024];
    BitPacking::unpack::<10, 320>(packed, &mut out);
    out
}

/// FastLanes' `<u32 as BitPacking>::unpack::<11, 352>`: the 1024 values packed at 11 bits each
/// in `packed`, as named by `fastlanes_unpacked`.
#[verifier::external_body]
fn unpack_w11(packed: &[u32; 352]) -> (r: [u32; 1024])
    ensures
        r@ == fastlanes_unpacked(11, packed@),
{
    let mut out = [0u32; 1024];
    BitPacking::unpack::<11, 352>(packed, &mut out);
    out
}

/// FastLanes' `<u32 as BitPacking>::unpack::<12, 384>`: the 1024 values packed at 12 bits each
/// in `packed`, as named by `fastlanes_unpacked`.
#[verifier::external_body]
fn unpack_w12(packed: &[u32; 384]) -> (r: [u32; 1024])
    ensures
        r@ == fastlanes_unpacked(12, packed@),
{
    let mut out = [0u32; 1024];
    BitPacking::unpack::<12, 384>(packed, &mut out);
    out
}

/// FastLanes' `<u32 as BitPacking>::unpack::<13, 416>`: the 1024 values packed at 13 bits each
/// in `packed`, as named by `fastlanes_unpacked`.
#[verifier::external_body]
fn unpack_w13(packed: &[u32; 416]) -> (r: [u32; 1024])
    ensures
        r@ == fastlanes_unpacked(13, packed@),
{
    let mut out = [0u32; 1024];
    BitPacking::unpack::<13, 416>(packed, &mut out);
    out
}

/// FastLanes' `<u32 as BitPacking>::unpack::<14, 448>`: the 1024 values packed at 14 bits each
/// in `packed`, as named by `fastlanes_unpacked`.
#[verifier::external_body]
fn unpack_w14(packed: &[u32; 448]) -> (r: [u32; 1024])
    ensures
        r@ == fastlanes_unpacked(14, packed@),
{
    let mut out = [0u32; 1024];
    BitPacking::unpack::<14, 448>(packed, &mut out);
    out
}

/// FastLanes' `<u32 as BitPacking>::unpack::<15, 480>`: the 1024 values packed at 15 bits each
/// in `packed`, as named by `fastlanes_unpacked`.
#[verifier::external_body]
fn unpack_w15(packed: &[u32; 480]) -> (r: [u32; 1024])
    ensures
        r@ == fastlanes_unpacked(15, packed@),
{
    let mut out = [0u32; 1024];
    BitPacking::unpack::<15, 480>(packed, &mut out);
    out
}

/// FastLanes' `<u32 as BitPacking>::unpack::<16, 512>`: the 1024 values packed at 16 bits each
/// in `packed`, as named by `fastlanes_unpacked`.
#[verifier::external_body]
fn unpack_w16(packed: &[u32; 512]) -> (r: [u32; 1024])
    ensures
        r@ == fastlanes_unpacked(16, packed@),
{
    let mut out = [0u32; 1024];
    BitPacking::unpack::<16, 512>(packed, &mut out);
    out
}

/// FastLanes' `<u32 as BitPacking>::unpack::<17, 544>`: the 1024 values packed at 17 bits each
/// in `packed`, as named by `fastlanes_unpacked`.
#[verifier::external_body]
fn unpack_w17(packed: &[u32; 544]) -> (r: [u32; 1024])
    ensures
        r@ == fastlanes_unpacked(17, packed@),
{
    let mut out = [0u32; 1024];
    BitPacking::unpack::<17, 544>(packed, &mut out);
    out
}

/// FastLanes' `<u32 as BitPacking>::unpack::<18, 576>`: the 1024 values packed at 18 bits each
/// in `packed`, as named by `fastlanes_unpacked`.
#[verifier::external_body]
fn unpack_w18(packed: &[u32; 576]) -> (r: [u32; 1024])
    ensures
        r@ == fastlanes_unpacked(18, packed@),
{
    let mut out = [0u32; 1024];
    BitPacking::unpack::<18, 576>(packed, &mut out);
    out
}

/// FastLanes' `<u32 as BitPacking>::unpack::<19, 608>`: the 1024 values packed at 19 bits each
/// in `packed`, as named by `fastlanes_unpacked`.
#[verifier::external_body]
fn unpack_w19(packed: &[u32; 608]) -> (r: [u32; 1024])
    ensures
        r@ == fastlanes_unpacked(19, packed@),
{
    let mut out = [0u32; 1024];
    BitPacking::unpack::<19, 608>(packed, &mut out);
    out
}

/// FastLanes' `<u32 as BitPacking>::unpack::<20, 640>`: the 1024 values packed at 20 bits each
/// in `packed`, as named by `fastlanes_unpacked`.
#[verifier::external_body]
fn unpack_w20(packed: &[u32; 640]) -> (r: [u32; 1024])
    ensures
        r@ == fastlanes_unpacked(20, packed@),
{
    let mut out = [0u32; 1024];
    BitPacking::unpack::<20, 640>(packed, &mut out);
    out
}

/// FastLanes' `<u32 as BitPacking>::unpack::<21, 672>`: the 1024 values packed at 21 bits each
/// in `packed`, as named by `fastlanes_unpacked`.
#[verifier::external_body]
fn unpack_w21(packed: &[u32; 672]) -> (r: [u32; 1024])
    ensures
        r@ == fastlanes_unpacked(21, packed@),
{
    let mut out = [0u32; 1024];
    BitPacking::unpack::<21, 672>(packed, &mut out);
    out
}

/// FastLanes' `<u32 as BitPacking>::unpack::<22, 704>`: the 1024 values packed at 22 bits each
/// in `packed`, as named by `fastlanes_unpacked`.
#[verifier::external_body]
fn unpack_w22(packed: &[u32; 704]) -> (r: [u32; 1024])
    ensures
        r@ == fastlanes_unpacked(22, packed@),
{
    let mut out = [0u32; 1024];
    BitPacking::unpack::<22, 704>(packed, &mut out);
    out
}

/// FastLanes' `<u32 as BitPacking>::unpack::<23, 736>`: the 1024 values packed at 23 bits each
/// in `packed`, as named by `fastlanes_unpacked`.
#[verifier::external_body]
fn unpack_w23(packed: &[u32; 736]) -> (r: [u32; 1024])
    ensures
        r@ == fastlanes_unpacked(23, packed@),
{
    let mut out = [0u32; 1024];
    BitPacking::unpack::<23, 736>(packed, &mut out);
    out
}

/// FastLanes' `<u32 as BitPacking>::unpack::<24, 768>`: the 1024 values packed at 24 bits each
/// in `packed`, as named by `fastlanes_unpacked`.
#[verifier::external_body]
fn unpack_w24(packed: &[u32; 768]) -> (r: [u32; 1024])
    ensures
        r@ == fastlanes_unpacked(24, packed@),
{
    let mut out = [0u32; 1024];
    BitPacking::unpack::<24, 768>(packed, &mut out);
    out
}

/// FastLanes' `<u32 as BitPacking>::unpack::<25, 800>`: the 1024 values packed at 25 bits each
/// in `packed`, as named by `fastlanes_unpacked`.
#[verifier::external_body]
fn unpack_w25(packed: &[u32; 800]) -> (r: [u32; 1024])
    ensures
        r@ == fastlanes_unpacked(25, packed@),
{
    let mut out = [0u32; 1024];
    BitPacking::unpack::<25, 800>(packed, &mut out);
    out
}

/// FastLanes' `<u32 as BitPacking>::unpack::<26, 832>`: the 1024 values packed at 26 bits each
/// in `packed`, as named by `fastlanes_unpacked`.
#[verifier::external_body]
fn unpack_w26(packed: &[u32; 832]) -> (r: [u32; 1024])
    ensures
        r@ == fastlanes_unpacked(26, packed@),
{
    let mut out = [0u32; 1024];
    BitPacking::unpack::<26, 832>(packed, &mut out);
    out
}

/// FastLanes' `<u32 as BitPacking>::unpack::<27, 864>`: the 1024 values packed at 27 bits each
/// in `packed`, as named by `fastlanes_unpacked`.
#[verifier::external_body]
fn unpack_w27(packed: &[u32; 864]) -> (r: [u32; 1024])
    ensures
        r@ == fastlanes_unpacked(27, packed@),
{
    let mut out = [0u32; 1024];
    BitPacking::unpack::<27, 864>(packed, &mut out);
    out
}

/// FastLanes' `<u32 as BitPacking>::unpack::<28, 896>`: the 1024 values packed at 28 bits each
/// in `packed`, as named by `fastlanes_unpacked`.
#[verifier::external_body]
fn unpack_w28(packed: &[u32; 896]) -> (r: [u32; 1024])
    ensures
        r@ == fastlanes_unpacked(28, packed@),
{
    let mut out = [0u32; 1024];
    BitPacking::unpack::<28, 896>(packed, &mut out);
    out
}

/// FastLanes' `<u32 as BitPacking>::unpack::<29, 928>`: the 1024 values packed at 29 bits each
/// in `packed`, as named by `fastlanes_unpacked`.
#[verifier::external_body]
fn unpack_w29(packed: &[u32; 928]) -> (r: [u32; 1024])
    ensures
        r@ == fastlanes_unpacked(29, packed@),
{
    let mut out = [0u32; 1024];
    BitPacking::unpack::<29, 928>(packed, &mut out);
    out
}

/// FastLanes' `<u32 as BitPacking>::unpack::<30, 960>`: the 1024 values packed at 30 bits each
/// in `packed`, as named by `fastlanes_unpacked`.
#[verifier::external_body]
fn unpack_w30(packed: &[u32; 960]) -> (r: [u32; 1024])
    ensures
        r@ == fastlanes_unpacked(30, packed@),
{
    let mut out = [0u32; 1024];
    BitPacking::unpack::<30, 960>(packed, &mut out);
    out
}

/// FastLanes' `<u32 as BitPacking>::unpack::<31, 992>`: the 1024 values packed at 31 bits each
/// in `packed`, as named by `fastlanes_unpacked`.
#[verifier::external_body]
fn unpack_w31(packed: &[u32; 992]) -> (r: [u32; 1024])
    ensures
        r@ == fastlanes_unpacked(31, packed@),
{
    let mut out = [0u32; 1024];
    BitPacking::unpack::<31, 992>(packed, &mut out);
    out
}

/// FastLanes' `<u32 as BitPacking>::unpack::<32, 1024>`: the 1024 values packed at 32 bits each
/// in `packed`, as named by `fastlanes_unpacked`.
#[verifier::external_body]
fn unpack_w32(packed: &[u32; 1024]) -> (r: [u32; 1024])
    ensures
        r@ == fastlanes_unpacked(32, packed@),
{
    let mut out = [0u32; 1024];
    BitPacking::unpack::<32, 1024>(packed, &mut out);
    out
}

/// Unpack the chunk packed at `bit_width` bits per value in `packed`.
fn unpack_chunk(bit_width: usize, packed: &[u32]) -> (r: [u32; 1024])
    requires
        bit_width <= 32,
        packed@.len() == 32 * bit_width,
    ensures
        r@ == fastlanes_unpacked(bit_width as int, packed@),
{
    match bit_width {
        0 => unpack_w0(slice_as_array::<u32, 0>(packed).unwrap()),
        1 => unpack_w1(slice_as_array::<u32, 32>(packed).unwrap()),
        2 => unpack_w2(slice_as_array::<u32, 64>(packed).unwrap()),
        3 => unpack_w3(slice_as_array::<u32, 96>(packed).unwrap()),
        4 => unpack_w4(slice_as_array::<u32, 128>(packed).unwrap()),
        5 => unpack_w5(slice_as_array::<u32, 160>(packed).unwrap()),
        6 => unpack_w6(slice_as_array::<u32, 192>(packed).unwrap()),
        7 => unpack_w7(slice_as_array::<u32, 224>(packed).unwrap()),
        8 => unpack_w8(slice_as_array::<u32, 256>(packed).unwrap()),
        9 => unpack_w9(slice_as_array::<u32, 288>(packed).unwrap()),
        10 => unpack_w10(slice_as_array::<u32, 320>(packed).unwrap()),
        11 => unpack_w11(slice_as_array::<u32, 352>(packed).unwrap()),
        12 => unpack_w12(slice_as_array::<u32, 384>(packed).unwrap()),
        13 => unpack_w13(slice_as_array::<u32, 416>(packed).unwrap()),
        14 => unpack_w14(slice_as_array::<u32, 448>(packed).unwrap()),
        15 => unpack_w15(slice_as_array::<u32, 480>(packed).unwrap()),
        16 => unpack_w16(slice_as_array::<u32, 512>(packed).unwrap()),
        17 => unpack_w17(slice_as_array::<u32, 544>(packed).unwrap()),
        18 => unpack_w18(slice_as_array::<u32, 576>(packed).unwrap()),
        19 => unpack_w19(slice_as_array::<u32, 608>(packed).unwrap()),
        20 => unpack_w20(slice_as_array::<u32, 640>(packed).unwrap()),
        21 => unpack_w21(slice_as_array::<u32, 672>(packed).unwrap()),
        22 => unpack_w22(slice_as_array::<u32, 704>(packed).unwrap()),
        23 => unpack_w23(slice_as_array::<u32, 736>(packed).unwrap()),
        24 => unpack_w24(slice_as_array::<u32, 768>(packed).unwrap()),
        25 => unpack_w25(slice_as_array::<u32, 800>(packed).unwrap()),
        26 => unpack_w26(slice_as_array::<u32, 832>(packed).unwrap()),
        27 => unpack_w27(slice_as_array::<u32, 864>(packed).unwrap()),
        28 => unpack_w28(slice_as_array::<u32, 896>(packed).unwrap()),
        29 => unpack_w29(slice_as_array::<u32, 928>(packed).unwrap()),
        30 => unpack_w30(slice_as_array::<u32, 960>(packed).unwrap()),
        31 => unpack_w31(slice_as_array::<u32, 992>(packed).unwrap()),
        _ => unpack_w32(slice_as_array::<u32, 1024>(packed).unwrap()),
    }
}

/// A bit-packed array of `u32` values.
pub struct BitPackedArray {
    packed: Vec<u32>,
    bit_width: usize,
    offset: usize,
    len: usize,
}

impl BitPackedArray {
    /// The packed words.
    pub closed spec fn spec_packed(&self) -> Seq<u32> {
        self.packed@
    }

    /// The number of bits per packed value.
    pub closed spec fn spec_bit_width(&self) -> nat {
        self.bit_width as nat
    }

    /// The position in the first chunk of the first value.
    pub closed spec fn spec_offset(&self) -> nat {
        self.offset as nat
    }

    /// The number of values.
    pub closed spec fn spec_len(&self) -> nat {
        self.len as nat
    }

    /// The bit width fits a `u32`, the offset lies in the first chunk, and the packed words
    /// hold every chunk that the values reach.
    pub closed spec fn wf(&self) -> bool {
        &&& self.bit_width <= 32
        &&& self.offset < CHUNK_LEN
        &&& self.offset + self.len + 1023 <= usize::MAX
        &&& self.packed@.len() >= chunks_for(self.offset + self.len) * (32 * self.bit_width)
    }

    /// The array of `len` values starting `offset` values into the chunks packed, at
    /// `bit_width` bits per value, in `packed`.
    pub fn new(packed: Vec<u32>, bit_width: usize, offset: usize, len: usize) -> (r: Self)
        requires
            bit_width <= 32,
            offset < CHUNK_LEN,
            offset + len + 1023 <= usize::MAX,
            packed@.len() >= chunks_for(offset + len) * (32 * bit_width),
        ensures
            r.wf(),
            r.spec_packed() == packed@,
            r.spec_bit_width() == bit_width,
            r.spec_offset() == offset,
            r.spec_len() == len,
    {
        BitPackedArray { packed, bit_width, offset, len }
    }

    /// The packed words.
    pub fn packed_slice(&self) -> (r: &[u32])
        ensures
            r@ == self.spec_packed(),
    {
        self.packed.as_slice()
    }

    /// The number of bits per packed value.
    pub fn bit_width(&self) -> (r: usize)
        ensures
            r == self.spec_bit_width(),
    {
        self.bit_width
    }

    /// The position in the first chunk of the first value.
    pub fn offset(&self) -> (r: usize)
        ensures
            r == self.spec_offset(),
    {
        self.offset
    }

    /// The number of values.
    pub fn len(&self) -> (r: usize)
        ensures
            r == self.spec_len(),
    {
        self.len
    }

    /// An iterator over the values of this array in blocks of `BLOCK_SIZE`, a positive
    /// multiple of 1024, starting at the first chunk.
    pub fn iter_blocks<const BLOCK_SIZE: usize>(&self) -> (r: BitPackedArrayBlockIter<
        '_,
        BLOCK_SIZE,
    >)
        requires
            self.wf(),
            BLOCK_SIZE > 0,
            BLOCK_SIZE % 1024 == 0,
        ensures
            r.spec_packed() == self.spec_packed(),
            r.spec_bit_width() == self.spec_bit_width(),
            r.spec_steps().block_id == 0,
            r.spec_steps().block_count == chunks_for((self.spec_offset() + self.spec_len()) as int),
            r.spec_steps().last_chunk_len == (self.spec_offset() + self.spec_len()) % 1024,
            r.spec_steps().full_block_count == r.spec_steps().block_count - if r.spec_steps().last_chunk_len > 0 {
                1int
            } else {
                0int
            },
            r.spec_steps().offset == self.spec_offset(),
    {
        let steps = self.block_steps::<BLOCK_SIZE>();
        BitPackedArrayBlockIter {
            packed: self.packed.as_slice(),
            bit_width: self.bit_width,
            steps,
            fixed_array: Vec::new(),
        }
    }

    /// The steps of iterating the values of this array in blocks of `BLOCK_SIZE`, starting at
    /// the first chunk.
    pub fn block_steps<const BLOCK_SIZE: usize>(&self) -> (r: BlockSteps<BLOCK_SIZE>)
        requires
            self.wf(),
        ensures
            r.wf(),
            r.block_id == 0,
            r.block_count == chunks_for((self.spec_offset() + self.spec_len()) as int),
            r.last_chunk_len == (self.spec_offset() + self.spec_len()) % 1024,
            r.full_block_count == r.block_count - if r.last_chunk_len > 0 {
                1int
            } else {
                0int
            },
            r.offset == self.spec_offset(),
            r.bit_width == self.spec_bit_width(),
    {
        let last_chunk_len = (self.offset + self.len) % CHUNK_LEN;
        let bit_width = self.bit_width;
        let last_chunk_is_sliced = last_chunk_len > 0;
        let num_chunks = (self.offset + self.len + 1023) / CHUNK_LEN;
        let full_block_count = if last_chunk_is_sliced {
            num_chunks - 1
        } else {
            num_chunks
        };
        BlockSteps {
            block_id: 0,
            full_block_count,
            block_count: num_chunks,
            last_chunk_len,
            offset: self.offset,
            bit_width,
        }
    }
}

/// What one step of block iteration does: unpack the chunks `first_chunk ..
/// first_chunk + chunk_count` into the block buffer, chunk `k` into positions
/// `[1024 * k, 1024 * k + 1024)`, then hand out the buffer positions `[start, end)`: the whole
/// buffer when `full`, else a shorter run.
#[derive(Clone, Copy, Debug, PartialEq, Eq)]
pub struct BlockStep {
    /// The first chunk to unpack.
    pub first_chunk: usize,
    /// How many consecutive chunks to unpack.
    pub chunk_count: usize,
    /// Whether the whole block buffer is handed out.
    pub full: bool,
    /// The first buffer position handed out.
    pub start: usize,
    /// The buffer position after the last one handed out.
    pub end: usize,
}

/// The step decisions of block iteration over a bit-packed array.
#[derive(Clone, Copy, Debug)]
pub struct BlockSteps<const BLOCK_SIZE: usize> {
    /// The next chunk to unpack.
    pub block_id: usize,
    /// The number of chunks the values reach.
    pub block_count: usize,
    /// The number of those chunks that the values fill to their end.
    pub full_block_count: usize,
    /// The number of values in the last chunk, if it is not full; 0 otherwise.
    pub last_chunk_len: usize,
    /// The number of bits per packed value.
    pub bit_width: usize,
    /// The position in the first chunk of the first value.
    pub offset: usize,
}

/// Number of steps of 1024 that start below `n` (the positions `(0..n).step_by(1024)`).
pub open spec fn steps_of_chunk(n: int) -> int {
    (n + 1023) / 1024
}

/// A positive number of values takes at least one step of 1024.
pub proof fn lemma_steps_positive(n: int)
    requires
        n > 0,
    ensures
        steps_of_chunk(n) >= 1,
{
}

/// The packed positions a step hands out: positions `[1024 * first_chunk + start,
/// 1024 * first_chunk + end)` of the chunks.
pub open spec fn handed_out(step: BlockStep) -> (int, int) {
    (1024 * step.first_chunk + step.start, 1024 * step.first_chunk + step.end)
}

/// The packed positions handed out by the remaining steps, one range per step, from the chunk
/// `id` on, for blocks of `b` values.
pub open spec fn step_ranges(id: int, count: int, full: int, last: int, offset: int, b: int) -> Seq<
    (int, int),
>
    decreases if count > id {
        count - id
    } else {
        0
    },
{
    if b <= 0 || id >= count {
        Seq::empty()
    } else if id == 0 && offset != 0 {
        seq![(offset, 1024)] + step_ranges(1, count, full, last, offset, b)
    } else if id + b / 1024 <= full {
        proof {
            lemma_steps_positive(b);
        }
        seq![(1024 * id, 1024 * id + b)] + step_ranges(
            id + steps_of_chunk(b),
            count,
            full,
            last,
            offset,
            b,
        )
    } else if 1024 * (full - id) + last <= 0 {
        Seq::empty()
    } else {
        proof {
            lemma_steps_positive(1024 * (full - id) + last);
        }
        seq![(1024 * id, 1024 * full + last)] + step_ranges(
            id + steps_of_chunk(1024 * (full - id) + last),
            count,
            full,
            last,
            offset,
            b,
        )
    }
}

impl<const BLOCK_SIZE: usize> BlockSteps<BLOCK_SIZE> {
    /// The counts agree with each other: the full chunks are all chunks but a partial last one,
    /// and at most one more chunk has been stepped over than there are (a full block of a size
    /// that is not a multiple of 1024 steps one chunk past its last whole chunk).
    pub open spec fn wf(&self) -> bool {
        &&& self.block_id <= self.block_count + 1
        &&& self.full_block_count + if self.last_chunk_len > 0 {
            1int
        } else {
            0int
        } == self.block_count
        &&& self.last_chunk_len < 1024
        &&& 1024 * self.block_count <= usize::MAX
    }

    /// The packed positions handed out by the remaining steps.
    pub open spec fn remaining_ranges(&self) -> Seq<(int, int)> {
        step_ranges(
            self.block_id as int,
            self.block_count as int,
            self.full_block_count as int,
            self.last_chunk_len as int,
            self.offset as int,
            BLOCK_SIZE as int,
        )
    }

    /// The next step: none once every chunk is consumed; the tail of the first chunk when the
    /// array starts inside it; a full block while `BLOCK_SIZE / 1024` full chunks remain;
    /// otherwise every remaining chunk, up to the last value.
    pub open spec fn planned_step(&self) -> Option<BlockStep> {
        let id = self.block_id as int;
        let full = self.full_block_count as int;
        let rest = 1024 * (full - id) + self.last_chunk_len;
        if id >= self.block_count {
            None
        } else if id == 0 && self.offset != 0 {
            Some(BlockStep { first_chunk: 0, chunk_count: 1, full: false, start: self.offset, end: 1024 })
        } else if id + BLOCK_SIZE / 1024 <= full {
            Some(
                BlockStep {
                    first_chunk: id as usize,
                    chunk_count: steps_of_chunk(BLOCK_SIZE as int) as usize,
                    full: true,
                    start: 0,
                    end: BLOCK_SIZE,
                },
            )
        } else {
            Some(
                BlockStep {
                    first_chunk: id as usize,
                    chunk_count: steps_of_chunk(rest) as usize,
                    full: false,
                    start: 0,
                    end: rest as usize,
                },
            )
        }
    }

    /// The next chunk to unpack once the next step is taken.
    pub open spec fn block_id_after(&self) -> int {
        match self.planned_step() {
            None => self.block_id as int,
            Some(step) => step.first_chunk + step.chunk_count,
        }
    }

    /// Decide the next step of iteration: none once every chunk is consumed; the tail of the
    /// first chunk when the array starts inside it; a full block while `BLOCK_SIZE / 1024` full
    /// chunks remain; otherwise every remaining chunk, handed out up to the last value.
    pub fn next_step(&mut self) -> (r: Option<BlockStep>)
        requires
            old(self).wf(),
        ensures
            final(self).wf(),
            final(self).block_count == old(self).block_count,
            final(self).full_block_count == old(self).full_block_count,
            final(self).last_chunk_len == old(self).last_chunk_len,
            final(self).bit_width == old(self).bit_width,
            final(self).offset == old(self).offset,
            r == old(self).planned_step(),
            final(self).block_id == old(self).block_id_after(),
            BLOCK_SIZE > 0 ==> match r {
                None => old(self).remaining_ranges().len() == 0,
                Some(step) => old(self).remaining_ranges().len() > 0 && old(
                    self,
                ).remaining_ranges()[0] == handed_out(step) && final(self).remaining_ranges()
                    == old(self).remaining_ranges().drop_first(),
            },
            ({
                let id = old(self).block_id as int;
                let full = old(self).full_block_count as int;
                let rest = 1024 * (full - id) + old(self).last_chunk_len;
                if id >= old(self).block_count {
                    r is None && final(self).block_id == id
                } else if id == 0 && old(self).offset != 0 {
                    r == Some(
                        BlockStep {
                            first_chunk: 0,
                            chunk_count: 1,
                            full: false,
                            start: old(self).offset,
                            end: 1024,
                        },
                    ) && final(self).block_id == 1
                } else if id + BLOCK_SIZE / 1024 <= full {
                    r == Some(
                        BlockStep {
                            first_chunk: id as usize,
                            chunk_count: steps_of_chunk(BLOCK_SIZE as int) as usize,
                            full: true,
                            start: 0,
                            end: BLOCK_SIZE,
                        },
                    ) && final(self).block_id == id + steps_of_chunk(BLOCK_SIZE as int)
                } else {
                    r == Some(
                        BlockStep {
                            first_chunk: id as usize,
                            chunk_count: steps_of_chunk(rest) as usize,
                            full: false,
                            start: 0,
                            end: rest as usize,
                        },
                    ) && final(self).block_id == id + steps_of_chunk(rest)
                }
            }),
    {
        if self.block_id >= self.block_count {
            return None;
        }
        if self.block_id == 0 && self.offset != 0 {
            self.block_id = 1;
            return Some(
                BlockStep { first_chunk: 0, chunk_count: 1, full: false, start: self.offset, end: 1024 },
            );
        }
        let id = self.block_id;
        if id + BLOCK_SIZE / CHUNK_LEN <= self.full_block_count {
            let count = BLOCK_SIZE / CHUNK_LEN + if BLOCK_SIZE % CHUNK_LEN != 0 {
                1usize
            } else {
                0usize
            };
            self.block_id = id + count;
            Some(BlockStep { first_chunk: id, chunk_count: count, full: true, start: 0, end: BLOCK_SIZE })
        } else {
            let rest = CHUNK_LEN * (self.full_block_count - id) + self.last_chunk_len;
            let count = rest / CHUNK_LEN + if rest % CHUNK_LEN != 0 {
                1usize
            } else {
                0usize
            };
            self.block_id = id + count;
            Some(BlockStep { first_chunk: id, chunk_count: count, full: false, start: 0, end: rest })
        }
    }
}

/// The values of chunk `k` of the packed words `packed`, at `bit_width` bits per value.
pub open spec fn chunk_values(packed: Seq<u32>, bit_width: int, k: int) -> Seq<u32> {
    fastlanes_unpacked(bit_width, packed.subrange(k * (32 * bit_width), (k + 1) * (32 * bit_width)))
}

/// The values of the `count` chunks from chunk `first` on, one chunk after the other.
pub open spec fn unpacked_chunks(packed: Seq<u32>, bit_width: int, first: int, count: int) -> Seq<
    u32,
>
    decreases count,
{
    if count <= 0 {
        Seq::empty()
    } else {
        unpacked_chunks(packed, bit_width, first, count - 1) + chunk_values(
            packed,
            bit_width,
            first + count - 1,
        )
    }
}

/// The values a step hands out: those at positions `[start, end)` of its unpacked chunks.
pub open spec fn step_values(packed: Seq<u32>, bit_width: int, step: BlockStep) -> Seq<u32> {
    unpacked_chunks(packed, bit_width, step.first_chunk as int, step.chunk_count as int).subrange(
        step.start as int,
        step.end as int,
    )
}

/// For blocks of a positive multiple of 1024 values, a step unpacks only chunks that the
/// values reach, and hands out positions within the chunks it unpacks.
proof fn lemma_step_within<const BLOCK_SIZE: usize>(steps: BlockSteps<BLOCK_SIZE>)
    requires
        steps.wf(),
        steps.block_id <= steps.block_count,
        steps.offset < 1024,
        BLOCK_SIZE > 0,
        BLOCK_SIZE % 1024 == 0,
    ensures
        steps.planned_step() matches Some(step) ==> step.first_chunk + step.chunk_count
            <= steps.block_count && step.start <= step.end && step.end <= 1024 * step.chunk_count
            && (step.full ==> step.end == 1024 * step.chunk_count && step.start == 0),
{
    let id = steps.block_id as int;
    let full = steps.full_block_count as int;
    let rest = 1024 * (full - id) + steps.last_chunk_len;
    assert(steps_of_chunk(BLOCK_SIZE as int) == BLOCK_SIZE / 1024);
    assert(1024 * (BLOCK_SIZE / 1024) == BLOCK_SIZE);
    if id < steps.block_count && !(id == 0 && steps.offset != 0) {
        if id + BLOCK_SIZE / 1024 <= full {
            assert(steps.planned_step() == Some(
                BlockStep {
                    first_chunk: id as usize,
                    chunk_count: (BLOCK_SIZE / 1024) as usize,
                    full: true,
                    start: 0,
                    end: BLOCK_SIZE,
                },
            ));
        } else {
            assert(id <= full);
            assert(rest > 0);
            let c = if steps.last_chunk_len > 0 {
                full - id + 1
            } else {
                full - id
            };
            assert(steps_of_chunk(rest) == c);
            assert(rest <= 1024 * c);
            assert(id + c == steps.block_count);
            assert(1024 * c <= 1024 * steps.block_count);
            assert(rest as usize == rest);
            assert(c as usize == c);
        }
    }
}

/// Block iteration over the values of a bit-packed array: each step's chunks are unpacked
/// from the packed words into a block buffer, and the step's part of the buffer handed out.
pub struct BitPackedArrayBlockIter<'a, const BLOCK_SIZE: usize> {
    packed: &'a [u32],
    bit_width: usize,
    steps: BlockSteps<BLOCK_SIZE>,
    fixed_array: Vec<u32>,
}

impl<'a, const BLOCK_SIZE: usize> BitPackedArrayBlockIter<'a, BLOCK_SIZE> {
    /// The packed words.
    pub closed spec fn spec_packed(&self) -> Seq<u32> {
        self.packed@
    }

    /// The number of bits per packed value.
    pub closed spec fn spec_bit_width(&self) -> int {
        self.bit_width as int
    }

    /// The step decisions, as far as iteration has gone.
    pub closed spec fn spec_steps(&self) -> BlockSteps<BLOCK_SIZE> {
        self.steps
    }

    /// The steps agree with each other and with the packed words, which hold every chunk the
    /// values reach, and blocks are a positive multiple of 1024 values.
    #[verifier::type_invariant]
    closed spec fn inv(&self) -> bool {
        &&& self.steps.wf()
        &&& self.steps.block_id <= self.steps.block_count
        &&& self.steps.offset < 1024
        &&& self.bit_width <= 32
        &&& self.steps.bit_width == self.bit_width
        &&& self.packed@.len() >= self.steps.block_count * (32 * self.bit_width)
        &&& BLOCK_SIZE > 0
        &&& BLOCK_SIZE % 1024 == 0
    }
}

impl<'a, const BLOCK_SIZE: usize> ArrayValueIterator<BLOCK_SIZE> for BitPackedArrayBlockIter<
    'a,
    BLOCK_SIZE,
> {
    type Item = u32;

    /// The next chunk to unpack.
    open spec fn progress(&self) -> int {
        self.spec_steps().block_id as int
    }

    /// The step taken is the planned one, and the values handed out are its values: a full
    /// block as `Ok`, a shorter run as `Err`, nothing once the chunks are consumed.
    open spec fn next_result(&self, after: int, r: Option<Result<&[u32; BLOCK_SIZE], &[u32]>>) -> bool {
        &&& after == self.spec_steps().block_id_after()
        &&& match self.spec_steps().planned_step() {
            None => r is None,
            Some(step) => if step.full {
                r matches Some(Ok(b)) && b@ == step_values(
                    self.spec_packed(),
                    self.spec_bit_width(),
                    step,
                )
            } else {
                r matches Some(Err(v)) && v@ == step_values(
                    self.spec_packed(),
                    self.spec_bit_width(),
                    step,
                )
            },
        }
    }

    /// Take the next step, unpacking its chunks from the packed words.
    fn next(&mut self) -> (r: Option<Result<&[u32; BLOCK_SIZE], &[u32]>>)
        ensures
            final(self).spec_packed() == old(self).spec_packed(),
            final(self).spec_bit_width() == old(self).spec_bit_width(),
            final(self).spec_steps().block_count == old(self).spec_steps().block_count,
            final(self).spec_steps().full_block_count == old(self).spec_steps().full_block_count,
            final(self).spec_steps().last_chunk_len == old(self).spec_steps().last_chunk_len,
            final(self).spec_steps().offset == old(self).spec_steps().offset,
    {
        proof {
            use_type_invariant(&*self);
            lemma_step_within(self.steps);
        }
        let mut steps = self.steps;
        let step = match steps.next_step() {
            None => return None,
            Some(step) => step,
        };
        let bit_width = self.bit_width;
        let words = 32 * bit_width;
        let ghost packed = self.packed@;
        let ghost count = steps.block_count as int;
        let mut buf: Vec<u32> = Vec::new();
        let mut k: usize = 0;
        while k < step.chunk_count
            invariant
                0 <= k <= step.chunk_count,
                step.first_chunk + step.chunk_count <= count,
                packed == self.packed@,
                packed.len() >= count * words,
                words == 32 * bit_width,
                bit_width <= 32,
                1024 * count <= usize::MAX,
                buf@.len() == 1024 * k,
                buf@ == unpacked_chunks(packed, bit_width as int, step.first_chunk as int, k as int),
            decreases step.chunk_count - k,
        {
            let c = step.first_chunk + k;
            proof {
                vstd::arithmetic::mul::lemma_mul_inequality(c + 1, count, words as int);
                vstd::arithmetic::mul::lemma_mul_inequality(words as int, 1024, count);
                vstd::arithmetic::mul::lemma_mul_is_distributive_add_other_way(words as int, c as int, 1);
            }
            let lo = c * words;
            let hi = lo + words;
            let vals = unpack_chunk(bit_width, &self.packed[lo..hi]);
            let ghost before = buf@;
            let mut j: usize = 0;
            while j < 1024
                invariant
                    0 <= j <= 1024,
                    vals@.len() == 1024,
                    buf@ == before + vals@.subrange(0, j as int),
                decreases 1024 - j,
            {
                buf.push(vals[j]);
                assert(buf@ =~= before + vals@.subrange(0, j + 1));
                j = j + 1;
            }
            assert(vals@.subrange(0, 1024) =~= vals@);
            assert(chunk_values(packed, bit_width as int, c as int) == vals@);
            k = k + 1;
        }
        self.fixed_array = buf;
        self.steps = steps;
        if step.full {
            match slice_as_array::<u32, BLOCK_SIZE>(&self.fixed_array[0..BLOCK_SIZE]) {
                Some(block) => {
                    assert(self.fixed_array@.subrange(0, BLOCK_SIZE as int) =~= self.fixed_array@);
                    Some(Ok(block))
                },
                None => None,
            }
        } else {
            Some(Err(&self.fixed_array[step.start..step.end]))
        }
    }
}

/// Consecutive ranges: each ends where the next begins, and none is empty.
pub open spec fn contiguous(rs: Seq<(int, int)>) -> bool {
    &&& forall|i: int| 0 <= i < rs.len() - 1 ==> #[trigger] rs[i].1 == rs[i + 1].0
    &&& forall|i: int| 0 <= i < rs.len() ==> #[trigger] rs[i].0 < rs[i].1
}

/// From a whole chunk `id` on, the steps hand out contiguous ranges from the start of chunk
/// `id` to the end of the values.
proof fn lemma_ranges_from_chunk(id: int, count: int, full: int, last: int, offset: int, b: int)
    requires
        0 <= id < count,
        id > 0 || offset == 0,
        b > 0,
        b % 1024 == 0,
        0 <= last < 1024,
        full + (if last > 0 {
            1int
        } else {
            0int
        }) == count,
    ensures
        ({
            let rs = step_ranges(id, count, full, last, offset, b);
            &&& rs.len() > 0
            &&& rs[0].0 == 1024 * id
            &&& rs.last().1 == 1024 * full + last
            &&& contiguous(rs)
        }),
    decreases count - id,
{
    let rs = step_ranges(id, count, full, last, offset, b);
    assert(steps_of_chunk(b) == b / 1024);
    if id + b / 1024 <= full {
        let next = id + b / 1024;
        let tail = step_ranges(next, count, full, last, offset, b);
        assert(rs == seq![(1024 * id, 1024 * id + b)] + tail);
        assert(1024 * (b / 1024) == b);
        if next < count {
            lemma_ranges_from_chunk(next, count, full, last, offset, b);
            assert forall|i: int| 0 <= i < rs.len() - 1 implies #[trigger] rs[i].1 == rs[i + 1].0 by {
                if i > 0 {
                    assert(rs[i] == tail[i - 1]);
                    assert(rs[i + 1] == tail[i]);
                }
            }
            assert forall|i: int| 0 <= i < rs.len() implies #[trigger] rs[i].0 < rs[i].1 by {
                if i > 0 {
                    assert(rs[i] == tail[i - 1]);
                }
            }
        } else {
            assert(tail.len() == 0);
        }
    } else {
        let rest = 1024 * (full - id) + last;
        assert(rest > 0);
        assert(steps_of_chunk(rest) == count - id);
        assert(step_ranges(count, count, full, last, offset, b).len() == 0);
        assert(rs =~= seq![(1024 * id, 1024 * full + last)]);
    }
}

/// Block iteration hands out every value of an array once, in order: for blocks of a positive
/// multiple of 1024 values, the ranges of packed positions that the steps hand out follow each
/// other without gap or overlap, from the array's first value to its last.
///
/// An array that starts inside its only chunk is left out: its single step hands out the rest
/// of that chunk, past the array's end.
pub proof fn law_steps_cover_array(offset: nat, len: nat, b: nat)
    requires
        b > 0,
        b % 1024 == 0,
        offset < 1024,
        offset == 0 || offset + len >= 1024,
    ensures
        ({
            let n = (offset + len) as int;
            let count = chunks_for(n);
            let last = n % 1024;
            let full = count - if last > 0 {
                1int
            } else {
                0int
            };
            let rs = step_ranges(0, count, full, last, offset as int, b as int);
            &&& (rs.len() == 0 <==> len == 0)
            &&& rs.len() > 0 ==> rs[0].0 == offset && rs.last().1 == n
            &&& contiguous(rs)
        }),
{
    let n = (offset + len) as int;
    let count = chunks_for(n);
    let last = n % 1024;
    let full = count - if last > 0 {
        1int
    } else {
        0int
    };
    assert(1024 * full + last == n) by {
        assert(n == 1024 * (n / 1024) + n % 1024);
        if last > 0 {
            assert(count == n / 1024 + 1);
        } else {
            assert(count == n / 1024);
        }
    }
    let rs = step_ranges(0, count, full, last, offset as int, b as int);
    if len == 0 {
        assert(offset == 0);
        assert(count == 0);
    } else if offset == 0 {
        lemma_ranges_from_chunk(0, count, full, last, 0, b as int);
    } else {
        let tail = step_ranges(1, count, full, last, offset as int, b as int);
        assert(rs == seq![(offset as int, 1024int)] + tail);
        if count > 1 {
            lemma_ranges_from_chunk(1, count, full, last, offset as int, b as int);
            assert forall|i: int| 0 <= i < rs.len() - 1 implies #[trigger] rs[i].1 == rs[i + 1].0 by {
                if i > 0 {
                    assert(rs[i] == tail[i - 1]);
                    assert(rs[i + 1] == tail[i]);
                }
            }
            assert forall|i: int| 0 <= i < rs.len() implies #[trigger] rs[i].0 < rs[i].1 by {
                if i > 0 {
                    assert(rs[i] == tail[i - 1]);
                }
            }
        } else {
            assert(count == 1);
            assert(tail.len() == 0);
            assert(n == 1024);
        }
    }
}


/// Every chunk below `count` unpacks to 1024 values, as FastLanes' unpacking gives.
pub open spec fn chunks_unpack_whole(packed: Seq<u32>, bit_width: int, count: int) -> bool {
    forall|k: int| 0 <= k < count ==> (#[trigger] chunk_values(packed, bit_width, k)).len() == 1024
}

/// The chunks `first .. first + c` unpacked one after the other are the values at
/// `[1024 * first, 1024 * (first + c))` of all chunks from the first one unpacked.
proof fn lemma_unpacked_split(packed: Seq<u32>, bit_width: int, first: int, c: int)
    requires
        0 <= first,
        0 <= c,
        chunks_unpack_whole(packed, bit_width, first + c),
    ensures
        unpacked_chunks(packed, bit_width, 0, first + c).len() == 1024 * (first + c),
        unpacked_chunks(packed, bit_width, first, c) == unpacked_chunks(
            packed,
            bit_width,
            0,
            first + c,
        ).subrange(1024 * first, 1024 * (first + c)),
    decreases c,
{
    if c == 0 {
        lemma_unpacked_len(packed, bit_width, first);
        assert(unpacked_chunks(packed, bit_width, 0, first).subrange(1024 * first, 1024 * first)
            =~= Seq::<u32>::empty());
    } else {
        lemma_unpacked_split(packed, bit_width, first, c - 1);
        let all = unpacked_chunks(packed, bit_width, 0, first + c - 1);
        let last = chunk_values(packed, bit_width, first + c - 1);
        assert(unpacked_chunks(packed, bit_width, 0, first + c) == all + last);
        assert(unpacked_chunks(packed, bit_width, first, c) == unpacked_chunks(
            packed,
            bit_width,
            first,
            c - 1,
        ) + last);
        assert((all + last).subrange(1024 * first, 1024 * (first + c)) =~= all.subrange(
            1024 * first,
            1024 * (first + c - 1),
        ) + last);
    }
}

/// All chunks from the first one unpacked hold 1024 values each.
proof fn lemma_unpacked_len(packed: Seq<u32>, bit_width: int, n: int)
    requires
        0 <= n,
        chunks_unpack_whole(packed, bit_width, n),
    ensures
        unpacked_chunks(packed, bit_width, 0, n).len() == 1024 * n,
    decreases n,
{
    if n > 0 {
        lemma_unpacked_len(packed, bit_width, n - 1);
        assert(chunk_values(packed, bit_width, n - 1).len() == 1024);
    }
}

/// The values a step hands out are the values of all the chunks unpacked one after the other,
/// at the packed positions the step hands out.
pub proof fn law_step_values_in_chunks(packed: Seq<u32>, bit_width: int, count: int, step: BlockStep)
    requires
        step.first_chunk + step.chunk_count <= count,
        step.start <= step.end <= 1024 * step.chunk_count,
        chunks_unpack_whole(packed, bit_width, count),
    ensures
        step_values(packed, bit_width, step) == unpacked_chunks(packed, bit_width, 0, count).subrange(
            handed_out(step).0,
            handed_out(step).1,
        ),
{
    let first = step.first_chunk as int;
    let c = step.chunk_count as int;
    lemma_unpacked_split(packed, bit_width, first, c);
    lemma_unpacked_split(packed, bit_width, first + c, count - first - c);
    let u = unpacked_chunks(packed, bit_width, 0, count);
    let w = unpacked_chunks(packed, bit_width, 0, first + c);
    lemma_unpacked_prefix(packed, bit_width, first + c, count);
    assert(w == u.subrange(0, 1024 * (first + c)));
    assert(step_values(packed, bit_width, step) =~= u.subrange(
        1024 * first + step.start,
        1024 * first + step.end,
    ));
}

/// The chunks unpacked from the first one up to `n` are a prefix of those up to `m`.
proof fn lemma_unpacked_prefix(packed: Seq<u32>, bit_width: int, n: int, m: int)
    requires
        0 <= n <= m,
        chunks_unpack_whole(packed, bit_width, m),
    ensures
        unpacked_chunks(packed, bit_width, 0, n) == unpacked_chunks(packed, bit_width, 0, m).subrange(
            0,
            1024 * n,
        ),
    decreases m - n,
{
    lemma_unpacked_len(packed, bit_width, m);
    if n < m {
        lemma_unpacked_prefix(packed, bit_width, n, m - 1);
        lemma_unpacked_len(packed, bit_width, m - 1);
        let a = unpacked_chunks(packed, bit_width, 0, m - 1);
        assert(unpacked_chunks(packed, bit_width, 0, m) == a + chunk_values(packed, bit_width, m - 1));
        assert((a + chunk_values(packed, bit_width, m - 1)).subrange(0, 1024 * n) =~= a.subrange(
            0,
            1024 * n,
        ));
    } else {
        assert(unpacked_chunks(packed, bit_width, 0, m).subrange(0, 1024 * m) =~= unpacked_chunks(
            packed,
            bit_width,
            0,
            m,
        ));
    }
}

/// Ranges that follow each other without gap from `a` to `e`, within `vals`, joined give the
/// values `[a, e)`.
proof fn lemma_contiguous_join<T>(vals: Seq<T>, rs: Seq<(int, int)>, a: int, e: int)
    requires
        rs.len() > 0,
        contiguous(rs),
        rs[0].0 == a,
        rs.last().1 == e,
        0 <= a,
        e <= vals.len(),
    ensures
        a <= e,
        values_in_ranges(vals, rs) == vals.subrange(a, e),
    decreases rs.len(),
{
    let rest = rs.drop_first();
    if rs.len() == 1 {
        assert(rest.len() == 0);
        assert(values_in_ranges(vals, rest) == Seq::<T>::empty());
        assert(vals.subrange(a, e) + Seq::<T>::empty() =~= vals.subrange(a, e));
    } else {
        assert(rs[0].1 == rs[1].0);
        assert(contiguous(rest)) by {
            assert forall|i: int| 0 <= i < rest.len() - 1 implies #[trigger] rest[i].1 == rest[i + 1].0 by {
                assert(rest[i] == rs[i + 1]);
                assert(rest[i + 1] == rs[i + 2]);
            }
            assert forall|i: int| 0 <= i < rest.len() implies #[trigger] rest[i].0 < rest[i].1 by {
                assert(rest[i] == rs[i + 1]);
            }
        }
        assert(rest[0] == rs[1]);
        assert(rest.last() == rs.last());
        assert(rs[0].0 < rs[0].1);
        lemma_contiguous_join(vals, rest, rs[0].1, e);
        assert(vals.subrange(a, rs[0].1) + vals.subrange(rs[0].1, e) =~= vals.subrange(a, e));
    }
}

/// Block iteration hands out the values of the array, in order: for blocks of a positive
/// multiple of 1024 values, the values the steps hand out, joined one after the other, are the
/// unpacked values from the array's first to its last.
///
/// As with the cover of the steps, an array that starts inside its only chunk is left out.
pub proof fn law_steps_join_to_array_values(packed: Seq<u32>, bit_width: int, offset: nat, len: nat, b: nat)
    requires
        b > 0,
        b % 1024 == 0,
        offset < 1024,
        offset == 0 || offset + len >= 1024,
        len > 0,
        chunks_unpack_whole(packed, bit_width, chunks_for((offset + len) as int)),
    ensures
        ({
            let n = (offset + len) as int;
            let count = chunks_for(n);
            let last = n % 1024;
            let full = count - if last > 0 {
                1int
            } else {
                0int
            };
            let u = unpacked_chunks(packed, bit_width, 0, count);
            values_in_ranges(u, step_ranges(0, count, full, last, offset as int, b as int))
                == u.subrange(offset as int, n)
        }),
{
    let n = (offset + len) as int;
    let count = chunks_for(n);
    let last = n % 1024;
    let full = count - if last > 0 {
        1int
    } else {
        0int
    };
    law_steps_cover_array(offset, len, b);
    lemma_unpacked_len(packed, bit_width, count);
    let u = unpacked_chunks(packed, bit_width, 0, count);
    let rs = step_ranges(0, count, full, last, offset as int, b as int);
    assert(n <= 1024 * count);
    lemma_contiguous_join(u, rs, offset as int, n);
}
} // verus!
