//! The bookkeeping of the entity allocator's free list: the packed state of
//! its length, and the layout of the chunked buffer that holds it.
//!
//! The free list is a buffer split into chunks, each twice as large as the
//! last except for the first two, which hold 512 slots each; chunks are
//! never moved once allocated.  Its length lives in a single 64-bit state,
//! together with a flag that disables it during a free and a generation that
//! tells apart states of equal length.
use vstd::prelude::*;

verus! {

/// When this bit is on, the count is disabled.
/// This is used to prevent remote allocations from running at the same time
/// as a free operation.
pub const DISABLING_BIT: u64 = 0x2_0000_0000;

/// This is the mask for the length bits (the least significant 33 bits).
pub const LENGTH_MASK: u64 = 0x1_ffff_ffff;

/// This is the value of the length bits that we consider to be 0.
pub const LENGTH_0: u64 = 0x1_0000_0000;

/// This is the lowest bit of the 30-bit generation.
pub const GENERATION_LEAST_BIT: u64 = 0x4_0000_0000;

/// The number of chunks of the free buffer.
pub const NUM_CHUNKS: u32 = 24;

/// The number of powers of two that the chunk capacities skip.
pub const NUM_SKIPPED: u32 = 8;

/// The state of the free list's count, packed into 64 bits:
///
/// - the least significant 33 bits store the length as an `i33` offset by
///   `1 << 32` (so that `1 << 32` means 0, and lower values are negative and
///   read as 0);
/// - the 34th bit is the flag that disables the length;
/// - the remaining 30 bits are the generation, which changes on every pop so
///   that two states of equal length can be told apart.
#[derive(Clone, Copy, Debug, PartialEq, Eq, Structural)]
pub struct FreeCountState(pub u64);

/// The length bits of a state: its least significant 33 bits.
pub open spec fn length_bits(s: u64) -> int {
    (s % 0x2_0000_0000) as int
}

/// The length a state encodes: its length bits less `1 << 32`, or 0 when
/// that is negative.
pub open spec fn encoded_length(s: u64) -> int {
    if length_bits(s) >= LENGTH_0 {
        length_bits(s) - LENGTH_0
    } else {
        0
    }
}

/// Whether the disabling bit of a state is on.
pub open spec fn disabled_bit(s: u64) -> bool {
    (s / 0x2_0000_0000) % 2 == 1
}

/// The generation of a state: its 30 most significant bits.
pub open spec fn generation_of(s: u64) -> int {
    (s / 0x4_0000_0000) as int
}

impl FreeCountState {
    /// Constructs a length of 0.
    pub fn new_zero_len() -> (r: Self)
        ensures
            r.0 == LENGTH_0,
            encoded_length(r.0) == 0,
            !disabled_bit(r.0),
            generation_of(r.0) == 0,
    {
        FreeCountState(LENGTH_0)
    }

    /// Gets the encoded length.
    pub fn length(self) -> (r: u32)
        ensures
            r == encoded_length(self.0),
    {
        let unsigned_length = self.0 & LENGTH_MASK;
        let s = self.0;
        assert(s & 0x1_ffff_ffffu64 == s % 0x2_0000_0000) by (bit_vector);
        let r = unsigned_length.saturating_sub(LENGTH_0);
        assert(r < 0x1_0000_0000);
        r as u32
    }

    /// Returns whether or not the count is disabled.
    pub fn is_disabled(self) -> (r: bool)
        ensures
            r == disabled_bit(self.0),
    {
        let s = self.0;
        assert((s & 0x2_0000_0000u64 > 0) == ((s / 0x2_0000_0000) % 2 == 1)) by (bit_vector);
        (self.0 & DISABLING_BIT) > 0
    }

    /// Changes only the length of this count to `length`.
    pub fn with_length(self, length: u32) -> (r: Self)
        ensures
            encoded_length(r.0) == length,
            length_bits(r.0) == length + LENGTH_0,
            disabled_bit(r.0) == disabled_bit(self.0),
            generation_of(r.0) == generation_of(self.0),
    {
        let requested = length;
        // Just turns on the "considered zero" bit since this is non-negative.
        let length = length as u64 | LENGTH_0;
        let s = self.0;
        let l = length;
        let r = s & !LENGTH_MASK | length;
        let ghost q = requested as u64;
        assert(q < 0x1_0000_0000 ==> (q | 0x1_0000_0000u64) == q + 0x1_0000_0000) by (bit_vector);
        assert(l < 0x2_0000_0000 && l >= 0x1_0000_0000 ==> {
            let r = s & !0x1_ffff_ffffu64 | l;
            &&& r % 0x2_0000_0000 == l
            &&& (r / 0x2_0000_0000) % 2 == (s / 0x2_0000_0000) % 2
            &&& r / 0x4_0000_0000 == s / 0x4_0000_0000
        }) by (bit_vector);
        FreeCountState(r)
    }

    /// For popping `num` off the count, subtract the resulting u64: `num` from
    /// the length, and one from the generation.
    pub fn encode_pop(num: u32) -> (r: u64)
        ensures
            r == num + GENERATION_LEAST_BIT,
    {
        let substract_length = num as u64;
        assert(substract_length < 0x1_0000_0000 ==> (substract_length | 0x4_0000_0000u64)
            == substract_length + 0x4_0000_0000) by (bit_vector);
        // Also subtract one from the generation bit.
        substract_length | GENERATION_LEAST_BIT
    }

    /// Returns the count after popping off `num` elements.
    pub fn pop(self, num: u32) -> (r: Self)
        ensures
            r.0 == (self.0 - num - GENERATION_LEAST_BIT) % 0x1_0000_0000_0000_0000,
    {
        let sub = Self::encode_pop(num);
        let r = self.0.wrapping_sub(sub);
        FreeCountState(r)
    }
}

/// Popping from a state whose length is not negative takes `num` off the
/// length (down to 0, the length being an `i33`), keeps the disabling bit,
/// and moves to another generation, so that the new state differs from the
/// old one.
pub proof fn lemma_pop(s: FreeCountState, num: u32)
    requires
        length_bits(s.0) >= LENGTH_0,
    ensures
        ({
            let r = (s.0 - num - GENERATION_LEAST_BIT) % 0x1_0000_0000_0000_0000;
            &&& encoded_length(r as u64) == if num <= encoded_length(s.0) {
                encoded_length(s.0) - num
            } else {
                0
            }
            &&& disabled_bit(r as u64) == disabled_bit(s.0)
            &&& generation_of(r as u64) == (generation_of(s.0) - 1) % 0x4000_0000
            &&& r != s.0
        }),
{
    let x = s.0;
    let n = num as u64;
    assert(x % 0x2_0000_0000 >= 0x1_0000_0000 && n < 0x1_0000_0000 ==> {
        let r = (x - n - 0x4_0000_0000) as u64;
        &&& r % 0x2_0000_0000 == x % 0x2_0000_0000 - n
        &&& (r / 0x2_0000_0000) % 2 == (x / 0x2_0000_0000) % 2
        &&& r / 0x4_0000_0000 == if x / 0x4_0000_0000 == 0 {
            0x3fff_ffffu64
        } else {
            (x / 0x4_0000_0000 - 1) as u64
        }
        &&& r != x
    }) by (bit_vector);
    assert(((x - n - 0x4_0000_0000) as u64) == (x - n - 0x4_0000_0000) % 0x1_0000_0000_0000_0000)
        by (bit_vector);
}

/// The capacity of the chunk at `chunk_index`: the first two hold 512
/// (2^9) slots, and each one after holds twice as many as the one before.
pub open spec fn chunk_capacity(chunk_index: u32) -> u32 {
    1u32 << ((if chunk_index == 0 {
        1u32
    } else {
        chunk_index
    }) + NUM_SKIPPED) as u32
}

/// The index in the whole buffer of the first slot of the chunk at
/// `chunk_index`.
pub open spec fn chunk_start(chunk_index: u32) -> int {
    if chunk_index == 0 {
        0
    } else {
        chunk_capacity(chunk_index) as int
    }
}

/// The chunks are laid end to end: each one starts where the one before it
/// ends, and the last one ends at `2^32`.
pub proof fn lemma_chunks_contiguous(k: u32)
    requires
        k + 1 < NUM_CHUNKS,
    ensures
        chunk_start((k + 1) as u32) == chunk_start(k) + chunk_capacity(k),
        chunk_start((NUM_CHUNKS - 1) as u32) + chunk_capacity((NUM_CHUNKS - 1) as u32) == 0x1_0000_0000,
{
    assert((1u32 << 9u32) == 512u32) by (bit_vector);
    assert((1u32 << 10u32) == 1024u32) by (bit_vector);
    assert((1u32 << 31u32) == 0x8000_0000u32) by (bit_vector);
    if k > 0 {
        let e: u32 = (k + 8) as u32;
        assert(1 <= k < 23 && e == k + 8 ==> (1u32 << ((e + 1) as u32)) == (1u32 << e) + (1u32 << e))
            by (bit_vector);
    }
}

/// Computes the capacity of the chunk at this index within [`NUM_CHUNKS`].
/// The first 2 have length 512 (2^9) and the last has length (2^31)
pub fn capacity_of_chunk(chunk_index: u32) -> (r: u32)
    requires
        chunk_index < NUM_CHUNKS,
    ensures
        r == chunk_capacity(chunk_index),
{
    // We do this because we're skipping the first `NUM_SKIPPED` powers, so we
    // need to make up for them by doubling the first index. This is why the
    // first 2 indices both have a capacity of 512.
    let corrected = if chunk_index == 0 {
        1
    } else {
        chunk_index
    };
    // We add NUM_SKIPPED because the total capacity should be as if
    // NUM_CHUNKS were 32. This skips the first NUM_SKIPPED powers.
    let corrected = corrected + NUM_SKIPPED;
    // This bit shift is just 2^corrected.
    1u32 << corrected
}

/// For this index in the whole buffer, returns the index of the chunk, the
/// index within that chunk, and the capacity of that chunk.
pub fn index_info(full_index: u32) -> (r: (u32, u32, u32))
    ensures
        r.0 < NUM_CHUNKS,
        r.2 == chunk_capacity(r.0),
        r.1 < r.2,
        full_index == chunk_start(r.0) + r.1,
{
    // We do a `saturating_sub` because we skip the first `NUM_SKIPPED` powers
    // to make space for the first chunk's entity count. The -1 is because
    // this is the number of chunks, but we want the index in the end. We
    // store chunks in smallest to biggest order, so we need to reverse it.
    let lz = full_index.leading_zeros();
    proof {
        vstd::std_specs::bits::axiom_u32_leading_zeros(full_index);
    }
    let chunk_index = (NUM_CHUNKS - 1).saturating_sub(lz);
    let chunk_capacity = capacity_of_chunk(chunk_index);
    // We only need to cut off this particular bit. The capacity is only one
    // bit, and if other bits needed to be dropped, `leading` would have been
    // greater
    let index_in_chunk = full_index & !chunk_capacity;
    proof {
        let i = full_index;
        let hi: u32 = (32 - lz) as u32;
        if lz >= 23 {
            // the index lies in the first chunk
            assert(chunk_index == 0);
            assert((1u32 << 9u32) == 512u32) by (bit_vector);
            assert(chunk_capacity == 512);
            assert(i >> hi == 0);
            assert(lz >= 23 && lz <= 32 && hi == 32 - lz && i >> hi == 0 ==> i < 512 && i & !(1u32
                << 9u32) == i) by (bit_vector);
        } else {
            let top: u32 = (31 - lz) as u32;
            assert(chunk_index == top - 8);
            assert((i >> top) & 1u32 != 0u32);
            assert(i >> hi == 0);
            assert(lz < 23 && top == 31 - lz && hi == 32 - lz && (i >> top) & 1u32 != 0u32 && i >> hi
                == 0 ==> {
                let c = 1u32 << top;
                &&& i & !c < c
                &&& i == c + (i & !c)
            }) by (bit_vector);
            assert(((if chunk_index == 0 {
                1u32
            } else {
                chunk_index
            }) + NUM_SKIPPED) as u32 == top);
        }
    }
    (chunk_index, index_in_chunk, chunk_capacity)
}

} // verus!
