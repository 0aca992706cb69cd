use vstd::prelude::*;

verus! {

/// The number of cells of the surfel grid, one per brick grid cell.
pub const SG_ARRAY_SIZE: usize = 33554432;

/// Surfel map slices, one per section of the world.
#[derive(Clone)]
pub struct SurfelGrid {
    // surfel map slices
    pub pointers: [u32; SG_ARRAY_SIZE],
}

/// A range of the surfel map, or nothing.
#[derive(Copy, Clone, Debug, PartialEq, Eq, Structural)]
pub enum SurfelMapSlice {
    // one flag bit
    Empty,
    SurfelMap {
        // must be < 18 bits
        start: u32,
        // must be < 13 bits
        length: u32,
    },
}

impl SurfelMapSlice {
    /// Decodes a raw slice: bit 0 is the flag, bits `1..19` the start and bits `19..` the length.
    pub fn from_raw(pointer: u32) -> (r: Self)
        ensures
            r == (if pointer % 2 == 0 {
                SurfelMapSlice::Empty
            } else {
                SurfelMapSlice::SurfelMap {
                    start: ((pointer / 2) % 262144) as u32,
                    length: (pointer / 524288) as u32,
                }
            }),
    {
        proof {
            assert(pointer & 1u32 == pointer % 2) by (bit_vector);
            assert((pointer >> 1u32) & 0b1111_1111_1111_1111_11u32 == (pointer / 2) % 262144)
                by (bit_vector);
            assert(pointer >> 19u32 == pointer / 524288) by (bit_vector);
        }
        match pointer & 1 {
            0 => Self::Empty,
            _ => {
                Self::SurfelMap {
                    start: (pointer >> 1) & 0b1111_1111_1111_1111_11,
                    length: pointer >> 19,
                }
            },
        }
    }

    /// Encodes the slice; the start must fit in 18 bits and the length in 13.
    pub fn to_raw(&self) -> (r: u32)
        requires
            self matches SurfelMapSlice::SurfelMap { start, length } ==> start
                <= 0b1111_1111_1111_1111_11 && length <= 0b1111_1111_1111_1,
        ensures
            r == match *self {
                SurfelMapSlice::Empty => 0,
                SurfelMapSlice::SurfelMap { start, length } => 1 + start * 2 + length * 524288,
            },
    {
        match *self {
            Self::Empty => 0,
            Self::SurfelMap { start, length } => {
                proof {
                    assert(start <= 0b1111_1111_1111_1111_11u32 && length <= 0b1111_1111_1111_1u32
                        ==> 1u32 | (start << 1u32) | (length << 19u32) == 1 + start * 2 + length
                        * 524288) by (bit_vector);
                }
                1 | (start << 1) | (length << 19)
            },
        }
    }
}

/// Encoding a slice and decoding it gives the slice back.
pub proof fn lemma_slice_roundtrip(s: SurfelMapSlice, raw: u32)
    requires
        s matches SurfelMapSlice::SurfelMap { start, length } ==> start <= 0b1111_1111_1111_1111_11
            && length <= 0b1111_1111_1111_1,
        raw == match s {
            SurfelMapSlice::Empty => 0,
            SurfelMapSlice::SurfelMap { start, length } => 1 + start * 2 + length * 524288,
        },
    ensures
        s == (if raw % 2 == 0 {
            SurfelMapSlice::Empty
        } else {
            SurfelMapSlice::SurfelMap {
                start: ((raw / 2) % 262144) as u32,
                length: (raw / 524288) as u32,
            }
        }),
{
}

/// Decoding a raw slice whose flag is set and encoding it again gives the raw value back.
pub proof fn lemma_raw_roundtrip(raw: u32)
    requires
        raw % 2 == 1,
    ensures
        1 + ((raw / 2) % 262144) * 2 + (raw / 524288) * 524288 == raw,
        (raw / 2) % 262144 <= 0b1111_1111_1111_1111_11,
        raw / 524288 <= 0b1111_1111_1111_1,
{
}

} // verus!
