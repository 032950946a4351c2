//! Fixed-width register value types.
//!
//! A register value is a plain scalar that is stored to and loaded from a
//! window of bytes inside a mapped region.  Values are laid out
//! little-endian.  Every byte pattern of the right width denotes a value, so
//! a load from arbitrary memory contents is total, and a value determines its
//! bytes exactly, so a store never leaves part of the window unwritten.

use vstd::prelude::*;

verus! {

/// A scalar that can be loaded from and stored to a fixed-width byte window.
///
/// `from_bytes_spec` is total over byte sequences of the declared width and
/// `to_bytes_spec` loses no information: the two round-trip lemmas are owed
/// by every implementation.
pub trait RegValue: Sized + Copy {
    /// Width of the value in bytes, as specifications see it.
    spec fn width_spec() -> nat;

    /// Width of the value in bytes.
    fn width() -> (r: usize)
        ensures
            r == Self::width_spec(),
    ;

    /// A value occupies at least one byte.
    proof fn lemma_width_positive()
        ensures
            Self::width_spec() >= 1,
    ;

    /// The value that a byte window of width `width_spec()` denotes.
    spec fn from_bytes_spec(bytes: Seq<u8>) -> Self;

    /// The byte window that a value denotes.
    spec fn to_bytes_spec(v: Self) -> Seq<u8>;

    /// Loads the value stored at `bytes[offset .. offset + width]`.
    fn load_at(bytes: &Vec<u8>, offset: usize) -> (r: Self)
        requires
            offset + Self::width_spec() <= bytes@.len(),
        ensures
            r == Self::from_bytes_spec(
                bytes@.subrange(offset as int, offset as int + Self::width_spec() as int),
            ),
    ;

    /// Stores the value into `bytes[offset .. offset + width]`, leaving every
    /// other byte unchanged.
    fn store_at(bytes: &mut Vec<u8>, offset: usize, v: Self)
        requires
            offset + Self::width_spec() <= old(bytes)@.len(),
        ensures
            final(bytes)@.len() == old(bytes)@.len(),
            final(bytes)@.subrange(offset as int, offset as int + Self::width_spec() as int)
                == Self::to_bytes_spec(v),
            forall|i: int|
                0 <= i < old(bytes)@.len() && !(offset <= i < offset + Self::width_spec())
                    ==> final(bytes)@[i] == old(bytes)@[i],
    ;

    /// The byte window of a value has exactly the declared width.
    proof fn lemma_to_bytes_len(v: Self)
        ensures
            Self::to_bytes_spec(v).len() == Self::width_spec(),
    ;

    /// Loading a stored value yields the value back.
    proof fn lemma_load_store(v: Self)
        ensures
            Self::from_bytes_spec(Self::to_bytes_spec(v)) == v,
    ;

    /// Storing a loaded value reproduces the bytes.
    proof fn lemma_store_load(bytes: Seq<u8>)
        requires
            bytes.len() == Self::width_spec(),
        ensures
            Self::to_bytes_spec(Self::from_bytes_spec(bytes)) == bytes,
    ;
}

impl RegValue for u8 {
    open spec fn width_spec() -> nat {
        1
    }

    fn width() -> (r: usize) {
        1
    }

    proof fn lemma_width_positive() {
    }

    open spec fn from_bytes_spec(bytes: Seq<u8>) -> u8 {
        bytes[0]
    }

    open spec fn to_bytes_spec(v: u8) -> Seq<u8> {
        seq![v]
    }

    fn load_at(bytes: &Vec<u8>, offset: usize) -> (r: u8) {
        bytes[offset]
    }

    fn store_at(bytes: &mut Vec<u8>, offset: usize, v: u8) {
        bytes[offset] = v;
        proof {
            assert(final(bytes)@.subrange(offset as int, offset as int + 1) =~= seq![v]);
        }
    }

    proof fn lemma_to_bytes_len(v: u8) {
    }

    proof fn lemma_load_store(v: u8) {
    }

    proof fn lemma_store_load(bytes: Seq<u8>) {
        assert(seq![bytes[0]] =~= bytes);
    }
}

impl RegValue for u16 {
    open spec fn width_spec() -> nat {
        2
    }

    fn width() -> (r: usize) {
        2
    }

    proof fn lemma_width_positive() {
    }

    open spec fn from_bytes_spec(bytes: Seq<u8>) -> u16 {
        (bytes[0] as u16) | ((bytes[1] as u16) << 8)
    }

    open spec fn to_bytes_spec(v: u16) -> Seq<u8> {
        seq![(v & 0xff) as u8, ((v >> 8) & 0xff) as u8]
    }

    fn load_at(bytes: &Vec<u8>, offset: usize) -> (r: u16) {
        let n: usize = bytes.len();
        let b0: u8 = bytes[offset];
        let b1: u8 = bytes[offset + 1];
        let r: u16 = (b0 as u16) | ((b1 as u16) << 8);
        proof {
            let w: Seq<u8> = bytes@.subrange(offset as int, offset as int + 2);
            assert(w[0] == bytes@[offset as int]);
            assert(w[1] == bytes@[offset as int + 1]);
        }
        r
    }

    fn store_at(bytes: &mut Vec<u8>, offset: usize, v: u16) {
        let n: usize = bytes.len();
        proof {
            assert((v & 0xff) < 256 && ((v >> 8) & 0xff) < 256) by (bit_vector);
        }
        bytes[offset] = (v & 0xff) as u8;
        bytes[offset + 1] = ((v >> 8) & 0xff) as u8;
        proof {
            assert(final(bytes)@.subrange(offset as int, offset as int + 2)
                =~= Self::to_bytes_spec(v));
        }
    }

    proof fn lemma_to_bytes_len(v: u16) {
    }

    proof fn lemma_load_store(v: u16) {
        assert((((v & 0xff) as u8 as u16) | ((((v >> 8) & 0xff) as u8 as u16) << 8)) == v)
            by (bit_vector);
    }

    proof fn lemma_store_load(bytes: Seq<u8>) {
        let b0: u8 = bytes[0];
        let b1: u8 = bytes[1];
        assert(((((b0 as u16) | ((b1 as u16) << 8)) & 0xff) as u8) == b0) by (bit_vector);
        assert((((((b0 as u16) | ((b1 as u16) << 8)) >> 8) & 0xff) as u8) == b1) by (bit_vector);
        assert(Self::to_bytes_spec(Self::from_bytes_spec(bytes)) =~= bytes);
    }
}

impl RegValue for u32 {
    open spec fn width_spec() -> nat {
        4
    }

    fn width() -> (r: usize) {
        4
    }

    proof fn lemma_width_positive() {
    }

    open spec fn from_bytes_spec(bytes: Seq<u8>) -> u32 {
        (bytes[0] as u32) | ((bytes[1] as u32) << 8) | ((bytes[2] as u32) << 16) | ((bytes[3]
            as u32) << 24)
    }

    open spec fn to_bytes_spec(v: u32) -> Seq<u8> {
        seq![
            (v & 0xff) as u8,
            ((v >> 8) & 0xff) as u8,
            ((v >> 16) & 0xff) as u8,
            ((v >> 24) & 0xff) as u8,
        ]
    }

    fn load_at(bytes: &Vec<u8>, offset: usize) -> (r: u32) {
        let n: usize = bytes.len();
        let b0: u8 = bytes[offset];
        let b1: u8 = bytes[offset + 1];
        let b2: u8 = bytes[offset + 2];
        let b3: u8 = bytes[offset + 3];
        let r: u32 = (b0 as u32) | ((b1 as u32) << 8) | ((b2 as u32) << 16) | ((b3 as u32) << 24);
        proof {
            let w: Seq<u8> = bytes@.subrange(offset as int, offset as int + 4);
            assert(w[0] == bytes@[offset as int]);
            assert(w[1] == bytes@[offset as int + 1]);
            assert(w[2] == bytes@[offset as int + 2]);
            assert(w[3] == bytes@[offset as int + 3]);
        }
        r
    }

    fn store_at(bytes: &mut Vec<u8>, offset: usize, v: u32) {
        let n: usize = bytes.len();
        proof {
            assert((v & 0xff) < 256 && ((v >> 8) & 0xff) < 256 && ((v >> 16) & 0xff) < 256 && ((v
                >> 24) & 0xff) < 256) by (bit_vector);
        }
        bytes[offset] = (v & 0xff) as u8;
        bytes[offset + 1] = ((v >> 8) & 0xff) as u8;
        bytes[offset + 2] = ((v >> 16) & 0xff) as u8;
        bytes[offset + 3] = ((v >> 24) & 0xff) as u8;
        proof {
            assert(final(bytes)@.subrange(offset as int, offset as int + 4)
                =~= Self::to_bytes_spec(v));
        }
    }

    proof fn lemma_to_bytes_len(v: u32) {
    }

    proof fn lemma_load_store(v: u32) {
        assert((((v & 0xff) as u8 as u32) | ((((v >> 8) & 0xff) as u8 as u32) << 8) | ((((v >> 16)
            & 0xff) as u8 as u32) << 16) | ((((v >> 24) & 0xff) as u8 as u32) << 24)) == v)
            by (bit_vector);
    }

    proof fn lemma_store_load(bytes: Seq<u8>) {
        let b0: u8 = bytes[0];
        let b1: u8 = bytes[1];
        let b2: u8 = bytes[2];
        let b3: u8 = bytes[3];
        let v: u32 = (b0 as u32) | ((b1 as u32) << 8) | ((b2 as u32) << 16) | ((b3 as u32) << 24);
        assert((((((b0 as u32) | ((b1 as u32) << 8) | ((b2 as u32) << 16) | ((b3 as u32) << 24))
            & 0xff) as u8) == b0) && ((((((b0 as u32) | ((b1 as u32) << 8) | ((b2 as u32) << 16) | (
        (b3 as u32) << 24)) >> 8) & 0xff) as u8) == b1) && ((((((b0 as u32) | ((b1 as u32) << 8) | (
        (b2 as u32) << 16) | ((b3 as u32) << 24)) >> 16) & 0xff) as u8) == b2) && ((((((b0 as u32)
            | ((b1 as u32) << 8) | ((b2 as u32) << 16) | ((b3 as u32) << 24)) >> 24) & 0xff) as u8)
            == b3)) by (bit_vector);
        assert(Self::to_bytes_spec(Self::from_bytes_spec(bytes)) =~= bytes);
    }
}

impl RegValue for u64 {
    open spec fn width_spec() -> nat {
        8
    }

    fn width() -> (r: usize) {
        8
    }

    proof fn lemma_width_positive() {
    }

    open spec fn from_bytes_spec(bytes: Seq<u8>) -> u64 {
        (bytes[0] as u64) | ((bytes[1] as u64) << 8) | ((bytes[2] as u64) << 16) | ((bytes[3]
            as u64) << 24) | ((bytes[4] as u64) << 32) | ((bytes[5] as u64) << 40) | ((bytes[6]
            as u64) << 48) | ((bytes[7] as u64) << 56)
    }

    open spec fn to_bytes_spec(v: u64) -> Seq<u8> {
        seq![
            (v & 0xff) as u8,
            ((v >> 8) & 0xff) as u8,
            ((v >> 16) & 0xff) as u8,
            ((v >> 24) & 0xff) as u8,
            ((v >> 32) & 0xff) as u8,
            ((v >> 40) & 0xff) as u8,
            ((v >> 48) & 0xff) as u8,
            ((v >> 56) & 0xff) as u8,
        ]
    }

    fn load_at(bytes: &Vec<u8>, offset: usize) -> (r: u64) {
        let n: usize = bytes.len();
        let b0: u8 = bytes[offset];
        let b1: u8 = bytes[offset + 1];
        let b2: u8 = bytes[offset + 2];
        let b3: u8 = bytes[offset + 3];
        let b4: u8 = bytes[offset + 4];
        let b5: u8 = bytes[offset + 5];
        let b6: u8 = bytes[offset + 6];
        let b7: u8 = bytes[offset + 7];
        let r: u64 = (b0 as u64) | ((b1 as u64) << 8) | ((b2 as u64) << 16) | ((b3 as u64) << 24)
            | ((b4 as u64) << 32) | ((b5 as u64) << 40) | ((b6 as u64) << 48) | ((b7 as u64) << 56);
        proof {
            let w: Seq<u8> = bytes@.subrange(offset as int, offset as int + 8);
            assert(w[0] == bytes@[offset as int]);
            assert(w[1] == bytes@[offset as int + 1]);
            assert(w[2] == bytes@[offset as int + 2]);
            assert(w[3] == bytes@[offset as int + 3]);
            assert(w[4] == bytes@[offset as int + 4]);
            assert(w[5] == bytes@[offset as int + 5]);
            assert(w[6] == bytes@[offset as int + 6]);
            assert(w[7] == bytes@[offset as int + 7]);
        }
        r
    }

    fn store_at(bytes: &mut Vec<u8>, offset: usize, v: u64) {
        let n: usize = bytes.len();
        proof {
            assert((v & 0xff) < 256 && ((v >> 8) & 0xff) < 256 && ((v >> 16) & 0xff) < 256 && ((v
                >> 24) & 0xff) < 256 && ((v >> 32) & 0xff) < 256 && ((v >> 40) & 0xff) < 256 && ((v
                >> 48) & 0xff) < 256 && ((v >> 56) & 0xff) < 256) by (bit_vector);
        }
        bytes[offset] = (v & 0xff) as u8;
        bytes[offset + 1] = ((v >> 8) & 0xff) as u8;
        bytes[offset + 2] = ((v >> 16) & 0xff) as u8;
        bytes[offset + 3] = ((v >> 24) & 0xff) as u8;
        bytes[offset + 4] = ((v >> 32) & 0xff) as u8;
        bytes[offset + 5] = ((v >> 40) & 0xff) as u8;
        bytes[offset + 6] = ((v >> 48) & 0xff) as u8;
        bytes[offset + 7] = ((v >> 56) & 0xff) as u8;
        proof {
            assert(final(bytes)@.subrange(offset as int, offset as int + 8)
                =~= Self::to_bytes_spec(v));
        }
    }

    proof fn lemma_to_bytes_len(v: u64) {
    }

    proof fn lemma_load_store(v: u64) {
        assert((((v & 0xff) as u8 as u64) | ((((v >> 8) & 0xff) as u8 as u64) << 8) | ((((v >> 16)
            & 0xff) as u8 as u64) << 16) | ((((v >> 24) & 0xff) as u8 as u64) << 24) | ((((v >> 32)
            & 0xff) as u8 as u64) << 32) | ((((v >> 40) & 0xff) as u8 as u64) << 40) | ((((v >> 48)
            & 0xff) as u8 as u64) << 48) | ((((v >> 56) & 0xff) as u8 as u64) << 56)) == v)
            by (bit_vector);
    }

    proof fn lemma_store_load(bytes: Seq<u8>) {
        let b0: u8 = bytes[0];
        let b1: u8 = bytes[1];
        let b2: u8 = bytes[2];
        let b3: u8 = bytes[3];
        let b4: u8 = bytes[4];
        let b5: u8 = bytes[5];
        let b6: u8 = bytes[6];
        let b7: u8 = bytes[7];
        let v: u64 = (b0 as u64) | ((b1 as u64) << 8) | ((b2 as u64) << 16) | ((b3 as u64) << 24)
            | ((b4 as u64) << 32) | ((b5 as u64) << 40) | ((b6 as u64) << 48) | ((b7 as u64) << 56);
        assert(((v & 0xff) as u8) == b0 && (((v >> 8) & 0xff) as u8) == b1 && (((v >> 16) & 0xff)
            as u8) == b2 && (((v >> 24) & 0xff) as u8) == b3 && (((v >> 32) & 0xff) as u8) == b4 && (
        ((v >> 40) & 0xff) as u8) == b5 && (((v >> 48) & 0xff) as u8) == b6 && (((v >> 56) & 0xff)
            as u8) == b7) by (bit_vector) requires v == (b0 as u64) | ((b1 as u64) << 8) | ((b2
            as u64) << 16) | ((b3 as u64) << 24) | ((b4 as u64) << 32) | ((b5 as u64) << 40) | ((b6
            as u64) << 48) | ((b7 as u64) << 56);
        assert(Self::to_bytes_spec(Self::from_bytes_spec(bytes)) =~= bytes);
    }
}

} // verus!
