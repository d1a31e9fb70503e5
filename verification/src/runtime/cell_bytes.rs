//! The bytes of a cell value, for hosts that write cells out.

use smallvec::SmallVec;
use vstd::prelude::*;

verus! {

/// A short row of bytes. It is kept in a `SmallVec` with room for eight
/// bytes, so that the bytes of a cell need no allocation.
#[verifier::external_body]
pub struct CellBytes {
    bytes: SmallVec<[u8; 8]>,
}

/// The bytes that a `CellBytes` holds, in their order.
pub uninterp spec fn held_bytes(bytes: CellBytes) -> Seq<u8>;

/// The `width` lowest bytes of `value`, the most significant first.
pub open spec fn be_bytes(value: nat, width: nat) -> Seq<u8>
    decreases width,
{
    if width == 0 {
        Seq::empty()
    } else {
        be_bytes(value / 256, (width - 1) as nat).push((value % 256) as u8)
    }
}

impl CellBytes {
    /// An empty row, made by `SmallVec::new_const`.
    #[verifier::external_body]
    pub(crate) fn new() -> (bytes: Self)
        ensures
            held_bytes(bytes) == Seq::<u8>::empty(),
    {
        Self { bytes: SmallVec::new_const() }
    }

    /// Adds `byte` at the end, by `SmallVec::push`.
    #[verifier::external_body]
    pub(crate) fn push(&mut self, byte: u8)
        ensures
            held_bytes(*final(self)) == held_bytes(*old(self)).push(byte),
    {
        self.bytes.push(byte)
    }

    /// The bytes as a slice, by `SmallVec::as_slice`.
    #[verifier::external_body]
    pub(crate) fn slice(&self) -> (slice: &[u8])
        ensures
            slice@ == held_bytes(*self),
    {
        self.bytes.as_slice()
    }

    /// The bytes in a vector of their own.
    pub fn to_vec(&self) -> (bytes: Vec<u8>)
        ensures
            bytes@ == held_bytes(*self),
    {
        let slice = self.slice();
        let mut bytes: Vec<u8> = Vec::new();
        let mut i: usize = 0;
        while i < slice.len()
            invariant
                i <= slice@.len(),
                bytes@ == slice@.take(i as int),
            decreases slice.len() - i,
        {
            bytes.push(slice[i]);
            assert(bytes@ =~= slice@.take(i + 1));
            i += 1;
        }
        assert(slice@.take(i as int) =~= slice@);
        bytes
    }

    /// The `width` lowest bytes of `value`, the most significant first.
    pub fn of(value: u64, width: usize) -> (bytes: Self)
        requires
            width <= 8,
        ensures
            held_bytes(bytes) == be_bytes(value as nat, width as nat),
    {
        let wide = value as u128;
        let mut bytes = Self::new();
        let mut left = width;
        while left > 0
            invariant
                left <= width <= 8,
                wide == value,
                held_bytes(bytes) == be_bytes(
                    (wide >> ((8 * left) as u128)) as nat,
                    (width - left) as nat,
                ),
            decreases left,
        {
            left -= 1;
            let shift = (8 * left) as u128;
            let byte = ((wide >> shift) & 0xff) as u8;
            proof {
                assert((wide >> shift) / 256 == wide >> ((shift + 8) as u128)) by (bit_vector)
                    requires
                        shift <= 56,
                ;
                assert((wide >> shift) % 256 == (wide >> shift) & 0xff) by (bit_vector);
                assert(8 * (left + 1) == shift + 8);
            }
            bytes.push(byte);
        }
        assert(wide >> 0 == wide) by (bit_vector);
        bytes
    }
}

} // verus!
