use crate::codec::{FromHciBytes, FromHciBytesError, HciRoundTrip, WriteHci};
use vstd::prelude::*;

verus! {

broadcast use vstd::array::group_array_axioms;

/// A set of `N` octets of flags; flag `b` is bit `b % 8` of octet `b / 8`.
#[derive(Debug, Clone, Copy, PartialEq, Eq, PartialOrd, Ord, Hash)]
pub struct BitField<const N: usize>([u8; N]);

impl<const N: usize> View for BitField<N> {
    type V = Seq<u8>;

    /// The octets.
    closed spec fn view(&self) -> Seq<u8> {
        self.0@
    }
}

/// Whether bit `i` of `x` is set.
pub open spec fn byte_bit(x: u8, i: u32) -> bool {
    x & (1u8 << i) != 0
}

/// `x` with bit `i` set to `val` and the other bits kept.
pub open spec fn byte_with_bit(x: u8, i: u32, val: bool) -> u8 {
    (x & !(1u8 << i)) | ((if val { 1u8 } else { 0u8 }) << i)
}

/// Whether flag `b` is set in `octets`.
pub open spec fn flag(octets: Seq<u8>, b: int) -> bool {
    byte_bit(octets[b / 8], (b % 8) as u32)
}

/// `octets` with flag `b` set to `val`.
pub open spec fn with_flag(octets: Seq<u8>, b: int, val: bool) -> Seq<u8> {
    octets.update(b / 8, byte_with_bit(octets[b / 8], (b % 8) as u32, val))
}

proof fn lemma_byte_with_bit(x: u8, i: u32, j: u32, val: bool)
    requires
        i < 8,
        j < 8,
    ensures
        byte_bit(byte_with_bit(x, i, val), i) == val,
        i != j ==> byte_bit(byte_with_bit(x, i, val), j) == byte_bit(x, j),
{
    let v: u8 = if val { 1u8 } else { 0u8 };
    assert(v <= 1 ==> ((((x & !(1u8 << i)) | (v << i)) & (1u8 << i)) != 0) == (v == 1)) by (bit_vector)
        requires
            i < 8,
    ;
    assert(v <= 1 && i != j ==> ((((x & !(1u8 << i)) | (v << i)) & (1u8 << j)) != 0) == ((x & (1u8 << j)) != 0)) by (bit_vector)
        requires
            i < 8,
            j < 8,
    ;
}

/// Setting a flag makes it read back as set, and leaves every other flag as it was.
pub proof fn lemma_flag_set_get(octets: Seq<u8>, b: int, c: int, val: bool)
    requires
        0 <= b < 8 * octets.len(),
        0 <= c < 8 * octets.len(),
    ensures
        flag(with_flag(octets, b, val), b) == val,
        c != b ==> flag(with_flag(octets, b, val), c) == flag(octets, c),
{
    lemma_byte_with_bit(octets[b / 8], (b % 8) as u32, (b % 8) as u32, val);
    if c / 8 == b / 8 {
        lemma_byte_with_bit(octets[b / 8], (b % 8) as u32, (c % 8) as u32, val);
    }
}

impl<const N: usize> Default for BitField<N> {
    fn default() -> (r: Self)
        ensures
            r@ == Seq::new(N as nat, |i: int| 0u8),
    {
        let r = BitField([0u8; N]);
        assert(r@ =~= Seq::new(N as nat, |i: int| 0u8));
        r
    }
}

impl<const N: usize> BitField<N> {
    /// The flags held in `octets`.
    pub fn new(octets: [u8; N]) -> (r: Self)
        ensures
            r@ == octets@,
    {
        BitField(octets)
    }

    /// The octets.
    pub fn into_inner(self) -> (r: [u8; N])
        ensures
            r@ == self@,
    {
        self.0
    }

    /// Whether flag `bit` is set.
    pub fn get(&self, bit: usize) -> (r: bool)
        requires
            bit < 8 * N,
        ensures
            r == flag(self@, bit as int),
    {
        let octet: usize = bit / 8;
        let shift: u32 = (bit % 8) as u32;
        (self.0[octet] & (1u8 << shift)) != 0
    }

    /// The same flags, with flag `bit` set to `val`.
    pub fn set(self, bit: usize, val: bool) -> (r: Self)
        requires
            bit < 8 * N,
        ensures
            r@ == with_flag(self@, bit as int, val),
    {
        let mut octets = self.0;
        let octet: usize = bit / 8;
        let shift: u32 = (bit % 8) as u32;
        let v: u8 = if val { 1 } else { 0 };
        octets[octet] = (octets[octet] & !(1u8 << shift)) | (v << shift);
        let r = BitField(octets);
        assert(r@ =~= with_flag(self@, bit as int, val));
        r
    }
}

/// A bit field travels as its `N` octets.
impl<const N: usize> WriteHci for BitField<N> {
    open spec fn spec_hci_bytes(&self) -> Seq<u8> {
        self@
    }

    open spec fn spec_size(&self) -> nat {
        N as nat
    }

    fn size(&self) -> (n: usize) {
        self.0.size()
    }

    fn write_hci(&self, out: &mut Vec<u8>) {
        self.0.write_hci(out)
    }
}

impl<'de, const N: usize> FromHciBytes<'de> for BitField<N> {
    open spec fn spec_from_hci_bytes(data: Seq<u8>) -> Result<(Seq<u8>, nat), FromHciBytesError> {
        <[u8; N] as FromHciBytes<'de>>::spec_from_hci_bytes(data)
    }

    proof fn lemma_consumed_within(data: Seq<u8>) {
    }

    fn from_hci_bytes(data: &'de [u8]) -> (r: Result<(BitField<N>, usize), FromHciBytesError>) {
        match <[u8; N]>::from_hci_bytes(data) {
            Ok((x, y)) => Ok((BitField(x), y)),
            Err(e) => Err(e),
        }
    }
}

impl<'de, const N: usize> HciRoundTrip<'de> for BitField<N> {
    proof fn lemma_round_trip(&self, rest: Seq<u8>) {
        <[u8; N] as HciRoundTrip<'de>>::lemma_round_trip(&self.0, rest);
    }
}

} // verus!
