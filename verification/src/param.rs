use crate::codec::{FromHciBytes, FromHciBytesError, HciRoundTrip, WriteHci};
use vstd::prelude::*;

verus! {

broadcast use vstd::array::group_array_axioms;

/// A Bluetooth device address: six bytes, least significant first.
#[derive(Debug, Clone, Copy, PartialEq, Eq, PartialOrd, Ord, Hash)]
pub struct BdAddr([u8; 6]);

impl View for BdAddr {
    type V = Seq<u8>;

    /// The six bytes of the address.
    closed spec fn view(&self) -> Seq<u8> {
        self.0@
    }
}

impl Default for BdAddr {
    fn default() -> (r: Self)
        ensures
            r@ == seq![0u8, 0u8, 0u8, 0u8, 0u8, 0u8],
    {
        let r = BdAddr([0u8; 6]);
        assert(r@ =~= seq![0u8, 0u8, 0u8, 0u8, 0u8, 0u8]);
        r
    }
}

impl BdAddr {
    /// The address with the given bytes.
    pub fn new(val: [u8; 6]) -> (r: Self)
        ensures
            r@ == val@,
    {
        Self(val)
    }

    /// The bytes of the address.
    pub fn into_inner(self) -> (r: [u8; 6])
        ensures
            r@ == self@,
    {
        self.0
    }

    /// Every address has six bytes.
    pub proof fn lemma_len(&self)
        ensures
            self@.len() == 6,
    {
    }
}

/// An address travels as its six bytes.
impl WriteHci for BdAddr {
    open spec fn spec_hci_bytes(&self) -> Seq<u8> {
        self@
    }

    open spec fn spec_size(&self) -> nat {
        6
    }

    fn size(&self) -> (n: usize) {
        self.0.size()
    }

    fn write_hci(&self, out: &mut Vec<u8>) {
        self.0.write_hci(out)
    }
}

impl<'de> FromHciBytes<'de> for BdAddr {
    open spec fn spec_from_hci_bytes(data: Seq<u8>) -> Result<(Seq<u8>, nat), FromHciBytesError> {
        <[u8; 6] as FromHciBytes<'de>>::spec_from_hci_bytes(data)
    }

    proof fn lemma_consumed_within(data: Seq<u8>) {
    }

    fn from_hci_bytes(data: &'de [u8]) -> (r: Result<(BdAddr, usize), FromHciBytesError>) {
        match <[u8; 6]>::from_hci_bytes(data) {
            Ok((x, y)) => Ok((BdAddr(x), y)),
            Err(e) => Err(e),
        }
    }
}

impl<'de> HciRoundTrip<'de> for BdAddr {
    proof fn lemma_round_trip(&self, rest: Seq<u8>) {
        <[u8; 6] as HciRoundTrip<'de>>::lemma_round_trip(&self.0, rest);
    }
}

/// A connection handle, a 12-bit number that names a connection.
#[derive(Debug, Clone, Copy, PartialEq, Eq, PartialOrd, Ord, Hash)]
pub struct ConnHandle(u16);

impl View for ConnHandle {
    type V = u16;

    /// The number of the handle.
    closed spec fn view(&self) -> u16 {
        self.0
    }
}

impl Default for ConnHandle {
    fn default() -> (r: Self)
        ensures
            r@ == 0,
    {
        ConnHandle(0)
    }
}

impl ConnHandle {
    /// The handle with number `val`, which may be at most `0xEFF`.
    pub fn new(val: u16) -> (r: Self)
        requires
            val <= 0xeff,
        ensures
            r@ == val,
    {
        Self(val)
    }

    /// The number of the handle.
    pub fn into_inner(self) -> (r: u16)
        ensures
            r == self@,
    {
        self.0
    }
}

/// A handle travels as its number, a `u16`. Reading one does not check the `0xEFF` bound.
impl WriteHci for ConnHandle {
    open spec fn spec_hci_bytes(&self) -> Seq<u8> {
        self@.spec_hci_bytes()
    }

    open spec fn spec_size(&self) -> nat {
        2
    }

    fn size(&self) -> (n: usize) {
        self.0.size()
    }

    fn write_hci(&self, out: &mut Vec<u8>) {
        self.0.write_hci(out)
    }
}

impl<'de> FromHciBytes<'de> for ConnHandle {
    open spec fn spec_from_hci_bytes(data: Seq<u8>) -> Result<(u16, nat), FromHciBytesError> {
        <u16 as FromHciBytes<'de>>::spec_from_hci_bytes(data)
    }

    proof fn lemma_consumed_within(data: Seq<u8>) {
    }

    fn from_hci_bytes(data: &'de [u8]) -> (r: Result<(ConnHandle, usize), FromHciBytesError>) {
        match u16::from_hci_bytes(data) {
            Ok((x, y)) => Ok((ConnHandle(x), y)),
            Err(e) => Err(e),
        }
    }
}

impl<'de> HciRoundTrip<'de> for ConnHandle {
    proof fn lemma_round_trip(&self, rest: Seq<u8>) {
        <u16 as HciRoundTrip<'de>>::lemma_round_trip(&self.0, rest);
    }
}

} // verus!
