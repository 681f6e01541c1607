use crate::codec::{FromHciBytes, FromHciBytesError, HciRoundTrip, WriteHci};
use vstd::prelude::*;

verus! {

broadcast use vstd::array::group_array_axioms;

/// `bool` travels as one byte, `1` for true and `0` for false.
impl WriteHci for bool {
    open spec fn spec_hci_bytes(&self) -> Seq<u8> {
        seq![if *self { 1u8 } else { 0u8 }]
    }

    open spec fn spec_size(&self) -> nat {
        1
    }

    fn size(&self) -> (n: usize) {
        1
    }

    fn write_hci(&self, out: &mut Vec<u8>) {
        let byte: u8 = if *self { 1 } else { 0 };
        out.push(byte);
        assert(out@ =~= old(out)@ + self.spec_hci_bytes());
    }
}

impl<'de> FromHciBytes<'de> for bool {
    /// The first byte must be `0` or `1`; any other byte is an invalid value.
    open spec fn spec_from_hci_bytes(data: Seq<u8>) -> Result<(bool, nat), FromHciBytesError> {
        if data.len() == 0 {
            Err(FromHciBytesError::InvalidSize)
        } else if data[0] == 0 {
            Ok((false, 1))
        } else if data[0] == 1 {
            Ok((true, 1))
        } else {
            Err(FromHciBytesError::InvalidValue)
        }
    }

    proof fn lemma_consumed_within(data: Seq<u8>) {
    }

    fn from_hci_bytes(data: &'de [u8]) -> (r: Result<(bool, usize), FromHciBytesError>) {
        match data.first() {
            Some(0) => Ok((false, 1)),
            Some(1) => Ok((true, 1)),
            Some(_) => Err(FromHciBytesError::InvalidValue),
            None => Err(FromHciBytesError::InvalidSize),
        }
    }
}

impl<'de> HciRoundTrip<'de> for bool {
    proof fn lemma_round_trip(&self, rest: Seq<u8>) {
    }
}

/// Appends the bytes of `bytes` to `out`.
fn push_all(out: &mut Vec<u8>, bytes: &[u8])
    ensures
        final(out)@ == old(out)@ + bytes@,
{
    let ghost before = out@;
    let mut i: usize = 0;
    while i < bytes.len()
        invariant
            i <= bytes@.len(),
            out@ == before + bytes@.take(i as int),
        decreases bytes@.len() - i,
    {
        out.push(bytes[i]);
        i = i + 1;
        assert(out@ =~= before + bytes@.take(i as int));
    }
    assert(bytes@.take(i as int) =~= bytes@);
}

/// A byte slice travels as its length in one byte, then its bytes; `size` reports the
/// number of bytes in the slice, without the length byte. A length of 256 or more is sent
/// modulo 256.
impl<'a> WriteHci for &'a [u8] {
    open spec fn spec_hci_bytes(&self) -> Seq<u8> {
        seq![(self@.len() % 256) as u8] + self@
    }

    open spec fn spec_size(&self) -> nat {
        self@.len()
    }

    fn size(&self) -> (n: usize) {
        self.len()
    }

    fn write_hci(&self, out: &mut Vec<u8>) {
        let len: usize = self.len();
        assert(len as u8 == len % 256) by (bit_vector);
        out.push(len as u8);
        push_all(out, self);
        assert(out@ =~= old(out)@ + self.spec_hci_bytes());
    }
}

impl<'de> FromHciBytes<'de> for &'de [u8] {
    /// The first byte is a length `len` that the rest of the input must cover; the value is
    /// the whole rest of the input and the count of consumed bytes is `len`.
    open spec fn spec_from_hci_bytes(data: Seq<u8>) -> Result<(Seq<u8>, nat), FromHciBytesError> {
        if data.len() >= 1 && data[0] <= data.len() - 1 {
            Ok((data.drop_first(), data[0] as nat))
        } else {
            Err(FromHciBytesError::InvalidSize)
        }
    }

    proof fn lemma_consumed_within(data: Seq<u8>) {
    }

    fn from_hci_bytes(data: &'de [u8]) -> (r: Result<(&'de [u8], usize), FromHciBytesError>) {
        if data.len() == 0 {
            return Err(FromHciBytesError::InvalidSize);
        }
        let (first, rest) = data.split_at(1);
        let len: usize = first[0] as usize;
        if len <= rest.len() {
            assert(rest@ =~= data@.drop_first());
            Ok((rest, len))
        } else {
            Err(FromHciBytesError::InvalidSize)
        }
    }
}

/// A byte array travels as its `N` bytes.
impl<const N: usize> WriteHci for [u8; N] {
    open spec fn spec_hci_bytes(&self) -> Seq<u8> {
        self@
    }

    open spec fn spec_size(&self) -> nat {
        N as nat
    }

    fn size(&self) -> (n: usize) {
        N
    }

    fn write_hci(&self, out: &mut Vec<u8>) {
        push_all(out, self.as_slice());
    }
}

impl<'de, const N: usize> FromHciBytes<'de> for [u8; N] {
    /// The value is the first `N` bytes of the input.
    open spec fn spec_from_hci_bytes(data: Seq<u8>) -> Result<(Seq<u8>, nat), FromHciBytesError> {
        if data.len() >= N {
            Ok((data.take(N as int), N as nat))
        } else {
            Err(FromHciBytesError::InvalidSize)
        }
    }

    proof fn lemma_consumed_within(data: Seq<u8>) {
    }

    fn from_hci_bytes(data: &'de [u8]) -> (r: Result<([u8; N], usize), FromHciBytesError>) {
        if data.len() >= N {
            let mut arr: [u8; N] = [0u8; N];
            let mut i: usize = 0;
            while i < N
                invariant
                    i <= N,
                    N <= data@.len(),
                    forall|j: int| 0 <= j < i ==> arr@[j] == data@[j],
                decreases N - i,
            {
                arr[i] = data[i];
                i = i + 1;
            }
            assert(arr@ =~= data@.take(N as int));
            Ok((arr, N))
        } else {
            Err(FromHciBytesError::InvalidSize)
        }
    }
}

impl<'de, const N: usize> HciRoundTrip<'de> for [u8; N] {
    proof fn lemma_round_trip(&self, rest: Seq<u8>) {
        assert((self@ + rest).take(N as int) =~= self@);
    }
}

} // verus!
