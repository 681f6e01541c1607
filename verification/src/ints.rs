use crate::codec::{
    le_bytes, le_value, lemma_le_bytes_index, lemma_le_bytes_len, lemma_le_prefix, lemma_le_value_bound,
    lemma_pow256_values, pow256, push_le, read_le, FromHciBytes, FromHciBytesError, HciRoundTrip, WriteHci,
};
use vstd::prelude::*;

verus! {
/// `u8` travels as its one byte.
impl WriteHci for u8 {
    open spec fn spec_hci_bytes(&self) -> Seq<u8> {
        le_bytes((*self as nat), 1)
    }

    open spec fn spec_size(&self) -> nat {
        1
    }

    fn size(&self) -> (n: usize) {
        1
    }

    fn write_hci(&self, out: &mut Vec<u8>) {
        push_le(out, *self as u128, 1);
    }
}

impl<'de> FromHciBytes<'de> for u8 {
    open spec fn spec_from_hci_bytes(data: Seq<u8>) -> Result<(u8, nat), FromHciBytesError> {
        if data.len() >= 1 {
            Ok((le_value(data.take(1)) as u8, 1))
        } else {
            Err(FromHciBytesError::InvalidSize)
        }
    }

    proof fn lemma_consumed_within(data: Seq<u8>) {
    }

    fn from_hci_bytes(data: &'de [u8]) -> (r: Result<(u8, usize), FromHciBytesError>) {
        if data.len() >= 1 {
            let v = read_le(data, 0, 1);
            proof {
                assert(data@.subrange(0, 1) =~= data@.take(1));
                lemma_le_value_bound(data@.take(1));
                lemma_pow256_values();
            }
            Ok((v as u8, 1))
        } else {
            Err(FromHciBytesError::InvalidSize)
        }
    }
}

impl<'de> HciRoundTrip<'de> for u8 {
    proof fn lemma_round_trip(&self, rest: Seq<u8>) {
        lemma_pow256_values();
        lemma_le_prefix((*self as nat), 1, rest);
        lemma_le_bytes_len((*self as nat), 1);
    }
}

/// `i8` travels as the one byte of its two's complement.
impl WriteHci for i8 {
    open spec fn spec_hci_bytes(&self) -> Seq<u8> {
        le_bytes(((*self as u8) as nat), 1)
    }

    open spec fn spec_size(&self) -> nat {
        1
    }

    fn size(&self) -> (n: usize) {
        1
    }

    fn write_hci(&self, out: &mut Vec<u8>) {
        push_le(out, (*self as u8) as u128, 1);
    }
}

impl<'de> FromHciBytes<'de> for i8 {
    open spec fn spec_from_hci_bytes(data: Seq<u8>) -> Result<(i8, nat), FromHciBytesError> {
        if data.len() >= 1 {
            Ok(((le_value(data.take(1)) as u8) as i8, 1))
        } else {
            Err(FromHciBytesError::InvalidSize)
        }
    }

    proof fn lemma_consumed_within(data: Seq<u8>) {
    }

    fn from_hci_bytes(data: &'de [u8]) -> (r: Result<(i8, usize), FromHciBytesError>) {
        if data.len() >= 1 {
            let v = read_le(data, 0, 1);
            proof {
                assert(data@.subrange(0, 1) =~= data@.take(1));
                lemma_le_value_bound(data@.take(1));
                lemma_pow256_values();
            }
            Ok(((v as u8) as i8, 1))
        } else {
            Err(FromHciBytesError::InvalidSize)
        }
    }
}

impl<'de> HciRoundTrip<'de> for i8 {
    proof fn lemma_round_trip(&self, rest: Seq<u8>) {
        lemma_pow256_values();
        lemma_le_prefix(((*self as u8) as nat), 1, rest);
        lemma_le_bytes_len(((*self as u8) as nat), 1);
        let x: i8 = *self;
        assert((x as u8) as i8 == x) by (bit_vector);
    }
}

/// `u16` travels as its 2 bytes, least significant first.
impl WriteHci for u16 {
    open spec fn spec_hci_bytes(&self) -> Seq<u8> {
        le_bytes((*self as nat), 2)
    }

    open spec fn spec_size(&self) -> nat {
        2
    }

    fn size(&self) -> (n: usize) {
        2
    }

    fn write_hci(&self, out: &mut Vec<u8>) {
        push_le(out, *self as u128, 2);
    }
}

impl<'de> FromHciBytes<'de> for u16 {
    open spec fn spec_from_hci_bytes(data: Seq<u8>) -> Result<(u16, nat), FromHciBytesError> {
        if data.len() >= 2 {
            Ok((le_value(data.take(2)) as u16, 2))
        } else {
            Err(FromHciBytesError::InvalidSize)
        }
    }

    proof fn lemma_consumed_within(data: Seq<u8>) {
    }

    fn from_hci_bytes(data: &'de [u8]) -> (r: Result<(u16, usize), FromHciBytesError>) {
        if data.len() >= 2 {
            let v = read_le(data, 0, 2);
            proof {
                assert(data@.subrange(0, 2) =~= data@.take(2));
                lemma_le_value_bound(data@.take(2));
                lemma_pow256_values();
            }
            Ok((v as u16, 2))
        } else {
            Err(FromHciBytesError::InvalidSize)
        }
    }
}

impl<'de> HciRoundTrip<'de> for u16 {
    proof fn lemma_round_trip(&self, rest: Seq<u8>) {
        lemma_pow256_values();
        lemma_le_prefix((*self as nat), 2, rest);
        lemma_le_bytes_len((*self as nat), 2);
    }
}

/// `i16` travels as the 2 bytes of its two's complement, least significant first.
impl WriteHci for i16 {
    open spec fn spec_hci_bytes(&self) -> Seq<u8> {
        le_bytes(((*self as u16) as nat), 2)
    }

    open spec fn spec_size(&self) -> nat {
        2
    }

    fn size(&self) -> (n: usize) {
        2
    }

    fn write_hci(&self, out: &mut Vec<u8>) {
        push_le(out, (*self as u16) as u128, 2);
    }
}

impl<'de> FromHciBytes<'de> for i16 {
    open spec fn spec_from_hci_bytes(data: Seq<u8>) -> Result<(i16, nat), FromHciBytesError> {
        if data.len() >= 2 {
            Ok(((le_value(data.take(2)) as u16) as i16, 2))
        } else {
            Err(FromHciBytesError::InvalidSize)
        }
    }

    proof fn lemma_consumed_within(data: Seq<u8>) {
    }

    fn from_hci_bytes(data: &'de [u8]) -> (r: Result<(i16, usize), FromHciBytesError>) {
        if data.len() >= 2 {
            let v = read_le(data, 0, 2);
            proof {
                assert(data@.subrange(0, 2) =~= data@.take(2));
                lemma_le_value_bound(data@.take(2));
                lemma_pow256_values();
            }
            Ok(((v as u16) as i16, 2))
        } else {
            Err(FromHciBytesError::InvalidSize)
        }
    }
}

impl<'de> HciRoundTrip<'de> for i16 {
    proof fn lemma_round_trip(&self, rest: Seq<u8>) {
        lemma_pow256_values();
        lemma_le_prefix(((*self as u16) as nat), 2, rest);
        lemma_le_bytes_len(((*self as u16) as nat), 2);
        let x: i16 = *self;
        assert((x as u16) as i16 == x) by (bit_vector);
    }
}

/// `u32` travels as its 4 bytes, least significant first.
impl WriteHci for u32 {
    open spec fn spec_hci_bytes(&self) -> Seq<u8> {
        le_bytes((*self as nat), 4)
    }

    open spec fn spec_size(&self) -> nat {
        4
    }

    fn size(&self) -> (n: usize) {
        4
    }

    fn write_hci(&self, out: &mut Vec<u8>) {
        push_le(out, *self as u128, 4);
    }
}

impl<'de> FromHciBytes<'de> for u32 {
    open spec fn spec_from_hci_bytes(data: Seq<u8>) -> Result<(u32, nat), FromHciBytesError> {
        if data.len() >= 4 {
            Ok((le_value(data.take(4)) as u32, 4))
        } else {
            Err(FromHciBytesError::InvalidSize)
        }
    }

    proof fn lemma_consumed_within(data: Seq<u8>) {
    }

    fn from_hci_bytes(data: &'de [u8]) -> (r: Result<(u32, usize), FromHciBytesError>) {
        if data.len() >= 4 {
            let v = read_le(data, 0, 4);
            proof {
                assert(data@.subrange(0, 4) =~= data@.take(4));
                lemma_le_value_bound(data@.take(4));
                lemma_pow256_values();
            }
            Ok((v as u32, 4))
        } else {
            Err(FromHciBytesError::InvalidSize)
        }
    }
}

impl<'de> HciRoundTrip<'de> for u32 {
    proof fn lemma_round_trip(&self, rest: Seq<u8>) {
        lemma_pow256_values();
        lemma_le_prefix((*self as nat), 4, rest);
        lemma_le_bytes_len((*self as nat), 4);
    }
}

/// `i32` travels as the 4 bytes of its two's complement, least significant first.
impl WriteHci for i32 {
    open spec fn spec_hci_bytes(&self) -> Seq<u8> {
        le_bytes(((*self as u32) as nat), 4)
    }

    open spec fn spec_size(&self) -> nat {
        4
    }

    fn size(&self) -> (n: usize) {
        4
    }

    fn write_hci(&self, out: &mut Vec<u8>) {
        push_le(out, (*self as u32) as u128, 4);
    }
}

impl<'de> FromHciBytes<'de> for i32 {
    open spec fn spec_from_hci_bytes(data: Seq<u8>) -> Result<(i32, nat), FromHciBytesError> {
        if data.len() >= 4 {
            Ok(((le_value(data.take(4)) as u32) as i32, 4))
        } else {
            Err(FromHciBytesError::InvalidSize)
        }
    }

    proof fn lemma_consumed_within(data: Seq<u8>) {
    }

    fn from_hci_bytes(data: &'de [u8]) -> (r: Result<(i32, usize), FromHciBytesError>) {
        if data.len() >= 4 {
            let v = read_le(data, 0, 4);
            proof {
                assert(data@.subrange(0, 4) =~= data@.take(4));
                lemma_le_value_bound(data@.take(4));
                lemma_pow256_values();
            }
            Ok(((v as u32) as i32, 4))
        } else {
            Err(FromHciBytesError::InvalidSize)
        }
    }
}

impl<'de> HciRoundTrip<'de> for i32 {
    proof fn lemma_round_trip(&self, rest: Seq<u8>) {
        lemma_pow256_values();
        lemma_le_prefix(((*self as u32) as nat), 4, rest);
        lemma_le_bytes_len(((*self as u32) as nat), 4);
        let x: i32 = *self;
        assert((x as u32) as i32 == x) by (bit_vector);
    }
}

/// `u64` travels as its 8 bytes, least significant first.
impl WriteHci for u64 {
    open spec fn spec_hci_bytes(&self) -> Seq<u8> {
        le_bytes((*self as nat), 8)
    }

    open spec fn spec_size(&self) -> nat {
        8
    }

    fn size(&self) -> (n: usize) {
        8
    }

    fn write_hci(&self, out: &mut Vec<u8>) {
        push_le(out, *self as u128, 8);
    }
}

impl<'de> FromHciBytes<'de> for u64 {
    open spec fn spec_from_hci_bytes(data: Seq<u8>) -> Result<(u64, nat), FromHciBytesError> {
        if data.len() >= 8 {
            Ok((le_value(data.take(8)) as u64, 8))
        } else {
            Err(FromHciBytesError::InvalidSize)
        }
    }

    proof fn lemma_consumed_within(data: Seq<u8>) {
    }

    fn from_hci_bytes(data: &'de [u8]) -> (r: Result<(u64, usize), FromHciBytesError>) {
        if data.len() >= 8 {
            let v = read_le(data, 0, 8);
            proof {
                assert(data@.subrange(0, 8) =~= data@.take(8));
                lemma_le_value_bound(data@.take(8));
                lemma_pow256_values();
            }
            Ok((v as u64, 8))
        } else {
            Err(FromHciBytesError::InvalidSize)
        }
    }
}

impl<'de> HciRoundTrip<'de> for u64 {
    proof fn lemma_round_trip(&self, rest: Seq<u8>) {
        lemma_pow256_values();
        lemma_le_prefix((*self as nat), 8, rest);
        lemma_le_bytes_len((*self as nat), 8);
    }
}

/// `i64` travels as the 8 bytes of its two's complement, least significant first.
impl WriteHci for i64 {
    open spec fn spec_hci_bytes(&self) -> Seq<u8> {
        le_bytes(((*self as u64) as nat), 8)
    }

    open spec fn spec_size(&self) -> nat {
        8
    }

    fn size(&self) -> (n: usize) {
        8
    }

    fn write_hci(&self, out: &mut Vec<u8>) {
        push_le(out, (*self as u64) as u128, 8);
    }
}

impl<'de> FromHciBytes<'de> for i64 {
    open spec fn spec_from_hci_bytes(data: Seq<u8>) -> Result<(i64, nat), FromHciBytesError> {
        if data.len() >= 8 {
            Ok(((le_value(data.take(8)) as u64) as i64, 8))
        } else {
            Err(FromHciBytesError::InvalidSize)
        }
    }

    proof fn lemma_consumed_within(data: Seq<u8>) {
    }

    fn from_hci_bytes(data: &'de [u8]) -> (r: Result<(i64, usize), FromHciBytesError>) {
        if data.len() >= 8 {
            let v = read_le(data, 0, 8);
            proof {
                assert(data@.subrange(0, 8) =~= data@.take(8));
                lemma_le_value_bound(data@.take(8));
                lemma_pow256_values();
            }
            Ok(((v as u64) as i64, 8))
        } else {
            Err(FromHciBytesError::InvalidSize)
        }
    }
}

impl<'de> HciRoundTrip<'de> for i64 {
    proof fn lemma_round_trip(&self, rest: Seq<u8>) {
        lemma_pow256_values();
        lemma_le_prefix(((*self as u64) as nat), 8, rest);
        lemma_le_bytes_len(((*self as u64) as nat), 8);
        let x: i64 = *self;
        assert((x as u64) as i64 == x) by (bit_vector);
    }
}

/// `u128` travels as its 16 bytes, least significant first.
impl WriteHci for u128 {
    open spec fn spec_hci_bytes(&self) -> Seq<u8> {
        le_bytes((*self as nat), 16)
    }

    open spec fn spec_size(&self) -> nat {
        16
    }

    fn size(&self) -> (n: usize) {
        16
    }

    fn write_hci(&self, out: &mut Vec<u8>) {
        push_le(out, *self as u128, 16);
    }
}

impl<'de> FromHciBytes<'de> for u128 {
    open spec fn spec_from_hci_bytes(data: Seq<u8>) -> Result<(u128, nat), FromHciBytesError> {
        if data.len() >= 16 {
            Ok((le_value(data.take(16)) as u128, 16))
        } else {
            Err(FromHciBytesError::InvalidSize)
        }
    }

    proof fn lemma_consumed_within(data: Seq<u8>) {
    }

    fn from_hci_bytes(data: &'de [u8]) -> (r: Result<(u128, usize), FromHciBytesError>) {
        if data.len() >= 16 {
            let v = read_le(data, 0, 16);
            proof {
                assert(data@.subrange(0, 16) =~= data@.take(16));
                lemma_le_value_bound(data@.take(16));
                lemma_pow256_values();
            }
            Ok((v as u128, 16))
        } else {
            Err(FromHciBytesError::InvalidSize)
        }
    }
}

impl<'de> HciRoundTrip<'de> for u128 {
    proof fn lemma_round_trip(&self, rest: Seq<u8>) {
        lemma_pow256_values();
        lemma_le_prefix((*self as nat), 16, rest);
        lemma_le_bytes_len((*self as nat), 16);
    }
}

/// `i128` travels as the 16 bytes of its two's complement, least significant first.
impl WriteHci for i128 {
    open spec fn spec_hci_bytes(&self) -> Seq<u8> {
        le_bytes(((*self as u128) as nat), 16)
    }

    open spec fn spec_size(&self) -> nat {
        16
    }

    fn size(&self) -> (n: usize) {
        16
    }

    fn write_hci(&self, out: &mut Vec<u8>) {
        push_le(out, (*self as u128) as u128, 16);
    }
}

impl<'de> FromHciBytes<'de> for i128 {
    open spec fn spec_from_hci_bytes(data: Seq<u8>) -> Result<(i128, nat), FromHciBytesError> {
        if data.len() >= 16 {
            Ok(((le_value(data.take(16)) as u128) as i128, 16))
        } else {
            Err(FromHciBytesError::InvalidSize)
        }
    }

    proof fn lemma_consumed_within(data: Seq<u8>) {
    }

    fn from_hci_bytes(data: &'de [u8]) -> (r: Result<(i128, usize), FromHciBytesError>) {
        if data.len() >= 16 {
            let v = read_le(data, 0, 16);
            proof {
                assert(data@.subrange(0, 16) =~= data@.take(16));
                lemma_le_value_bound(data@.take(16));
                lemma_pow256_values();
            }
            Ok(((v as u128) as i128, 16))
        } else {
            Err(FromHciBytesError::InvalidSize)
        }
    }
}

impl<'de> HciRoundTrip<'de> for i128 {
    proof fn lemma_round_trip(&self, rest: Seq<u8>) {
        lemma_pow256_values();
        lemma_le_prefix(((*self as u128) as nat), 16, rest);
        lemma_le_bytes_len(((*self as u128) as nat), 16);
        let x: i128 = *self;
        assert((x as u128) as i128 == x) by (bit_vector);
    }
}

/// A `u8` goes on the wire as the 1 base-256 digits of `v`, least significant
/// first (byte `i` is digit `i`), and reading takes the first 1 bytes as such digits,
/// failing with `InvalidSize` when fewer than 1 bytes are given.
pub proof fn lemma_u8_wire_format<'de>(v: u8, data: Seq<u8>)
    ensures
        v.spec_hci_bytes() == le_bytes(v as nat, 1),
        v.spec_hci_bytes().len() == 1,
        forall|i: int| 0 <= i < 1 ==> #[trigger] v.spec_hci_bytes()[i] == (v as nat / pow256(i as nat)) % 256,
        <u8 as FromHciBytes<'de>>::spec_from_hci_bytes(data) == if data.len() >= 1 {
            Ok::<(u8, nat), FromHciBytesError>((le_value(data.take(1)) as u8, 1))
        } else {
            Err::<(u8, nat), FromHciBytesError>(FromHciBytesError::InvalidSize)
        },
{
    lemma_le_bytes_len(v as nat, 1);
    assert forall|i: int| 0 <= i < 1 implies #[trigger] v.spec_hci_bytes()[i] == (v as nat / pow256(i as nat)) % 256 by {
        lemma_le_bytes_index(v as nat, 1, i as nat);
    }
}

/// A `i8` goes on the wire as the 1 base-256 digits of the two's complement `v as u8`, least significant
/// first (byte `i` is digit `i`), and reading takes the first 1 bytes as such digits,
/// failing with `InvalidSize` when fewer than 1 bytes are given.
pub proof fn lemma_i8_wire_format<'de>(v: i8, data: Seq<u8>)
    ensures
        v.spec_hci_bytes() == le_bytes((v as u8) as nat, 1),
        v.spec_hci_bytes().len() == 1,
        forall|i: int| 0 <= i < 1 ==> #[trigger] v.spec_hci_bytes()[i] == ((v as u8) as nat / pow256(i as nat)) % 256,
        <i8 as FromHciBytes<'de>>::spec_from_hci_bytes(data) == if data.len() >= 1 {
            Ok::<(i8, nat), FromHciBytesError>(((le_value(data.take(1)) as u8) as i8, 1))
        } else {
            Err::<(i8, nat), FromHciBytesError>(FromHciBytesError::InvalidSize)
        },
{
    lemma_le_bytes_len((v as u8) as nat, 1);
    assert forall|i: int| 0 <= i < 1 implies #[trigger] v.spec_hci_bytes()[i] == ((v as u8) as nat / pow256(i as nat)) % 256 by {
        lemma_le_bytes_index((v as u8) as nat, 1, i as nat);
    }
}

/// A `u16` goes on the wire as the 2 base-256 digits of `v`, least significant
/// first (byte `i` is digit `i`), and reading takes the first 2 bytes as such digits,
/// failing with `InvalidSize` when fewer than 2 bytes are given.
pub proof fn lemma_u16_wire_format<'de>(v: u16, data: Seq<u8>)
    ensures
        v.spec_hci_bytes() == le_bytes(v as nat, 2),
        v.spec_hci_bytes().len() == 2,
        forall|i: int| 0 <= i < 2 ==> #[trigger] v.spec_hci_bytes()[i] == (v as nat / pow256(i as nat)) % 256,
        <u16 as FromHciBytes<'de>>::spec_from_hci_bytes(data) == if data.len() >= 2 {
            Ok::<(u16, nat), FromHciBytesError>((le_value(data.take(2)) as u16, 2))
        } else {
            Err::<(u16, nat), FromHciBytesError>(FromHciBytesError::InvalidSize)
        },
{
    lemma_le_bytes_len(v as nat, 2);
    assert forall|i: int| 0 <= i < 2 implies #[trigger] v.spec_hci_bytes()[i] == (v as nat / pow256(i as nat)) % 256 by {
        lemma_le_bytes_index(v as nat, 2, i as nat);
    }
}

/// A `i16` goes on the wire as the 2 base-256 digits of the two's complement `v as u16`, least significant
/// first (byte `i` is digit `i`), and reading takes the first 2 bytes as such digits,
/// failing with `InvalidSize` when fewer than 2 bytes are given.
pub proof fn lemma_i16_wire_format<'de>(v: i16, data: Seq<u8>)
    ensures
        v.spec_hci_bytes() == le_bytes((v as u16) as nat, 2),
        v.spec_hci_bytes().len() == 2,
        forall|i: int| 0 <= i < 2 ==> #[trigger] v.spec_hci_bytes()[i] == ((v as u16) as nat / pow256(i as nat)) % 256,
        <i16 as FromHciBytes<'de>>::spec_from_hci_bytes(data) == if data.len() >= 2 {
            Ok::<(i16, nat), FromHciBytesError>(((le_value(data.take(2)) as u16) as i16, 2))
        } else {
            Err::<(i16, nat), FromHciBytesError>(FromHciBytesError::InvalidSize)
        },
{
    lemma_le_bytes_len((v as u16) as nat, 2);
    assert forall|i: int| 0 <= i < 2 implies #[trigger] v.spec_hci_bytes()[i] == ((v as u16) as nat / pow256(i as nat)) % 256 by {
        lemma_le_bytes_index((v as u16) as nat, 2, i as nat);
    }
}

/// A `u32` goes on the wire as the 4 base-256 digits of `v`, least significant
/// first (byte `i` is digit `i`), and reading takes the first 4 bytes as such digits,
/// failing with `InvalidSize` when fewer than 4 bytes are given.
pub proof fn lemma_u32_wire_format<'de>(v: u32, data: Seq<u8>)
    ensures
        v.spec_hci_bytes() == le_bytes(v as nat, 4),
        v.spec_hci_bytes().len() == 4,
        forall|i: int| 0 <= i < 4 ==> #[trigger] v.spec_hci_bytes()[i] == (v as nat / pow256(i as nat)) % 256,
        <u32 as FromHciBytes<'de>>::spec_from_hci_bytes(data) == if data.len() >= 4 {
            Ok::<(u32, nat), FromHciBytesError>((le_value(data.take(4)) as u32, 4))
        } else {
            Err::<(u32, nat), FromHciBytesError>(FromHciBytesError::InvalidSize)
        },
{
    lemma_le_bytes_len(v as nat, 4);
    assert forall|i: int| 0 <= i < 4 implies #[trigger] v.spec_hci_bytes()[i] == (v as nat / pow256(i as nat)) % 256 by {
        lemma_le_bytes_index(v as nat, 4, i as nat);
    }
}

/// A `i32` goes on the wire as the 4 base-256 digits of the two's complement `v as u32`, least significant
/// first (byte `i` is digit `i`), and reading takes the first 4 bytes as such digits,
/// failing with `InvalidSize` when fewer than 4 bytes are given.
pub proof fn lemma_i32_wire_format<'de>(v: i32, data: Seq<u8>)
    ensures
        v.spec_hci_bytes() == le_bytes((v as u32) as nat, 4),
        v.spec_hci_bytes().len() == 4,
        forall|i: int| 0 <= i < 4 ==> #[trigger] v.spec_hci_bytes()[i] == ((v as u32) as nat / pow256(i as nat)) % 256,
        <i32 as FromHciBytes<'de>>::spec_from_hci_bytes(data) == if data.len() >= 4 {
            Ok::<(i32, nat), FromHciBytesError>(((le_value(data.take(4)) as u32) as i32, 4))
        } else {
            Err::<(i32, nat), FromHciBytesError>(FromHciBytesError::InvalidSize)
        },
{
    lemma_le_bytes_len((v as u32) as nat, 4);
    assert forall|i: int| 0 <= i < 4 implies #[trigger] v.spec_hci_bytes()[i] == ((v as u32) as nat / pow256(i as nat)) % 256 by {
        lemma_le_bytes_index((v as u32) as nat, 4, i as nat);
    }
}

/// A `u64` goes on the wire as the 8 base-256 digits of `v`, least significant
/// first (byte `i` is digit `i`), and reading takes the first 8 bytes as such digits,
/// failing with `InvalidSize` when fewer than 8 bytes are given.
pub proof fn lemma_u64_wire_format<'de>(v: u64, data: Seq<u8>)
    ensures
        v.spec_hci_bytes() == le_bytes(v as nat, 8),
        v.spec_hci_bytes().len() == 8,
        forall|i: int| 0 <= i < 8 ==> #[trigger] v.spec_hci_bytes()[i] == (v as nat / pow256(i as nat)) % 256,
        <u64 as FromHciBytes<'de>>::spec_from_hci_bytes(data) == if data.len() >= 8 {
            Ok::<(u64, nat), FromHciBytesError>((le_value(data.take(8)) as u64, 8))
        } else {
            Err::<(u64, nat), FromHciBytesError>(FromHciBytesError::InvalidSize)
        },
{
    lemma_le_bytes_len(v as nat, 8);
    assert forall|i: int| 0 <= i < 8 implies #[trigger] v.spec_hci_bytes()[i] == (v as nat / pow256(i as nat)) % 256 by {
        lemma_le_bytes_index(v as nat, 8, i as nat);
    }
}

/// A `i64` goes on the wire as the 8 base-256 digits of the two's complement `v as u64`, least significant
/// first (byte `i` is digit `i`), and reading takes the first 8 bytes as such digits,
/// failing with `InvalidSize` when fewer than 8 bytes are given.
pub proof fn lemma_i64_wire_format<'de>(v: i64, data: Seq<u8>)
    ensures
        v.spec_hci_bytes() == le_bytes((v as u64) as nat, 8),
        v.spec_hci_bytes().len() == 8,
        forall|i: int| 0 <= i < 8 ==> #[trigger] v.spec_hci_bytes()[i] == ((v as u64) as nat / pow256(i as nat)) % 256,
        <i64 as FromHciBytes<'de>>::spec_from_hci_bytes(data) == if data.len() >= 8 {
            Ok::<(i64, nat), FromHciBytesError>(((le_value(data.take(8)) as u64) as i64, 8))
        } else {
            Err::<(i64, nat), FromHciBytesError>(FromHciBytesError::InvalidSize)
        },
{
    lemma_le_bytes_len((v as u64) as nat, 8);
    assert forall|i: int| 0 <= i < 8 implies #[trigger] v.spec_hci_bytes()[i] == ((v as u64) as nat / pow256(i as nat)) % 256 by {
        lemma_le_bytes_index((v as u64) as nat, 8, i as nat);
    }
}

/// A `u128` goes on the wire as the 16 base-256 digits of `v`, least significant
/// first (byte `i` is digit `i`), and reading takes the first 16 bytes as such digits,
/// failing with `InvalidSize` when fewer than 16 bytes are given.
pub proof fn lemma_u128_wire_format<'de>(v: u128, data: Seq<u8>)
    ensures
        v.spec_hci_bytes() == le_bytes(v as nat, 16),
        v.spec_hci_bytes().len() == 16,
        forall|i: int| 0 <= i < 16 ==> #[trigger] v.spec_hci_bytes()[i] == (v as nat / pow256(i as nat)) % 256,
        <u128 as FromHciBytes<'de>>::spec_from_hci_bytes(data) == if data.len() >= 16 {
            Ok::<(u128, nat), FromHciBytesError>((le_value(data.take(16)) as u128, 16))
        } else {
            Err::<(u128, nat), FromHciBytesError>(FromHciBytesError::InvalidSize)
        },
{
    lemma_le_bytes_len(v as nat, 16);
    assert forall|i: int| 0 <= i < 16 implies #[trigger] v.spec_hci_bytes()[i] == (v as nat / pow256(i as nat)) % 256 by {
        lemma_le_bytes_index(v as nat, 16, i as nat);
    }
}

/// A `i128` goes on the wire as the 16 base-256 digits of the two's complement `v as u128`, least significant
/// first (byte `i` is digit `i`), and reading takes the first 16 bytes as such digits,
/// failing with `InvalidSize` when fewer than 16 bytes are given.
pub proof fn lemma_i128_wire_format<'de>(v: i128, data: Seq<u8>)
    ensures
        v.spec_hci_bytes() == le_bytes((v as u128) as nat, 16),
        v.spec_hci_bytes().len() == 16,
        forall|i: int| 0 <= i < 16 ==> #[trigger] v.spec_hci_bytes()[i] == ((v as u128) as nat / pow256(i as nat)) % 256,
        <i128 as FromHciBytes<'de>>::spec_from_hci_bytes(data) == if data.len() >= 16 {
            Ok::<(i128, nat), FromHciBytesError>(((le_value(data.take(16)) as u128) as i128, 16))
        } else {
            Err::<(i128, nat), FromHciBytesError>(FromHciBytesError::InvalidSize)
        },
{
    lemma_le_bytes_len((v as u128) as nat, 16);
    assert forall|i: int| 0 <= i < 16 implies #[trigger] v.spec_hci_bytes()[i] == ((v as u128) as nat / pow256(i as nat)) % 256 by {
        lemma_le_bytes_index((v as u128) as nat, 16, i as nat);
    }
}

} // verus!
