use vstd::prelude::*;

verus! {

/// Why bytes could not be read as a parameter.
#[derive(Debug, Clone, Copy, PartialEq, Eq, Structural)]
pub enum FromHciBytesError {
    /// The input ended before the parameter did.
    InvalidSize,
    /// The input holds a value that the parameter type does not allow.
    InvalidValue,
}

/// A value that can be put on the HCI wire.
pub trait WriteHci {
    /// The bytes that `write_hci` emits for this value.
    spec fn spec_hci_bytes(&self) -> Seq<u8>;

    /// The number that `size` reports for this value.
    spec fn spec_size(&self) -> nat;

    /// Reports the encoded size of the value.
    fn size(&self) -> (n: usize)
        requires
            self.spec_size() <= usize::MAX,
        ensures
            n == self.spec_size(),
    ;

    /// Appends the encoding of the value to `out`.
    fn write_hci(&self, out: &mut Vec<u8>)
        ensures
            final(out)@ == old(out)@ + self.spec_hci_bytes(),
    ;
}

/// A value that can be read from the front of HCI bytes.
pub trait FromHciBytes<'de>: Sized + View {
    /// What reading the front of `data` gives: the value's view and the number of bytes
    /// consumed, or the error.
    spec fn spec_from_hci_bytes(data: Seq<u8>) -> Result<(Self::V, nat), FromHciBytesError>;

    /// A successful read never consumes more bytes than it was given.
    proof fn lemma_consumed_within(data: Seq<u8>)
        ensures
            Self::spec_from_hci_bytes(data) matches Ok((_, n)) ==> n <= data.len(),
    ;

    /// Reads a value from the front of `data`.
    fn from_hci_bytes(data: &'de [u8]) -> (r: Result<(Self, usize), FromHciBytesError>)
        ensures
            match r {
                Ok((v, n)) => Self::spec_from_hci_bytes(data@) == Ok::<(Self::V, nat), FromHciBytesError>((v@, n as nat)),
                Err(e) => Self::spec_from_hci_bytes(data@) == Err::<(Self::V, nat), FromHciBytesError>(e),
            },
    ;
}

/// Parameter types whose encoding reads back as the value that was written.
pub trait HciRoundTrip<'de>: WriteHci + FromHciBytes<'de> {
    /// Reading the encoding of `self`, whatever follows it, gives back `self` and consumes
    /// exactly the encoding; `size` reports the length of the encoding.
    proof fn lemma_round_trip(&self, rest: Seq<u8>)
        ensures
            Self::spec_from_hci_bytes(self.spec_hci_bytes() + rest) == Ok::<(Self::V, nat), FromHciBytesError>((self@, self.spec_hci_bytes().len())),
            self.spec_size() == self.spec_hci_bytes().len(),
    ;
}

/// `256` to the power `n`: one more than the largest value that `n` bytes hold.
pub open spec fn pow256(n: nat) -> nat
    decreases n,
{
    if n == 0 {
        1
    } else {
        256 * pow256((n - 1) as nat)
    }
}

/// The `n` least significant bytes of `v`, least significant first.
pub open spec fn le_bytes(v: nat, n: nat) -> Seq<u8>
    decreases n,
{
    if n == 0 {
        Seq::empty()
    } else {
        seq![(v % 256) as u8] + le_bytes(v / 256, (n - 1) as nat)
    }
}

/// The number whose little-endian bytes are `s`.
pub open spec fn le_value(s: Seq<u8>) -> nat
    decreases s.len(),
{
    if s.len() == 0 {
        0
    } else {
        s[0] as nat + 256 * le_value(s.drop_first())
    }
}

pub proof fn lemma_pow256_values()
    ensures
        pow256(1) == 0x100,
        pow256(2) == 0x1_0000,
        pow256(4) == 0x1_0000_0000,
        pow256(8) == 0x1_0000_0000_0000_0000,
        pow256(16) == 0x1_0000_0000_0000_0000_0000_0000_0000_0000,
{
    reveal_with_fuel(pow256, 17);
}

pub proof fn lemma_pow256_monotone(a: nat, b: nat)
    requires
        a <= b,
    ensures
        pow256(a) <= pow256(b),
    decreases b,
{
    if a < b {
        lemma_pow256_monotone(a, (b - 1) as nat);
    }
}

pub proof fn lemma_le_bytes_len(v: nat, n: nat)
    ensures
        le_bytes(v, n).len() == n,
    decreases n,
{
    if n > 0 {
        lemma_le_bytes_len(v / 256, (n - 1) as nat);
    }
}

pub proof fn lemma_le_value_bound(s: Seq<u8>)
    ensures
        le_value(s) < pow256(s.len()),
    decreases s.len(),
{
    if s.len() > 0 {
        lemma_le_value_bound(s.drop_first());
    }
}

/// Reading back the `n` little-endian bytes of a value that fits in them gives the value.
pub proof fn lemma_le_round_trip(v: nat, n: nat)
    requires
        v < pow256(n),
    ensures
        le_value(le_bytes(v, n)) == v,
    decreases n,
{
    if n > 0 {
        let s = le_bytes(v, n);
        lemma_le_round_trip(v / 256, (n - 1) as nat);
        assert(s.drop_first() =~= le_bytes(v / 256, (n - 1) as nat));
    }
}

/// The little-endian value of the first `n` bytes of `s` followed by anything.
pub proof fn lemma_le_prefix(v: nat, n: nat, rest: Seq<u8>)
    requires
        v < pow256(n),
    ensures
        (le_bytes(v, n) + rest).len() >= n,
        le_value((le_bytes(v, n) + rest).take(n as int)) == v,
{
    lemma_le_bytes_len(v, n);
    assert((le_bytes(v, n) + rest).take(n as int) =~= le_bytes(v, n));
    lemma_le_round_trip(v, n);
}

proof fn lemma_pow256_positive(n: nat)
    ensures
        pow256(n) > 0,
    decreases n,
{
    if n > 0 {
        lemma_pow256_positive((n - 1) as nat);
    }
}

/// Byte `i` of the `n` little-endian bytes of `v` is digit `i` of `v` in base 256.
pub proof fn lemma_le_bytes_index(v: nat, n: nat, i: nat)
    requires
        i < n,
    ensures
        le_bytes(v, n).len() == n,
        le_bytes(v, n)[i as int] == (v / pow256(i)) % 256,
    decreases i,
{
    lemma_le_bytes_len(v, n);
    lemma_le_bytes_len(v / 256, (n - 1) as nat);
    let tail = le_bytes(v / 256, (n - 1) as nat);
    assert(le_bytes(v, n) == seq![(v % 256) as u8] + tail);
    if i > 0 {
        lemma_le_bytes_index(v / 256, (n - 1) as nat, (i - 1) as nat);
        lemma_pow256_positive((i - 1) as nat);
        vstd::arithmetic::div_mod::lemma_div_denominator(v as int, 256, pow256((i - 1) as nat) as int);
        assert(le_bytes(v, n)[i as int] == tail[i - 1]);
        assert(pow256(i) == 256 * pow256((i - 1) as nat));
    } else {
        assert(pow256(0) == 1);
        assert(v / 1 == v);
    }
}

/// Appends the `n` least significant bytes of `v` to `out`, least significant first.
pub fn push_le(out: &mut Vec<u8>, v: u128, n: usize)
    ensures
        final(out)@ == old(out)@ + le_bytes(v as nat, n as nat),
    decreases n,
{
    if n > 0 {
        let ghost before = out@;
        out.push((v % 256) as u8);
        push_le(out, v / 256, n - 1);
        assert(out@ =~= before + le_bytes(v as nat, n as nat));
    }
}

/// Reads the little-endian number in `data[start..start + n]`.
pub fn read_le(data: &[u8], start: usize, n: usize) -> (v: u128)
    requires
        start + n <= data.len(),
        n <= 16,
    ensures
        v as nat == le_value(data@.subrange(start as int, start + n)),
    decreases n,
{
    if n == 0 {
        0
    } else {
        let rest = read_le(data, start + 1, n - 1);
        let ghost s = data@.subrange(start as int, start + n);
        proof {
            assert(s.drop_first() =~= data@.subrange(start + 1, start + n));
            lemma_le_value_bound(s.drop_first());
            lemma_pow256_monotone((n - 1) as nat, 15);
            lemma_pow256_values();
            reveal_with_fuel(pow256, 17);
        }
        data[start] as u128 + 256 * rest
    }
}

} // verus!
