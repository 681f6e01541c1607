use crate::codec::{FromHciBytes, FromHciBytesError, HciRoundTrip, WriteHci};
use vstd::prelude::*;

verus! {

/// A time span counted in ticks of `N` × 625 µs, as HCI parameters carry it.
#[derive(Debug, Clone, Copy, PartialEq, Eq, PartialOrd, Ord, Hash)]
pub struct Duration<const N: u32>(u16);

impl<const N: u32> View for Duration<N> {
    type V = u16;

    /// The number of ticks.
    closed spec fn view(&self) -> u16 {
        self.0
    }
}

/// Microseconds in one tick of a `Duration<N>`.
pub open spec fn micros_per_tick(n: u32) -> int {
    625 * n
}

/// Eighths of a millisecond in one tick of a `Duration<N>`.
pub open spec fn eighth_millis_per_tick(n: u32) -> int {
    5 * n
}

/// The tick count that `from_micros` stores for `val` microseconds: whole ticks, kept
/// modulo 2^16.
pub open spec fn ticks_from_micros(n: u32, val: int) -> int {
    (val / micros_per_tick(n)) % 0x1_0000
}

/// The tick count that `from_millis` stores for `val` milliseconds: whole ticks, kept
/// modulo 2^16.
pub open spec fn ticks_from_millis(n: u32, val: int) -> int {
    (val * 8 / eighth_millis_per_tick(n)) % 0x1_0000
}

/// Microseconds in `ticks` ticks.
pub open spec fn micros_of_ticks(n: u32, ticks: int) -> int {
    ticks * micros_per_tick(n)
}

/// Whole milliseconds in `ticks` ticks.
pub open spec fn millis_of_ticks(n: u32, ticks: int) -> int {
    ticks * eighth_millis_per_tick(n) / 8
}

impl<const N: u32> Default for Duration<N> {
    fn default() -> (r: Self)
        ensures
            r@ == 0,
    {
        Duration(0)
    }
}

impl<const N: u32> Duration<N> {
    /// The span of `val` ticks.
    pub fn from_u16(val: u16) -> (r: Self)
        ensures
            r@ == val,
    {
        Self(val)
    }

    /// The whole ticks in `val` microseconds, kept modulo 2^16.
    pub fn from_micros(val: u32) -> (r: Self)
        requires
            0 < N,
            micros_per_tick(N) <= u32::MAX,
        ensures
            r@ == ticks_from_micros(N, val as int),
    {
        let q: u32 = val / (625 * N);
        assert(q as u16 == q % 0x1_0000) by (bit_vector);
        Self::from_u16(q as u16)
    }

    /// The whole ticks in `val` milliseconds, kept modulo 2^16.
    pub fn from_millis(val: u32) -> (r: Self)
        requires
            0 < N,
            eighth_millis_per_tick(N) <= u32::MAX,
            val * 8 <= u32::MAX,
        ensures
            r@ == ticks_from_millis(N, val as int),
    {
        let q: u32 = (val * 8) / (5 * N);
        assert(q as u16 == q % 0x1_0000) by (bit_vector);
        Self::from_u16(q as u16)
    }

    /// The whole ticks in `val` seconds, kept modulo 2^16.
    pub fn from_secs(val: u32) -> (r: Self)
        requires
            0 < N,
            eighth_millis_per_tick(N) <= u32::MAX,
            val * 1000 * 8 <= u32::MAX,
        ensures
            r@ == ticks_from_millis(N, val * 1000),
    {
        Self::from_millis(val * 1000)
    }

    /// The number of ticks.
    pub fn as_u16(&self) -> (r: u16)
        ensures
            r == self@,
    {
        self.0
    }

    /// The span in microseconds.
    pub fn as_micros(&self) -> (r: u32)
        requires
            micros_per_tick(N) <= u32::MAX,
            micros_of_ticks(N, self@ as int) <= u32::MAX,
        ensures
            r == micros_of_ticks(N, self@ as int),
    {
        (self.as_u16() as u32) * (625 * N)
    }

    /// The span in whole milliseconds.
    pub fn as_millis(&self) -> (r: u32)
        requires
            eighth_millis_per_tick(N) <= u32::MAX,
            self@ * eighth_millis_per_tick(N) <= u32::MAX,
        ensures
            r == millis_of_ticks(N, self@ as int),
    {
        ((self.as_u16() as u32) * (5 * N)) / 8
    }

    /// The span in whole seconds.
    pub fn as_secs(&self) -> (r: u32)
        requires
            eighth_millis_per_tick(N) <= u32::MAX,
            self@ * eighth_millis_per_tick(N) <= u32::MAX,
        ensures
            r == millis_of_ticks(N, self@ as int) / 1000,
    {
        self.as_millis() / 1000
    }
}

/// Reading microseconds back as ticks gives the ticks.
pub proof fn lemma_micros_round_trip(n: u32, ticks: u16)
    requires
        0 < n,
    ensures
        ticks_from_micros(n, micros_of_ticks(n, ticks as int)) == ticks,
{
    let k = micros_per_tick(n);
    assert(k > 0);
    assert((ticks * k) / k == ticks) by (nonlinear_arith)
        requires
            k > 0,
    ;
}

/// A span made from microseconds holds the whole ticks in them: it is at most the given
/// span and less than one tick short of it, unless the tick count was cut to 16 bits.
pub proof fn lemma_from_micros_rounds_down(n: u32, val: int)
    requires
        0 < n,
        0 <= val,
        val / micros_per_tick(n) < 0x1_0000,
    ensures
        micros_of_ticks(n, ticks_from_micros(n, val)) <= val,
        val < micros_of_ticks(n, ticks_from_micros(n, val)) + micros_per_tick(n),
{
    let k = micros_per_tick(n);
    let q = val / k;
    assert(q * k <= val < q * k + k) by (nonlinear_arith)
        requires
            k > 0,
            q == val / k,
            val >= 0,
    ;
}

/// A span made from milliseconds never reads back as more milliseconds than were given,
/// unless the tick count was cut to 16 bits.
pub proof fn lemma_from_millis_rounds_down(n: u32, val: int)
    requires
        0 < n,
        0 <= val,
        val * 8 / eighth_millis_per_tick(n) < 0x1_0000,
    ensures
        millis_of_ticks(n, ticks_from_millis(n, val)) <= val,
{
    let k = eighth_millis_per_tick(n);
    let q = val * 8 / k;
    assert(q * k <= val * 8) by (nonlinear_arith)
        requires
            k > 0,
            q == val * 8 / k,
            val >= 0,
    ;
    assert(q * k / 8 <= val) by (nonlinear_arith)
        requires
            q * k <= val * 8,
    ;
}

/// A tick lasts `n` × 625 µs: the ticks made from `val` microseconds are the whole ticks
/// `q` in them (`q` ticks fit in `val` µs and `q + 1` do not), kept modulo 2^16.
pub proof fn lemma_micros_are_whole_ticks(n: u32, val: int)
    requires
        0 < n,
        0 <= val,
    ensures
        exists|q: int|
            #![trigger q % 0x1_0000]
            q * 625 * n <= val < (q + 1) * 625 * n && ticks_from_micros(n, val) == q % 0x1_0000,
{
    let k: int = 625 * n;
    let q = val / k;
    assert(q * 625 * n <= val < (q + 1) * 625 * n) by (nonlinear_arith)
        requires
            k == 625 * n,
            n > 0,
            q == val / k,
            val >= 0,
    ;
    assert(ticks_from_micros(n, val) == q % 0x1_0000);
}

/// A tick lasts `n` × 1.25 ms, that is `5 * n` eighths of a millisecond: the ticks made from
/// `val` milliseconds are the whole ticks `q` in them (`q * 5 * n <= val * 8 < (q + 1) * 5 * n`),
/// kept modulo 2^16.
pub proof fn lemma_millis_are_whole_ticks(n: u32, val: int)
    requires
        0 < n,
        0 <= val,
    ensures
        exists|q: int|
            #![trigger q % 0x1_0000]
            q * 5 * n <= val * 8 < (q + 1) * 5 * n && ticks_from_millis(n, val) == q % 0x1_0000,
{
    let k: int = 5 * n;
    let q = val * 8 / k;
    assert(q * 5 * n <= val * 8 < (q + 1) * 5 * n) by (nonlinear_arith)
        requires
            k == 5 * n,
            n > 0,
            q == val * 8 / k,
            val >= 0,
    ;
    assert(ticks_from_millis(n, val) == q % 0x1_0000);
}

/// `t` ticks of `n` × 625 µs are `t * 625 * n` microseconds, the whole milliseconds `m` in
/// them (`m * 8 <= t * 5 * n < (m + 1) * 8`), and the whole seconds `s` in them
/// (`s * 8000 <= t * 5 * n < (s + 1) * 8000`).
pub proof fn lemma_ticks_in_units(n: u32, t: int)
    requires
        0 <= t,
    ensures
        micros_of_ticks(n, t) == t * 625 * n,
        millis_of_ticks(n, t) * 8 <= t * 5 * n < (millis_of_ticks(n, t) + 1) * 8,
        (millis_of_ticks(n, t) / 1000) * 8000 <= t * 5 * n < (millis_of_ticks(n, t) / 1000 + 1) * 8000,
{
    let e: int = t * 5 * n;
    assert(t * (5 * n) == e) by (nonlinear_arith)
        requires
            e == t * 5 * n,
    ;
    assert(t * (625 * n) == t * 625 * n) by (nonlinear_arith);
    let m = millis_of_ticks(n, t);
    assert(m == e / 8);
    let s = m / 1000;
    assert(s * 8000 <= e < (s + 1) * 8000) by (nonlinear_arith)
        requires
            m == e / 8,
            s == m / 1000,
            e >= 0,
    ;
}

/// A `Duration` travels as its tick count, a `u16`.
impl<const N: u32> WriteHci for Duration<N> {
    open spec fn spec_hci_bytes(&self) -> Seq<u8> {
        self@.spec_hci_bytes()
    }

    open spec fn spec_size(&self) -> nat {
        2
    }

    fn size(&self) -> (n: usize) {
        self.0.size()
    }

    fn write_hci(&self, out: &mut Vec<u8>) {
        self.0.write_hci(out)
    }
}

impl<'de, const N: u32> FromHciBytes<'de> for Duration<N> {
    open spec fn spec_from_hci_bytes(data: Seq<u8>) -> Result<(u16, nat), FromHciBytesError> {
        <u16 as FromHciBytes<'de>>::spec_from_hci_bytes(data)
    }

    proof fn lemma_consumed_within(data: Seq<u8>) {
    }

    fn from_hci_bytes(data: &'de [u8]) -> (r: Result<(Duration<N>, usize), FromHciBytesError>) {
        match u16::from_hci_bytes(data) {
            Ok((x, y)) => Ok((Duration(x), y)),
            Err(e) => Err(e),
        }
    }
}

impl<'de, const N: u32> HciRoundTrip<'de> for Duration<N> {
    proof fn lemma_round_trip(&self, rest: Seq<u8>) {
        <u16 as HciRoundTrip<'de>>::lemma_round_trip(&self.0, rest);
    }
}

} // verus!
