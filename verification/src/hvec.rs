use crate::codec::{FromHciBytes, FromHciBytesError};
use vstd::prelude::*;

verus! {

#[verifier::external_type_specification]
#[verifier::external_body]
#[verifier::reject_recursive_types(T)]
pub struct ExHeaplessVec<T, const N: usize>(heapless::Vec<T, N>);

/// A `heapless::Vec` of capacity `N`, paired with a model of the items it holds.
///
/// The items can only change through the methods below, each of which makes the matching
/// call on the `heapless::Vec`; their contracts state what `heapless` does to its items.
#[verifier::reject_recursive_types(T)]
pub struct HciVec<T, const N: usize> {
    vec: heapless::Vec<T, N>,
    items: Ghost<Seq<T>>,
}

impl<T, const N: usize> HciVec<T, N> {
    /// The items held, in the order they were pushed.
    pub closed spec fn items(&self) -> Seq<T> {
        self.items@
    }

    /// An empty vector, made by `heapless::Vec::new`, which holds no items.
    #[verifier::external_body]
    pub fn new() -> (r: Self)
        ensures
            r.items() == Seq::<T>::empty(),
    {
        HciVec { vec: heapless::Vec::new(), items: Ghost(Seq::empty()) }
    }

    /// Appends `item` through `heapless::Vec::push`, which stores it when fewer than `N`
    /// items are held and otherwise hands it back in `Err`, leaving the items as they were.
    #[verifier::external_body]
    pub fn push(&mut self, item: T) -> (r: Result<(), T>)
        ensures
            r is Ok <==> old(self).items().len() < N,
            r matches Err(back) ==> back == item,
            final(self).items() == if old(self).items().len() < N {
                old(self).items().push(item)
            } else {
                old(self).items()
            },
    {
        self.vec.push(item)
    }

    /// The items, through `heapless::Vec::as_slice`, which returns the items held in order.
    #[verifier::external_body]
    pub fn as_slice(&self) -> (r: &[T])
        ensures
            r@ == self.items(),
    {
        self.vec.as_slice()
    }

    /// The number of items held.
    pub fn len(&self) -> (r: usize)
        ensures
            r == self.items().len(),
    {
        self.as_slice().len()
    }

    /// The item at `index`, if there is one.
    pub fn get(&self, index: usize) -> (r: Option<&T>)
        ensures
            r == (if index < self.items().len() { Some(&self.items()[index as int]) } else { None }),
    {
        let items = self.as_slice();
        if index < items.len() {
            Some(&items[index])
        } else {
            None
        }
    }

    /// The `heapless::Vec` itself.
    #[verifier::external_body]
    pub fn into_inner(self) -> heapless::Vec<T, N> {
        self.vec
    }
}

impl<T: View, const N: usize> View for HciVec<T, N> {
    type V = Seq<T::V>;

    open spec fn view(&self) -> Seq<T::V> {
        self.items().map_values(|t: T| t@)
    }
}

/// What reading `count` items of type `T` from the front of `data` gives when at most `room`
/// of them may be kept: the items' views and the number of bytes consumed, or the first
/// error. An item that was read but finds no room is an invalid value.
pub open spec fn spec_items_from_hci_bytes<'de, T: FromHciBytes<'de>>(
    data: Seq<u8>,
    count: nat,
    room: nat,
) -> Result<(Seq<T::V>, nat), FromHciBytesError>
    decreases count,
{
    if count == 0 {
        Ok((Seq::empty(), 0))
    } else {
        match T::spec_from_hci_bytes(data) {
            Err(e) => Err(e),
            Ok((v, n)) => if room == 0 {
                Err(FromHciBytesError::InvalidValue)
            } else {
                match spec_items_from_hci_bytes::<T>(data.skip(n as int), (count - 1) as nat, (room - 1) as nat) {
                    Err(e) => Err(e),
                    Ok((vs, m)) => Ok((seq![v] + vs, n + m)),
                }
            },
        }
    }
}

/// `r` with `prefix` put before its items and `consumed` added to its byte count.
pub open spec fn after<V>(
    prefix: Seq<V>,
    consumed: nat,
    r: Result<(Seq<V>, nat), FromHciBytesError>,
) -> Result<(Seq<V>, nat), FromHciBytesError> {
    match r {
        Err(e) => Err(e),
        Ok((vs, m)) => Ok((prefix + vs, consumed + m)),
    }
}

proof fn lemma_items_consumed_within<'de, T: FromHciBytes<'de>>(data: Seq<u8>, count: nat, room: nat)
    ensures
        spec_items_from_hci_bytes::<T>(data, count, room) matches Ok((_, n)) ==> n <= data.len(),
    decreases count,
{
    if count > 0 {
        T::lemma_consumed_within(data);
        if let Ok((_, n)) = T::spec_from_hci_bytes(data) {
            if room > 0 {
                lemma_items_consumed_within::<T>(data.skip(n as int), (count - 1) as nat, (room - 1) as nat);
            }
        }
    }
}

proof fn lemma_items_count<'de, T: FromHciBytes<'de>>(data: Seq<u8>, count: nat, room: nat)
    ensures
        spec_items_from_hci_bytes::<T>(data, count, room) matches Ok((vs, _)) ==> vs.len() == count && count <= room,
    decreases count,
{
    if count > 0 {
        if let Ok((_, n)) = T::spec_from_hci_bytes(data) {
            if room > 0 {
                lemma_items_count::<T>(data.skip(n as int), (count - 1) as nat, (room - 1) as nat);
            }
        }
    }
}

/// A vector that was read holds exactly as many items as its count byte announced, and
/// never more than its capacity `N`.
pub proof fn lemma_vec_holds_count<'de, T: FromHciBytes<'de>, const N: usize>(data: Seq<u8>)
    ensures
        <HciVec<T, N> as FromHciBytes<'de>>::spec_from_hci_bytes(data) matches Ok((vs, _)) ==> {
            &&& vs.len() == data[0]
            &&& vs.len() <= N
        },
{
    if data.len() > 0 {
        lemma_items_count::<T>(data.drop_first(), data[0] as nat, N as nat);
        if let Ok((vs, _)) = spec_items_from_hci_bytes::<T>(data.drop_first(), data[0] as nat, N as nat) {
            assert((Seq::<T::V>::empty() + vs).len() == vs.len());
        }
    }
}

impl<'de, T: FromHciBytes<'de>, const N: usize> FromHciBytes<'de> for HciVec<T, N> {
    /// A count byte, then that many items, of which at most `N` fit.
    open spec fn spec_from_hci_bytes(data: Seq<u8>) -> Result<(Seq<T::V>, nat), FromHciBytesError> {
        if data.len() == 0 {
            Err(FromHciBytesError::InvalidSize)
        } else {
            after(Seq::empty(), 1, spec_items_from_hci_bytes::<T>(data.drop_first(), data[0] as nat, N as nat))
        }
    }

    proof fn lemma_consumed_within(data: Seq<u8>) {
        if data.len() > 0 {
            lemma_items_consumed_within::<T>(data.drop_first(), data[0] as nat, N as nat);
        }
    }

    fn from_hci_bytes(data: &'de [u8]) -> (r: Result<(HciVec<T, N>, usize), FromHciBytesError>) {
        let mut vec: HciVec<T, N> = HciVec::new();
        if data.len() == 0 {
            return Err(FromHciBytesError::InvalidSize);
        }
        let (first, tail) = data.split_at(1);
        let count: u8 = first[0];
        let mut rest: &'de [u8] = tail;
        let mut total: usize = 1;
        let mut i: u8 = 0;
        let ghost whole = spec_items_from_hci_bytes::<T>(data@.drop_first(), count as nat, N as nat);
        assert(rest@ =~= data@.drop_first());
        assert(vec@ =~= Seq::<T::V>::empty());
        assert(after(vec@, 0, whole) == whole) by {
            if let Ok((vs, m)) = whole {
                assert(Seq::<T::V>::empty() + vs =~= vs);
            }
        }
        while i < count
            invariant
                i <= count,
                count == data@[0],
                vec.items().len() == i,
                i <= N,
                1 <= total,
                total == data.len() - rest.len(),
                whole == spec_items_from_hci_bytes::<T>(data@.drop_first(), count as nat, N as nat),
                whole == after(vec@, (total - 1) as nat,
                    spec_items_from_hci_bytes::<T>(rest@, (count - i) as nat, (N - i) as nat)),
            decreases count - i,
        {
            let ghost before = vec@;
            let ghost tail_result = spec_items_from_hci_bytes::<T>(rest@, (count - i) as nat, (N - i) as nat);
            let (val, len) = match T::from_hci_bytes(rest) {
                Ok(parsed) => parsed,
                Err(e) => return Err(e),
            };
            proof {
                T::lemma_consumed_within(rest@);
            }
            let ghost item_view = val@;
            match vec.push(val) {
                Ok(()) => {},
                Err(_) => return Err(FromHciBytesError::InvalidValue),
            }
            let ghost next = spec_items_from_hci_bytes::<T>(rest@.skip(len as int), (count - i - 1) as nat, (N - i - 1) as nat);
            assert(vec@ =~= before.push(item_view));
            assert(after(vec@, (total - 1 + len) as nat, next) == after(before, (total - 1) as nat, tail_result)) by {
                if let Ok((vs, m)) = next {
                    assert(before + (seq![item_view] + vs) =~= before.push(item_view) + vs);
                }
            }
            rest = rest.split_at(len).1;
            total = total + len;
            i = i + 1;
        }
        assert(vec@ + Seq::<T::V>::empty() =~= vec@);
        Ok((vec, total))
    }
}

} // verus!
