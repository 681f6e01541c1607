use crate::codec::{HciRoundTrip, WriteHci};
use vstd::prelude::*;

verus! {

/// A slice of parameters, sent as a list: the number of items in one byte, then each item
/// in its own encoding.
pub struct ParamSlice<'a, T>(pub &'a [T]);

/// The encodings of `items`, one after another.
pub open spec fn items_hci_bytes<T: WriteHci>(items: Seq<T>) -> Seq<u8>
    decreases items.len(),
{
    if items.len() == 0 {
        Seq::empty()
    } else {
        items_hci_bytes(items.drop_last()) + items.last().spec_hci_bytes()
    }
}

/// The sum of the sizes that `items` report.
pub open spec fn items_size<T: WriteHci>(items: Seq<T>) -> nat
    decreases items.len(),
{
    if items.len() == 0 {
        0
    } else {
        items_size(items.drop_last()) + items.last().spec_size()
    }
}

proof fn lemma_items_size_prefix<T: WriteHci>(items: Seq<T>, i: int)
    requires
        0 <= i < items.len(),
    ensures
        items_size(items.take(i)) + items[i].spec_size() == items_size(items.take(i + 1)),
        items_size(items.take(i + 1)) <= items_size(items),
    decreases items.len(),
{
    assert(items.take(i + 1).drop_last() =~= items.take(i));
    if i + 1 < items.len() {
        lemma_items_size_prefix(items.drop_last(), i);
        assert(items.drop_last().take(i) =~= items.take(i));
        assert(items.drop_last().take(i + 1) =~= items.take(i + 1));
    } else {
        assert(items.take(i + 1) =~= items);
    }
}

/// For items whose size is their encoded length, a list's size is its encoded length too.
pub proof fn lemma_list_size_is_encoded_length<'a, 'de, T: HciRoundTrip<'de>>(list: ParamSlice<'a, T>)
    ensures
        list.spec_size() == list.spec_hci_bytes().len(),
{
    lemma_items_size_is_encoded_length::<T>(list.0@);
}

proof fn lemma_items_size_is_encoded_length<'de, T: HciRoundTrip<'de>>(items: Seq<T>)
    ensures
        items_size(items) == items_hci_bytes(items).len(),
    decreases items.len(),
{
    if items.len() > 0 {
        lemma_items_size_is_encoded_length::<T>(items.drop_last());
        items.last().lemma_round_trip(Seq::empty());
    }
}

impl<'a, T: WriteHci> WriteHci for ParamSlice<'a, T> {
    /// The item count modulo 256 in one byte, then the items.
    open spec fn spec_hci_bytes(&self) -> Seq<u8> {
        seq![(self.0@.len() % 256) as u8] + items_hci_bytes(self.0@)
    }

    /// One for the count byte, plus the items' sizes.
    open spec fn spec_size(&self) -> nat {
        1 + items_size(self.0@)
    }

    fn size(&self) -> (n: usize) {
        let items = self.0;
        let mut total: usize = 1;
        let mut i: usize = 0;
        while i < items.len()
            invariant
                i <= items@.len(),
                1 + items_size(items@) <= usize::MAX,
                total == 1 + items_size(items@.take(i as int)),
            decreases items@.len() - i,
        {
            proof {
                lemma_items_size_prefix(items@, i as int);
            }
            total = total + items[i].size();
            i = i + 1;
        }
        assert(items@.take(i as int) =~= items@);
        total
    }

    fn write_hci(&self, out: &mut Vec<u8>) {
        let items = self.0;
        let len: usize = items.len();
        assert(len as u8 == len % 256) by (bit_vector);
        out.push(len as u8);
        let ghost start = out@;
        let mut i: usize = 0;
        assert(items@.take(0) =~= Seq::<T>::empty());
        assert(out@ =~= start + items_hci_bytes(items@.take(0)));
        while i < items.len()
            invariant
                i <= items@.len(),
                out@ == start + items_hci_bytes(items@.take(i as int)),
            decreases items@.len() - i,
        {
            items[i].write_hci(out);
            assert(items@.take(i + 1).drop_last() =~= items@.take(i as int));
            i = i + 1;
            assert(out@ =~= start + items_hci_bytes(items@.take(i as int)));
        }
        assert(items@.take(i as int) =~= items@);
        assert(out@ =~= old(out)@ + self.spec_hci_bytes());
    }
}

} // verus!
