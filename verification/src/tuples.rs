use crate::codec::{FromHciBytes, FromHciBytesError, HciRoundTrip, WriteHci};
use vstd::prelude::*;

verus! {

// A tuple travels as its fields, one after another, each in its own encoding; reading one
// reads its fields in order from the front and stops at the first field that fails.
impl WriteHci for () {
    open spec fn spec_hci_bytes(&self) -> Seq<u8> {
        Seq::empty()
    }

    open spec fn spec_size(&self) -> nat {
        0
    }

    fn size(&self) -> (n: usize) {
        0
    }

    fn write_hci(&self, out: &mut Vec<u8>) {
        assert(out@ =~= old(out)@ + self.spec_hci_bytes());
    }
}

impl<'de> FromHciBytes<'de> for () {
    open spec fn spec_from_hci_bytes(data: Seq<u8>) -> Result<((), nat), FromHciBytesError> {
        Ok(((), 0))
    }

    proof fn lemma_consumed_within(data: Seq<u8>) {
    }

    fn from_hci_bytes(data: &'de [u8]) -> (r: Result<((), usize), FromHciBytesError>) {
        Ok(((), 0))
    }
}

impl<'de> HciRoundTrip<'de> for () {
    proof fn lemma_round_trip(&self, rest: Seq<u8>) {
    }
}

impl<A: WriteHci> WriteHci for (A,) {
    open spec fn spec_hci_bytes(&self) -> Seq<u8> {
        self.0.spec_hci_bytes()
    }

    open spec fn spec_size(&self) -> nat {
        self.0.spec_size()
    }

    fn size(&self) -> (n: usize) {
        let mut n: usize = 0;
        assert(self.0.spec_size() <= self.spec_size());
        n = n + self.0.size();
        n
    }

    fn write_hci(&self, out: &mut Vec<u8>) {
        self.0.write_hci(out);
        assert(out@ =~= old(out)@ + (self.0.spec_hci_bytes()));
    }
}

impl<'de, A: FromHciBytes<'de>> FromHciBytes<'de> for (A,) {
    open spec fn spec_from_hci_bytes(data: Seq<u8>) -> Result<((A::V,), nat), FromHciBytesError> {
        match A::spec_from_hci_bytes(data) {
            Err(e) => Err(e),
            Ok((a, na)) => {
                Ok(((a,), na))
            },
        }
    }

    proof fn lemma_consumed_within(data: Seq<u8>) {
        A::lemma_consumed_within(data);
        if let Ok((_, na)) = A::spec_from_hci_bytes(data) {
        }
    }

    fn from_hci_bytes(data: &'de [u8]) -> (r: Result<((A,), usize), FromHciBytesError>) {
        let rest: &'de [u8] = data;
        let total: usize = 0;
        let (a, len) = match A::from_hci_bytes(rest) {
            Ok(parsed) => parsed,
            Err(e) => return Err(e),
        };
        proof {
            A::lemma_consumed_within(rest@);
        }
        let total: usize = total + len;
        let ghost na: nat = len as nat;
        let rest: &'de [u8] = rest.split_at(len).1;
        assert(rest@ =~= data@.skip(na as int));
        assert(total == na && total <= data.len() - rest.len());
        Ok(((a,), total))
    }
}

impl<'de, A: HciRoundTrip<'de>> HciRoundTrip<'de> for (A,) {
    proof fn lemma_round_trip(&self, rest: Seq<u8>) {
        assert(self.spec_hci_bytes() + rest =~= (self.0.spec_hci_bytes() + rest));
        self.0.lemma_round_trip(rest);
        assert((self.0.spec_hci_bytes() + rest).skip(self.0.spec_hci_bytes().len() as int) =~= rest);
    }
}

impl<A: WriteHci, B: WriteHci> WriteHci for (A, B) {
    open spec fn spec_hci_bytes(&self) -> Seq<u8> {
        self.0.spec_hci_bytes() + self.1.spec_hci_bytes()
    }

    open spec fn spec_size(&self) -> nat {
        self.0.spec_size() + self.1.spec_size()
    }

    fn size(&self) -> (n: usize) {
        let mut n: usize = 0;
        assert(self.0.spec_size() <= self.spec_size());
        n = n + self.0.size();
        assert(self.0.spec_size() + self.1.spec_size() <= self.spec_size());
        n = n + self.1.size();
        n
    }

    fn write_hci(&self, out: &mut Vec<u8>) {
        self.0.write_hci(out);
        assert(out@ =~= old(out)@ + (self.0.spec_hci_bytes()));
        self.1.write_hci(out);
        assert(out@ =~= old(out)@ + (self.0.spec_hci_bytes() + self.1.spec_hci_bytes()));
    }
}

impl<'de, A: FromHciBytes<'de>, B: FromHciBytes<'de>> FromHciBytes<'de> for (A, B) {
    open spec fn spec_from_hci_bytes(data: Seq<u8>) -> Result<((A::V, B::V), nat), FromHciBytesError> {
        match A::spec_from_hci_bytes(data) {
            Err(e) => Err(e),
            Ok((a, na)) => {
                match B::spec_from_hci_bytes(data.skip(na as int)) {
                    Err(e) => Err(e),
                    Ok((b, nb)) => {
                        Ok(((a, b), na + nb))
                    },
                }
            },
        }
    }

    proof fn lemma_consumed_within(data: Seq<u8>) {
        A::lemma_consumed_within(data);
        if let Ok((_, na)) = A::spec_from_hci_bytes(data) {
            let d1 = data.skip(na as int);
            B::lemma_consumed_within(d1);
            if let Ok((_, nb)) = B::spec_from_hci_bytes(d1) {
            }
        }
    }

    fn from_hci_bytes(data: &'de [u8]) -> (r: Result<((A, B), usize), FromHciBytesError>) {
        let rest: &'de [u8] = data;
        let total: usize = 0;
        let (a, len) = match A::from_hci_bytes(rest) {
            Ok(parsed) => parsed,
            Err(e) => return Err(e),
        };
        proof {
            A::lemma_consumed_within(rest@);
        }
        let total: usize = total + len;
        let ghost na: nat = len as nat;
        let rest: &'de [u8] = rest.split_at(len).1;
        assert(rest@ =~= data@.skip(na as int));
        assert(total == na && total <= data.len() - rest.len());
        let (b, len) = match B::from_hci_bytes(rest) {
            Ok(parsed) => parsed,
            Err(e) => return Err(e),
        };
        proof {
            B::lemma_consumed_within(rest@);
        }
        let total: usize = total + len;
        let ghost nb: nat = len as nat;
        let rest: &'de [u8] = rest.split_at(len).1;
        assert(rest@ =~= data@.skip(na as int).skip(nb as int));
        assert(total == na + nb && total <= data.len() - rest.len());
        Ok(((a, b), total))
    }
}

impl<'de, A: HciRoundTrip<'de>, B: HciRoundTrip<'de>> HciRoundTrip<'de> for (A, B) {
    proof fn lemma_round_trip(&self, rest: Seq<u8>) {
        assert(self.spec_hci_bytes() + rest =~= (self.0.spec_hci_bytes() + (self.1.spec_hci_bytes() + rest)));
        self.0.lemma_round_trip((self.1.spec_hci_bytes() + rest));
        assert((self.0.spec_hci_bytes() + (self.1.spec_hci_bytes() + rest)).skip(self.0.spec_hci_bytes().len() as int) =~= (self.1.spec_hci_bytes() + rest));
        self.1.lemma_round_trip(rest);
        assert((self.1.spec_hci_bytes() + rest).skip(self.1.spec_hci_bytes().len() as int) =~= rest);
    }
}

impl<A: WriteHci, B: WriteHci, C: WriteHci> WriteHci for (A, B, C) {
    open spec fn spec_hci_bytes(&self) -> Seq<u8> {
        self.0.spec_hci_bytes() + self.1.spec_hci_bytes() + self.2.spec_hci_bytes()
    }

    open spec fn spec_size(&self) -> nat {
        self.0.spec_size() + self.1.spec_size() + self.2.spec_size()
    }

    fn size(&self) -> (n: usize) {
        let mut n: usize = 0;
        assert(self.0.spec_size() <= self.spec_size());
        n = n + self.0.size();
        assert(self.0.spec_size() + self.1.spec_size() <= self.spec_size());
        n = n + self.1.size();
        assert(self.0.spec_size() + self.1.spec_size() + self.2.spec_size() <= self.spec_size());
        n = n + self.2.size();
        n
    }

    fn write_hci(&self, out: &mut Vec<u8>) {
        self.0.write_hci(out);
        assert(out@ =~= old(out)@ + (self.0.spec_hci_bytes()));
        self.1.write_hci(out);
        assert(out@ =~= old(out)@ + (self.0.spec_hci_bytes() + self.1.spec_hci_bytes()));
        self.2.write_hci(out);
        assert(out@ =~= old(out)@ + (self.0.spec_hci_bytes() + self.1.spec_hci_bytes() + self.2.spec_hci_bytes()));
    }
}

impl<'de, A: FromHciBytes<'de>, B: FromHciBytes<'de>, C: FromHciBytes<'de>> FromHciBytes<'de> for (A, B, C) {
    open spec fn spec_from_hci_bytes(data: Seq<u8>) -> Result<((A::V, B::V, C::V), nat), FromHciBytesError> {
        match A::spec_from_hci_bytes(data) {
            Err(e) => Err(e),
            Ok((a, na)) => {
                match B::spec_from_hci_bytes(data.skip(na as int)) {
                    Err(e) => Err(e),
                    Ok((b, nb)) => {
                        match C::spec_from_hci_bytes(data.skip(na as int).skip(nb as int)) {
                            Err(e) => Err(e),
                            Ok((c, nc)) => {
                                Ok(((a, b, c), na + nb + nc))
                            },
                        }
                    },
                }
            },
        }
    }

    proof fn lemma_consumed_within(data: Seq<u8>) {
        A::lemma_consumed_within(data);
        if let Ok((_, na)) = A::spec_from_hci_bytes(data) {
            let d1 = data.skip(na as int);
            B::lemma_consumed_within(d1);
            if let Ok((_, nb)) = B::spec_from_hci_bytes(d1) {
                let d2 = d1.skip(nb as int);
                C::lemma_consumed_within(d2);
                if let Ok((_, nc)) = C::spec_from_hci_bytes(d2) {
                }
            }
        }
    }

    fn from_hci_bytes(data: &'de [u8]) -> (r: Result<((A, B, C), usize), FromHciBytesError>) {
        let rest: &'de [u8] = data;
        let total: usize = 0;
        let (a, len) = match A::from_hci_bytes(rest) {
            Ok(parsed) => parsed,
            Err(e) => return Err(e),
        };
        proof {
            A::lemma_consumed_within(rest@);
        }
        let total: usize = total + len;
        let ghost na: nat = len as nat;
        let rest: &'de [u8] = rest.split_at(len).1;
        assert(rest@ =~= data@.skip(na as int));
        assert(total == na && total <= data.len() - rest.len());
        let (b, len) = match B::from_hci_bytes(rest) {
            Ok(parsed) => parsed,
            Err(e) => return Err(e),
        };
        proof {
            B::lemma_consumed_within(rest@);
        }
        let total: usize = total + len;
        let ghost nb: nat = len as nat;
        let rest: &'de [u8] = rest.split_at(len).1;
        assert(rest@ =~= data@.skip(na as int).skip(nb as int));
        assert(total == na + nb && total <= data.len() - rest.len());
        let (c, len) = match C::from_hci_bytes(rest) {
            Ok(parsed) => parsed,
            Err(e) => return Err(e),
        };
        proof {
            C::lemma_consumed_within(rest@);
        }
        let total: usize = total + len;
        let ghost nc: nat = len as nat;
        let rest: &'de [u8] = rest.split_at(len).1;
        assert(rest@ =~= data@.skip(na as int).skip(nb as int).skip(nc as int));
        assert(total == na + nb + nc && total <= data.len() - rest.len());
        Ok(((a, b, c), total))
    }
}

impl<'de, A: HciRoundTrip<'de>, B: HciRoundTrip<'de>, C: HciRoundTrip<'de>> HciRoundTrip<'de> for (A, B, C) {
    proof fn lemma_round_trip(&self, rest: Seq<u8>) {
        assert(self.spec_hci_bytes() + rest =~= (self.0.spec_hci_bytes() + (self.1.spec_hci_bytes() + (self.2.spec_hci_bytes() + rest))));
        self.0.lemma_round_trip((self.1.spec_hci_bytes() + (self.2.spec_hci_bytes() + rest)));
        assert((self.0.spec_hci_bytes() + (self.1.spec_hci_bytes() + (self.2.spec_hci_bytes() + rest))).skip(self.0.spec_hci_bytes().len() as int) =~= (self.1.spec_hci_bytes() + (self.2.spec_hci_bytes() + rest)));
        self.1.lemma_round_trip((self.2.spec_hci_bytes() + rest));
        assert((self.1.spec_hci_bytes() + (self.2.spec_hci_bytes() + rest)).skip(self.1.spec_hci_bytes().len() as int) =~= (self.2.spec_hci_bytes() + rest));
        self.2.lemma_round_trip(rest);
        assert((self.2.spec_hci_bytes() + rest).skip(self.2.spec_hci_bytes().len() as int) =~= rest);
    }
}

impl<A: WriteHci, B: WriteHci, C: WriteHci, D: WriteHci> WriteHci for (A, B, C, D) {
    open spec fn spec_hci_bytes(&self) -> Seq<u8> {
        self.0.spec_hci_bytes() + self.1.spec_hci_bytes() + self.2.spec_hci_bytes() + self.3.spec_hci_bytes()
    }

    open spec fn spec_size(&self) -> nat {
        self.0.spec_size() + self.1.spec_size() + self.2.spec_size() + self.3.spec_size()
    }

    fn size(&self) -> (n: usize) {
        let mut n: usize = 0;
        assert(self.0.spec_size() <= self.spec_size());
        n = n + self.0.size();
        assert(self.0.spec_size() + self.1.spec_size() <= self.spec_size());
        n = n + self.1.size();
        assert(self.0.spec_size() + self.1.spec_size() + self.2.spec_size() <= self.spec_size());
        n = n + self.2.size();
        assert(self.0.spec_size() + self.1.spec_size() + self.2.spec_size() + self.3.spec_size() <= self.spec_size());
        n = n + self.3.size();
        n
    }

    fn write_hci(&self, out: &mut Vec<u8>) {
        self.0.write_hci(out);
        assert(out@ =~= old(out)@ + (self.0.spec_hci_bytes()));
        self.1.write_hci(out);
        assert(out@ =~= old(out)@ + (self.0.spec_hci_bytes() + self.1.spec_hci_bytes()));
        self.2.write_hci(out);
        assert(out@ =~= old(out)@ + (self.0.spec_hci_bytes() + self.1.spec_hci_bytes() + self.2.spec_hci_bytes()));
        self.3.write_hci(out);
        assert(out@ =~= old(out)@ + (self.0.spec_hci_bytes() + self.1.spec_hci_bytes() + self.2.spec_hci_bytes() + self.3.spec_hci_bytes()));
    }
}

impl<'de, A: FromHciBytes<'de>, B: FromHciBytes<'de>, C: FromHciBytes<'de>, D: FromHciBytes<'de>> FromHciBytes<'de> for (A, B, C, D) {
    open spec fn spec_from_hci_bytes(data: Seq<u8>) -> Result<((A::V, B::V, C::V, D::V), nat), FromHciBytesError> {
        match A::spec_from_hci_bytes(data) {
            Err(e) => Err(e),
            Ok((a, na)) => {
                match B::spec_from_hci_bytes(data.skip(na as int)) {
                    Err(e) => Err(e),
                    Ok((b, nb)) => {
                        match C::spec_from_hci_bytes(data.skip(na as int).skip(nb as int)) {
                            Err(e) => Err(e),
                            Ok((c, nc)) => {
                                match D::spec_from_hci_bytes(data.skip(na as int).skip(nb as int).skip(nc as int)) {
                                    Err(e) => Err(e),
                                    Ok((d, nd)) => {
                                        Ok(((a, b, c, d), na + nb + nc + nd))
                                    },
                                }
                            },
                        }
                    },
                }
            },
        }
    }

    proof fn lemma_consumed_within(data: Seq<u8>) {
        A::lemma_consumed_within(data);
        if let Ok((_, na)) = A::spec_from_hci_bytes(data) {
            let d1 = data.skip(na as int);
            B::lemma_consumed_within(d1);
            if let Ok((_, nb)) = B::spec_from_hci_bytes(d1) {
                let d2 = d1.skip(nb as int);
                C::lemma_consumed_within(d2);
                if let Ok((_, nc)) = C::spec_from_hci_bytes(d2) {
                    let d3 = d2.skip(nc as int);
                    D::lemma_consumed_within(d3);
                    if let Ok((_, nd)) = D::spec_from_hci_bytes(d3) {
                    }
                }
            }
        }
    }

    fn from_hci_bytes(data: &'de [u8]) -> (r: Result<((A, B, C, D), usize), FromHciBytesError>) {
        let rest: &'de [u8] = data;
        let total: usize = 0;
        let (a, len) = match A::from_hci_bytes(rest) {
            Ok(parsed) => parsed,
            Err(e) => return Err(e),
        };
        proof {
            A::lemma_consumed_within(rest@);
        }
        let total: usize = total + len;
        let ghost na: nat = len as nat;
        let rest: &'de [u8] = rest.split_at(len).1;
        assert(rest@ =~= data@.skip(na as int));
        assert(total == na && total <= data.len() - rest.len());
        let (b, len) = match B::from_hci_bytes(rest) {
            Ok(parsed) => parsed,
            Err(e) => return Err(e),
        };
        proof {
            B::lemma_consumed_within(rest@);
        }
        let total: usize = total + len;
        let ghost nb: nat = len as nat;
        let rest: &'de [u8] = rest.split_at(len).1;
        assert(rest@ =~= data@.skip(na as int).skip(nb as int));
        assert(total == na + nb && total <= data.len() - rest.len());
        let (c, len) = match C::from_hci_bytes(rest) {
            Ok(parsed) => parsed,
            Err(e) => return Err(e),
        };
        proof {
            C::lemma_consumed_within(rest@);
        }
        let total: usize = total + len;
        let ghost nc: nat = len as nat;
        let rest: &'de [u8] = rest.split_at(len).1;
        assert(rest@ =~= data@.skip(na as int).skip(nb as int).skip(nc as int));
        assert(total == na + nb + nc && total <= data.len() - rest.len());
        let (d, len) = match D::from_hci_bytes(rest) {
            Ok(parsed) => parsed,
            Err(e) => return Err(e),
        };
        proof {
            D::lemma_consumed_within(rest@);
        }
        let total: usize = total + len;
        let ghost nd: nat = len as nat;
        let rest: &'de [u8] = rest.split_at(len).1;
        assert(rest@ =~= data@.skip(na as int).skip(nb as int).skip(nc as int).skip(nd as int));
        assert(total == na + nb + nc + nd && total <= data.len() - rest.len());
        Ok(((a, b, c, d), total))
    }
}

impl<'de, A: HciRoundTrip<'de>, B: HciRoundTrip<'de>, C: HciRoundTrip<'de>, D: HciRoundTrip<'de>> HciRoundTrip<'de> for (A, B, C, D) {
    proof fn lemma_round_trip(&self, rest: Seq<u8>) {
        assert(self.spec_hci_bytes() + rest =~= (self.0.spec_hci_bytes() + (self.1.spec_hci_bytes() + (self.2.spec_hci_bytes() + (self.3.spec_hci_bytes() + rest)))));
        self.0.lemma_round_trip((self.1.spec_hci_bytes() + (self.2.spec_hci_bytes() + (self.3.spec_hci_bytes() + rest))));
        assert((self.0.spec_hci_bytes() + (self.1.spec_hci_bytes() + (self.2.spec_hci_bytes() + (self.3.spec_hci_bytes() + rest)))).skip(self.0.spec_hci_bytes().len() as int) =~= (self.1.spec_hci_bytes() + (self.2.spec_hci_bytes() + (self.3.spec_hci_bytes() + rest))));
        self.1.lemma_round_trip((self.2.spec_hci_bytes() + (self.3.spec_hci_bytes() + rest)));
        assert((self.1.spec_hci_bytes() + (self.2.spec_hci_bytes() + (self.3.spec_hci_bytes() + rest))).skip(self.1.spec_hci_bytes().len() as int) =~= (self.2.spec_hci_bytes() + (self.3.spec_hci_bytes() + rest)));
        self.2.lemma_round_trip((self.3.spec_hci_bytes() + rest));
        assert((self.2.spec_hci_bytes() + (self.3.spec_hci_bytes() + rest)).skip(self.2.spec_hci_bytes().len() as int) =~= (self.3.spec_hci_bytes() + rest));
        self.3.lemma_round_trip(rest);
        assert((self.3.spec_hci_bytes() + rest).skip(self.3.spec_hci_bytes().len() as int) =~= rest);
    }
}

impl<A: WriteHci, B: WriteHci, C: WriteHci, D: WriteHci, E: WriteHci> WriteHci for (A, B, C, D, E) {
    open spec fn spec_hci_bytes(&self) -> Seq<u8> {
        self.0.spec_hci_bytes() + self.1.spec_hci_bytes() + self.2.spec_hci_bytes() + self.3.spec_hci_bytes() + self.4.spec_hci_bytes()
    }

    open spec fn spec_size(&self) -> nat {
        self.0.spec_size() + self.1.spec_size() + self.2.spec_size() + self.3.spec_size() + self.4.spec_size()
    }

    fn size(&self) -> (n: usize) {
        let mut n: usize = 0;
        assert(self.0.spec_size() <= self.spec_size());
        n = n + self.0.size();
        assert(self.0.spec_size() + self.1.spec_size() <= self.spec_size());
        n = n + self.1.size();
        assert(self.0.spec_size() + self.1.spec_size() + self.2.spec_size() <= self.spec_size());
        n = n + self.2.size();
        assert(self.0.spec_size() + self.1.spec_size() + self.2.spec_size() + self.3.spec_size() <= self.spec_size());
        n = n + self.3.size();
        assert(self.0.spec_size() + self.1.spec_size() + self.2.spec_size() + self.3.spec_size() + self.4.spec_size() <= self.spec_size());
        n = n + self.4.size();
        n
    }

    fn write_hci(&self, out: &mut Vec<u8>) {
        self.0.write_hci(out);
        assert(out@ =~= old(out)@ + (self.0.spec_hci_bytes()));
        self.1.write_hci(out);
        assert(out@ =~= old(out)@ + (self.0.spec_hci_bytes() + self.1.spec_hci_bytes()));
        self.2.write_hci(out);
        assert(out@ =~= old(out)@ + (self.0.spec_hci_bytes() + self.1.spec_hci_bytes() + self.2.spec_hci_bytes()));
        self.3.write_hci(out);
        assert(out@ =~= old(out)@ + (self.0.spec_hci_bytes() + self.1.spec_hci_bytes() + self.2.spec_hci_bytes() + self.3.spec_hci_bytes()));
        self.4.write_hci(out);
        assert(out@ =~= old(out)@ + (self.0.spec_hci_bytes() + self.1.spec_hci_bytes() + self.2.spec_hci_bytes() + self.3.spec_hci_bytes() + self.4.spec_hci_bytes()));
    }
}

impl<'de, A: FromHciBytes<'de>, B: FromHciBytes<'de>, C: FromHciBytes<'de>, D: FromHciBytes<'de>, E: FromHciBytes<'de>> FromHciBytes<'de> for (A, B, C, D, E) {
    open spec fn spec_from_hci_bytes(data: Seq<u8>) -> Result<((A::V, B::V, C::V, D::V, E::V), nat), FromHciBytesError> {
        match A::spec_from_hci_bytes(data) {
            Err(e) => Err(e),
            Ok((a, na)) => {
                match B::spec_from_hci_bytes(data.skip(na as int)) {
                    Err(e) => Err(e),
                    Ok((b, nb)) => {
                        match C::spec_from_hci_bytes(data.skip(na as int).skip(nb as int)) {
                            Err(e) => Err(e),
                            Ok((c, nc)) => {
                                match D::spec_from_hci_bytes(data.skip(na as int).skip(nb as int).skip(nc as int)) {
                                    Err(e) => Err(e),
                                    Ok((d, nd)) => {
                                        match E::spec_from_hci_bytes(data.skip(na as int).skip(nb as int).skip(nc as int).skip(nd as int)) {
                                            Err(e) => Err(e),
                                            Ok((e, ne)) => {
                                                Ok(((a, b, c, d, e), na + nb + nc + nd + ne))
                                            },
                                        }
                                    },
                                }
                            },
                        }
                    },
                }
            },
        }
    }

    proof fn lemma_consumed_within(data: Seq<u8>) {
        A::lemma_consumed_within(data);
        if let Ok((_, na)) = A::spec_from_hci_bytes(data) {
            let d1 = data.skip(na as int);
            B::lemma_consumed_within(d1);
            if let Ok((_, nb)) = B::spec_from_hci_bytes(d1) {
                let d2 = d1.skip(nb as int);
                C::lemma_consumed_within(d2);
                if let Ok((_, nc)) = C::spec_from_hci_bytes(d2) {
                    let d3 = d2.skip(nc as int);
                    D::lemma_consumed_within(d3);
                    if let Ok((_, nd)) = D::spec_from_hci_bytes(d3) {
                        let d4 = d3.skip(nd as int);
                        E::lemma_consumed_within(d4);
                        if let Ok((_, ne)) = E::spec_from_hci_bytes(d4) {
                        }
                    }
                }
            }
        }
    }

    fn from_hci_bytes(data: &'de [u8]) -> (r: Result<((A, B, C, D, E), usize), FromHciBytesError>) {
        let rest: &'de [u8] = data;
        let total: usize = 0;
        let (a, len) = match A::from_hci_bytes(rest) {
            Ok(parsed) => parsed,
            Err(e) => return Err(e),
        };
        proof {
            A::lemma_consumed_within(rest@);
        }
        let total: usize = total + len;
        let ghost na: nat = len as nat;
        let rest: &'de [u8] = rest.split_at(len).1;
        assert(rest@ =~= data@.skip(na as int));
        assert(total == na && total <= data.len() - rest.len());
        let (b, len) = match B::from_hci_bytes(rest) {
            Ok(parsed) => parsed,
            Err(e) => return Err(e),
        };
        proof {
            B::lemma_consumed_within(rest@);
        }
        let total: usize = total + len;
        let ghost nb: nat = len as nat;
        let rest: &'de [u8] = rest.split_at(len).1;
        assert(rest@ =~= data@.skip(na as int).skip(nb as int));
        assert(total == na + nb && total <= data.len() - rest.len());
        let (c, len) = match C::from_hci_bytes(rest) {
            Ok(parsed) => parsed,
            Err(e) => return Err(e),
        };
        proof {
            C::lemma_consumed_within(rest@);
        }
        let total: usize = total + len;
        let ghost nc: nat = len as nat;
        let rest: &'de [u8] = rest.split_at(len).1;
        assert(rest@ =~= data@.skip(na as int).skip(nb as int).skip(nc as int));
        assert(total == na + nb + nc && total <= data.len() - rest.len());
        let (d, len) = match D::from_hci_bytes(rest) {
            Ok(parsed) => parsed,
            Err(e) => return Err(e),
        };
        proof {
            D::lemma_consumed_within(rest@);
        }
        let total: usize = total + len;
        let ghost nd: nat = len as nat;
        let rest: &'de [u8] = rest.split_at(len).1;
        assert(rest@ =~= data@.skip(na as int).skip(nb as int).skip(nc as int).skip(nd as int));
        assert(total == na + nb + nc + nd && total <= data.len() - rest.len());
        let (e, len) = match E::from_hci_bytes(rest) {
            Ok(parsed) => parsed,
            Err(e) => return Err(e),
        };
        proof {
            E::lemma_consumed_within(rest@);
        }
        let total: usize = total + len;
        let ghost ne: nat = len as nat;
        let rest: &'de [u8] = rest.split_at(len).1;
        assert(rest@ =~= data@.skip(na as int).skip(nb as int).skip(nc as int).skip(nd as int).skip(ne as int));
        assert(total == na + nb + nc + nd + ne && total <= data.len() - rest.len());
        Ok(((a, b, c, d, e), total))
    }
}

impl<'de, A: HciRoundTrip<'de>, B: HciRoundTrip<'de>, C: HciRoundTrip<'de>, D: HciRoundTrip<'de>, E: HciRoundTrip<'de>> HciRoundTrip<'de> for (A, B, C, D, E) {
    proof fn lemma_round_trip(&self, rest: Seq<u8>) {
        assert(self.spec_hci_bytes() + rest =~= (self.0.spec_hci_bytes() + (self.1.spec_hci_bytes() + (self.2.spec_hci_bytes() + (self.3.spec_hci_bytes() + (self.4.spec_hci_bytes() + rest))))));
        self.0.lemma_round_trip((self.1.spec_hci_bytes() + (self.2.spec_hci_bytes() + (self.3.spec_hci_bytes() + (self.4.spec_hci_bytes() + rest)))));
        assert((self.0.spec_hci_bytes() + (self.1.spec_hci_bytes() + (self.2.spec_hci_bytes() + (self.3.spec_hci_bytes() + (self.4.spec_hci_bytes() + rest))))).skip(self.0.spec_hci_bytes().len() as int) =~= (self.1.spec_hci_bytes() + (self.2.spec_hci_bytes() + (self.3.spec_hci_bytes() + (self.4.spec_hci_bytes() + rest)))));
        self.1.lemma_round_trip((self.2.spec_hci_bytes() + (self.3.spec_hci_bytes() + (self.4.spec_hci_bytes() + rest))));
        assert((self.1.spec_hci_bytes() + (self.2.spec_hci_bytes() + (self.3.spec_hci_bytes() + (self.4.spec_hci_bytes() + rest)))).skip(self.1.spec_hci_bytes().len() as int) =~= (self.2.spec_hci_bytes() + (self.3.spec_hci_bytes() + (self.4.spec_hci_bytes() + rest))));
        self.2.lemma_round_trip((self.3.spec_hci_bytes() + (self.4.spec_hci_bytes() + rest)));
        assert((self.2.spec_hci_bytes() + (self.3.spec_hci_bytes() + (self.4.spec_hci_bytes() + rest))).skip(self.2.spec_hci_bytes().len() as int) =~= (self.3.spec_hci_bytes() + (self.4.spec_hci_bytes() + rest)));
        self.3.lemma_round_trip((self.4.spec_hci_bytes() + rest));
        assert((self.3.spec_hci_bytes() + (self.4.spec_hci_bytes() + rest)).skip(self.3.spec_hci_bytes().len() as int) =~= (self.4.spec_hci_bytes() + rest));
        self.4.lemma_round_trip(rest);
        assert((self.4.spec_hci_bytes() + rest).skip(self.4.spec_hci_bytes().len() as int) =~= rest);
    }
}

impl<A: WriteHci, B: WriteHci, C: WriteHci, D: WriteHci, E: WriteHci, F: WriteHci> WriteHci for (A, B, C, D, E, F) {
    open spec fn spec_hci_bytes(&self) -> Seq<u8> {
        self.0.spec_hci_bytes() + self.1.spec_hci_bytes() + self.2.spec_hci_bytes() + self.3.spec_hci_bytes() + self.4.spec_hci_bytes() + self.5.spec_hci_bytes()
    }

    open spec fn spec_size(&self) -> nat {
        self.0.spec_size() + self.1.spec_size() + self.2.spec_size() + self.3.spec_size() + self.4.spec_size() + self.5.spec_size()
    }

    fn size(&self) -> (n: usize) {
        let mut n: usize = 0;
        assert(self.0.spec_size() <= self.spec_size());
        n = n + self.0.size();
        assert(self.0.spec_size() + self.1.spec_size() <= self.spec_size());
        n = n + self.1.size();
        assert(self.0.spec_size() + self.1.spec_size() + self.2.spec_size() <= self.spec_size());
        n = n + self.2.size();
        assert(self.0.spec_size() + self.1.spec_size() + self.2.spec_size() + self.3.spec_size() <= self.spec_size());
        n = n + self.3.size();
        assert(self.0.spec_size() + self.1.spec_size() + self.2.spec_size() + self.3.spec_size() + self.4.spec_size() <= self.spec_size());
        n = n + self.4.size();
        assert(self.0.spec_size() + self.1.spec_size() + self.2.spec_size() + self.3.spec_size() + self.4.spec_size() + self.5.spec_size() <= self.spec_size());
        n = n + self.5.size();
        n
    }

    fn write_hci(&self, out: &mut Vec<u8>) {
        self.0.write_hci(out);
        assert(out@ =~= old(out)@ + (self.0.spec_hci_bytes()));
        self.1.write_hci(out);
        assert(out@ =~= old(out)@ + (self.0.spec_hci_bytes() + self.1.spec_hci_bytes()));
        self.2.write_hci(out);
        assert(out@ =~= old(out)@ + (self.0.spec_hci_bytes() + self.1.spec_hci_bytes() + self.2.spec_hci_bytes()));
        self.3.write_hci(out);
        assert(out@ =~= old(out)@ + (self.0.spec_hci_bytes() + self.1.spec_hci_bytes() + self.2.spec_hci_bytes() + self.3.spec_hci_bytes()));
        self.4.write_hci(out);
        assert(out@ =~= old(out)@ + (self.0.spec_hci_bytes() + self.1.spec_hci_bytes() + self.2.spec_hci_bytes() + self.3.spec_hci_bytes() + self.4.spec_hci_bytes()));
        self.5.write_hci(out);
        assert(out@ =~= old(out)@ + (self.0.spec_hci_bytes() + self.1.spec_hci_bytes() + self.2.spec_hci_bytes() + self.3.spec_hci_bytes() + self.4.spec_hci_bytes() + self.5.spec_hci_bytes()));
    }
}

impl<'de, A: FromHciBytes<'de>, B: FromHciBytes<'de>, C: FromHciBytes<'de>, D: FromHciBytes<'de>, E: FromHciBytes<'de>, F: FromHciBytes<'de>> FromHciBytes<'de> for (A, B, C, D, E, F) {
    open spec fn spec_from_hci_bytes(data: Seq<u8>) -> Result<((A::V, B::V, C::V, D::V, E::V, F::V), nat), FromHciBytesError> {
        match A::spec_from_hci_bytes(data) {
            Err(e) => Err(e),
            Ok((a, na)) => {
                match B::spec_from_hci_bytes(data.skip(na as int)) {
                    Err(e) => Err(e),
                    Ok((b, nb)) => {
                        match C::spec_from_hci_bytes(data.skip(na as int).skip(nb as int)) {
                            Err(e) => Err(e),
                            Ok((c, nc)) => {
                                match D::spec_from_hci_bytes(data.skip(na as int).skip(nb as int).skip(nc as int)) {
                                    Err(e) => Err(e),
                                    Ok((d, nd)) => {
                                        match E::spec_from_hci_bytes(data.skip(na as int).skip(nb as int).skip(nc as int).skip(nd as int)) {
                                            Err(e) => Err(e),
                                            Ok((e, ne)) => {
                                                match F::spec_from_hci_bytes(data.skip(na as int).skip(nb as int).skip(nc as int).skip(nd as int).skip(ne as int)) {
                                                    Err(e) => Err(e),
                                                    Ok((f, nf)) => {
                                                        Ok(((a, b, c, d, e, f), na + nb + nc + nd + ne + nf))
                                                    },
                                                }
                                            },
                                        }
                                    },
                                }
                            },
                        }
                    },
                }
            },
        }
    }

    proof fn lemma_consumed_within(data: Seq<u8>) {
        A::lemma_consumed_within(data);
        if let Ok((_, na)) = A::spec_from_hci_bytes(data) {
            let d1 = data.skip(na as int);
            B::lemma_consumed_within(d1);
            if let Ok((_, nb)) = B::spec_from_hci_bytes(d1) {
                let d2 = d1.skip(nb as int);
                C::lemma_consumed_within(d2);
                if let Ok((_, nc)) = C::spec_from_hci_bytes(d2) {
                    let d3 = d2.skip(nc as int);
                    D::lemma_consumed_within(d3);
                    if let Ok((_, nd)) = D::spec_from_hci_bytes(d3) {
                        let d4 = d3.skip(nd as int);
                        E::lemma_consumed_within(d4);
                        if let Ok((_, ne)) = E::spec_from_hci_bytes(d4) {
                            let d5 = d4.skip(ne as int);
                            F::lemma_consumed_within(d5);
                            if let Ok((_, nf)) = F::spec_from_hci_bytes(d5) {
                            }
                        }
                    }
                }
            }
        }
    }

    fn from_hci_bytes(data: &'de [u8]) -> (r: Result<((A, B, C, D, E, F), usize), FromHciBytesError>) {
        let rest: &'de [u8] = data;
        let total: usize = 0;
        let (a, len) = match A::from_hci_bytes(rest) {
            Ok(parsed) => parsed,
            Err(e) => return Err(e),
        };
        proof {
            A::lemma_consumed_within(rest@);
        }
        let total: usize = total + len;
        let ghost na: nat = len as nat;
        let rest: &'de [u8] = rest.split_at(len).1;
        assert(rest@ =~= data@.skip(na as int));
        assert(total == na && total <= data.len() - rest.len());
        let (b, len) = match B::from_hci_bytes(rest) {
            Ok(parsed) => parsed,
            Err(e) => return Err(e),
        };
        proof {
            B::lemma_consumed_within(rest@);
        }
        let total: usize = total + len;
        let ghost nb: nat = len as nat;
        let rest: &'de [u8] = rest.split_at(len).1;
        assert(rest@ =~= data@.skip(na as int).skip(nb as int));
        assert(total == na + nb && total <= data.len() - rest.len());
        let (c, len) = match C::from_hci_bytes(rest) {
            Ok(parsed) => parsed,
            Err(e) => return Err(e),
        };
        proof {
            C::lemma_consumed_within(rest@);
        }
        let total: usize = total + len;
        let ghost nc: nat = len as nat;
        let rest: &'de [u8] = rest.split_at(len).1;
        assert(rest@ =~= data@.skip(na as int).skip(nb as int).skip(nc as int));
        assert(total == na + nb + nc && total <= data.len() - rest.len());
        let (d, len) = match D::from_hci_bytes(rest) {
            Ok(parsed) => parsed,
            Err(e) => return Err(e),
        };
        proof {
            D::lemma_consumed_within(rest@);
        }
        let total: usize = total + len;
        let ghost nd: nat = len as nat;
        let rest: &'de [u8] = rest.split_at(len).1;
        assert(rest@ =~= data@.skip(na as int).skip(nb as int).skip(nc as int).skip(nd as int));
        assert(total == na + nb + nc + nd && total <= data.len() - rest.len());
        let (e, len) = match E::from_hci_bytes(rest) {
            Ok(parsed) => parsed,
            Err(e) => return Err(e),
        };
        proof {
            E::lemma_consumed_within(rest@);
        }
        let total: usize = total + len;
        let ghost ne: nat = len as nat;
        let rest: &'de [u8] = rest.split_at(len).1;
        assert(rest@ =~= data@.skip(na as int).skip(nb as int).skip(nc as int).skip(nd as int).skip(ne as int));
        assert(total == na + nb + nc + nd + ne && total <= data.len() - rest.len());
        let (f, len) = match F::from_hci_bytes(rest) {
            Ok(parsed) => parsed,
            Err(e) => return Err(e),
        };
        proof {
            F::lemma_consumed_within(rest@);
        }
        let total: usize = total + len;
        let ghost nf: nat = len as nat;
        let rest: &'de [u8] = rest.split_at(len).1;
        assert(rest@ =~= data@.skip(na as int).skip(nb as int).skip(nc as int).skip(nd as int).skip(ne as int).skip(nf as int));
        assert(total == na + nb + nc + nd + ne + nf && total <= data.len() - rest.len());
        Ok(((a, b, c, d, e, f), total))
    }
}

impl<'de, A: HciRoundTrip<'de>, B: HciRoundTrip<'de>, C: HciRoundTrip<'de>, D: HciRoundTrip<'de>, E: HciRoundTrip<'de>, F: HciRoundTrip<'de>> HciRoundTrip<'de> for (A, B, C, D, E, F) {
    proof fn lemma_round_trip(&self, rest: Seq<u8>) {
        assert(self.spec_hci_bytes() + rest =~= (self.0.spec_hci_bytes() + (self.1.spec_hci_bytes() + (self.2.spec_hci_bytes() + (self.3.spec_hci_bytes() + (self.4.spec_hci_bytes() + (self.5.spec_hci_bytes() + rest)))))));
        self.0.lemma_round_trip((self.1.spec_hci_bytes() + (self.2.spec_hci_bytes() + (self.3.spec_hci_bytes() + (self.4.spec_hci_bytes() + (self.5.spec_hci_bytes() + rest))))));
        assert((self.0.spec_hci_bytes() + (self.1.spec_hci_bytes() + (self.2.spec_hci_bytes() + (self.3.spec_hci_bytes() + (self.4.spec_hci_bytes() + (self.5.spec_hci_bytes() + rest)))))).skip(self.0.spec_hci_bytes().len() as int) =~= (self.1.spec_hci_bytes() + (self.2.spec_hci_bytes() + (self.3.spec_hci_bytes() + (self.4.spec_hci_bytes() + (self.5.spec_hci_bytes() + rest))))));
        self.1.lemma_round_trip((self.2.spec_hci_bytes() + (self.3.spec_hci_bytes() + (self.4.spec_hci_bytes() + (self.5.spec_hci_bytes() + rest)))));
        assert((self.1.spec_hci_bytes() + (self.2.spec_hci_bytes() + (self.3.spec_hci_bytes() + (self.4.spec_hci_bytes() + (self.5.spec_hci_bytes() + rest))))).skip(self.1.spec_hci_bytes().len() as int) =~= (self.2.spec_hci_bytes() + (self.3.spec_hci_bytes() + (self.4.spec_hci_bytes() + (self.5.spec_hci_bytes() + rest)))));
        self.2.lemma_round_trip((self.3.spec_hci_bytes() + (self.4.spec_hci_bytes() + (self.5.spec_hci_bytes() + rest))));
        assert((self.2.spec_hci_bytes() + (self.3.spec_hci_bytes() + (self.4.spec_hci_bytes() + (self.5.spec_hci_bytes() + rest)))).skip(self.2.spec_hci_bytes().len() as int) =~= (self.3.spec_hci_bytes() + (self.4.spec_hci_bytes() + (self.5.spec_hci_bytes() + rest))));
        self.3.lemma_round_trip((self.4.spec_hci_bytes() + (self.5.spec_hci_bytes() + rest)));
        assert((self.3.spec_hci_bytes() + (self.4.spec_hci_bytes() + (self.5.spec_hci_bytes() + rest))).skip(self.3.spec_hci_bytes().len() as int) =~= (self.4.spec_hci_bytes() + (self.5.spec_hci_bytes() + rest)));
        self.4.lemma_round_trip((self.5.spec_hci_bytes() + rest));
        assert((self.4.spec_hci_bytes() + (self.5.spec_hci_bytes() + rest)).skip(self.4.spec_hci_bytes().len() as int) =~= (self.5.spec_hci_bytes() + rest));
        self.5.lemma_round_trip(rest);
        assert((self.5.spec_hci_bytes() + rest).skip(self.5.spec_hci_bytes().len() as int) =~= rest);
    }
}

impl<A: WriteHci, B: WriteHci, C: WriteHci, D: WriteHci, E: WriteHci, F: WriteHci, G: WriteHci> WriteHci for (A, B, C, D, E, F, G) {
    open spec fn spec_hci_bytes(&self) -> Seq<u8> {
        self.0.spec_hci_bytes() + self.1.spec_hci_bytes() + self.2.spec_hci_bytes() + self.3.spec_hci_bytes() + self.4.spec_hci_bytes() + self.5.spec_hci_bytes() + self.6.spec_hci_bytes()
    }

    open spec fn spec_size(&self) -> nat {
        self.0.spec_size() + self.1.spec_size() + self.2.spec_size() + self.3.spec_size() + self.4.spec_size() + self.5.spec_size() + self.6.spec_size()
    }

    fn size(&self) -> (n: usize) {
        let mut n: usize = 0;
        assert(self.0.spec_size() <= self.spec_size());
        n = n + self.0.size();
        assert(self.0.spec_size() + self.1.spec_size() <= self.spec_size());
        n = n + self.1.size();
        assert(self.0.spec_size() + self.1.spec_size() + self.2.spec_size() <= self.spec_size());
        n = n + self.2.size();
        assert(self.0.spec_size() + self.1.spec_size() + self.2.spec_size() + self.3.spec_size() <= self.spec_size());
        n = n + self.3.size();
        assert(self.0.spec_size() + self.1.spec_size() + self.2.spec_size() + self.3.spec_size() + self.4.spec_size() <= self.spec_size());
        n = n + self.4.size();
        assert(self.0.spec_size() + self.1.spec_size() + self.2.spec_size() + self.3.spec_size() + self.4.spec_size() + self.5.spec_size() <= self.spec_size());
        n = n + self.5.size();
        assert(self.0.spec_size() + self.1.spec_size() + self.2.spec_size() + self.3.spec_size() + self.4.spec_size() + self.5.spec_size() + self.6.spec_size() <= self.spec_size());
        n = n + self.6.size();
        n
    }

    fn write_hci(&self, out: &mut Vec<u8>) {
        self.0.write_hci(out);
        assert(out@ =~= old(out)@ + (self.0.spec_hci_bytes()));
        self.1.write_hci(out);
        assert(out@ =~= old(out)@ + (self.0.spec_hci_bytes() + self.1.spec_hci_bytes()));
        self.2.write_hci(out);
        assert(out@ =~= old(out)@ + (self.0.spec_hci_bytes() + self.1.spec_hci_bytes() + self.2.spec_hci_bytes()));
        self.3.write_hci(out);
        assert(out@ =~= old(out)@ + (self.0.spec_hci_bytes() + self.1.spec_hci_bytes() + self.2.spec_hci_bytes() + self.3.spec_hci_bytes()));
        self.4.write_hci(out);
        assert(out@ =~= old(out)@ + (self.0.spec_hci_bytes() + self.1.spec_hci_bytes() + self.2.spec_hci_bytes() + self.3.spec_hci_bytes() + self.4.spec_hci_bytes()));
        self.5.write_hci(out);
        assert(out@ =~= old(out)@ + (self.0.spec_hci_bytes() + self.1.spec_hci_bytes() + self.2.spec_hci_bytes() + self.3.spec_hci_bytes() + self.4.spec_hci_bytes() + self.5.spec_hci_bytes()));
        self.6.write_hci(out);
        assert(out@ =~= old(out)@ + (self.0.spec_hci_bytes() + self.1.spec_hci_bytes() + self.2.spec_hci_bytes() + self.3.spec_hci_bytes() + self.4.spec_hci_bytes() + self.5.spec_hci_bytes() + self.6.spec_hci_bytes()));
    }
}

impl<'de, A: FromHciBytes<'de>, B: FromHciBytes<'de>, C: FromHciBytes<'de>, D: FromHciBytes<'de>, E: FromHciBytes<'de>, F: FromHciBytes<'de>, G: FromHciBytes<'de>> FromHciBytes<'de> for (A, B, C, D, E, F, G) {
    open spec fn spec_from_hci_bytes(data: Seq<u8>) -> Result<((A::V, B::V, C::V, D::V, E::V, F::V, G::V), nat), FromHciBytesError> {
        match A::spec_from_hci_bytes(data) {
            Err(e) => Err(e),
            Ok((a, na)) => {
                match B::spec_from_hci_bytes(data.skip(na as int)) {
                    Err(e) => Err(e),
                    Ok((b, nb)) => {
                        match C::spec_from_hci_bytes(data.skip(na as int).skip(nb as int)) {
                            Err(e) => Err(e),
                            Ok((c, nc)) => {
                                match D::spec_from_hci_bytes(data.skip(na as int).skip(nb as int).skip(nc as int)) {
                                    Err(e) => Err(e),
                                    Ok((d, nd)) => {
                                        match E::spec_from_hci_bytes(data.skip(na as int).skip(nb as int).skip(nc as int).skip(nd as int)) {
                                            Err(e) => Err(e),
                                            Ok((e, ne)) => {
                                                match F::spec_from_hci_bytes(data.skip(na as int).skip(nb as int).skip(nc as int).skip(nd as int).skip(ne as int)) {
                                                    Err(e) => Err(e),
                                                    Ok((f, nf)) => {
                                                        match G::spec_from_hci_bytes(data.skip(na as int).skip(nb as int).skip(nc as int).skip(nd as int).skip(ne as int).skip(nf as int)) {
                                                            Err(e) => Err(e),
                                                            Ok((g, ng)) => {
                                                                Ok(((a, b, c, d, e, f, g), na + nb + nc + nd + ne + nf + ng))
                                                            },
                                                        }
                                                    },
                                                }
                                            },
                                        }
                                    },
                                }
                            },
                        }
                    },
                }
            },
        }
    }

    proof fn lemma_consumed_within(data: Seq<u8>) {
        A::lemma_consumed_within(data);
        if let Ok((_, na)) = A::spec_from_hci_bytes(data) {
            let d1 = data.skip(na as int);
            B::lemma_consumed_within(d1);
            if let Ok((_, nb)) = B::spec_from_hci_bytes(d1) {
                let d2 = d1.skip(nb as int);
                C::lemma_consumed_within(d2);
                if let Ok((_, nc)) = C::spec_from_hci_bytes(d2) {
                    let d3 = d2.skip(nc as int);
                    D::lemma_consumed_within(d3);
                    if let Ok((_, nd)) = D::spec_from_hci_bytes(d3) {
                        let d4 = d3.skip(nd as int);
                        E::lemma_consumed_within(d4);
                        if let Ok((_, ne)) = E::spec_from_hci_bytes(d4) {
                            let d5 = d4.skip(ne as int);
                            F::lemma_consumed_within(d5);
                            if let Ok((_, nf)) = F::spec_from_hci_bytes(d5) {
                                let d6 = d5.skip(nf as int);
                                G::lemma_consumed_within(d6);
                                if let Ok((_, ng)) = G::spec_from_hci_bytes(d6) {
                                }
                            }
                        }
                    }
                }
            }
        }
    }

    fn from_hci_bytes(data: &'de [u8]) -> (r: Result<((A, B, C, D, E, F, G), usize), FromHciBytesError>) {
        let rest: &'de [u8] = data;
        let total: usize = 0;
        let (a, len) = match A::from_hci_bytes(rest) {
            Ok(parsed) => parsed,
            Err(e) => return Err(e),
        };
        proof {
            A::lemma_consumed_within(rest@);
        }
        let total: usize = total + len;
        let ghost na: nat = len as nat;
        let rest: &'de [u8] = rest.split_at(len).1;
        assert(rest@ =~= data@.skip(na as int));
        assert(total == na && total <= data.len() - rest.len());
        let (b, len) = match B::from_hci_bytes(rest) {
            Ok(parsed) => parsed,
            Err(e) => return Err(e),
        };
        proof {
            B::lemma_consumed_within(rest@);
        }
        let total: usize = total + len;
        let ghost nb: nat = len as nat;
        let rest: &'de [u8] = rest.split_at(len).1;
        assert(rest@ =~= data@.skip(na as int).skip(nb as int));
        assert(total == na + nb && total <= data.len() - rest.len());
        let (c, len) = match C::from_hci_bytes(rest) {
            Ok(parsed) => parsed,
            Err(e) => return Err(e),
        };
        proof {
            C::lemma_consumed_within(rest@);
        }
        let total: usize = total + len;
        let ghost nc: nat = len as nat;
        let rest: &'de [u8] = rest.split_at(len).1;
        assert(rest@ =~= data@.skip(na as int).skip(nb as int).skip(nc as int));
        assert(total == na + nb + nc && total <= data.len() - rest.len());
        let (d, len) = match D::from_hci_bytes(rest) {
            Ok(parsed) => parsed,
            Err(e) => return Err(e),
        };
        proof {
            D::lemma_consumed_within(rest@);
        }
        let total: usize = total + len;
        let ghost nd: nat = len as nat;
        let rest: &'de [u8] = rest.split_at(len).1;
        assert(rest@ =~= data@.skip(na as int).skip(nb as int).skip(nc as int).skip(nd as int));
        assert(total == na + nb + nc + nd && total <= data.len() - rest.len());
        let (e, len) = match E::from_hci_bytes(rest) {
            Ok(parsed) => parsed,
            Err(e) => return Err(e),
        };
        proof {
            E::lemma_consumed_within(rest@);
        }
        let total: usize = total + len;
        let ghost ne: nat = len as nat;
        let rest: &'de [u8] = rest.split_at(len).1;
        assert(rest@ =~= data@.skip(na as int).skip(nb as int).skip(nc as int).skip(nd as int).skip(ne as int));
        assert(total == na + nb + nc + nd + ne && total <= data.len() - rest.len());
        let (f, len) = match F::from_hci_bytes(rest) {
            Ok(parsed) => parsed,
            Err(e) => return Err(e),
        };
        proof {
            F::lemma_consumed_within(rest@);
        }
        let total: usize = total + len;
        let ghost nf: nat = len as nat;
        let rest: &'de [u8] = rest.split_at(len).1;
        assert(rest@ =~= data@.skip(na as int).skip(nb as int).skip(nc as int).skip(nd as int).skip(ne as int).skip(nf as int));
        assert(total == na + nb + nc + nd + ne + nf && total <= data.len() - rest.len());
        let (g, len) = match G::from_hci_bytes(rest) {
            Ok(parsed) => parsed,
            Err(e) => return Err(e),
        };
        proof {
            G::lemma_consumed_within(rest@);
        }
        let total: usize = total + len;
        let ghost ng: nat = len as nat;
        let rest: &'de [u8] = rest.split_at(len).1;
        assert(rest@ =~= data@.skip(na as int).skip(nb as int).skip(nc as int).skip(nd as int).skip(ne as int).skip(nf as int).skip(ng as int));
        assert(total == na + nb + nc + nd + ne + nf + ng && total <= data.len() - rest.len());
        Ok(((a, b, c, d, e, f, g), total))
    }
}

impl<'de, A: HciRoundTrip<'de>, B: HciRoundTrip<'de>, C: HciRoundTrip<'de>, D: HciRoundTrip<'de>, E: HciRoundTrip<'de>, F: HciRoundTrip<'de>, G: HciRoundTrip<'de>> HciRoundTrip<'de> for (A, B, C, D, E, F, G) {
    proof fn lemma_round_trip(&self, rest: Seq<u8>) {
        assert(self.spec_hci_bytes() + rest =~= (self.0.spec_hci_bytes() + (self.1.spec_hci_bytes() + (self.2.spec_hci_bytes() + (self.3.spec_hci_bytes() + (self.4.spec_hci_bytes() + (self.5.spec_hci_bytes() + (self.6.spec_hci_bytes() + rest))))))));
        self.0.lemma_round_trip((self.1.spec_hci_bytes() + (self.2.spec_hci_bytes() + (self.3.spec_hci_bytes() + (self.4.spec_hci_bytes() + (self.5.spec_hci_bytes() + (self.6.spec_hci_bytes() + rest)))))));
        assert((self.0.spec_hci_bytes() + (self.1.spec_hci_bytes() + (self.2.spec_hci_bytes() + (self.3.spec_hci_bytes() + (self.4.spec_hci_bytes() + (self.5.spec_hci_bytes() + (self.6.spec_hci_bytes() + rest))))))).skip(self.0.spec_hci_bytes().len() as int) =~= (self.1.spec_hci_bytes() + (self.2.spec_hci_bytes() + (self.3.spec_hci_bytes() + (self.4.spec_hci_bytes() + (self.5.spec_hci_bytes() + (self.6.spec_hci_bytes() + rest)))))));
        self.1.lemma_round_trip((self.2.spec_hci_bytes() + (self.3.spec_hci_bytes() + (self.4.spec_hci_bytes() + (self.5.spec_hci_bytes() + (self.6.spec_hci_bytes() + rest))))));
        assert((self.1.spec_hci_bytes() + (self.2.spec_hci_bytes() + (self.3.spec_hci_bytes() + (self.4.spec_hci_bytes() + (self.5.spec_hci_bytes() + (self.6.spec_hci_bytes() + rest)))))).skip(self.1.spec_hci_bytes().len() as int) =~= (self.2.spec_hci_bytes() + (self.3.spec_hci_bytes() + (self.4.spec_hci_bytes() + (self.5.spec_hci_bytes() + (self.6.spec_hci_bytes() + rest))))));
        self.2.lemma_round_trip((self.3.spec_hci_bytes() + (self.4.spec_hci_bytes() + (self.5.spec_hci_bytes() + (self.6.spec_hci_bytes() + rest)))));
        assert((self.2.spec_hci_bytes() + (self.3.spec_hci_bytes() + (self.4.spec_hci_bytes() + (self.5.spec_hci_bytes() + (self.6.spec_hci_bytes() + rest))))).skip(self.2.spec_hci_bytes().len() as int) =~= (self.3.spec_hci_bytes() + (self.4.spec_hci_bytes() + (self.5.spec_hci_bytes() + (self.6.spec_hci_bytes() + rest)))));
        self.3.lemma_round_trip((self.4.spec_hci_bytes() + (self.5.spec_hci_bytes() + (self.6.spec_hci_bytes() + rest))));
        assert((self.3.spec_hci_bytes() + (self.4.spec_hci_bytes() + (self.5.spec_hci_bytes() + (self.6.spec_hci_bytes() + rest)))).skip(self.3.spec_hci_bytes().len() as int) =~= (self.4.spec_hci_bytes() + (self.5.spec_hci_bytes() + (self.6.spec_hci_bytes() + rest))));
        self.4.lemma_round_trip((self.5.spec_hci_bytes() + (self.6.spec_hci_bytes() + rest)));
        assert((self.4.spec_hci_bytes() + (self.5.spec_hci_bytes() + (self.6.spec_hci_bytes() + rest))).skip(self.4.spec_hci_bytes().len() as int) =~= (self.5.spec_hci_bytes() + (self.6.spec_hci_bytes() + rest)));
        self.5.lemma_round_trip((self.6.spec_hci_bytes() + rest));
        assert((self.5.spec_hci_bytes() + (self.6.spec_hci_bytes() + rest)).skip(self.5.spec_hci_bytes().len() as int) =~= (self.6.spec_hci_bytes() + rest));
        self.6.lemma_round_trip(rest);
        assert((self.6.spec_hci_bytes() + rest).skip(self.6.spec_hci_bytes().len() as int) =~= rest);
    }
}

impl<A: WriteHci, B: WriteHci, C: WriteHci, D: WriteHci, E: WriteHci, F: WriteHci, G: WriteHci, H: WriteHci> WriteHci for (A, B, C, D, E, F, G, H) {
    open spec fn spec_hci_bytes(&self) -> Seq<u8> {
        self.0.spec_hci_bytes() + self.1.spec_hci_bytes() + self.2.spec_hci_bytes() + self.3.spec_hci_bytes() + self.4.spec_hci_bytes() + self.5.spec_hci_bytes() + self.6.spec_hci_bytes() + self.7.spec_hci_bytes()
    }

    open spec fn spec_size(&self) -> nat {
        self.0.spec_size() + self.1.spec_size() + self.2.spec_size() + self.3.spec_size() + self.4.spec_size() + self.5.spec_size() + self.6.spec_size() + self.7.spec_size()
    }

    fn size(&self) -> (n: usize) {
        let mut n: usize = 0;
        assert(self.0.spec_size() <= self.spec_size());
        n = n + self.0.size();
        assert(self.0.spec_size() + self.1.spec_size() <= self.spec_size());
        n = n + self.1.size();
        assert(self.0.spec_size() + self.1.spec_size() + self.2.spec_size() <= self.spec_size());
        n = n + self.2.size();
        assert(self.0.spec_size() + self.1.spec_size() + self.2.spec_size() + self.3.spec_size() <= self.spec_size());
        n = n + self.3.size();
        assert(self.0.spec_size() + self.1.spec_size() + self.2.spec_size() + self.3.spec_size() + self.4.spec_size() <= self.spec_size());
        n = n + self.4.size();
        assert(self.0.spec_size() + self.1.spec_size() + self.2.spec_size() + self.3.spec_size() + self.4.spec_size() + self.5.spec_size() <= self.spec_size());
        n = n + self.5.size();
        assert(self.0.spec_size() + self.1.spec_size() + self.2.spec_size() + self.3.spec_size() + self.4.spec_size() + self.5.spec_size() + self.6.spec_size() <= self.spec_size());
        n = n + self.6.size();
        assert(self.0.spec_size() + self.1.spec_size() + self.2.spec_size() + self.3.spec_size() + self.4.spec_size() + self.5.spec_size() + self.6.spec_size() + self.7.spec_size() <= self.spec_size());
        n = n + self.7.size();
        n
    }

    fn write_hci(&self, out: &mut Vec<u8>) {
        self.0.write_hci(out);
        assert(out@ =~= old(out)@ + (self.0.spec_hci_bytes()));
        self.1.write_hci(out);
        assert(out@ =~= old(out)@ + (self.0.spec_hci_bytes() + self.1.spec_hci_bytes()));
        self.2.write_hci(out);
        assert(out@ =~= old(out)@ + (self.0.spec_hci_bytes() + self.1.spec_hci_bytes() + self.2.spec_hci_bytes()));
        self.3.write_hci(out);
        assert(out@ =~= old(out)@ + (self.0.spec_hci_bytes() + self.1.spec_hci_bytes() + self.2.spec_hci_bytes() + self.3.spec_hci_bytes()));
        self.4.write_hci(out);
        assert(out@ =~= old(out)@ + (self.0.spec_hci_bytes() + self.1.spec_hci_bytes() + self.2.spec_hci_bytes() + self.3.spec_hci_bytes() + self.4.spec_hci_bytes()));
        self.5.write_hci(out);
        assert(out@ =~= old(out)@ + (self.0.spec_hci_bytes() + self.1.spec_hci_bytes() + self.2.spec_hci_bytes() + self.3.spec_hci_bytes() + self.4.spec_hci_bytes() + self.5.spec_hci_bytes()));
        self.6.write_hci(out);
        assert(out@ =~= old(out)@ + (self.0.spec_hci_bytes() + self.1.spec_hci_bytes() + self.2.spec_hci_bytes() + self.3.spec_hci_bytes() + self.4.spec_hci_bytes() + self.5.spec_hci_bytes() + self.6.spec_hci_bytes()));
        self.7.write_hci(out);
        assert(out@ =~= old(out)@ + (self.0.spec_hci_bytes() + self.1.spec_hci_bytes() + self.2.spec_hci_bytes() + self.3.spec_hci_bytes() + self.4.spec_hci_bytes() + self.5.spec_hci_bytes() + self.6.spec_hci_bytes() + self.7.spec_hci_bytes()));
    }
}

impl<'de, A: FromHciBytes<'de>, B: FromHciBytes<'de>, C: FromHciBytes<'de>, D: FromHciBytes<'de>, E: FromHciBytes<'de>, F: FromHciBytes<'de>, G: FromHciBytes<'de>, H: FromHciBytes<'de>> FromHciBytes<'de> for (A, B, C, D, E, F, G, H) {
    open spec fn spec_from_hci_bytes(data: Seq<u8>) -> Result<((A::V, B::V, C::V, D::V, E::V, F::V, G::V, H::V), nat), FromHciBytesError> {
        match A::spec_from_hci_bytes(data) {
            Err(e) => Err(e),
            Ok((a, na)) => {
                match B::spec_from_hci_bytes(data.skip(na as int)) {
                    Err(e) => Err(e),
                    Ok((b, nb)) => {
                        match C::spec_from_hci_bytes(data.skip(na as int).skip(nb as int)) {
                            Err(e) => Err(e),
                            Ok((c, nc)) => {
                                match D::spec_from_hci_bytes(data.skip(na as int).skip(nb as int).skip(nc as int)) {
                                    Err(e) => Err(e),
                                    Ok((d, nd)) => {
                                        match E::spec_from_hci_bytes(data.skip(na as int).skip(nb as int).skip(nc as int).skip(nd as int)) {
                                            Err(e) => Err(e),
                                            Ok((e, ne)) => {
                                                match F::spec_from_hci_bytes(data.skip(na as int).skip(nb as int).skip(nc as int).skip(nd as int).skip(ne as int)) {
                                                    Err(e) => Err(e),
                                                    Ok((f, nf)) => {
                                                        match G::spec_from_hci_bytes(data.skip(na as int).skip(nb as int).skip(nc as int).skip(nd as int).skip(ne as int).skip(nf as int)) {
                                                            Err(e) => Err(e),
                                                            Ok((g, ng)) => {
                                                                match H::spec_from_hci_bytes(data.skip(na as int).skip(nb as int).skip(nc as int).skip(nd as int).skip(ne as int).skip(nf as int).skip(ng as int)) {
                                                                    Err(e) => Err(e),
                                                                    Ok((h, nh)) => {
                                                                        Ok(((a, b, c, d, e, f, g, h), na + nb + nc + nd + ne + nf + ng + nh))
                                                                    },
                                                                }
                                                            },
                                                        }
                                                    },
                                                }
                                            },
                                        }
                                    },
                                }
                            },
                        }
                    },
                }
            },
        }
    }

    proof fn lemma_consumed_within(data: Seq<u8>) {
        A::lemma_consumed_within(data);
        if let Ok((_, na)) = A::spec_from_hci_bytes(data) {
            let d1 = data.skip(na as int);
            B::lemma_consumed_within(d1);
            if let Ok((_, nb)) = B::spec_from_hci_bytes(d1) {
                let d2 = d1.skip(nb as int);
                C::lemma_consumed_within(d2);
                if let Ok((_, nc)) = C::spec_from_hci_bytes(d2) {
                    let d3 = d2.skip(nc as int);
                    D::lemma_consumed_within(d3);
                    if let Ok((_, nd)) = D::spec_from_hci_bytes(d3) {
                        let d4 = d3.skip(nd as int);
                        E::lemma_consumed_within(d4);
                        if let Ok((_, ne)) = E::spec_from_hci_bytes(d4) {
                            let d5 = d4.skip(ne as int);
                            F::lemma_consumed_within(d5);
                            if let Ok((_, nf)) = F::spec_from_hci_bytes(d5) {
                                let d6 = d5.skip(nf as int);
                                G::lemma_consumed_within(d6);
                                if let Ok((_, ng)) = G::spec_from_hci_bytes(d6) {
                                    let d7 = d6.skip(ng as int);
                                    H::lemma_consumed_within(d7);
                                    if let Ok((_, nh)) = H::spec_from_hci_bytes(d7) {
                                    }
                                }
                            }
                        }
                    }
                }
            }
        }
    }

    fn from_hci_bytes(data: &'de [u8]) -> (r: Result<((A, B, C, D, E, F, G, H), usize), FromHciBytesError>) {
        let rest: &'de [u8] = data;
        let total: usize = 0;
        let (a, len) = match A::from_hci_bytes(rest) {
            Ok(parsed) => parsed,
            Err(e) => return Err(e),
        };
        proof {
            A::lemma_consumed_within(rest@);
        }
        let total: usize = total + len;
        let ghost na: nat = len as nat;
        let rest: &'de [u8] = rest.split_at(len).1;
        assert(rest@ =~= data@.skip(na as int));
        assert(total == na && total <= data.len() - rest.len());
        let (b, len) = match B::from_hci_bytes(rest) {
            Ok(parsed) => parsed,
            Err(e) => return Err(e),
        };
        proof {
            B::lemma_consumed_within(rest@);
        }
        let total: usize = total + len;
        let ghost nb: nat = len as nat;
        let rest: &'de [u8] = rest.split_at(len).1;
        assert(rest@ =~= data@.skip(na as int).skip(nb as int));
        assert(total == na + nb && total <= data.len() - rest.len());
        let (c, len) = match C::from_hci_bytes(rest) {
            Ok(parsed) => parsed,
            Err(e) => return Err(e),
        };
        proof {
            C::lemma_consumed_within(rest@);
        }
        let total: usize = total + len;
        let ghost nc: nat = len as nat;
        let rest: &'de [u8] = rest.split_at(len).1;
        assert(rest@ =~= data@.skip(na as int).skip(nb as int).skip(nc as int));
        assert(total == na + nb + nc && total <= data.len() - rest.len());
        let (d, len) = match D::from_hci_bytes(rest) {
            Ok(parsed) => parsed,
            Err(e) => return Err(e),
        };
        proof {
            D::lemma_consumed_within(rest@);
        }
        let total: usize = total + len;
        let ghost nd: nat = len as nat;
        let rest: &'de [u8] = rest.split_at(len).1;
        assert(rest@ =~= data@.skip(na as int).skip(nb as int).skip(nc as int).skip(nd as int));
        assert(total == na + nb + nc + nd && total <= data.len() - rest.len());
        let (e, len) = match E::from_hci_bytes(rest) {
            Ok(parsed) => parsed,
            Err(e) => return Err(e),
        };
        proof {
            E::lemma_consumed_within(rest@);
        }
        let total: usize = total + len;
        let ghost ne: nat = len as nat;
        let rest: &'de [u8] = rest.split_at(len).1;
        assert(rest@ =~= data@.skip(na as int).skip(nb as int).skip(nc as int).skip(nd as int).skip(ne as int));
        assert(total == na + nb + nc + nd + ne && total <= data.len() - rest.len());
        let (f, len) = match F::from_hci_bytes(rest) {
            Ok(parsed) => parsed,
            Err(e) => return Err(e),
        };
        proof {
            F::lemma_consumed_within(rest@);
        }
        let total: usize = total + len;
        let ghost nf: nat = len as nat;
        let rest: &'de [u8] = rest.split_at(len).1;
        assert(rest@ =~= data@.skip(na as int).skip(nb as int).skip(nc as int).skip(nd as int).skip(ne as int).skip(nf as int));
        assert(total == na + nb + nc + nd + ne + nf && total <= data.len() - rest.len());
        let (g, len) = match G::from_hci_bytes(rest) {
            Ok(parsed) => parsed,
            Err(e) => return Err(e),
        };
        proof {
            G::lemma_consumed_within(rest@);
        }
        let total: usize = total + len;
        let ghost ng: nat = len as nat;
        let rest: &'de [u8] = rest.split_at(len).1;
        assert(rest@ =~= data@.skip(na as int).skip(nb as int).skip(nc as int).skip(nd as int).skip(ne as int).skip(nf as int).skip(ng as int));
        assert(total == na + nb + nc + nd + ne + nf + ng && total <= data.len() - rest.len());
        let (h, len) = match H::from_hci_bytes(rest) {
            Ok(parsed) => parsed,
            Err(e) => return Err(e),
        };
        proof {
            H::lemma_consumed_within(rest@);
        }
        let total: usize = total + len;
        let ghost nh: nat = len as nat;
        let rest: &'de [u8] = rest.split_at(len).1;
        assert(rest@ =~= data@.skip(na as int).skip(nb as int).skip(nc as int).skip(nd as int).skip(ne as int).skip(nf as int).skip(ng as int).skip(nh as int));
        assert(total == na + nb + nc + nd + ne + nf + ng + nh && total <= data.len() - rest.len());
        Ok(((a, b, c, d, e, f, g, h), total))
    }
}

impl<'de, A: HciRoundTrip<'de>, B: HciRoundTrip<'de>, C: HciRoundTrip<'de>, D: HciRoundTrip<'de>, E: HciRoundTrip<'de>, F: HciRoundTrip<'de>, G: HciRoundTrip<'de>, H: HciRoundTrip<'de>> HciRoundTrip<'de> for (A, B, C, D, E, F, G, H) {
    proof fn lemma_round_trip(&self, rest: Seq<u8>) {
        assert(self.spec_hci_bytes() + rest =~= (self.0.spec_hci_bytes() + (self.1.spec_hci_bytes() + (self.2.spec_hci_bytes() + (self.3.spec_hci_bytes() + (self.4.spec_hci_bytes() + (self.5.spec_hci_bytes() + (self.6.spec_hci_bytes() + (self.7.spec_hci_bytes() + rest)))))))));
        self.0.lemma_round_trip((self.1.spec_hci_bytes() + (self.2.spec_hci_bytes() + (self.3.spec_hci_bytes() + (self.4.spec_hci_bytes() + (self.5.spec_hci_bytes() + (self.6.spec_hci_bytes() + (self.7.spec_hci_bytes() + rest))))))));
        assert((self.0.spec_hci_bytes() + (self.1.spec_hci_bytes() + (self.2.spec_hci_bytes() + (self.3.spec_hci_bytes() + (self.4.spec_hci_bytes() + (self.5.spec_hci_bytes() + (self.6.spec_hci_bytes() + (self.7.spec_hci_bytes() + rest)))))))).skip(self.0.spec_hci_bytes().len() as int) =~= (self.1.spec_hci_bytes() + (self.2.spec_hci_bytes() + (self.3.spec_hci_bytes() + (self.4.spec_hci_bytes() + (self.5.spec_hci_bytes() + (self.6.spec_hci_bytes() + (self.7.spec_hci_bytes() + rest))))))));
        self.1.lemma_round_trip((self.2.spec_hci_bytes() + (self.3.spec_hci_bytes() + (self.4.spec_hci_bytes() + (self.5.spec_hci_bytes() + (self.6.spec_hci_bytes() + (self.7.spec_hci_bytes() + rest)))))));
        assert((self.1.spec_hci_bytes() + (self.2.spec_hci_bytes() + (self.3.spec_hci_bytes() + (self.4.spec_hci_bytes() + (self.5.spec_hci_bytes() + (self.6.spec_hci_bytes() + (self.7.spec_hci_bytes() + rest))))))).skip(self.1.spec_hci_bytes().len() as int) =~= (self.2.spec_hci_bytes() + (self.3.spec_hci_bytes() + (self.4.spec_hci_bytes() + (self.5.spec_hci_bytes() + (self.6.spec_hci_bytes() + (self.7.spec_hci_bytes() + rest)))))));
        self.2.lemma_round_trip((self.3.spec_hci_bytes() + (self.4.spec_hci_bytes() + (self.5.spec_hci_bytes() + (self.6.spec_hci_bytes() + (self.7.spec_hci_bytes() + rest))))));
        assert((self.2.spec_hci_bytes() + (self.3.spec_hci_bytes() + (self.4.spec_hci_bytes() + (self.5.spec_hci_bytes() + (self.6.spec_hci_bytes() + (self.7.spec_hci_bytes() + rest)))))).skip(self.2.spec_hci_bytes().len() as int) =~= (self.3.spec_hci_bytes() + (self.4.spec_hci_bytes() + (self.5.spec_hci_bytes() + (self.6.spec_hci_bytes() + (self.7.spec_hci_bytes() + rest))))));
        self.3.lemma_round_trip((self.4.spec_hci_bytes() + (self.5.spec_hci_bytes() + (self.6.spec_hci_bytes() + (self.7.spec_hci_bytes() + rest)))));
        assert((self.3.spec_hci_bytes() + (self.4.spec_hci_bytes() + (self.5.spec_hci_bytes() + (self.6.spec_hci_bytes() + (self.7.spec_hci_bytes() + rest))))).skip(self.3.spec_hci_bytes().len() as int) =~= (self.4.spec_hci_bytes() + (self.5.spec_hci_bytes() + (self.6.spec_hci_bytes() + (self.7.spec_hci_bytes() + rest)))));
        self.4.lemma_round_trip((self.5.spec_hci_bytes() + (self.6.spec_hci_bytes() + (self.7.spec_hci_bytes() + rest))));
        assert((self.4.spec_hci_bytes() + (self.5.spec_hci_bytes() + (self.6.spec_hci_bytes() + (self.7.spec_hci_bytes() + rest)))).skip(self.4.spec_hci_bytes().len() as int) =~= (self.5.spec_hci_bytes() + (self.6.spec_hci_bytes() + (self.7.spec_hci_bytes() + rest))));
        self.5.lemma_round_trip((self.6.spec_hci_bytes() + (self.7.spec_hci_bytes() + rest)));
        assert((self.5.spec_hci_bytes() + (self.6.spec_hci_bytes() + (self.7.spec_hci_bytes() + rest))).skip(self.5.spec_hci_bytes().len() as int) =~= (self.6.spec_hci_bytes() + (self.7.spec_hci_bytes() + rest)));
        self.6.lemma_round_trip((self.7.spec_hci_bytes() + rest));
        assert((self.6.spec_hci_bytes() + (self.7.spec_hci_bytes() + rest)).skip(self.6.spec_hci_bytes().len() as int) =~= (self.7.spec_hci_bytes() + rest));
        self.7.lemma_round_trip(rest);
        assert((self.7.spec_hci_bytes() + rest).skip(self.7.spec_hci_bytes().len() as int) =~= rest);
    }
}

impl<A: WriteHci, B: WriteHci, C: WriteHci, D: WriteHci, E: WriteHci, F: WriteHci, G: WriteHci, H: WriteHci, I: WriteHci> WriteHci for (A, B, C, D, E, F, G, H, I) {
    open spec fn spec_hci_bytes(&self) -> Seq<u8> {
        self.0.spec_hci_bytes() + self.1.spec_hci_bytes() + self.2.spec_hci_bytes() + self.3.spec_hci_bytes() + self.4.spec_hci_bytes() + self.5.spec_hci_bytes() + self.6.spec_hci_bytes() + self.7.spec_hci_bytes() + self.8.spec_hci_bytes()
    }

    open spec fn spec_size(&self) -> nat {
        self.0.spec_size() + self.1.spec_size() + self.2.spec_size() + self.3.spec_size() + self.4.spec_size() + self.5.spec_size() + self.6.spec_size() + self.7.spec_size() + self.8.spec_size()
    }

    fn size(&self) -> (n: usize) {
        let mut n: usize = 0;
        assert(self.0.spec_size() <= self.spec_size());
        n = n + self.0.size();
        assert(self.0.spec_size() + self.1.spec_size() <= self.spec_size());
        n = n + self.1.size();
        assert(self.0.spec_size() + self.1.spec_size() + self.2.spec_size() <= self.spec_size());
        n = n + self.2.size();
        assert(self.0.spec_size() + self.1.spec_size() + self.2.spec_size() + self.3.spec_size() <= self.spec_size());
        n = n + self.3.size();
        assert(self.0.spec_size() + self.1.spec_size() + self.2.spec_size() + self.3.spec_size() + self.4.spec_size() <= self.spec_size());
        n = n + self.4.size();
        assert(self.0.spec_size() + self.1.spec_size() + self.2.spec_size() + self.3.spec_size() + self.4.spec_size() + self.5.spec_size() <= self.spec_size());
        n = n + self.5.size();
        assert(self.0.spec_size() + self.1.spec_size() + self.2.spec_size() + self.3.spec_size() + self.4.spec_size() + self.5.spec_size() + self.6.spec_size() <= self.spec_size());
        n = n + self.6.size();
        assert(self.0.spec_size() + self.1.spec_size() + self.2.spec_size() + self.3.spec_size() + self.4.spec_size() + self.5.spec_size() + self.6.spec_size() + self.7.spec_size() <= self.spec_size());
        n = n + self.7.size();
        assert(self.0.spec_size() + self.1.spec_size() + self.2.spec_size() + self.3.spec_size() + self.4.spec_size() + self.5.spec_size() + self.6.spec_size() + self.7.spec_size() + self.8.spec_size() <= self.spec_size());
        n = n + self.8.size();
        n
    }

    fn write_hci(&self, out: &mut Vec<u8>) {
        self.0.write_hci(out);
        assert(out@ =~= old(out)@ + (self.0.spec_hci_bytes()));
        self.1.write_hci(out);
        assert(out@ =~= old(out)@ + (self.0.spec_hci_bytes() + self.1.spec_hci_bytes()));
        self.2.write_hci(out);
        assert(out@ =~= old(out)@ + (self.0.spec_hci_bytes() + self.1.spec_hci_bytes() + self.2.spec_hci_bytes()));
        self.3.write_hci(out);
        assert(out@ =~= old(out)@ + (self.0.spec_hci_bytes() + self.1.spec_hci_bytes() + self.2.spec_hci_bytes() + self.3.spec_hci_bytes()));
        self.4.write_hci(out);
        assert(out@ =~= old(out)@ + (self.0.spec_hci_bytes() + self.1.spec_hci_bytes() + self.2.spec_hci_bytes() + self.3.spec_hci_bytes() + self.4.spec_hci_bytes()));
        self.5.write_hci(out);
        assert(out@ =~= old(out)@ + (self.0.spec_hci_bytes() + self.1.spec_hci_bytes() + self.2.spec_hci_bytes() + self.3.spec_hci_bytes() + self.4.spec_hci_bytes() + self.5.spec_hci_bytes()));
        self.6.write_hci(out);
        assert(out@ =~= old(out)@ + (self.0.spec_hci_bytes() + self.1.spec_hci_bytes() + self.2.spec_hci_bytes() + self.3.spec_hci_bytes() + self.4.spec_hci_bytes() + self.5.spec_hci_bytes() + self.6.spec_hci_bytes()));
        self.7.write_hci(out);
        assert(out@ =~= old(out)@ + (self.0.spec_hci_bytes() + self.1.spec_hci_bytes() + self.2.spec_hci_bytes() + self.3.spec_hci_bytes() + self.4.spec_hci_bytes() + self.5.spec_hci_bytes() + self.6.spec_hci_bytes() + self.7.spec_hci_bytes()));
        self.8.write_hci(out);
        assert(out@ =~= old(out)@ + (self.0.spec_hci_bytes() + self.1.spec_hci_bytes() + self.2.spec_hci_bytes() + self.3.spec_hci_bytes() + self.4.spec_hci_bytes() + self.5.spec_hci_bytes() + self.6.spec_hci_bytes() + self.7.spec_hci_bytes() + self.8.spec_hci_bytes()));
    }
}

impl<'de, A: FromHciBytes<'de>, B: FromHciBytes<'de>, C: FromHciBytes<'de>, D: FromHciBytes<'de>, E: FromHciBytes<'de>, F: FromHciBytes<'de>, G: FromHciBytes<'de>, H: FromHciBytes<'de>, I: FromHciBytes<'de>> FromHciBytes<'de> for (A, B, C, D, E, F, G, H, I) {
    open spec fn spec_from_hci_bytes(data: Seq<u8>) -> Result<((A::V, B::V, C::V, D::V, E::V, F::V, G::V, H::V, I::V), nat), FromHciBytesError> {
        match A::spec_from_hci_bytes(data) {
            Err(e) => Err(e),
            Ok((a, na)) => {
                match B::spec_from_hci_bytes(data.skip(na as int)) {
                    Err(e) => Err(e),
                    Ok((b, nb)) => {
                        match C::spec_from_hci_bytes(data.skip(na as int).skip(nb as int)) {
                            Err(e) => Err(e),
                            Ok((c, nc)) => {
                                match D::spec_from_hci_bytes(data.skip(na as int).skip(nb as int).skip(nc as int)) {
                                    Err(e) => Err(e),
                                    Ok((d, nd)) => {
                                        match E::spec_from_hci_bytes(data.skip(na as int).skip(nb as int).skip(nc as int).skip(nd as int)) {
                                            Err(e) => Err(e),
                                            Ok((e, ne)) => {
                                                match F::spec_from_hci_bytes(data.skip(na as int).skip(nb as int).skip(nc as int).skip(nd as int).skip(ne as int)) {
                                                    Err(e) => Err(e),
                                                    Ok((f, nf)) => {
                                                        match G::spec_from_hci_bytes(data.skip(na as int).skip(nb as int).skip(nc as int).skip(nd as int).skip(ne as int).skip(nf as int)) {
                                                            Err(e) => Err(e),
                                                            Ok((g, ng)) => {
                                                                match H::spec_from_hci_bytes(data.skip(na as int).skip(nb as int).skip(nc as int).skip(nd as int).skip(ne as int).skip(nf as int).skip(ng as int)) {
                                                                    Err(e) => Err(e),
                                                                    Ok((h, nh)) => {
                                                                        match I::spec_from_hci_bytes(data.skip(na as int).skip(nb as int).skip(nc as int).skip(nd as int).skip(ne as int).skip(nf as int).skip(ng as int).skip(nh as int)) {
                                                                            Err(e) => Err(e),
                                                                            Ok((i, ni)) => {
                                                                                Ok(((a, b, c, d, e, f, g, h, i), na + nb + nc + nd + ne + nf + ng + nh + ni))
                                                                            },
                                                                        }
                                                                    },
                                                                }
                                                            },
                                                        }
                                                    },
                                                }
                                            },
                                        }
                                    },
                                }
                            },
                        }
                    },
                }
            },
        }
    }

    proof fn lemma_consumed_within(data: Seq<u8>) {
        A::lemma_consumed_within(data);
        if let Ok((_, na)) = A::spec_from_hci_bytes(data) {
            let d1 = data.skip(na as int);
            B::lemma_consumed_within(d1);
            if let Ok((_, nb)) = B::spec_from_hci_bytes(d1) {
                let d2 = d1.skip(nb as int);
                C::lemma_consumed_within(d2);
                if let Ok((_, nc)) = C::spec_from_hci_bytes(d2) {
                    let d3 = d2.skip(nc as int);
                    D::lemma_consumed_within(d3);
                    if let Ok((_, nd)) = D::spec_from_hci_bytes(d3) {
                        let d4 = d3.skip(nd as int);
                        E::lemma_consumed_within(d4);
                        if let Ok((_, ne)) = E::spec_from_hci_bytes(d4) {
                            let d5 = d4.skip(ne as int);
                            F::lemma_consumed_within(d5);
                            if let Ok((_, nf)) = F::spec_from_hci_bytes(d5) {
                                let d6 = d5.skip(nf as int);
                                G::lemma_consumed_within(d6);
                                if let Ok((_, ng)) = G::spec_from_hci_bytes(d6) {
                                    let d7 = d6.skip(ng as int);
                                    H::lemma_consumed_within(d7);
                                    if let Ok((_, nh)) = H::spec_from_hci_bytes(d7) {
                                        let d8 = d7.skip(nh as int);
                                        I::lemma_consumed_within(d8);
                                        if let Ok((_, ni)) = I::spec_from_hci_bytes(d8) {
                                        }
                                    }
                                }
                            }
                        }
                    }
                }
            }
        }
    }

    fn from_hci_bytes(data: &'de [u8]) -> (r: Result<((A, B, C, D, E, F, G, H, I), usize), FromHciBytesError>) {
        let rest: &'de [u8] = data;
        let total: usize = 0;
        let (a, len) = match A::from_hci_bytes(rest) {
            Ok(parsed) => parsed,
            Err(e) => return Err(e),
        };
        proof {
            A::lemma_consumed_within(rest@);
        }
        let total: usize = total + len;
        let ghost na: nat = len as nat;
        let rest: &'de [u8] = rest.split_at(len).1;
        assert(rest@ =~= data@.skip(na as int));
        assert(total == na && total <= data.len() - rest.len());
        let (b, len) = match B::from_hci_bytes(rest) {
            Ok(parsed) => parsed,
            Err(e) => return Err(e),
        };
        proof {
            B::lemma_consumed_within(rest@);
        }
        let total: usize = total + len;
        let ghost nb: nat = len as nat;
        let rest: &'de [u8] = rest.split_at(len).1;
        assert(rest@ =~= data@.skip(na as int).skip(nb as int));
        assert(total == na + nb && total <= data.len() - rest.len());
        let (c, len) = match C::from_hci_bytes(rest) {
            Ok(parsed) => parsed,
            Err(e) => return Err(e),
        };
        proof {
            C::lemma_consumed_within(rest@);
        }
        let total: usize = total + len;
        let ghost nc: nat = len as nat;
        let rest: &'de [u8] = rest.split_at(len).1;
        assert(rest@ =~= data@.skip(na as int).skip(nb as int).skip(nc as int));
        assert(total == na + nb + nc && total <= data.len() - rest.len());
        let (d, len) = match D::from_hci_bytes(rest) {
            Ok(parsed) => parsed,
            Err(e) => return Err(e),
        };
        proof {
            D::lemma_consumed_within(rest@);
        }
        let total: usize = total + len;
        let ghost nd: nat = len as nat;
        let rest: &'de [u8] = rest.split_at(len).1;
        assert(rest@ =~= data@.skip(na as int).skip(nb as int).skip(nc as int).skip(nd as int));
        assert(total == na + nb + nc + nd && total <= data.len() - rest.len());
        let (e, len) = match E::from_hci_bytes(rest) {
            Ok(parsed) => parsed,
            Err(e) => return Err(e),
        };
        proof {
            E::lemma_consumed_within(rest@);
        }
        let total: usize = total + len;
        let ghost ne: nat = len as nat;
        let rest: &'de [u8] = rest.split_at(len).1;
        assert(rest@ =~= data@.skip(na as int).skip(nb as int).skip(nc as int).skip(nd as int).skip(ne as int));
        assert(total == na + nb + nc + nd + ne && total <= data.len() - rest.len());
        let (f, len) = match F::from_hci_bytes(rest) {
            Ok(parsed) => parsed,
            Err(e) => return Err(e),
        };
        proof {
            F::lemma_consumed_within(rest@);
        }
        let total: usize = total + len;
        let ghost nf: nat = len as nat;
        let rest: &'de [u8] = rest.split_at(len).1;
        assert(rest@ =~= data@.skip(na as int).skip(nb as int).skip(nc as int).skip(nd as int).skip(ne as int).skip(nf as int));
        assert(total == na + nb + nc + nd + ne + nf && total <= data.len() - rest.len());
        let (g, len) = match G::from_hci_bytes(rest) {
            Ok(parsed) => parsed,
            Err(e) => return Err(e),
        };
        proof {
            G::lemma_consumed_within(rest@);
        }
        let total: usize = total + len;
        let ghost ng: nat = len as nat;
        let rest: &'de [u8] = rest.split_at(len).1;
        assert(rest@ =~= data@.skip(na as int).skip(nb as int).skip(nc as int).skip(nd as int).skip(ne as int).skip(nf as int).skip(ng as int));
        assert(total == na + nb + nc + nd + ne + nf + ng && total <= data.len() - rest.len());
        let (h, len) = match H::from_hci_bytes(rest) {
            Ok(parsed) => parsed,
            Err(e) => return Err(e),
        };
        proof {
            H::lemma_consumed_within(rest@);
        }
        let total: usize = total + len;
        let ghost nh: nat = len as nat;
        let rest: &'de [u8] = rest.split_at(len).1;
        assert(rest@ =~= data@.skip(na as int).skip(nb as int).skip(nc as int).skip(nd as int).skip(ne as int).skip(nf as int).skip(ng as int).skip(nh as int));
        assert(total == na + nb + nc + nd + ne + nf + ng + nh && total <= data.len() - rest.len());
        let (i, len) = match I::from_hci_bytes(rest) {
            Ok(parsed) => parsed,
            Err(e) => return Err(e),
        };
        proof {
            I::lemma_consumed_within(rest@);
        }
        let total: usize = total + len;
        let ghost ni: nat = len as nat;
        let rest: &'de [u8] = rest.split_at(len).1;
        assert(rest@ =~= data@.skip(na as int).skip(nb as int).skip(nc as int).skip(nd as int).skip(ne as int).skip(nf as int).skip(ng as int).skip(nh as int).skip(ni as int));
        assert(total == na + nb + nc + nd + ne + nf + ng + nh + ni && total <= data.len() - rest.len());
        Ok(((a, b, c, d, e, f, g, h, i), total))
    }
}

impl<'de, A: HciRoundTrip<'de>, B: HciRoundTrip<'de>, C: HciRoundTrip<'de>, D: HciRoundTrip<'de>, E: HciRoundTrip<'de>, F: HciRoundTrip<'de>, G: HciRoundTrip<'de>, H: HciRoundTrip<'de>, I: HciRoundTrip<'de>> HciRoundTrip<'de> for (A, B, C, D, E, F, G, H, I) {
    #[verifier::rlimit(40)]
    proof fn lemma_round_trip(&self, rest: Seq<u8>) {
        assert(self.spec_hci_bytes() + rest =~= (self.0.spec_hci_bytes() + (self.1.spec_hci_bytes() + (self.2.spec_hci_bytes() + (self.3.spec_hci_bytes() + (self.4.spec_hci_bytes() + (self.5.spec_hci_bytes() + (self.6.spec_hci_bytes() + (self.7.spec_hci_bytes() + (self.8.spec_hci_bytes() + rest))))))))));
        self.0.lemma_round_trip((self.1.spec_hci_bytes() + (self.2.spec_hci_bytes() + (self.3.spec_hci_bytes() + (self.4.spec_hci_bytes() + (self.5.spec_hci_bytes() + (self.6.spec_hci_bytes() + (self.7.spec_hci_bytes() + (self.8.spec_hci_bytes() + rest)))))))));
        assert((self.0.spec_hci_bytes() + (self.1.spec_hci_bytes() + (self.2.spec_hci_bytes() + (self.3.spec_hci_bytes() + (self.4.spec_hci_bytes() + (self.5.spec_hci_bytes() + (self.6.spec_hci_bytes() + (self.7.spec_hci_bytes() + (self.8.spec_hci_bytes() + rest))))))))).skip(self.0.spec_hci_bytes().len() as int) =~= (self.1.spec_hci_bytes() + (self.2.spec_hci_bytes() + (self.3.spec_hci_bytes() + (self.4.spec_hci_bytes() + (self.5.spec_hci_bytes() + (self.6.spec_hci_bytes() + (self.7.spec_hci_bytes() + (self.8.spec_hci_bytes() + rest)))))))));
        self.1.lemma_round_trip((self.2.spec_hci_bytes() + (self.3.spec_hci_bytes() + (self.4.spec_hci_bytes() + (self.5.spec_hci_bytes() + (self.6.spec_hci_bytes() + (self.7.spec_hci_bytes() + (self.8.spec_hci_bytes() + rest))))))));
        assert((self.1.spec_hci_bytes() + (self.2.spec_hci_bytes() + (self.3.spec_hci_bytes() + (self.4.spec_hci_bytes() + (self.5.spec_hci_bytes() + (self.6.spec_hci_bytes() + (self.7.spec_hci_bytes() + (self.8.spec_hci_bytes() + rest)))))))).skip(self.1.spec_hci_bytes().len() as int) =~= (self.2.spec_hci_bytes() + (self.3.spec_hci_bytes() + (self.4.spec_hci_bytes() + (self.5.spec_hci_bytes() + (self.6.spec_hci_bytes() + (self.7.spec_hci_bytes() + (self.8.spec_hci_bytes() + rest))))))));
        self.2.lemma_round_trip((self.3.spec_hci_bytes() + (self.4.spec_hci_bytes() + (self.5.spec_hci_bytes() + (self.6.spec_hci_bytes() + (self.7.spec_hci_bytes() + (self.8.spec_hci_bytes() + rest)))))));
        assert((self.2.spec_hci_bytes() + (self.3.spec_hci_bytes() + (self.4.spec_hci_bytes() + (self.5.spec_hci_bytes() + (self.6.spec_hci_bytes() + (self.7.spec_hci_bytes() + (self.8.spec_hci_bytes() + rest))))))).skip(self.2.spec_hci_bytes().len() as int) =~= (self.3.spec_hci_bytes() + (self.4.spec_hci_bytes() + (self.5.spec_hci_bytes() + (self.6.spec_hci_bytes() + (self.7.spec_hci_bytes() + (self.8.spec_hci_bytes() + rest)))))));
        self.3.lemma_round_trip((self.4.spec_hci_bytes() + (self.5.spec_hci_bytes() + (self.6.spec_hci_bytes() + (self.7.spec_hci_bytes() + (self.8.spec_hci_bytes() + rest))))));
        assert((self.3.spec_hci_bytes() + (self.4.spec_hci_bytes() + (self.5.spec_hci_bytes() + (self.6.spec_hci_bytes() + (self.7.spec_hci_bytes() + (self.8.spec_hci_bytes() + rest)))))).skip(self.3.spec_hci_bytes().len() as int) =~= (self.4.spec_hci_bytes() + (self.5.spec_hci_bytes() + (self.6.spec_hci_bytes() + (self.7.spec_hci_bytes() + (self.8.spec_hci_bytes() + rest))))));
        self.4.lemma_round_trip((self.5.spec_hci_bytes() + (self.6.spec_hci_bytes() + (self.7.spec_hci_bytes() + (self.8.spec_hci_bytes() + rest)))));
        assert((self.4.spec_hci_bytes() + (self.5.spec_hci_bytes() + (self.6.spec_hci_bytes() + (self.7.spec_hci_bytes() + (self.8.spec_hci_bytes() + rest))))).skip(self.4.spec_hci_bytes().len() as int) =~= (self.5.spec_hci_bytes() + (self.6.spec_hci_bytes() + (self.7.spec_hci_bytes() + (self.8.spec_hci_bytes() + rest)))));
        self.5.lemma_round_trip((self.6.spec_hci_bytes() + (self.7.spec_hci_bytes() + (self.8.spec_hci_bytes() + rest))));
        assert((self.5.spec_hci_bytes() + (self.6.spec_hci_bytes() + (self.7.spec_hci_bytes() + (self.8.spec_hci_bytes() + rest)))).skip(self.5.spec_hci_bytes().len() as int) =~= (self.6.spec_hci_bytes() + (self.7.spec_hci_bytes() + (self.8.spec_hci_bytes() + rest))));
        self.6.lemma_round_trip((self.7.spec_hci_bytes() + (self.8.spec_hci_bytes() + rest)));
        assert((self.6.spec_hci_bytes() + (self.7.spec_hci_bytes() + (self.8.spec_hci_bytes() + rest))).skip(self.6.spec_hci_bytes().len() as int) =~= (self.7.spec_hci_bytes() + (self.8.spec_hci_bytes() + rest)));
        self.7.lemma_round_trip((self.8.spec_hci_bytes() + rest));
        assert((self.7.spec_hci_bytes() + (self.8.spec_hci_bytes() + rest)).skip(self.7.spec_hci_bytes().len() as int) =~= (self.8.spec_hci_bytes() + rest));
        self.8.lemma_round_trip(rest);
        assert((self.8.spec_hci_bytes() + rest).skip(self.8.spec_hci_bytes().len() as int) =~= rest);
    }
}

impl<A: WriteHci, B: WriteHci, C: WriteHci, D: WriteHci, E: WriteHci, F: WriteHci, G: WriteHci, H: WriteHci, I: WriteHci, J: WriteHci> WriteHci for (A, B, C, D, E, F, G, H, I, J) {
    open spec fn spec_hci_bytes(&self) -> Seq<u8> {
        self.0.spec_hci_bytes() + self.1.spec_hci_bytes() + self.2.spec_hci_bytes() + self.3.spec_hci_bytes() + self.4.spec_hci_bytes() + self.5.spec_hci_bytes() + self.6.spec_hci_bytes() + self.7.spec_hci_bytes() + self.8.spec_hci_bytes() + self.9.spec_hci_bytes()
    }

    open spec fn spec_size(&self) -> nat {
        self.0.spec_size() + self.1.spec_size() + self.2.spec_size() + self.3.spec_size() + self.4.spec_size() + self.5.spec_size() + self.6.spec_size() + self.7.spec_size() + self.8.spec_size() + self.9.spec_size()
    }

    fn size(&self) -> (n: usize) {
        let mut n: usize = 0;
        assert(self.0.spec_size() <= self.spec_size());
        n = n + self.0.size();
        assert(self.0.spec_size() + self.1.spec_size() <= self.spec_size());
        n = n + self.1.size();
        assert(self.0.spec_size() + self.1.spec_size() + self.2.spec_size() <= self.spec_size());
        n = n + self.2.size();
        assert(self.0.spec_size() + self.1.spec_size() + self.2.spec_size() + self.3.spec_size() <= self.spec_size());
        n = n + self.3.size();
        assert(self.0.spec_size() + self.1.spec_size() + self.2.spec_size() + self.3.spec_size() + self.4.spec_size() <= self.spec_size());
        n = n + self.4.size();
        assert(self.0.spec_size() + self.1.spec_size() + self.2.spec_size() + self.3.spec_size() + self.4.spec_size() + self.5.spec_size() <= self.spec_size());
        n = n + self.5.size();
        assert(self.0.spec_size() + self.1.spec_size() + self.2.spec_size() + self.3.spec_size() + self.4.spec_size() + self.5.spec_size() + self.6.spec_size() <= self.spec_size());
        n = n + self.6.size();
        assert(self.0.spec_size() + self.1.spec_size() + self.2.spec_size() + self.3.spec_size() + self.4.spec_size() + self.5.spec_size() + self.6.spec_size() + self.7.spec_size() <= self.spec_size());
        n = n + self.7.size();
        assert(self.0.spec_size() + self.1.spec_size() + self.2.spec_size() + self.3.spec_size() + self.4.spec_size() + self.5.spec_size() + self.6.spec_size() + self.7.spec_size() + self.8.spec_size() <= self.spec_size());
        n = n + self.8.size();
        assert(self.0.spec_size() + self.1.spec_size() + self.2.spec_size() + self.3.spec_size() + self.4.spec_size() + self.5.spec_size() + self.6.spec_size() + self.7.spec_size() + self.8.spec_size() + self.9.spec_size() <= self.spec_size());
        n = n + self.9.size();
        n
    }

    fn write_hci(&self, out: &mut Vec<u8>) {
        self.0.write_hci(out);
        assert(out@ =~= old(out)@ + (self.0.spec_hci_bytes()));
        self.1.write_hci(out);
        assert(out@ =~= old(out)@ + (self.0.spec_hci_bytes() + self.1.spec_hci_bytes()));
        self.2.write_hci(out);
        assert(out@ =~= old(out)@ + (self.0.spec_hci_bytes() + self.1.spec_hci_bytes() + self.2.spec_hci_bytes()));
        self.3.write_hci(out);
        assert(out@ =~= old(out)@ + (self.0.spec_hci_bytes() + self.1.spec_hci_bytes() + self.2.spec_hci_bytes() + self.3.spec_hci_bytes()));
        self.4.write_hci(out);
        assert(out@ =~= old(out)@ + (self.0.spec_hci_bytes() + self.1.spec_hci_bytes() + self.2.spec_hci_bytes() + self.3.spec_hci_bytes() + self.4.spec_hci_bytes()));
        self.5.write_hci(out);
        assert(out@ =~= old(out)@ + (self.0.spec_hci_bytes() + self.1.spec_hci_bytes() + self.2.spec_hci_bytes() + self.3.spec_hci_bytes() + self.4.spec_hci_bytes() + self.5.spec_hci_bytes()));
        self.6.write_hci(out);
        assert(out@ =~= old(out)@ + (self.0.spec_hci_bytes() + self.1.spec_hci_bytes() + self.2.spec_hci_bytes() + self.3.spec_hci_bytes() + self.4.spec_hci_bytes() + self.5.spec_hci_bytes() + self.6.spec_hci_bytes()));
        self.7.write_hci(out);
        assert(out@ =~= old(out)@ + (self.0.spec_hci_bytes() + self.1.spec_hci_bytes() + self.2.spec_hci_bytes() + self.3.spec_hci_bytes() + self.4.spec_hci_bytes() + self.5.spec_hci_bytes() + self.6.spec_hci_bytes() + self.7.spec_hci_bytes()));
        self.8.write_hci(out);
        assert(out@ =~= old(out)@ + (self.0.spec_hci_bytes() + self.1.spec_hci_bytes() + self.2.spec_hci_bytes() + self.3.spec_hci_bytes() + self.4.spec_hci_bytes() + self.5.spec_hci_bytes() + self.6.spec_hci_bytes() + self.7.spec_hci_bytes() + self.8.spec_hci_bytes()));
        self.9.write_hci(out);
        assert(out@ =~= old(out)@ + (self.0.spec_hci_bytes() + self.1.spec_hci_bytes() + self.2.spec_hci_bytes() + self.3.spec_hci_bytes() + self.4.spec_hci_bytes() + self.5.spec_hci_bytes() + self.6.spec_hci_bytes() + self.7.spec_hci_bytes() + self.8.spec_hci_bytes() + self.9.spec_hci_bytes()));
    }
}

impl<'de, A: FromHciBytes<'de>, B: FromHciBytes<'de>, C: FromHciBytes<'de>, D: FromHciBytes<'de>, E: FromHciBytes<'de>, F: FromHciBytes<'de>, G: FromHciBytes<'de>, H: FromHciBytes<'de>, I: FromHciBytes<'de>, J: FromHciBytes<'de>> FromHciBytes<'de> for (A, B, C, D, E, F, G, H, I, J) {
    open spec fn spec_from_hci_bytes(data: Seq<u8>) -> Result<((A::V, B::V, C::V, D::V, E::V, F::V, G::V, H::V, I::V, J::V), nat), FromHciBytesError> {
        match A::spec_from_hci_bytes(data) {
            Err(e) => Err(e),
            Ok((a, na)) => {
                match B::spec_from_hci_bytes(data.skip(na as int)) {
                    Err(e) => Err(e),
                    Ok((b, nb)) => {
                        match C::spec_from_hci_bytes(data.skip(na as int).skip(nb as int)) {
                            Err(e) => Err(e),
                            Ok((c, nc)) => {
                                match D::spec_from_hci_bytes(data.skip(na as int).skip(nb as int).skip(nc as int)) {
                                    Err(e) => Err(e),
                                    Ok((d, nd)) => {
                                        match E::spec_from_hci_bytes(data.skip(na as int).skip(nb as int).skip(nc as int).skip(nd as int)) {
                                            Err(e) => Err(e),
                                            Ok((e, ne)) => {
                                                match F::spec_from_hci_bytes(data.skip(na as int).skip(nb as int).skip(nc as int).skip(nd as int).skip(ne as int)) {
                                                    Err(e) => Err(e),
                                                    Ok((f, nf)) => {
                                                        match G::spec_from_hci_bytes(data.skip(na as int).skip(nb as int).skip(nc as int).skip(nd as int).skip(ne as int).skip(nf as int)) {
                                                            Err(e) => Err(e),
                                                            Ok((g, ng)) => {
                                                                match H::spec_from_hci_bytes(data.skip(na as int).skip(nb as int).skip(nc as int).skip(nd as int).skip(ne as int).skip(nf as int).skip(ng as int)) {
                                                                    Err(e) => Err(e),
                                                                    Ok((h, nh)) => {
                                                                        match I::spec_from_hci_bytes(data.skip(na as int).skip(nb as int).skip(nc as int).skip(nd as int).skip(ne as int).skip(nf as int).skip(ng as int).skip(nh as int)) {
                                                                            Err(e) => Err(e),
                                                                            Ok((i, ni)) => {
                                                                                match J::spec_from_hci_bytes(data.skip(na as int).skip(nb as int).skip(nc as int).skip(nd as int).skip(ne as int).skip(nf as int).skip(ng as int).skip(nh as int).skip(ni as int)) {
                                                                                    Err(e) => Err(e),
                                                                                    Ok((j, nj)) => {
                                                                                        Ok(((a, b, c, d, e, f, g, h, i, j), na + nb + nc + nd + ne + nf + ng + nh + ni + nj))
                                                                                    },
                                                                                }
                                                                            },
                                                                        }
                                                                    },
                                                                }
                                                            },
                                                        }
                                                    },
                                                }
                                            },
                                        }
                                    },
                                }
                            },
                        }
                    },
                }
            },
        }
    }

    proof fn lemma_consumed_within(data: Seq<u8>) {
        A::lemma_consumed_within(data);
        if let Ok((_, na)) = A::spec_from_hci_bytes(data) {
            let d1 = data.skip(na as int);
            B::lemma_consumed_within(d1);
            if let Ok((_, nb)) = B::spec_from_hci_bytes(d1) {
                let d2 = d1.skip(nb as int);
                C::lemma_consumed_within(d2);
                if let Ok((_, nc)) = C::spec_from_hci_bytes(d2) {
                    let d3 = d2.skip(nc as int);
                    D::lemma_consumed_within(d3);
                    if let Ok((_, nd)) = D::spec_from_hci_bytes(d3) {
                        let d4 = d3.skip(nd as int);
                        E::lemma_consumed_within(d4);
                        if let Ok((_, ne)) = E::spec_from_hci_bytes(d4) {
                            let d5 = d4.skip(ne as int);
                            F::lemma_consumed_within(d5);
                            if let Ok((_, nf)) = F::spec_from_hci_bytes(d5) {
                                let d6 = d5.skip(nf as int);
                                G::lemma_consumed_within(d6);
                                if let Ok((_, ng)) = G::spec_from_hci_bytes(d6) {
                                    let d7 = d6.skip(ng as int);
                                    H::lemma_consumed_within(d7);
                                    if let Ok((_, nh)) = H::spec_from_hci_bytes(d7) {
                                        let d8 = d7.skip(nh as int);
                                        I::lemma_consumed_within(d8);
                                        if let Ok((_, ni)) = I::spec_from_hci_bytes(d8) {
                                            let d9 = d8.skip(ni as int);
                                            J::lemma_consumed_within(d9);
                                            if let Ok((_, nj)) = J::spec_from_hci_bytes(d9) {
                                            }
                                        }
                                    }
                                }
                            }
                        }
                    }
                }
            }
        }
    }

    fn from_hci_bytes(data: &'de [u8]) -> (r: Result<((A, B, C, D, E, F, G, H, I, J), usize), FromHciBytesError>) {
        let rest: &'de [u8] = data;
        let total: usize = 0;
        let (a, len) = match A::from_hci_bytes(rest) {
            Ok(parsed) => parsed,
            Err(e) => return Err(e),
        };
        proof {
            A::lemma_consumed_within(rest@);
        }
        let total: usize = total + len;
        let ghost na: nat = len as nat;
        let rest: &'de [u8] = rest.split_at(len).1;
        assert(rest@ =~= data@.skip(na as int));
        assert(total == na && total <= data.len() - rest.len());
        let (b, len) = match B::from_hci_bytes(rest) {
            Ok(parsed) => parsed,
            Err(e) => return Err(e),
        };
        proof {
            B::lemma_consumed_within(rest@);
        }
        let total: usize = total + len;
        let ghost nb: nat = len as nat;
        let rest: &'de [u8] = rest.split_at(len).1;
        assert(rest@ =~= data@.skip(na as int).skip(nb as int));
        assert(total == na + nb && total <= data.len() - rest.len());
        let (c, len) = match C::from_hci_bytes(rest) {
            Ok(parsed) => parsed,
            Err(e) => return Err(e),
        };
        proof {
            C::lemma_consumed_within(rest@);
        }
        let total: usize = total + len;
        let ghost nc: nat = len as nat;
        let rest: &'de [u8] = rest.split_at(len).1;
        assert(rest@ =~= data@.skip(na as int).skip(nb as int).skip(nc as int));
        assert(total == na + nb + nc && total <= data.len() - rest.len());
        let (d, len) = match D::from_hci_bytes(rest) {
            Ok(parsed) => parsed,
            Err(e) => return Err(e),
        };
        proof {
            D::lemma_consumed_within(rest@);
        }
        let total: usize = total + len;
        let ghost nd: nat = len as nat;
        let rest: &'de [u8] = rest.split_at(len).1;
        assert(rest@ =~= data@.skip(na as int).skip(nb as int).skip(nc as int).skip(nd as int));
        assert(total == na + nb + nc + nd && total <= data.len() - rest.len());
        let (e, len) = match E::from_hci_bytes(rest) {
            Ok(parsed) => parsed,
            Err(e) => return Err(e),
        };
        proof {
            E::lemma_consumed_within(rest@);
        }
        let total: usize = total + len;
        let ghost ne: nat = len as nat;
        let rest: &'de [u8] = rest.split_at(len).1;
        assert(rest@ =~= data@.skip(na as int).skip(nb as int).skip(nc as int).skip(nd as int).skip(ne as int));
        assert(total == na + nb + nc + nd + ne && total <= data.len() - rest.len());
        let (f, len) = match F::from_hci_bytes(rest) {
            Ok(parsed) => parsed,
            Err(e) => return Err(e),
        };
        proof {
            F::lemma_consumed_within(rest@);
        }
        let total: usize = total + len;
        let ghost nf: nat = len as nat;
        let rest: &'de [u8] = rest.split_at(len).1;
        assert(rest@ =~= data@.skip(na as int).skip(nb as int).skip(nc as int).skip(nd as int).skip(ne as int).skip(nf as int));
        assert(total == na + nb + nc + nd + ne + nf && total <= data.len() - rest.len());
        let (g, len) = match G::from_hci_bytes(rest) {
            Ok(parsed) => parsed,
            Err(e) => return Err(e),
        };
        proof {
            G::lemma_consumed_within(rest@);
        }
        let total: usize = total + len;
        let ghost ng: nat = len as nat;
        let rest: &'de [u8] = rest.split_at(len).1;
        assert(rest@ =~= data@.skip(na as int).skip(nb as int).skip(nc as int).skip(nd as int).skip(ne as int).skip(nf as int).skip(ng as int));
        assert(total == na + nb + nc + nd + ne + nf + ng && total <= data.len() - rest.len());
        let (h, len) = match H::from_hci_bytes(rest) {
            Ok(parsed) => parsed,
            Err(e) => return Err(e),
        };
        proof {
            H::lemma_consumed_within(rest@);
        }
        let total: usize = total + len;
        let ghost nh: nat = len as nat;
        let rest: &'de [u8] = rest.split_at(len).1;
        assert(rest@ =~= data@.skip(na as int).skip(nb as int).skip(nc as int).skip(nd as int).skip(ne as int).skip(nf as int).skip(ng as int).skip(nh as int));
        assert(total == na + nb + nc + nd + ne + nf + ng + nh && total <= data.len() - rest.len());
        let (i, len) = match I::from_hci_bytes(rest) {
            Ok(parsed) => parsed,
            Err(e) => return Err(e),
        };
        proof {
            I::lemma_consumed_within(rest@);
        }
        let total: usize = total + len;
        let ghost ni: nat = len as nat;
        let rest: &'de [u8] = rest.split_at(len).1;
        assert(rest@ =~= data@.skip(na as int).skip(nb as int).skip(nc as int).skip(nd as int).skip(ne as int).skip(nf as int).skip(ng as int).skip(nh as int).skip(ni as int));
        assert(total == na + nb + nc + nd + ne + nf + ng + nh + ni && total <= data.len() - rest.len());
        let (j, len) = match J::from_hci_bytes(rest) {
            Ok(parsed) => parsed,
            Err(e) => return Err(e),
        };
        proof {
            J::lemma_consumed_within(rest@);
        }
        let total: usize = total + len;
        let ghost nj: nat = len as nat;
        let rest: &'de [u8] = rest.split_at(len).1;
        assert(rest@ =~= data@.skip(na as int).skip(nb as int).skip(nc as int).skip(nd as int).skip(ne as int).skip(nf as int).skip(ng as int).skip(nh as int).skip(ni as int).skip(nj as int));
        assert(total == na + nb + nc + nd + ne + nf + ng + nh + ni + nj && total <= data.len() - rest.len());
        Ok(((a, b, c, d, e, f, g, h, i, j), total))
    }
}

impl<'de, A: HciRoundTrip<'de>, B: HciRoundTrip<'de>, C: HciRoundTrip<'de>, D: HciRoundTrip<'de>, E: HciRoundTrip<'de>, F: HciRoundTrip<'de>, G: HciRoundTrip<'de>, H: HciRoundTrip<'de>, I: HciRoundTrip<'de>, J: HciRoundTrip<'de>> HciRoundTrip<'de> for (A, B, C, D, E, F, G, H, I, J) {
    #[verifier::rlimit(40)]
    proof fn lemma_round_trip(&self, rest: Seq<u8>) {
        assert(self.spec_hci_bytes() + rest =~= (self.0.spec_hci_bytes() + (self.1.spec_hci_bytes() + (self.2.spec_hci_bytes() + (self.3.spec_hci_bytes() + (self.4.spec_hci_bytes() + (self.5.spec_hci_bytes() + (self.6.spec_hci_bytes() + (self.7.spec_hci_bytes() + (self.8.spec_hci_bytes() + (self.9.spec_hci_bytes() + rest)))))))))));
        self.0.lemma_round_trip((self.1.spec_hci_bytes() + (self.2.spec_hci_bytes() + (self.3.spec_hci_bytes() + (self.4.spec_hci_bytes() + (self.5.spec_hci_bytes() + (self.6.spec_hci_bytes() + (self.7.spec_hci_bytes() + (self.8.spec_hci_bytes() + (self.9.spec_hci_bytes() + rest))))))))));
        assert((self.0.spec_hci_bytes() + (self.1.spec_hci_bytes() + (self.2.spec_hci_bytes() + (self.3.spec_hci_bytes() + (self.4.spec_hci_bytes() + (self.5.spec_hci_bytes() + (self.6.spec_hci_bytes() + (self.7.spec_hci_bytes() + (self.8.spec_hci_bytes() + (self.9.spec_hci_bytes() + rest)))))))))).skip(self.0.spec_hci_bytes().len() as int) =~= (self.1.spec_hci_bytes() + (self.2.spec_hci_bytes() + (self.3.spec_hci_bytes() + (self.4.spec_hci_bytes() + (self.5.spec_hci_bytes() + (self.6.spec_hci_bytes() + (self.7.spec_hci_bytes() + (self.8.spec_hci_bytes() + (self.9.spec_hci_bytes() + rest))))))))));
        self.1.lemma_round_trip((self.2.spec_hci_bytes() + (self.3.spec_hci_bytes() + (self.4.spec_hci_bytes() + (self.5.spec_hci_bytes() + (self.6.spec_hci_bytes() + (self.7.spec_hci_bytes() + (self.8.spec_hci_bytes() + (self.9.spec_hci_bytes() + rest)))))))));
        assert((self.1.spec_hci_bytes() + (self.2.spec_hci_bytes() + (self.3.spec_hci_bytes() + (self.4.spec_hci_bytes() + (self.5.spec_hci_bytes() + (self.6.spec_hci_bytes() + (self.7.spec_hci_bytes() + (self.8.spec_hci_bytes() + (self.9.spec_hci_bytes() + rest))))))))).skip(self.1.spec_hci_bytes().len() as int) =~= (self.2.spec_hci_bytes() + (self.3.spec_hci_bytes() + (self.4.spec_hci_bytes() + (self.5.spec_hci_bytes() + (self.6.spec_hci_bytes() + (self.7.spec_hci_bytes() + (self.8.spec_hci_bytes() + (self.9.spec_hci_bytes() + rest)))))))));
        self.2.lemma_round_trip((self.3.spec_hci_bytes() + (self.4.spec_hci_bytes() + (self.5.spec_hci_bytes() + (self.6.spec_hci_bytes() + (self.7.spec_hci_bytes() + (self.8.spec_hci_bytes() + (self.9.spec_hci_bytes() + rest))))))));
        assert((self.2.spec_hci_bytes() + (self.3.spec_hci_bytes() + (self.4.spec_hci_bytes() + (self.5.spec_hci_bytes() + (self.6.spec_hci_bytes() + (self.7.spec_hci_bytes() + (self.8.spec_hci_bytes() + (self.9.spec_hci_bytes() + rest)))))))).skip(self.2.spec_hci_bytes().len() as int) =~= (self.3.spec_hci_bytes() + (self.4.spec_hci_bytes() + (self.5.spec_hci_bytes() + (self.6.spec_hci_bytes() + (self.7.spec_hci_bytes() + (self.8.spec_hci_bytes() + (self.9.spec_hci_bytes() + rest))))))));
        self.3.lemma_round_trip((self.4.spec_hci_bytes() + (self.5.spec_hci_bytes() + (self.6.spec_hci_bytes() + (self.7.spec_hci_bytes() + (self.8.spec_hci_bytes() + (self.9.spec_hci_bytes() + rest)))))));
        assert((self.3.spec_hci_bytes() + (self.4.spec_hci_bytes() + (self.5.spec_hci_bytes() + (self.6.spec_hci_bytes() + (self.7.spec_hci_bytes() + (self.8.spec_hci_bytes() + (self.9.spec_hci_bytes() + rest))))))).skip(self.3.spec_hci_bytes().len() as int) =~= (self.4.spec_hci_bytes() + (self.5.spec_hci_bytes() + (self.6.spec_hci_bytes() + (self.7.spec_hci_bytes() + (self.8.spec_hci_bytes() + (self.9.spec_hci_bytes() + rest)))))));
        self.4.lemma_round_trip((self.5.spec_hci_bytes() + (self.6.spec_hci_bytes() + (self.7.spec_hci_bytes() + (self.8.spec_hci_bytes() + (self.9.spec_hci_bytes() + rest))))));
        assert((self.4.spec_hci_bytes() + (self.5.spec_hci_bytes() + (self.6.spec_hci_bytes() + (self.7.spec_hci_bytes() + (self.8.spec_hci_bytes() + (self.9.spec_hci_bytes() + rest)))))).skip(self.4.spec_hci_bytes().len() as int) =~= (self.5.spec_hci_bytes() + (self.6.spec_hci_bytes() + (self.7.spec_hci_bytes() + (self.8.spec_hci_bytes() + (self.9.spec_hci_bytes() + rest))))));
        self.5.lemma_round_trip((self.6.spec_hci_bytes() + (self.7.spec_hci_bytes() + (self.8.spec_hci_bytes() + (self.9.spec_hci_bytes() + rest)))));
        assert((self.5.spec_hci_bytes() + (self.6.spec_hci_bytes() + (self.7.spec_hci_bytes() + (self.8.spec_hci_bytes() + (self.9.spec_hci_bytes() + rest))))).skip(self.5.spec_hci_bytes().len() as int) =~= (self.6.spec_hci_bytes() + (self.7.spec_hci_bytes() + (self.8.spec_hci_bytes() + (self.9.spec_hci_bytes() + rest)))));
        self.6.lemma_round_trip((self.7.spec_hci_bytes() + (self.8.spec_hci_bytes() + (self.9.spec_hci_bytes() + rest))));
        assert((self.6.spec_hci_bytes() + (self.7.spec_hci_bytes() + (self.8.spec_hci_bytes() + (self.9.spec_hci_bytes() + rest)))).skip(self.6.spec_hci_bytes().len() as int) =~= (self.7.spec_hci_bytes() + (self.8.spec_hci_bytes() + (self.9.spec_hci_bytes() + rest))));
        self.7.lemma_round_trip((self.8.spec_hci_bytes() + (self.9.spec_hci_bytes() + rest)));
        assert((self.7.spec_hci_bytes() + (self.8.spec_hci_bytes() + (self.9.spec_hci_bytes() + rest))).skip(self.7.spec_hci_bytes().len() as int) =~= (self.8.spec_hci_bytes() + (self.9.spec_hci_bytes() + rest)));
        self.8.lemma_round_trip((self.9.spec_hci_bytes() + rest));
        assert((self.8.spec_hci_bytes() + (self.9.spec_hci_bytes() + rest)).skip(self.8.spec_hci_bytes().len() as int) =~= (self.9.spec_hci_bytes() + rest));
        self.9.lemma_round_trip(rest);
        assert((self.9.spec_hci_bytes() + rest).skip(self.9.spec_hci_bytes().len() as int) =~= rest);
    }
}

impl<A: WriteHci, B: WriteHci, C: WriteHci, D: WriteHci, E: WriteHci, F: WriteHci, G: WriteHci, H: WriteHci, I: WriteHci, J: WriteHci, K: WriteHci> WriteHci for (A, B, C, D, E, F, G, H, I, J, K) {
    open spec fn spec_hci_bytes(&self) -> Seq<u8> {
        self.0.spec_hci_bytes() + self.1.spec_hci_bytes() + self.2.spec_hci_bytes() + self.3.spec_hci_bytes() + self.4.spec_hci_bytes() + self.5.spec_hci_bytes() + self.6.spec_hci_bytes() + self.7.spec_hci_bytes() + self.8.spec_hci_bytes() + self.9.spec_hci_bytes() + self.10.spec_hci_bytes()
    }

    open spec fn spec_size(&self) -> nat {
        self.0.spec_size() + self.1.spec_size() + self.2.spec_size() + self.3.spec_size() + self.4.spec_size() + self.5.spec_size() + self.6.spec_size() + self.7.spec_size() + self.8.spec_size() + self.9.spec_size() + self.10.spec_size()
    }

    fn size(&self) -> (n: usize) {
        let mut n: usize = 0;
        assert(self.0.spec_size() <= self.spec_size());
        n = n + self.0.size();
        assert(self.0.spec_size() + self.1.spec_size() <= self.spec_size());
        n = n + self.1.size();
        assert(self.0.spec_size() + self.1.spec_size() + self.2.spec_size() <= self.spec_size());
        n = n + self.2.size();
        assert(self.0.spec_size() + self.1.spec_size() + self.2.spec_size() + self.3.spec_size() <= self.spec_size());
        n = n + self.3.size();
        assert(self.0.spec_size() + self.1.spec_size() + self.2.spec_size() + self.3.spec_size() + self.4.spec_size() <= self.spec_size());
        n = n + self.4.size();
        assert(self.0.spec_size() + self.1.spec_size() + self.2.spec_size() + self.3.spec_size() + self.4.spec_size() + self.5.spec_size() <= self.spec_size());
        n = n + self.5.size();
        assert(self.0.spec_size() + self.1.spec_size() + self.2.spec_size() + self.3.spec_size() + self.4.spec_size() + self.5.spec_size() + self.6.spec_size() <= self.spec_size());
        n = n + self.6.size();
        assert(self.0.spec_size() + self.1.spec_size() + self.2.spec_size() + self.3.spec_size() + self.4.spec_size() + self.5.spec_size() + self.6.spec_size() + self.7.spec_size() <= self.spec_size());
        n = n + self.7.size();
        assert(self.0.spec_size() + self.1.spec_size() + self.2.spec_size() + self.3.spec_size() + self.4.spec_size() + self.5.spec_size() + self.6.spec_size() + self.7.spec_size() + self.8.spec_size() <= self.spec_size());
        n = n + self.8.size();
        assert(self.0.spec_size() + self.1.spec_size() + self.2.spec_size() + self.3.spec_size() + self.4.spec_size() + self.5.spec_size() + self.6.spec_size() + self.7.spec_size() + self.8.spec_size() + self.9.spec_size() <= self.spec_size());
        n = n + self.9.size();
        assert(self.0.spec_size() + self.1.spec_size() + self.2.spec_size() + self.3.spec_size() + self.4.spec_size() + self.5.spec_size() + self.6.spec_size() + self.7.spec_size() + self.8.spec_size() + self.9.spec_size() + self.10.spec_size() <= self.spec_size());
        n = n + self.10.size();
        n
    }

    fn write_hci(&self, out: &mut Vec<u8>) {
        self.0.write_hci(out);
        assert(out@ =~= old(out)@ + (self.0.spec_hci_bytes()));
        self.1.write_hci(out);
        assert(out@ =~= old(out)@ + (self.0.spec_hci_bytes() + self.1.spec_hci_bytes()));
        self.2.write_hci(out);
        assert(out@ =~= old(out)@ + (self.0.spec_hci_bytes() + self.1.spec_hci_bytes() + self.2.spec_hci_bytes()));
        self.3.write_hci(out);
        assert(out@ =~= old(out)@ + (self.0.spec_hci_bytes() + self.1.spec_hci_bytes() + self.2.spec_hci_bytes() + self.3.spec_hci_bytes()));
        self.4.write_hci(out);
        assert(out@ =~= old(out)@ + (self.0.spec_hci_bytes() + self.1.spec_hci_bytes() + self.2.spec_hci_bytes() + self.3.spec_hci_bytes() + self.4.spec_hci_bytes()));
        self.5.write_hci(out);
        assert(out@ =~= old(out)@ + (self.0.spec_hci_bytes() + self.1.spec_hci_bytes() + self.2.spec_hci_bytes() + self.3.spec_hci_bytes() + self.4.spec_hci_bytes() + self.5.spec_hci_bytes()));
        self.6.write_hci(out);
        assert(out@ =~= old(out)@ + (self.0.spec_hci_bytes() + self.1.spec_hci_bytes() + self.2.spec_hci_bytes() + self.3.spec_hci_bytes() + self.4.spec_hci_bytes() + self.5.spec_hci_bytes() + self.6.spec_hci_bytes()));
        self.7.write_hci(out);
        assert(out@ =~= old(out)@ + (self.0.spec_hci_bytes() + self.1.spec_hci_bytes() + self.2.spec_hci_bytes() + self.3.spec_hci_bytes() + self.4.spec_hci_bytes() + self.5.spec_hci_bytes() + self.6.spec_hci_bytes() + self.7.spec_hci_bytes()));
        self.8.write_hci(out);
        assert(out@ =~= old(out)@ + (self.0.spec_hci_bytes() + self.1.spec_hci_bytes() + self.2.spec_hci_bytes() + self.3.spec_hci_bytes() + self.4.spec_hci_bytes() + self.5.spec_hci_bytes() + self.6.spec_hci_bytes() + self.7.spec_hci_bytes() + self.8.spec_hci_bytes()));
        self.9.write_hci(out);
        assert(out@ =~= old(out)@ + (self.0.spec_hci_bytes() + self.1.spec_hci_bytes() + self.2.spec_hci_bytes() + self.3.spec_hci_bytes() + self.4.spec_hci_bytes() + self.5.spec_hci_bytes() + self.6.spec_hci_bytes() + self.7.spec_hci_bytes() + self.8.spec_hci_bytes() + self.9.spec_hci_bytes()));
        self.10.write_hci(out);
        assert(out@ =~= old(out)@ + (self.0.spec_hci_bytes() + self.1.spec_hci_bytes() + self.2.spec_hci_bytes() + self.3.spec_hci_bytes() + self.4.spec_hci_bytes() + self.5.spec_hci_bytes() + self.6.spec_hci_bytes() + self.7.spec_hci_bytes() + self.8.spec_hci_bytes() + self.9.spec_hci_bytes() + self.10.spec_hci_bytes()));
    }
}

impl<'de, A: FromHciBytes<'de>, B: FromHciBytes<'de>, C: FromHciBytes<'de>, D: FromHciBytes<'de>, E: FromHciBytes<'de>, F: FromHciBytes<'de>, G: FromHciBytes<'de>, H: FromHciBytes<'de>, I: FromHciBytes<'de>, J: FromHciBytes<'de>, K: FromHciBytes<'de>> FromHciBytes<'de> for (A, B, C, D, E, F, G, H, I, J, K) {
    open spec fn spec_from_hci_bytes(data: Seq<u8>) -> Result<((A::V, B::V, C::V, D::V, E::V, F::V, G::V, H::V, I::V, J::V, K::V), nat), FromHciBytesError> {
        match A::spec_from_hci_bytes(data) {
            Err(e) => Err(e),
            Ok((a, na)) => {
                match B::spec_from_hci_bytes(data.skip(na as int)) {
                    Err(e) => Err(e),
                    Ok((b, nb)) => {
                        match C::spec_from_hci_bytes(data.skip(na as int).skip(nb as int)) {
                            Err(e) => Err(e),
                            Ok((c, nc)) => {
                                match D::spec_from_hci_bytes(data.skip(na as int).skip(nb as int).skip(nc as int)) {
                                    Err(e) => Err(e),
                                    Ok((d, nd)) => {
                                        match E::spec_from_hci_bytes(data.skip(na as int).skip(nb as int).skip(nc as int).skip(nd as int)) {
                                            Err(e) => Err(e),
                                            Ok((e, ne)) => {
                                                match F::spec_from_hci_bytes(data.skip(na as int).skip(nb as int).skip(nc as int).skip(nd as int).skip(ne as int)) {
                                                    Err(e) => Err(e),
                                                    Ok((f, nf)) => {
                                                        match G::spec_from_hci_bytes(data.skip(na as int).skip(nb as int).skip(nc as int).skip(nd as int).skip(ne as int).skip(nf as int)) {
                                                            Err(e) => Err(e),
                                                            Ok((g, ng)) => {
                                                                match H::spec_from_hci_bytes(data.skip(na as int).skip(nb as int).skip(nc as int).skip(nd as int).skip(ne as int).skip(nf as int).skip(ng as int)) {
                                                                    Err(e) => Err(e),
                                                                    Ok((h, nh)) => {
                                                                        match I::spec_from_hci_bytes(data.skip(na as int).skip(nb as int).skip(nc as int).skip(nd as int).skip(ne as int).skip(nf as int).skip(ng as int).skip(nh as int)) {
                                                                            Err(e) => Err(e),
                                                                            Ok((i, ni)) => {
                                                                                match J::spec_from_hci_bytes(data.skip(na as int).skip(nb as int).skip(nc as int).skip(nd as int).skip(ne as int).skip(nf as int).skip(ng as int).skip(nh as int).skip(ni as int)) {
                                                                                    Err(e) => Err(e),
                                                                                    Ok((j, nj)) => {
                                                                                        match K::spec_from_hci_bytes(data.skip(na as int).skip(nb as int).skip(nc as int).skip(nd as int).skip(ne as int).skip(nf as int).skip(ng as int).skip(nh as int).skip(ni as int).skip(nj as int)) {
                                                                                            Err(e) => Err(e),
                                                                                            Ok((k, nk)) => {
                                                                                                Ok(((a, b, c, d, e, f, g, h, i, j, k), na + nb + nc + nd + ne + nf + ng + nh + ni + nj + nk))
                                                                                            },
                                                                                        }
                                                                                    },
                                                                                }
                                                                            },
                                                                        }
                                                                    },
                                                                }
                                                            },
                                                        }
                                                    },
                                                }
                                            },
                                        }
                                    },
                                }
                            },
                        }
                    },
                }
            },
        }
    }

    proof fn lemma_consumed_within(data: Seq<u8>) {
        A::lemma_consumed_within(data);
        if let Ok((_, na)) = A::spec_from_hci_bytes(data) {
            let d1 = data.skip(na as int);
            B::lemma_consumed_within(d1);
            if let Ok((_, nb)) = B::spec_from_hci_bytes(d1) {
                let d2 = d1.skip(nb as int);
                C::lemma_consumed_within(d2);
                if let Ok((_, nc)) = C::spec_from_hci_bytes(d2) {
                    let d3 = d2.skip(nc as int);
                    D::lemma_consumed_within(d3);
                    if let Ok((_, nd)) = D::spec_from_hci_bytes(d3) {
                        let d4 = d3.skip(nd as int);
                        E::lemma_consumed_within(d4);
                        if let Ok((_, ne)) = E::spec_from_hci_bytes(d4) {
                            let d5 = d4.skip(ne as int);
                            F::lemma_consumed_within(d5);
                            if let Ok((_, nf)) = F::spec_from_hci_bytes(d5) {
                                let d6 = d5.skip(nf as int);
                                G::lemma_consumed_within(d6);
                                if let Ok((_, ng)) = G::spec_from_hci_bytes(d6) {
                                    let d7 = d6.skip(ng as int);
                                    H::lemma_consumed_within(d7);
                                    if let Ok((_, nh)) = H::spec_from_hci_bytes(d7) {
                                        let d8 = d7.skip(nh as int);
                                        I::lemma_consumed_within(d8);
                                        if let Ok((_, ni)) = I::spec_from_hci_bytes(d8) {
                                            let d9 = d8.skip(ni as int);
                                            J::lemma_consumed_within(d9);
                                            if let Ok((_, nj)) = J::spec_from_hci_bytes(d9) {
                                                let d10 = d9.skip(nj as int);
                                                K::lemma_consumed_within(d10);
                                                if let Ok((_, nk)) = K::spec_from_hci_bytes(d10) {
                                                }
                                            }
                                        }
                                    }
                                }
                            }
                        }
                    }
                }
            }
        }
    }

    fn from_hci_bytes(data: &'de [u8]) -> (r: Result<((A, B, C, D, E, F, G, H, I, J, K), usize), FromHciBytesError>) {
        let rest: &'de [u8] = data;
        let total: usize = 0;
        let (a, len) = match A::from_hci_bytes(rest) {
            Ok(parsed) => parsed,
            Err(e) => return Err(e),
        };
        proof {
            A::lemma_consumed_within(rest@);
        }
        let total: usize = total + len;
        let ghost na: nat = len as nat;
        let rest: &'de [u8] = rest.split_at(len).1;
        assert(rest@ =~= data@.skip(na as int));
        assert(total == na && total <= data.len() - rest.len());
        let (b, len) = match B::from_hci_bytes(rest) {
            Ok(parsed) => parsed,
            Err(e) => return Err(e),
        };
        proof {
            B::lemma_consumed_within(rest@);
        }
        let total: usize = total + len;
        let ghost nb: nat = len as nat;
        let rest: &'de [u8] = rest.split_at(len).1;
        assert(rest@ =~= data@.skip(na as int).skip(nb as int));
        assert(total == na + nb && total <= data.len() - rest.len());
        let (c, len) = match C::from_hci_bytes(rest) {
            Ok(parsed) => parsed,
            Err(e) => return Err(e),
        };
        proof {
            C::lemma_consumed_within(rest@);
        }
        let total: usize = total + len;
        let ghost nc: nat = len as nat;
        let rest: &'de [u8] = rest.split_at(len).1;
        assert(rest@ =~= data@.skip(na as int).skip(nb as int).skip(nc as int));
        assert(total == na + nb + nc && total <= data.len() - rest.len());
        let (d, len) = match D::from_hci_bytes(rest) {
            Ok(parsed) => parsed,
            Err(e) => return Err(e),
        };
        proof {
            D::lemma_consumed_within(rest@);
        }
        let total: usize = total + len;
        let ghost nd: nat = len as nat;
        let rest: &'de [u8] = rest.split_at(len).1;
        assert(rest@ =~= data@.skip(na as int).skip(nb as int).skip(nc as int).skip(nd as int));
        assert(total == na + nb + nc + nd && total <= data.len() - rest.len());
        let (e, len) = match E::from_hci_bytes(rest) {
            Ok(parsed) => parsed,
            Err(e) => return Err(e),
        };
        proof {
            E::lemma_consumed_within(rest@);
        }
        let total: usize = total + len;
        let ghost ne: nat = len as nat;
        let rest: &'de [u8] = rest.split_at(len).1;
        assert(rest@ =~= data@.skip(na as int).skip(nb as int).skip(nc as int).skip(nd as int).skip(ne as int));
        assert(total == na + nb + nc + nd + ne && total <= data.len() - rest.len());
        let (f, len) = match F::from_hci_bytes(rest) {
            Ok(parsed) => parsed,
            Err(e) => return Err(e),
        };
        proof {
            F::lemma_consumed_within(rest@);
        }
        let total: usize = total + len;
        let ghost nf: nat = len as nat;
        let rest: &'de [u8] = rest.split_at(len).1;
        assert(rest@ =~= data@.skip(na as int).skip(nb as int).skip(nc as int).skip(nd as int).skip(ne as int).skip(nf as int));
        assert(total == na + nb + nc + nd + ne + nf && total <= data.len() - rest.len());
        let (g, len) = match G::from_hci_bytes(rest) {
            Ok(parsed) => parsed,
            Err(e) => return Err(e),
        };
        proof {
            G::lemma_consumed_within(rest@);
        }
        let total: usize = total + len;
        let ghost ng: nat = len as nat;
        let rest: &'de [u8] = rest.split_at(len).1;
        assert(rest@ =~= data@.skip(na as int).skip(nb as int).skip(nc as int).skip(nd as int).skip(ne as int).skip(nf as int).skip(ng as int));
        assert(total == na + nb + nc + nd + ne + nf + ng && total <= data.len() - rest.len());
        let (h, len) = match H::from_hci_bytes(rest) {
            Ok(parsed) => parsed,
            Err(e) => return Err(e),
        };
        proof {
            H::lemma_consumed_within(rest@);
        }
        let total: usize = total + len;
        let ghost nh: nat = len as nat;
        let rest: &'de [u8] = rest.split_at(len).1;
        assert(rest@ =~= data@.skip(na as int).skip(nb as int).skip(nc as int).skip(nd as int).skip(ne as int).skip(nf as int).skip(ng as int).skip(nh as int));
        assert(total == na + nb + nc + nd + ne + nf + ng + nh && total <= data.len() - rest.len());
        let (i, len) = match I::from_hci_bytes(rest) {
            Ok(parsed) => parsed,
            Err(e) => return Err(e),
        };
        proof {
            I::lemma_consumed_within(rest@);
        }
        let total: usize = total + len;
        let ghost ni: nat = len as nat;
        let rest: &'de [u8] = rest.split_at(len).1;
        assert(rest@ =~= data@.skip(na as int).skip(nb as int).skip(nc as int).skip(nd as int).skip(ne as int).skip(nf as int).skip(ng as int).skip(nh as int).skip(ni as int));
        assert(total == na + nb + nc + nd + ne + nf + ng + nh + ni && total <= data.len() - rest.len());
        let (j, len) = match J::from_hci_bytes(rest) {
            Ok(parsed) => parsed,
            Err(e) => return Err(e),
        };
        proof {
            J::lemma_consumed_within(rest@);
        }
        let total: usize = total + len;
        let ghost nj: nat = len as nat;
        let rest: &'de [u8] = rest.split_at(len).1;
        assert(rest@ =~= data@.skip(na as int).skip(nb as int).skip(nc as int).skip(nd as int).skip(ne as int).skip(nf as int).skip(ng as int).skip(nh as int).skip(ni as int).skip(nj as int));
        assert(total == na + nb + nc + nd + ne + nf + ng + nh + ni + nj && total <= data.len() - rest.len());
        let (k, len) = match K::from_hci_bytes(rest) {
            Ok(parsed) => parsed,
            Err(e) => return Err(e),
        };
        proof {
            K::lemma_consumed_within(rest@);
        }
        let total: usize = total + len;
        let ghost nk: nat = len as nat;
        let rest: &'de [u8] = rest.split_at(len).1;
        assert(rest@ =~= data@.skip(na as int).skip(nb as int).skip(nc as int).skip(nd as int).skip(ne as int).skip(nf as int).skip(ng as int).skip(nh as int).skip(ni as int).skip(nj as int).skip(nk as int));
        assert(total == na + nb + nc + nd + ne + nf + ng + nh + ni + nj + nk && total <= data.len() - rest.len());
        Ok(((a, b, c, d, e, f, g, h, i, j, k), total))
    }
}

impl<'de, A: HciRoundTrip<'de>, B: HciRoundTrip<'de>, C: HciRoundTrip<'de>, D: HciRoundTrip<'de>, E: HciRoundTrip<'de>, F: HciRoundTrip<'de>, G: HciRoundTrip<'de>, H: HciRoundTrip<'de>, I: HciRoundTrip<'de>, J: HciRoundTrip<'de>, K: HciRoundTrip<'de>> HciRoundTrip<'de> for (A, B, C, D, E, F, G, H, I, J, K) {
    #[verifier::rlimit(40)]
    proof fn lemma_round_trip(&self, rest: Seq<u8>) {
        assert(self.spec_hci_bytes() + rest =~= (self.0.spec_hci_bytes() + (self.1.spec_hci_bytes() + (self.2.spec_hci_bytes() + (self.3.spec_hci_bytes() + (self.4.spec_hci_bytes() + (self.5.spec_hci_bytes() + (self.6.spec_hci_bytes() + (self.7.spec_hci_bytes() + (self.8.spec_hci_bytes() + (self.9.spec_hci_bytes() + (self.10.spec_hci_bytes() + rest))))))))))));
        self.0.lemma_round_trip((self.1.spec_hci_bytes() + (self.2.spec_hci_bytes() + (self.3.spec_hci_bytes() + (self.4.spec_hci_bytes() + (self.5.spec_hci_bytes() + (self.6.spec_hci_bytes() + (self.7.spec_hci_bytes() + (self.8.spec_hci_bytes() + (self.9.spec_hci_bytes() + (self.10.spec_hci_bytes() + rest)))))))))));
        assert((self.0.spec_hci_bytes() + (self.1.spec_hci_bytes() + (self.2.spec_hci_bytes() + (self.3.spec_hci_bytes() + (self.4.spec_hci_bytes() + (self.5.spec_hci_bytes() + (self.6.spec_hci_bytes() + (self.7.spec_hci_bytes() + (self.8.spec_hci_bytes() + (self.9.spec_hci_bytes() + (self.10.spec_hci_bytes() + rest))))))))))).skip(self.0.spec_hci_bytes().len() as int) =~= (self.1.spec_hci_bytes() + (self.2.spec_hci_bytes() + (self.3.spec_hci_bytes() + (self.4.spec_hci_bytes() + (self.5.spec_hci_bytes() + (self.6.spec_hci_bytes() + (self.7.spec_hci_bytes() + (self.8.spec_hci_bytes() + (self.9.spec_hci_bytes() + (self.10.spec_hci_bytes() + rest)))))))))));
        self.1.lemma_round_trip((self.2.spec_hci_bytes() + (self.3.spec_hci_bytes() + (self.4.spec_hci_bytes() + (self.5.spec_hci_bytes() + (self.6.spec_hci_bytes() + (self.7.spec_hci_bytes() + (self.8.spec_hci_bytes() + (self.9.spec_hci_bytes() + (self.10.spec_hci_bytes() + rest))))))))));
        assert((self.1.spec_hci_bytes() + (self.2.spec_hci_bytes() + (self.3.spec_hci_bytes() + (self.4.spec_hci_bytes() + (self.5.spec_hci_bytes() + (self.6.spec_hci_bytes() + (self.7.spec_hci_bytes() + (self.8.spec_hci_bytes() + (self.9.spec_hci_bytes() + (self.10.spec_hci_bytes() + rest)))))))))).skip(self.1.spec_hci_bytes().len() as int) =~= (self.2.spec_hci_bytes() + (self.3.spec_hci_bytes() + (self.4.spec_hci_bytes() + (self.5.spec_hci_bytes() + (self.6.spec_hci_bytes() + (self.7.spec_hci_bytes() + (self.8.spec_hci_bytes() + (self.9.spec_hci_bytes() + (self.10.spec_hci_bytes() + rest))))))))));
        self.2.lemma_round_trip((self.3.spec_hci_bytes() + (self.4.spec_hci_bytes() + (self.5.spec_hci_bytes() + (self.6.spec_hci_bytes() + (self.7.spec_hci_bytes() + (self.8.spec_hci_bytes() + (self.9.spec_hci_bytes() + (self.10.spec_hci_bytes() + rest)))))))));
        assert((self.2.spec_hci_bytes() + (self.3.spec_hci_bytes() + (self.4.spec_hci_bytes() + (self.5.spec_hci_bytes() + (self.6.spec_hci_bytes() + (self.7.spec_hci_bytes() + (self.8.spec_hci_bytes() + (self.9.spec_hci_bytes() + (self.10.spec_hci_bytes() + rest))))))))).skip(self.2.spec_hci_bytes().len() as int) =~= (self.3.spec_hci_bytes() + (self.4.spec_hci_bytes() + (self.5.spec_hci_bytes() + (self.6.spec_hci_bytes() + (self.7.spec_hci_bytes() + (self.8.spec_hci_bytes() + (self.9.spec_hci_bytes() + (self.10.spec_hci_bytes() + rest)))))))));
        self.3.lemma_round_trip((self.4.spec_hci_bytes() + (self.5.spec_hci_bytes() + (self.6.spec_hci_bytes() + (self.7.spec_hci_bytes() + (self.8.spec_hci_bytes() + (self.9.spec_hci_bytes() + (self.10.spec_hci_bytes() + rest))))))));
        assert((self.3.spec_hci_bytes() + (self.4.spec_hci_bytes() + (self.5.spec_hci_bytes() + (self.6.spec_hci_bytes() + (self.7.spec_hci_bytes() + (self.8.spec_hci_bytes() + (self.9.spec_hci_bytes() + (self.10.spec_hci_bytes() + rest)))))))).skip(self.3.spec_hci_bytes().len() as int) =~= (self.4.spec_hci_bytes() + (self.5.spec_hci_bytes() + (self.6.spec_hci_bytes() + (self.7.spec_hci_bytes() + (self.8.spec_hci_bytes() + (self.9.spec_hci_bytes() + (self.10.spec_hci_bytes() + rest))))))));
        self.4.lemma_round_trip((self.5.spec_hci_bytes() + (self.6.spec_hci_bytes() + (self.7.spec_hci_bytes() + (self.8.spec_hci_bytes() + (self.9.spec_hci_bytes() + (self.10.spec_hci_bytes() + rest)))))));
        assert((self.4.spec_hci_bytes() + (self.5.spec_hci_bytes() + (self.6.spec_hci_bytes() + (self.7.spec_hci_bytes() + (self.8.spec_hci_bytes() + (self.9.spec_hci_bytes() + (self.10.spec_hci_bytes() + rest))))))).skip(self.4.spec_hci_bytes().len() as int) =~= (self.5.spec_hci_bytes() + (self.6.spec_hci_bytes() + (self.7.spec_hci_bytes() + (self.8.spec_hci_bytes() + (self.9.spec_hci_bytes() + (self.10.spec_hci_bytes() + rest)))))));
        self.5.lemma_round_trip((self.6.spec_hci_bytes() + (self.7.spec_hci_bytes() + (self.8.spec_hci_bytes() + (self.9.spec_hci_bytes() + (self.10.spec_hci_bytes() + rest))))));
        assert((self.5.spec_hci_bytes() + (self.6.spec_hci_bytes() + (self.7.spec_hci_bytes() + (self.8.spec_hci_bytes() + (self.9.spec_hci_bytes() + (self.10.spec_hci_bytes() + rest)))))).skip(self.5.spec_hci_bytes().len() as int) =~= (self.6.spec_hci_bytes() + (self.7.spec_hci_bytes() + (self.8.spec_hci_bytes() + (self.9.spec_hci_bytes() + (self.10.spec_hci_bytes() + rest))))));
        self.6.lemma_round_trip((self.7.spec_hci_bytes() + (self.8.spec_hci_bytes() + (self.9.spec_hci_bytes() + (self.10.spec_hci_bytes() + rest)))));
        assert((self.6.spec_hci_bytes() + (self.7.spec_hci_bytes() + (self.8.spec_hci_bytes() + (self.9.spec_hci_bytes() + (self.10.spec_hci_bytes() + rest))))).skip(self.6.spec_hci_bytes().len() as int) =~= (self.7.spec_hci_bytes() + (self.8.spec_hci_bytes() + (self.9.spec_hci_bytes() + (self.10.spec_hci_bytes() + rest)))));
        self.7.lemma_round_trip((self.8.spec_hci_bytes() + (self.9.spec_hci_bytes() + (self.10.spec_hci_bytes() + rest))));
        assert((self.7.spec_hci_bytes() + (self.8.spec_hci_bytes() + (self.9.spec_hci_bytes() + (self.10.spec_hci_bytes() + rest)))).skip(self.7.spec_hci_bytes().len() as int) =~= (self.8.spec_hci_bytes() + (self.9.spec_hci_bytes() + (self.10.spec_hci_bytes() + rest))));
        self.8.lemma_round_trip((self.9.spec_hci_bytes() + (self.10.spec_hci_bytes() + rest)));
        assert((self.8.spec_hci_bytes() + (self.9.spec_hci_bytes() + (self.10.spec_hci_bytes() + rest))).skip(self.8.spec_hci_bytes().len() as int) =~= (self.9.spec_hci_bytes() + (self.10.spec_hci_bytes() + rest)));
        self.9.lemma_round_trip((self.10.spec_hci_bytes() + rest));
        assert((self.9.spec_hci_bytes() + (self.10.spec_hci_bytes() + rest)).skip(self.9.spec_hci_bytes().len() as int) =~= (self.10.spec_hci_bytes() + rest));
        self.10.lemma_round_trip(rest);
        assert((self.10.spec_hci_bytes() + rest).skip(self.10.spec_hci_bytes().len() as int) =~= rest);
    }
}

impl<A: WriteHci, B: WriteHci, C: WriteHci, D: WriteHci, E: WriteHci, F: WriteHci, G: WriteHci, H: WriteHci, I: WriteHci, J: WriteHci, K: WriteHci, L: WriteHci> WriteHci for (A, B, C, D, E, F, G, H, I, J, K, L) {
    open spec fn spec_hci_bytes(&self) -> Seq<u8> {
        self.0.spec_hci_bytes() + self.1.spec_hci_bytes() + self.2.spec_hci_bytes() + self.3.spec_hci_bytes() + self.4.spec_hci_bytes() + self.5.spec_hci_bytes() + self.6.spec_hci_bytes() + self.7.spec_hci_bytes() + self.8.spec_hci_bytes() + self.9.spec_hci_bytes() + self.10.spec_hci_bytes() + self.11.spec_hci_bytes()
    }

    open spec fn spec_size(&self) -> nat {
        self.0.spec_size() + self.1.spec_size() + self.2.spec_size() + self.3.spec_size() + self.4.spec_size() + self.5.spec_size() + self.6.spec_size() + self.7.spec_size() + self.8.spec_size() + self.9.spec_size() + self.10.spec_size() + self.11.spec_size()
    }

    fn size(&self) -> (n: usize) {
        let mut n: usize = 0;
        assert(self.0.spec_size() <= self.spec_size());
        n = n + self.0.size();
        assert(self.0.spec_size() + self.1.spec_size() <= self.spec_size());
        n = n + self.1.size();
        assert(self.0.spec_size() + self.1.spec_size() + self.2.spec_size() <= self.spec_size());
        n = n + self.2.size();
        assert(self.0.spec_size() + self.1.spec_size() + self.2.spec_size() + self.3.spec_size() <= self.spec_size());
        n = n + self.3.size();
        assert(self.0.spec_size() + self.1.spec_size() + self.2.spec_size() + self.3.spec_size() + self.4.spec_size() <= self.spec_size());
        n = n + self.4.size();
        assert(self.0.spec_size() + self.1.spec_size() + self.2.spec_size() + self.3.spec_size() + self.4.spec_size() + self.5.spec_size() <= self.spec_size());
        n = n + self.5.size();
        assert(self.0.spec_size() + self.1.spec_size() + self.2.spec_size() + self.3.spec_size() + self.4.spec_size() + self.5.spec_size() + self.6.spec_size() <= self.spec_size());
        n = n + self.6.size();
        assert(self.0.spec_size() + self.1.spec_size() + self.2.spec_size() + self.3.spec_size() + self.4.spec_size() + self.5.spec_size() + self.6.spec_size() + self.7.spec_size() <= self.spec_size());
        n = n + self.7.size();
        assert(self.0.spec_size() + self.1.spec_size() + self.2.spec_size() + self.3.spec_size() + self.4.spec_size() + self.5.spec_size() + self.6.spec_size() + self.7.spec_size() + self.8.spec_size() <= self.spec_size());
        n = n + self.8.size();
        assert(self.0.spec_size() + self.1.spec_size() + self.2.spec_size() + self.3.spec_size() + self.4.spec_size() + self.5.spec_size() + self.6.spec_size() + self.7.spec_size() + self.8.spec_size() + self.9.spec_size() <= self.spec_size());
        n = n + self.9.size();
        assert(self.0.spec_size() + self.1.spec_size() + self.2.spec_size() + self.3.spec_size() + self.4.spec_size() + self.5.spec_size() + self.6.spec_size() + self.7.spec_size() + self.8.spec_size() + self.9.spec_size() + self.10.spec_size() <= self.spec_size());
        n = n + self.10.size();
        assert(self.0.spec_size() + self.1.spec_size() + self.2.spec_size() + self.3.spec_size() + self.4.spec_size() + self.5.spec_size() + self.6.spec_size() + self.7.spec_size() + self.8.spec_size() + self.9.spec_size() + self.10.spec_size() + self.11.spec_size() <= self.spec_size());
        n = n + self.11.size();
        n
    }

    fn write_hci(&self, out: &mut Vec<u8>) {
        self.0.write_hci(out);
        assert(out@ =~= old(out)@ + (self.0.spec_hci_bytes()));
        self.1.write_hci(out);
        assert(out@ =~= old(out)@ + (self.0.spec_hci_bytes() + self.1.spec_hci_bytes()));
        self.2.write_hci(out);
        assert(out@ =~= old(out)@ + (self.0.spec_hci_bytes() + self.1.spec_hci_bytes() + self.2.spec_hci_bytes()));
        self.3.write_hci(out);
        assert(out@ =~= old(out)@ + (self.0.spec_hci_bytes() + self.1.spec_hci_bytes() + self.2.spec_hci_bytes() + self.3.spec_hci_bytes()));
        self.4.write_hci(out);
        assert(out@ =~= old(out)@ + (self.0.spec_hci_bytes() + self.1.spec_hci_bytes() + self.2.spec_hci_bytes() + self.3.spec_hci_bytes() + self.4.spec_hci_bytes()));
        self.5.write_hci(out);
        assert(out@ =~= old(out)@ + (self.0.spec_hci_bytes() + self.1.spec_hci_bytes() + self.2.spec_hci_bytes() + self.3.spec_hci_bytes() + self.4.spec_hci_bytes() + self.5.spec_hci_bytes()));
        self.6.write_hci(out);
        assert(out@ =~= old(out)@ + (self.0.spec_hci_bytes() + self.1.spec_hci_bytes() + self.2.spec_hci_bytes() + self.3.spec_hci_bytes() + self.4.spec_hci_bytes() + self.5.spec_hci_bytes() + self.6.spec_hci_bytes()));
        self.7.write_hci(out);
        assert(out@ =~= old(out)@ + (self.0.spec_hci_bytes() + self.1.spec_hci_bytes() + self.2.spec_hci_bytes() + self.3.spec_hci_bytes() + self.4.spec_hci_bytes() + self.5.spec_hci_bytes() + self.6.spec_hci_bytes() + self.7.spec_hci_bytes()));
        self.8.write_hci(out);
        assert(out@ =~= old(out)@ + (self.0.spec_hci_bytes() + self.1.spec_hci_bytes() + self.2.spec_hci_bytes() + self.3.spec_hci_bytes() + self.4.spec_hci_bytes() + self.5.spec_hci_bytes() + self.6.spec_hci_bytes() + self.7.spec_hci_bytes() + self.8.spec_hci_bytes()));
        self.9.write_hci(out);
        assert(out@ =~= old(out)@ + (self.0.spec_hci_bytes() + self.1.spec_hci_bytes() + self.2.spec_hci_bytes() + self.3.spec_hci_bytes() + self.4.spec_hci_bytes() + self.5.spec_hci_bytes() + self.6.spec_hci_bytes() + self.7.spec_hci_bytes() + self.8.spec_hci_bytes() + self.9.spec_hci_bytes()));
        self.10.write_hci(out);
        assert(out@ =~= old(out)@ + (self.0.spec_hci_bytes() + self.1.spec_hci_bytes() + self.2.spec_hci_bytes() + self.3.spec_hci_bytes() + self.4.spec_hci_bytes() + self.5.spec_hci_bytes() + self.6.spec_hci_bytes() + self.7.spec_hci_bytes() + self.8.spec_hci_bytes() + self.9.spec_hci_bytes() + self.10.spec_hci_bytes()));
        self.11.write_hci(out);
        assert(out@ =~= old(out)@ + (self.0.spec_hci_bytes() + self.1.spec_hci_bytes() + self.2.spec_hci_bytes() + self.3.spec_hci_bytes() + self.4.spec_hci_bytes() + self.5.spec_hci_bytes() + self.6.spec_hci_bytes() + self.7.spec_hci_bytes() + self.8.spec_hci_bytes() + self.9.spec_hci_bytes() + self.10.spec_hci_bytes() + self.11.spec_hci_bytes()));
    }
}

impl<'de, A: FromHciBytes<'de>, B: FromHciBytes<'de>, C: FromHciBytes<'de>, D: FromHciBytes<'de>, E: FromHciBytes<'de>, F: FromHciBytes<'de>, G: FromHciBytes<'de>, H: FromHciBytes<'de>, I: FromHciBytes<'de>, J: FromHciBytes<'de>, K: FromHciBytes<'de>, L: FromHciBytes<'de>> FromHciBytes<'de> for (A, B, C, D, E, F, G, H, I, J, K, L) {
    open spec fn spec_from_hci_bytes(data: Seq<u8>) -> Result<((A::V, B::V, C::V, D::V, E::V, F::V, G::V, H::V, I::V, J::V, K::V, L::V), nat), FromHciBytesError> {
        match A::spec_from_hci_bytes(data) {
            Err(e) => Err(e),
            Ok((a, na)) => {
                match B::spec_from_hci_bytes(data.skip(na as int)) {
                    Err(e) => Err(e),
                    Ok((b, nb)) => {
                        match C::spec_from_hci_bytes(data.skip(na as int).skip(nb as int)) {
                            Err(e) => Err(e),
                            Ok((c, nc)) => {
                                match D::spec_from_hci_bytes(data.skip(na as int).skip(nb as int).skip(nc as int)) {
                                    Err(e) => Err(e),
                                    Ok((d, nd)) => {
                                        match E::spec_from_hci_bytes(data.skip(na as int).skip(nb as int).skip(nc as int).skip(nd as int)) {
                                            Err(e) => Err(e),
                                            Ok((e, ne)) => {
                                                match F::spec_from_hci_bytes(data.skip(na as int).skip(nb as int).skip(nc as int).skip(nd as int).skip(ne as int)) {
                                                    Err(e) => Err(e),
                                                    Ok((f, nf)) => {
                                                        match G::spec_from_hci_bytes(data.skip(na as int).skip(nb as int).skip(nc as int).skip(nd as int).skip(ne as int).skip(nf as int)) {
                                                            Err(e) => Err(e),
                                                            Ok((g, ng)) => {
                                                                match H::spec_from_hci_bytes(data.skip(na as int).skip(nb as int).skip(nc as int).skip(nd as int).skip(ne as int).skip(nf as int).skip(ng as int)) {
                                                                    Err(e) => Err(e),
                                                                    Ok((h, nh)) => {
                                                                        match I::spec_from_hci_bytes(data.skip(na as int).skip(nb as int).skip(nc as int).skip(nd as int).skip(ne as int).skip(nf as int).skip(ng as int).skip(nh as int)) {
                                                                            Err(e) => Err(e),
                                                                            Ok((i, ni)) => {
                                                                                match J::spec_from_hci_bytes(data.skip(na as int).skip(nb as int).skip(nc as int).skip(nd as int).skip(ne as int).skip(nf as int).skip(ng as int).skip(nh as int).skip(ni as int)) {
                                                                                    Err(e) => Err(e),
                                                                                    Ok((j, nj)) => {
                                                                                        match K::spec_from_hci_bytes(data.skip(na as int).skip(nb as int).skip(nc as int).skip(nd as int).skip(ne as int).skip(nf as int).skip(ng as int).skip(nh as int).skip(ni as int).skip(nj as int)) {
                                                                                            Err(e) => Err(e),
                                                                                            Ok((k, nk)) => {
                                                                                                match L::spec_from_hci_bytes(data.skip(na as int).skip(nb as int).skip(nc as int).skip(nd as int).skip(ne as int).skip(nf as int).skip(ng as int).skip(nh as int).skip(ni as int).skip(nj as int).skip(nk as int)) {
                                                                                                    Err(e) => Err(e),
                                                                                                    Ok((l, nl)) => {
                                                                                                        Ok(((a, b, c, d, e, f, g, h, i, j, k, l), na + nb + nc + nd + ne + nf + ng + nh + ni + nj + nk + nl))
                                                                                                    },
                                                                                                }
                                                                                            },
                                                                                        }
                                                                                    },
                                                                                }
                                                                            },
                                                                        }
                                                                    },
                                                                }
                                                            },
                                                        }
                                                    },
                                                }
                                            },
                                        }
                                    },
                                }
                            },
                        }
                    },
                }
            },
        }
    }

    proof fn lemma_consumed_within(data: Seq<u8>) {
        A::lemma_consumed_within(data);
        if let Ok((_, na)) = A::spec_from_hci_bytes(data) {
            let d1 = data.skip(na as int);
            B::lemma_consumed_within(d1);
            if let Ok((_, nb)) = B::spec_from_hci_bytes(d1) {
                let d2 = d1.skip(nb as int);
                C::lemma_consumed_within(d2);
                if let Ok((_, nc)) = C::spec_from_hci_bytes(d2) {
                    let d3 = d2.skip(nc as int);
                    D::lemma_consumed_within(d3);
                    if let Ok((_, nd)) = D::spec_from_hci_bytes(d3) {
                        let d4 = d3.skip(nd as int);
                        E::lemma_consumed_within(d4);
                        if let Ok((_, ne)) = E::spec_from_hci_bytes(d4) {
                            let d5 = d4.skip(ne as int);
                            F::lemma_consumed_within(d5);
                            if let Ok((_, nf)) = F::spec_from_hci_bytes(d5) {
                                let d6 = d5.skip(nf as int);
                                G::lemma_consumed_within(d6);
                                if let Ok((_, ng)) = G::spec_from_hci_bytes(d6) {
                                    let d7 = d6.skip(ng as int);
                                    H::lemma_consumed_within(d7);
                                    if let Ok((_, nh)) = H::spec_from_hci_bytes(d7) {
                                        let d8 = d7.skip(nh as int);
                                        I::lemma_consumed_within(d8);
                                        if let Ok((_, ni)) = I::spec_from_hci_bytes(d8) {
                                            let d9 = d8.skip(ni as int);
                                            J::lemma_consumed_within(d9);
                                            if let Ok((_, nj)) = J::spec_from_hci_bytes(d9) {
                                                let d10 = d9.skip(nj as int);
                                                K::lemma_consumed_within(d10);
                                                if let Ok((_, nk)) = K::spec_from_hci_bytes(d10) {
                                                    let d11 = d10.skip(nk as int);
                                                    L::lemma_consumed_within(d11);
                                                    if let Ok((_, nl)) = L::spec_from_hci_bytes(d11) {
                                                    }
                                                }
                                            }
                                        }
                                    }
                                }
                            }
                        }
                    }
                }
            }
        }
    }

    fn from_hci_bytes(data: &'de [u8]) -> (r: Result<((A, B, C, D, E, F, G, H, I, J, K, L), usize), FromHciBytesError>) {
        let rest: &'de [u8] = data;
        let total: usize = 0;
        let (a, len) = match A::from_hci_bytes(rest) {
            Ok(parsed) => parsed,
            Err(e) => return Err(e),
        };
        proof {
            A::lemma_consumed_within(rest@);
        }
        let total: usize = total + len;
        let ghost na: nat = len as nat;
        let rest: &'de [u8] = rest.split_at(len).1;
        assert(rest@ =~= data@.skip(na as int));
        assert(total == na && total <= data.len() - rest.len());
        let (b, len) = match B::from_hci_bytes(rest) {
            Ok(parsed) => parsed,
            Err(e) => return Err(e),
        };
        proof {
            B::lemma_consumed_within(rest@);
        }
        let total: usize = total + len;
        let ghost nb: nat = len as nat;
        let rest: &'de [u8] = rest.split_at(len).1;
        assert(rest@ =~= data@.skip(na as int).skip(nb as int));
        assert(total == na + nb && total <= data.len() - rest.len());
        let (c, len) = match C::from_hci_bytes(rest) {
            Ok(parsed) => parsed,
            Err(e) => return Err(e),
        };
        proof {
            C::lemma_consumed_within(rest@);
        }
        let total: usize = total + len;
        let ghost nc: nat = len as nat;
        let rest: &'de [u8] = rest.split_at(len).1;
        assert(rest@ =~= data@.skip(na as int).skip(nb as int).skip(nc as int));
        assert(total == na + nb + nc && total <= data.len() - rest.len());
        let (d, len) = match D::from_hci_bytes(rest) {
            Ok(parsed) => parsed,
            Err(e) => return Err(e),
        };
        proof {
            D::lemma_consumed_within(rest@);
        }
        let total: usize = total + len;
        let ghost nd: nat = len as nat;
        let rest: &'de [u8] = rest.split_at(len).1;
        assert(rest@ =~= data@.skip(na as int).skip(nb as int).skip(nc as int).skip(nd as int));
        assert(total == na + nb + nc + nd && total <= data.len() - rest.len());
        let (e, len) = match E::from_hci_bytes(rest) {
            Ok(parsed) => parsed,
            Err(e) => return Err(e),
        };
        proof {
            E::lemma_consumed_within(rest@);
        }
        let total: usize = total + len;
        let ghost ne: nat = len as nat;
        let rest: &'de [u8] = rest.split_at(len).1;
        assert(rest@ =~= data@.skip(na as int).skip(nb as int).skip(nc as int).skip(nd as int).skip(ne as int));
        assert(total == na + nb + nc + nd + ne && total <= data.len() - rest.len());
        let (f, len) = match F::from_hci_bytes(rest) {
            Ok(parsed) => parsed,
            Err(e) => return Err(e),
        };
        proof {
            F::lemma_consumed_within(rest@);
        }
        let total: usize = total + len;
        let ghost nf: nat = len as nat;
        let rest: &'de [u8] = rest.split_at(len).1;
        assert(rest@ =~= data@.skip(na as int).skip(nb as int).skip(nc as int).skip(nd as int).skip(ne as int).skip(nf as int));
        assert(total == na + nb + nc + nd + ne + nf && total <= data.len() - rest.len());
        let (g, len) = match G::from_hci_bytes(rest) {
            Ok(parsed) => parsed,
            Err(e) => return Err(e),
        };
        proof {
            G::lemma_consumed_within(rest@);
        }
        let total: usize = total + len;
        let ghost ng: nat = len as nat;
        let rest: &'de [u8] = rest.split_at(len).1;
        assert(rest@ =~= data@.skip(na as int).skip(nb as int).skip(nc as int).skip(nd as int).skip(ne as int).skip(nf as int).skip(ng as int));
        assert(total == na + nb + nc + nd + ne + nf + ng && total <= data.len() - rest.len());
        let (h, len) = match H::from_hci_bytes(rest) {
            Ok(parsed) => parsed,
            Err(e) => return Err(e),
        };
        proof {
            H::lemma_consumed_within(rest@);
        }
        let total: usize = total + len;
        let ghost nh: nat = len as nat;
        let rest: &'de [u8] = rest.split_at(len).1;
        assert(rest@ =~= data@.skip(na as int).skip(nb as int).skip(nc as int).skip(nd as int).skip(ne as int).skip(nf as int).skip(ng as int).skip(nh as int));
        assert(total == na + nb + nc + nd + ne + nf + ng + nh && total <= data.len() - rest.len());
        let (i, len) = match I::from_hci_bytes(rest) {
            Ok(parsed) => parsed,
            Err(e) => return Err(e),
        };
        proof {
            I::lemma_consumed_within(rest@);
        }
        let total: usize = total + len;
        let ghost ni: nat = len as nat;
        let rest: &'de [u8] = rest.split_at(len).1;
        assert(rest@ =~= data@.skip(na as int).skip(nb as int).skip(nc as int).skip(nd as int).skip(ne as int).skip(nf as int).skip(ng as int).skip(nh as int).skip(ni as int));
        assert(total == na + nb + nc + nd + ne + nf + ng + nh + ni && total <= data.len() - rest.len());
        let (j, len) = match J::from_hci_bytes(rest) {
            Ok(parsed) => parsed,
            Err(e) => return Err(e),
        };
        proof {
            J::lemma_consumed_within(rest@);
        }
        let total: usize = total + len;
        let ghost nj: nat = len as nat;
        let rest: &'de [u8] = rest.split_at(len).1;
        assert(rest@ =~= data@.skip(na as int).skip(nb as int).skip(nc as int).skip(nd as int).skip(ne as int).skip(nf as int).skip(ng as int).skip(nh as int).skip(ni as int).skip(nj as int));
        assert(total == na + nb + nc + nd + ne + nf + ng + nh + ni + nj && total <= data.len() - rest.len());
        let (k, len) = match K::from_hci_bytes(rest) {
            Ok(parsed) => parsed,
            Err(e) => return Err(e),
        };
        proof {
            K::lemma_consumed_within(rest@);
        }
        let total: usize = total + len;
        let ghost nk: nat = len as nat;
        let rest: &'de [u8] = rest.split_at(len).1;
        assert(rest@ =~= data@.skip(na as int).skip(nb as int).skip(nc as int).skip(nd as int).skip(ne as int).skip(nf as int).skip(ng as int).skip(nh as int).skip(ni as int).skip(nj as int).skip(nk as int));
        assert(total == na + nb + nc + nd + ne + nf + ng + nh + ni + nj + nk && total <= data.len() - rest.len());
        let (l, len) = match L::from_hci_bytes(rest) {
            Ok(parsed) => parsed,
            Err(e) => return Err(e),
        };
        proof {
            L::lemma_consumed_within(rest@);
        }
        let total: usize = total + len;
        let ghost nl: nat = len as nat;
        let rest: &'de [u8] = rest.split_at(len).1;
        assert(rest@ =~= data@.skip(na as int).skip(nb as int).skip(nc as int).skip(nd as int).skip(ne as int).skip(nf as int).skip(ng as int).skip(nh as int).skip(ni as int).skip(nj as int).skip(nk as int).skip(nl as int));
        assert(total == na + nb + nc + nd + ne + nf + ng + nh + ni + nj + nk + nl && total <= data.len() - rest.len());
        Ok(((a, b, c, d, e, f, g, h, i, j, k, l), total))
    }
}

impl<'de, A: HciRoundTrip<'de>, B: HciRoundTrip<'de>, C: HciRoundTrip<'de>, D: HciRoundTrip<'de>, E: HciRoundTrip<'de>, F: HciRoundTrip<'de>, G: HciRoundTrip<'de>, H: HciRoundTrip<'de>, I: HciRoundTrip<'de>, J: HciRoundTrip<'de>, K: HciRoundTrip<'de>, L: HciRoundTrip<'de>> HciRoundTrip<'de> for (A, B, C, D, E, F, G, H, I, J, K, L) {
    #[verifier::rlimit(40)]
    proof fn lemma_round_trip(&self, rest: Seq<u8>) {
        assert(self.spec_hci_bytes() + rest =~= (self.0.spec_hci_bytes() + (self.1.spec_hci_bytes() + (self.2.spec_hci_bytes() + (self.3.spec_hci_bytes() + (self.4.spec_hci_bytes() + (self.5.spec_hci_bytes() + (self.6.spec_hci_bytes() + (self.7.spec_hci_bytes() + (self.8.spec_hci_bytes() + (self.9.spec_hci_bytes() + (self.10.spec_hci_bytes() + (self.11.spec_hci_bytes() + rest)))))))))))));
        self.0.lemma_round_trip((self.1.spec_hci_bytes() + (self.2.spec_hci_bytes() + (self.3.spec_hci_bytes() + (self.4.spec_hci_bytes() + (self.5.spec_hci_bytes() + (self.6.spec_hci_bytes() + (self.7.spec_hci_bytes() + (self.8.spec_hci_bytes() + (self.9.spec_hci_bytes() + (self.10.spec_hci_bytes() + (self.11.spec_hci_bytes() + rest))))))))))));
        assert((self.0.spec_hci_bytes() + (self.1.spec_hci_bytes() + (self.2.spec_hci_bytes() + (self.3.spec_hci_bytes() + (self.4.spec_hci_bytes() + (self.5.spec_hci_bytes() + (self.6.spec_hci_bytes() + (self.7.spec_hci_bytes() + (self.8.spec_hci_bytes() + (self.9.spec_hci_bytes() + (self.10.spec_hci_bytes() + (self.11.spec_hci_bytes() + rest)))))))))))).skip(self.0.spec_hci_bytes().len() as int) =~= (self.1.spec_hci_bytes() + (self.2.spec_hci_bytes() + (self.3.spec_hci_bytes() + (self.4.spec_hci_bytes() + (self.5.spec_hci_bytes() + (self.6.spec_hci_bytes() + (self.7.spec_hci_bytes() + (self.8.spec_hci_bytes() + (self.9.spec_hci_bytes() + (self.10.spec_hci_bytes() + (self.11.spec_hci_bytes() + rest))))))))))));
        self.1.lemma_round_trip((self.2.spec_hci_bytes() + (self.3.spec_hci_bytes() + (self.4.spec_hci_bytes() + (self.5.spec_hci_bytes() + (self.6.spec_hci_bytes() + (self.7.spec_hci_bytes() + (self.8.spec_hci_bytes() + (self.9.spec_hci_bytes() + (self.10.spec_hci_bytes() + (self.11.spec_hci_bytes() + rest)))))))))));
        assert((self.1.spec_hci_bytes() + (self.2.spec_hci_bytes() + (self.3.spec_hci_bytes() + (self.4.spec_hci_bytes() + (self.5.spec_hci_bytes() + (self.6.spec_hci_bytes() + (self.7.spec_hci_bytes() + (self.8.spec_hci_bytes() + (self.9.spec_hci_bytes() + (self.10.spec_hci_bytes() + (self.11.spec_hci_bytes() + rest))))))))))).skip(self.1.spec_hci_bytes().len() as int) =~= (self.2.spec_hci_bytes() + (self.3.spec_hci_bytes() + (self.4.spec_hci_bytes() + (self.5.spec_hci_bytes() + (self.6.spec_hci_bytes() + (self.7.spec_hci_bytes() + (self.8.spec_hci_bytes() + (self.9.spec_hci_bytes() + (self.10.spec_hci_bytes() + (self.11.spec_hci_bytes() + rest)))))))))));
        self.2.lemma_round_trip((self.3.spec_hci_bytes() + (self.4.spec_hci_bytes() + (self.5.spec_hci_bytes() + (self.6.spec_hci_bytes() + (self.7.spec_hci_bytes() + (self.8.spec_hci_bytes() + (self.9.spec_hci_bytes() + (self.10.spec_hci_bytes() + (self.11.spec_hci_bytes() + rest))))))))));
        assert((self.2.spec_hci_bytes() + (self.3.spec_hci_bytes() + (self.4.spec_hci_bytes() + (self.5.spec_hci_bytes() + (self.6.spec_hci_bytes() + (self.7.spec_hci_bytes() + (self.8.spec_hci_bytes() + (self.9.spec_hci_bytes() + (self.10.spec_hci_bytes() + (self.11.spec_hci_bytes() + rest)))))))))).skip(self.2.spec_hci_bytes().len() as int) =~= (self.3.spec_hci_bytes() + (self.4.spec_hci_bytes() + (self.5.spec_hci_bytes() + (self.6.spec_hci_bytes() + (self.7.spec_hci_bytes() + (self.8.spec_hci_bytes() + (self.9.spec_hci_bytes() + (self.10.spec_hci_bytes() + (self.11.spec_hci_bytes() + rest))))))))));
        self.3.lemma_round_trip((self.4.spec_hci_bytes() + (self.5.spec_hci_bytes() + (self.6.spec_hci_bytes() + (self.7.spec_hci_bytes() + (self.8.spec_hci_bytes() + (self.9.spec_hci_bytes() + (self.10.spec_hci_bytes() + (self.11.spec_hci_bytes() + rest)))))))));
        assert((self.3.spec_hci_bytes() + (self.4.spec_hci_bytes() + (self.5.spec_hci_bytes() + (self.6.spec_hci_bytes() + (self.7.spec_hci_bytes() + (self.8.spec_hci_bytes() + (self.9.spec_hci_bytes() + (self.10.spec_hci_bytes() + (self.11.spec_hci_bytes() + rest))))))))).skip(self.3.spec_hci_bytes().len() as int) =~= (self.4.spec_hci_bytes() + (self.5.spec_hci_bytes() + (self.6.spec_hci_bytes() + (self.7.spec_hci_bytes() + (self.8.spec_hci_bytes() + (self.9.spec_hci_bytes() + (self.10.spec_hci_bytes() + (self.11.spec_hci_bytes() + rest)))))))));
        self.4.lemma_round_trip((self.5.spec_hci_bytes() + (self.6.spec_hci_bytes() + (self.7.spec_hci_bytes() + (self.8.spec_hci_bytes() + (self.9.spec_hci_bytes() + (self.10.spec_hci_bytes() + (self.11.spec_hci_bytes() + rest))))))));
        assert((self.4.spec_hci_bytes() + (self.5.spec_hci_bytes() + (self.6.spec_hci_bytes() + (self.7.spec_hci_bytes() + (self.8.spec_hci_bytes() + (self.9.spec_hci_bytes() + (self.10.spec_hci_bytes() + (self.11.spec_hci_bytes() + rest)))))))).skip(self.4.spec_hci_bytes().len() as int) =~= (self.5.spec_hci_bytes() + (self.6.spec_hci_bytes() + (self.7.spec_hci_bytes() + (self.8.spec_hci_bytes() + (self.9.spec_hci_bytes() + (self.10.spec_hci_bytes() + (self.11.spec_hci_bytes() + rest))))))));
        self.5.lemma_round_trip((self.6.spec_hci_bytes() + (self.7.spec_hci_bytes() + (self.8.spec_hci_bytes() + (self.9.spec_hci_bytes() + (self.10.spec_hci_bytes() + (self.11.spec_hci_bytes() + rest)))))));
        assert((self.5.spec_hci_bytes() + (self.6.spec_hci_bytes() + (self.7.spec_hci_bytes() + (self.8.spec_hci_bytes() + (self.9.spec_hci_bytes() + (self.10.spec_hci_bytes() + (self.11.spec_hci_bytes() + rest))))))).skip(self.5.spec_hci_bytes().len() as int) =~= (self.6.spec_hci_bytes() + (self.7.spec_hci_bytes() + (self.8.spec_hci_bytes() + (self.9.spec_hci_bytes() + (self.10.spec_hci_bytes() + (self.11.spec_hci_bytes() + rest)))))));
        self.6.lemma_round_trip((self.7.spec_hci_bytes() + (self.8.spec_hci_bytes() + (self.9.spec_hci_bytes() + (self.10.spec_hci_bytes() + (self.11.spec_hci_bytes() + rest))))));
        assert((self.6.spec_hci_bytes() + (self.7.spec_hci_bytes() + (self.8.spec_hci_bytes() + (self.9.spec_hci_bytes() + (self.10.spec_hci_bytes() + (self.11.spec_hci_bytes() + rest)))))).skip(self.6.spec_hci_bytes().len() as int) =~= (self.7.spec_hci_bytes() + (self.8.spec_hci_bytes() + (self.9.spec_hci_bytes() + (self.10.spec_hci_bytes() + (self.11.spec_hci_bytes() + rest))))));
        self.7.lemma_round_trip((self.8.spec_hci_bytes() + (self.9.spec_hci_bytes() + (self.10.spec_hci_bytes() + (self.11.spec_hci_bytes() + rest)))));
        assert((self.7.spec_hci_bytes() + (self.8.spec_hci_bytes() + (self.9.spec_hci_bytes() + (self.10.spec_hci_bytes() + (self.11.spec_hci_bytes() + rest))))).skip(self.7.spec_hci_bytes().len() as int) =~= (self.8.spec_hci_bytes() + (self.9.spec_hci_bytes() + (self.10.spec_hci_bytes() + (self.11.spec_hci_bytes() + rest)))));
        self.8.lemma_round_trip((self.9.spec_hci_bytes() + (self.10.spec_hci_bytes() + (self.11.spec_hci_bytes() + rest))));
        assert((self.8.spec_hci_bytes() + (self.9.spec_hci_bytes() + (self.10.spec_hci_bytes() + (self.11.spec_hci_bytes() + rest)))).skip(self.8.spec_hci_bytes().len() as int) =~= (self.9.spec_hci_bytes() + (self.10.spec_hci_bytes() + (self.11.spec_hci_bytes() + rest))));
        self.9.lemma_round_trip((self.10.spec_hci_bytes() + (self.11.spec_hci_bytes() + rest)));
        assert((self.9.spec_hci_bytes() + (self.10.spec_hci_bytes() + (self.11.spec_hci_bytes() + rest))).skip(self.9.spec_hci_bytes().len() as int) =~= (self.10.spec_hci_bytes() + (self.11.spec_hci_bytes() + rest)));
        self.10.lemma_round_trip((self.11.spec_hci_bytes() + rest));
        assert((self.10.spec_hci_bytes() + (self.11.spec_hci_bytes() + rest)).skip(self.10.spec_hci_bytes().len() as int) =~= (self.11.spec_hci_bytes() + rest));
        self.11.lemma_round_trip(rest);
        assert((self.11.spec_hci_bytes() + rest).skip(self.11.spec_hci_bytes().len() as int) =~= rest);
    }
}

/// A tuple of 1 is sent as its fields' encodings in field order, its size is the sum of
/// the fields' sizes, and reading those bytes, whatever follows them, gives back the fields
/// in the same order and consumes exactly their encodings.
pub proof fn lemma_tuple1_fields_in_order<'de, A: HciRoundTrip<'de>>(t: (A,), rest: Seq<u8>)
    ensures
        t.spec_hci_bytes() == t.0.spec_hci_bytes(),
        t.spec_size() == t.0.spec_size(),
        <(A,) as FromHciBytes<'de>>::spec_from_hci_bytes(t.0.spec_hci_bytes() + rest)
            == Ok::<_, FromHciBytesError>(((t.0@,), (t.0.spec_hci_bytes().len()) as nat)),
{
    t.lemma_round_trip(rest);
}

/// A tuple of 2 is sent as its fields' encodings in field order, its size is the sum of
/// the fields' sizes, and reading those bytes, whatever follows them, gives back the fields
/// in the same order and consumes exactly their encodings.
pub proof fn lemma_tuple2_fields_in_order<'de, A: HciRoundTrip<'de>, B: HciRoundTrip<'de>>(t: (A, B), rest: Seq<u8>)
    ensures
        t.spec_hci_bytes() == t.0.spec_hci_bytes() + t.1.spec_hci_bytes(),
        t.spec_size() == t.0.spec_size() + t.1.spec_size(),
        <(A, B) as FromHciBytes<'de>>::spec_from_hci_bytes(t.0.spec_hci_bytes() + t.1.spec_hci_bytes() + rest)
            == Ok::<_, FromHciBytesError>(((t.0@, t.1@), (t.0.spec_hci_bytes().len() + t.1.spec_hci_bytes().len()) as nat)),
{
    t.lemma_round_trip(rest);
}

/// A tuple of 3 is sent as its fields' encodings in field order, its size is the sum of
/// the fields' sizes, and reading those bytes, whatever follows them, gives back the fields
/// in the same order and consumes exactly their encodings.
pub proof fn lemma_tuple3_fields_in_order<'de, A: HciRoundTrip<'de>, B: HciRoundTrip<'de>, C: HciRoundTrip<'de>>(t: (A, B, C), rest: Seq<u8>)
    ensures
        t.spec_hci_bytes() == t.0.spec_hci_bytes() + t.1.spec_hci_bytes() + t.2.spec_hci_bytes(),
        t.spec_size() == t.0.spec_size() + t.1.spec_size() + t.2.spec_size(),
        <(A, B, C) as FromHciBytes<'de>>::spec_from_hci_bytes(t.0.spec_hci_bytes() + t.1.spec_hci_bytes() + t.2.spec_hci_bytes() + rest)
            == Ok::<_, FromHciBytesError>(((t.0@, t.1@, t.2@), (t.0.spec_hci_bytes().len() + t.1.spec_hci_bytes().len() + t.2.spec_hci_bytes().len()) as nat)),
{
    t.lemma_round_trip(rest);
}

/// A tuple of 4 is sent as its fields' encodings in field order, its size is the sum of
/// the fields' sizes, and reading those bytes, whatever follows them, gives back the fields
/// in the same order and consumes exactly their encodings.
pub proof fn lemma_tuple4_fields_in_order<'de, A: HciRoundTrip<'de>, B: HciRoundTrip<'de>, C: HciRoundTrip<'de>, D: HciRoundTrip<'de>>(t: (A, B, C, D), rest: Seq<u8>)
    ensures
        t.spec_hci_bytes() == t.0.spec_hci_bytes() + t.1.spec_hci_bytes() + t.2.spec_hci_bytes() + t.3.spec_hci_bytes(),
        t.spec_size() == t.0.spec_size() + t.1.spec_size() + t.2.spec_size() + t.3.spec_size(),
        <(A, B, C, D) as FromHciBytes<'de>>::spec_from_hci_bytes(t.0.spec_hci_bytes() + t.1.spec_hci_bytes() + t.2.spec_hci_bytes() + t.3.spec_hci_bytes() + rest)
            == Ok::<_, FromHciBytesError>(((t.0@, t.1@, t.2@, t.3@), (t.0.spec_hci_bytes().len() + t.1.spec_hci_bytes().len() + t.2.spec_hci_bytes().len() + t.3.spec_hci_bytes().len()) as nat)),
{
    t.lemma_round_trip(rest);
}

/// A tuple of 5 is sent as its fields' encodings in field order, its size is the sum of
/// the fields' sizes, and reading those bytes, whatever follows them, gives back the fields
/// in the same order and consumes exactly their encodings.
pub proof fn lemma_tuple5_fields_in_order<'de, A: HciRoundTrip<'de>, B: HciRoundTrip<'de>, C: HciRoundTrip<'de>, D: HciRoundTrip<'de>, E: HciRoundTrip<'de>>(t: (A, B, C, D, E), rest: Seq<u8>)
    ensures
        t.spec_hci_bytes() == t.0.spec_hci_bytes() + t.1.spec_hci_bytes() + t.2.spec_hci_bytes() + t.3.spec_hci_bytes() + t.4.spec_hci_bytes(),
        t.spec_size() == t.0.spec_size() + t.1.spec_size() + t.2.spec_size() + t.3.spec_size() + t.4.spec_size(),
        <(A, B, C, D, E) as FromHciBytes<'de>>::spec_from_hci_bytes(t.0.spec_hci_bytes() + t.1.spec_hci_bytes() + t.2.spec_hci_bytes() + t.3.spec_hci_bytes() + t.4.spec_hci_bytes() + rest)
            == Ok::<_, FromHciBytesError>(((t.0@, t.1@, t.2@, t.3@, t.4@), (t.0.spec_hci_bytes().len() + t.1.spec_hci_bytes().len() + t.2.spec_hci_bytes().len() + t.3.spec_hci_bytes().len() + t.4.spec_hci_bytes().len()) as nat)),
{
    t.lemma_round_trip(rest);
}

/// A tuple of 6 is sent as its fields' encodings in field order, its size is the sum of
/// the fields' sizes, and reading those bytes, whatever follows them, gives back the fields
/// in the same order and consumes exactly their encodings.
pub proof fn lemma_tuple6_fields_in_order<'de, A: HciRoundTrip<'de>, B: HciRoundTrip<'de>, C: HciRoundTrip<'de>, D: HciRoundTrip<'de>, E: HciRoundTrip<'de>, F: HciRoundTrip<'de>>(t: (A, B, C, D, E, F), rest: Seq<u8>)
    ensures
        t.spec_hci_bytes() == t.0.spec_hci_bytes() + t.1.spec_hci_bytes() + t.2.spec_hci_bytes() + t.3.spec_hci_bytes() + t.4.spec_hci_bytes() + t.5.spec_hci_bytes(),
        t.spec_size() == t.0.spec_size() + t.1.spec_size() + t.2.spec_size() + t.3.spec_size() + t.4.spec_size() + t.5.spec_size(),
        <(A, B, C, D, E, F) as FromHciBytes<'de>>::spec_from_hci_bytes(t.0.spec_hci_bytes() + t.1.spec_hci_bytes() + t.2.spec_hci_bytes() + t.3.spec_hci_bytes() + t.4.spec_hci_bytes() + t.5.spec_hci_bytes() + rest)
            == Ok::<_, FromHciBytesError>(((t.0@, t.1@, t.2@, t.3@, t.4@, t.5@), (t.0.spec_hci_bytes().len() + t.1.spec_hci_bytes().len() + t.2.spec_hci_bytes().len() + t.3.spec_hci_bytes().len() + t.4.spec_hci_bytes().len() + t.5.spec_hci_bytes().len()) as nat)),
{
    t.lemma_round_trip(rest);
}

/// A tuple of 7 is sent as its fields' encodings in field order, its size is the sum of
/// the fields' sizes, and reading those bytes, whatever follows them, gives back the fields
/// in the same order and consumes exactly their encodings.
pub proof fn lemma_tuple7_fields_in_order<'de, A: HciRoundTrip<'de>, B: HciRoundTrip<'de>, C: HciRoundTrip<'de>, D: HciRoundTrip<'de>, E: HciRoundTrip<'de>, F: HciRoundTrip<'de>, G: HciRoundTrip<'de>>(t: (A, B, C, D, E, F, G), rest: Seq<u8>)
    ensures
        t.spec_hci_bytes() == t.0.spec_hci_bytes() + t.1.spec_hci_bytes() + t.2.spec_hci_bytes() + t.3.spec_hci_bytes() + t.4.spec_hci_bytes() + t.5.spec_hci_bytes() + t.6.spec_hci_bytes(),
        t.spec_size() == t.0.spec_size() + t.1.spec_size() + t.2.spec_size() + t.3.spec_size() + t.4.spec_size() + t.5.spec_size() + t.6.spec_size(),
        <(A, B, C, D, E, F, G) as FromHciBytes<'de>>::spec_from_hci_bytes(t.0.spec_hci_bytes() + t.1.spec_hci_bytes() + t.2.spec_hci_bytes() + t.3.spec_hci_bytes() + t.4.spec_hci_bytes() + t.5.spec_hci_bytes() + t.6.spec_hci_bytes() + rest)
            == Ok::<_, FromHciBytesError>(((t.0@, t.1@, t.2@, t.3@, t.4@, t.5@, t.6@), (t.0.spec_hci_bytes().len() + t.1.spec_hci_bytes().len() + t.2.spec_hci_bytes().len() + t.3.spec_hci_bytes().len() + t.4.spec_hci_bytes().len() + t.5.spec_hci_bytes().len() + t.6.spec_hci_bytes().len()) as nat)),
{
    t.lemma_round_trip(rest);
}

/// A tuple of 8 is sent as its fields' encodings in field order, its size is the sum of
/// the fields' sizes, and reading those bytes, whatever follows them, gives back the fields
/// in the same order and consumes exactly their encodings.
pub proof fn lemma_tuple8_fields_in_order<'de, A: HciRoundTrip<'de>, B: HciRoundTrip<'de>, C: HciRoundTrip<'de>, D: HciRoundTrip<'de>, E: HciRoundTrip<'de>, F: HciRoundTrip<'de>, G: HciRoundTrip<'de>, H: HciRoundTrip<'de>>(t: (A, B, C, D, E, F, G, H), rest: Seq<u8>)
    ensures
        t.spec_hci_bytes() == t.0.spec_hci_bytes() + t.1.spec_hci_bytes() + t.2.spec_hci_bytes() + t.3.spec_hci_bytes() + t.4.spec_hci_bytes() + t.5.spec_hci_bytes() + t.6.spec_hci_bytes() + t.7.spec_hci_bytes(),
        t.spec_size() == t.0.spec_size() + t.1.spec_size() + t.2.spec_size() + t.3.spec_size() + t.4.spec_size() + t.5.spec_size() + t.6.spec_size() + t.7.spec_size(),
        <(A, B, C, D, E, F, G, H) as FromHciBytes<'de>>::spec_from_hci_bytes(t.0.spec_hci_bytes() + t.1.spec_hci_bytes() + t.2.spec_hci_bytes() + t.3.spec_hci_bytes() + t.4.spec_hci_bytes() + t.5.spec_hci_bytes() + t.6.spec_hci_bytes() + t.7.spec_hci_bytes() + rest)
            == Ok::<_, FromHciBytesError>(((t.0@, t.1@, t.2@, t.3@, t.4@, t.5@, t.6@, t.7@), (t.0.spec_hci_bytes().len() + t.1.spec_hci_bytes().len() + t.2.spec_hci_bytes().len() + t.3.spec_hci_bytes().len() + t.4.spec_hci_bytes().len() + t.5.spec_hci_bytes().len() + t.6.spec_hci_bytes().len() + t.7.spec_hci_bytes().len()) as nat)),
{
    t.lemma_round_trip(rest);
}

/// A tuple of 9 is sent as its fields' encodings in field order, its size is the sum of
/// the fields' sizes, and reading those bytes, whatever follows them, gives back the fields
/// in the same order and consumes exactly their encodings.
pub proof fn lemma_tuple9_fields_in_order<'de, A: HciRoundTrip<'de>, B: HciRoundTrip<'de>, C: HciRoundTrip<'de>, D: HciRoundTrip<'de>, E: HciRoundTrip<'de>, F: HciRoundTrip<'de>, G: HciRoundTrip<'de>, H: HciRoundTrip<'de>, I: HciRoundTrip<'de>>(t: (A, B, C, D, E, F, G, H, I), rest: Seq<u8>)
    ensures
        t.spec_hci_bytes() == t.0.spec_hci_bytes() + t.1.spec_hci_bytes() + t.2.spec_hci_bytes() + t.3.spec_hci_bytes() + t.4.spec_hci_bytes() + t.5.spec_hci_bytes() + t.6.spec_hci_bytes() + t.7.spec_hci_bytes() + t.8.spec_hci_bytes(),
        t.spec_size() == t.0.spec_size() + t.1.spec_size() + t.2.spec_size() + t.3.spec_size() + t.4.spec_size() + t.5.spec_size() + t.6.spec_size() + t.7.spec_size() + t.8.spec_size(),
        <(A, B, C, D, E, F, G, H, I) as FromHciBytes<'de>>::spec_from_hci_bytes(t.0.spec_hci_bytes() + t.1.spec_hci_bytes() + t.2.spec_hci_bytes() + t.3.spec_hci_bytes() + t.4.spec_hci_bytes() + t.5.spec_hci_bytes() + t.6.spec_hci_bytes() + t.7.spec_hci_bytes() + t.8.spec_hci_bytes() + rest)
            == Ok::<_, FromHciBytesError>(((t.0@, t.1@, t.2@, t.3@, t.4@, t.5@, t.6@, t.7@, t.8@), (t.0.spec_hci_bytes().len() + t.1.spec_hci_bytes().len() + t.2.spec_hci_bytes().len() + t.3.spec_hci_bytes().len() + t.4.spec_hci_bytes().len() + t.5.spec_hci_bytes().len() + t.6.spec_hci_bytes().len() + t.7.spec_hci_bytes().len() + t.8.spec_hci_bytes().len()) as nat)),
{
    t.lemma_round_trip(rest);
}

/// A tuple of 10 is sent as its fields' encodings in field order, its size is the sum of
/// the fields' sizes, and reading those bytes, whatever follows them, gives back the fields
/// in the same order and consumes exactly their encodings.
pub proof fn lemma_tuple10_fields_in_order<'de, A: HciRoundTrip<'de>, B: HciRoundTrip<'de>, C: HciRoundTrip<'de>, D: HciRoundTrip<'de>, E: HciRoundTrip<'de>, F: HciRoundTrip<'de>, G: HciRoundTrip<'de>, H: HciRoundTrip<'de>, I: HciRoundTrip<'de>, J: HciRoundTrip<'de>>(t: (A, B, C, D, E, F, G, H, I, J), rest: Seq<u8>)
    ensures
        t.spec_hci_bytes() == t.0.spec_hci_bytes() + t.1.spec_hci_bytes() + t.2.spec_hci_bytes() + t.3.spec_hci_bytes() + t.4.spec_hci_bytes() + t.5.spec_hci_bytes() + t.6.spec_hci_bytes() + t.7.spec_hci_bytes() + t.8.spec_hci_bytes() + t.9.spec_hci_bytes(),
        t.spec_size() == t.0.spec_size() + t.1.spec_size() + t.2.spec_size() + t.3.spec_size() + t.4.spec_size() + t.5.spec_size() + t.6.spec_size() + t.7.spec_size() + t.8.spec_size() + t.9.spec_size(),
        <(A, B, C, D, E, F, G, H, I, J) as FromHciBytes<'de>>::spec_from_hci_bytes(t.0.spec_hci_bytes() + t.1.spec_hci_bytes() + t.2.spec_hci_bytes() + t.3.spec_hci_bytes() + t.4.spec_hci_bytes() + t.5.spec_hci_bytes() + t.6.spec_hci_bytes() + t.7.spec_hci_bytes() + t.8.spec_hci_bytes() + t.9.spec_hci_bytes() + rest)
            == Ok::<_, FromHciBytesError>(((t.0@, t.1@, t.2@, t.3@, t.4@, t.5@, t.6@, t.7@, t.8@, t.9@), (t.0.spec_hci_bytes().len() + t.1.spec_hci_bytes().len() + t.2.spec_hci_bytes().len() + t.3.spec_hci_bytes().len() + t.4.spec_hci_bytes().len() + t.5.spec_hci_bytes().len() + t.6.spec_hci_bytes().len() + t.7.spec_hci_bytes().len() + t.8.spec_hci_bytes().len() + t.9.spec_hci_bytes().len()) as nat)),
{
    t.lemma_round_trip(rest);
}

/// A tuple of 11 is sent as its fields' encodings in field order, its size is the sum of
/// the fields' sizes, and reading those bytes, whatever follows them, gives back the fields
/// in the same order and consumes exactly their encodings.
pub proof fn lemma_tuple11_fields_in_order<'de, A: HciRoundTrip<'de>, B: HciRoundTrip<'de>, C: HciRoundTrip<'de>, D: HciRoundTrip<'de>, E: HciRoundTrip<'de>, F: HciRoundTrip<'de>, G: HciRoundTrip<'de>, H: HciRoundTrip<'de>, I: HciRoundTrip<'de>, J: HciRoundTrip<'de>, K: HciRoundTrip<'de>>(t: (A, B, C, D, E, F, G, H, I, J, K), rest: Seq<u8>)
    ensures
        t.spec_hci_bytes() == t.0.spec_hci_bytes() + t.1.spec_hci_bytes() + t.2.spec_hci_bytes() + t.3.spec_hci_bytes() + t.4.spec_hci_bytes() + t.5.spec_hci_bytes() + t.6.spec_hci_bytes() + t.7.spec_hci_bytes() + t.8.spec_hci_bytes() + t.9.spec_hci_bytes() + t.10.spec_hci_bytes(),
        t.spec_size() == t.0.spec_size() + t.1.spec_size() + t.2.spec_size() + t.3.spec_size() + t.4.spec_size() + t.5.spec_size() + t.6.spec_size() + t.7.spec_size() + t.8.spec_size() + t.9.spec_size() + t.10.spec_size(),
        <(A, B, C, D, E, F, G, H, I, J, K) as FromHciBytes<'de>>::spec_from_hci_bytes(t.0.spec_hci_bytes() + t.1.spec_hci_bytes() + t.2.spec_hci_bytes() + t.3.spec_hci_bytes() + t.4.spec_hci_bytes() + t.5.spec_hci_bytes() + t.6.spec_hci_bytes() + t.7.spec_hci_bytes() + t.8.spec_hci_bytes() + t.9.spec_hci_bytes() + t.10.spec_hci_bytes() + rest)
            == Ok::<_, FromHciBytesError>(((t.0@, t.1@, t.2@, t.3@, t.4@, t.5@, t.6@, t.7@, t.8@, t.9@, t.10@), (t.0.spec_hci_bytes().len() + t.1.spec_hci_bytes().len() + t.2.spec_hci_bytes().len() + t.3.spec_hci_bytes().len() + t.4.spec_hci_bytes().len() + t.5.spec_hci_bytes().len() + t.6.spec_hci_bytes().len() + t.7.spec_hci_bytes().len() + t.8.spec_hci_bytes().len() + t.9.spec_hci_bytes().len() + t.10.spec_hci_bytes().len()) as nat)),
{
    t.lemma_round_trip(rest);
}

/// A tuple of 12 is sent as its fields' encodings in field order, its size is the sum of
/// the fields' sizes, and reading those bytes, whatever follows them, gives back the fields
/// in the same order and consumes exactly their encodings.
pub proof fn lemma_tuple12_fields_in_order<'de, A: HciRoundTrip<'de>, B: HciRoundTrip<'de>, C: HciRoundTrip<'de>, D: HciRoundTrip<'de>, E: HciRoundTrip<'de>, F: HciRoundTrip<'de>, G: HciRoundTrip<'de>, H: HciRoundTrip<'de>, I: HciRoundTrip<'de>, J: HciRoundTrip<'de>, K: HciRoundTrip<'de>, L: HciRoundTrip<'de>>(t: (A, B, C, D, E, F, G, H, I, J, K, L), rest: Seq<u8>)
    ensures
        t.spec_hci_bytes() == t.0.spec_hci_bytes() + t.1.spec_hci_bytes() + t.2.spec_hci_bytes() + t.3.spec_hci_bytes() + t.4.spec_hci_bytes() + t.5.spec_hci_bytes() + t.6.spec_hci_bytes() + t.7.spec_hci_bytes() + t.8.spec_hci_bytes() + t.9.spec_hci_bytes() + t.10.spec_hci_bytes() + t.11.spec_hci_bytes(),
        t.spec_size() == t.0.spec_size() + t.1.spec_size() + t.2.spec_size() + t.3.spec_size() + t.4.spec_size() + t.5.spec_size() + t.6.spec_size() + t.7.spec_size() + t.8.spec_size() + t.9.spec_size() + t.10.spec_size() + t.11.spec_size(),
        <(A, B, C, D, E, F, G, H, I, J, K, L) as FromHciBytes<'de>>::spec_from_hci_bytes(t.0.spec_hci_bytes() + t.1.spec_hci_bytes() + t.2.spec_hci_bytes() + t.3.spec_hci_bytes() + t.4.spec_hci_bytes() + t.5.spec_hci_bytes() + t.6.spec_hci_bytes() + t.7.spec_hci_bytes() + t.8.spec_hci_bytes() + t.9.spec_hci_bytes() + t.10.spec_hci_bytes() + t.11.spec_hci_bytes() + rest)
            == Ok::<_, FromHciBytesError>(((t.0@, t.1@, t.2@, t.3@, t.4@, t.5@, t.6@, t.7@, t.8@, t.9@, t.10@, t.11@), (t.0.spec_hci_bytes().len() + t.1.spec_hci_bytes().len() + t.2.spec_hci_bytes().len() + t.3.spec_hci_bytes().len() + t.4.spec_hci_bytes().len() + t.5.spec_hci_bytes().len() + t.6.spec_hci_bytes().len() + t.7.spec_hci_bytes().len() + t.8.spec_hci_bytes().len() + t.9.spec_hci_bytes().len() + t.10.spec_hci_bytes().len() + t.11.spec_hci_bytes().len()) as nat)),
{
    t.lemma_round_trip(rest);
}

} // verus!
