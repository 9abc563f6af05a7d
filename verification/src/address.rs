//! Principals: administrators, recipients and token contracts.

use vstd::prelude::*;

verus! {

/// An opaque identifier of a principal, held as the bytes of its textual key.
///
/// Two addresses are the same principal exactly when their keys are equal.
#[derive(Debug)]
pub struct Address {
    key: Vec<u8>,
}

impl View for Address {
    type V = Seq<u8>;

    closed spec fn view(&self) -> Seq<u8> {
        self.key@
    }
}

impl Address {
    /// The address with the given key.
    pub fn new(key: Vec<u8>) -> (a: Address)
        ensures
            a@ == key@,
    {
        Address { key }
    }

    /// The bytes of the key.
    pub fn key(&self) -> (k: &Vec<u8>)
        ensures
            k@ == self@,
    {
        &self.key
    }

    /// Whether both addresses name the same principal.
    pub fn same(&self, other: &Address) -> (r: bool)
        ensures
            r == (self@ == other@),
    {
        if self.key.len() != other.key.len() {
            return false;
        }
        let mut i: usize = 0;
        while i < self.key.len()
            invariant
                i <= self.key.len(),
                self.key.len() == other.key.len(),
                forall|j: int| 0 <= j < i ==> self.key@[j] == other.key@[j],
            decreases self.key.len() - i,
        {
            if self.key[i] != other.key[i] {
                return false;
            }
            i += 1;
        }
        assert(self.key@ =~= other.key@);
        true
    }
}

impl Clone for Address {
    fn clone(&self) -> (a: Address)
        ensures
            a@ == self@,
    {
        let mut key: Vec<u8> = Vec::new();
        let mut i: usize = 0;
        while i < self.key.len()
            invariant
                i <= self.key.len(),
                key@ == self.key@.subrange(0, i as int),
            decreases self.key.len() - i,
        {
            key.push(self.key[i]);
            assert(key@ =~= self.key@.subrange(0, i + 1));
            i += 1;
        }
        assert(key@ =~= self.key@);
        Address { key }
    }
}

impl PartialEq for Address {
    fn eq(&self, other: &Address) -> (r: bool) {
        self.same(other)
    }
}

impl Eq for Address {}

impl vstd::std_specs::cmp::PartialEqSpecImpl for Address {
    open spec fn obeys_eq_spec() -> bool {
        true
    }

    open spec fn eq_spec(&self, other: &Address) -> bool {
        self@ == other@
    }
}


/// The key of an address that may be missing.
pub open spec fn key_of(address: Option<Address>) -> Option<Seq<u8>> {
    match address {
        Some(a) => Some(a@),
        None => None,
    }
}

/// The keys of a list of addresses, in the order of the list.
pub open spec fn keys_of(list: Seq<Address>) -> Seq<Seq<u8>> {
    list.map_values(|a: Address| a@)
}

/// The first place in `list` that holds the principal `a`, if any.
pub fn position(list: &Vec<Address>, a: &Address) -> (r: Option<usize>)
    ensures
        match r {
            Some(i) => {
                &&& i < list.len()
                &&& keys_of(list@)[i as int] == a@
                &&& !keys_of(list@).take(i as int).contains(a@)
            },
            None => !keys_of(list@).contains(a@),
        },
{
    let mut i: usize = 0;
    while i < list.len()
        invariant
            i <= list.len(),
            forall|j: int| 0 <= j < i ==> keys_of(list@)[j] != a@,
        decreases list.len() - i,
    {
        if list[i].same(a) {
            return Some(i);
        }
        i += 1;
    }
    None
}

/// A copy of the part `[from, to)` of `list`.
pub fn copy_range(list: &Vec<Address>, from: usize, to: usize) -> (r: Vec<Address>)
    requires
        from <= to <= list.len(),
    ensures
        keys_of(r@) == keys_of(list@).subrange(from as int, to as int),
{
    let mut out: Vec<Address> = Vec::new();
    let mut i: usize = from;
    while i < to
        invariant
            from <= i <= to <= list.len(),
            out@.len() == i - from,
            keys_of(out@) == keys_of(list@).subrange(from as int, i as int),
        decreases to - i,
    {
        let ghost before = out@;
        let a = list[i].clone();
        out.push(a);
        assert forall|j: int| 0 <= j < out@.len() implies keys_of(out@)[j] == keys_of(
            list@,
        ).subrange(from as int, i + 1)[j] by {
            if j < before.len() {
                assert(keys_of(before)[j] == keys_of(list@).subrange(from as int, i as int)[j]);
            }
        }
        assert(keys_of(out@) =~= keys_of(list@).subrange(from as int, i + 1));
        i += 1;
    }
    out
}

} // verus!
