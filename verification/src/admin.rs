//! The administrators: the principals that may run privileged operations.

use vstd::prelude::*;
use crate::address::{copy_range, keys_of, position, Address};
use crate::error::Error;

verus! {

/// A set of administrators. Its value is the set of their keys.
pub struct AdminSet {
    members: Vec<Address>,
}

impl View for AdminSet {
    type V = Set<Seq<u8>>;

    closed spec fn view(&self) -> Set<Seq<u8>> {
        keys_of(self.members@).to_set()
    }
}

/// Why `caller` cannot give `target` the administrator status `enable`
/// among `admins`, if anything forbids it.
pub open spec fn set_admin_error(
    admins: Set<Seq<u8>>,
    caller: Seq<u8>,
    target: Seq<u8>,
    enable: bool,
) -> Option<Error> {
    if !admins.contains(caller) {
        Some(Error::NotAdmin)
    } else if admins.contains(target) == enable {
        Some(Error::AlreadyInState)
    } else if enable && admins.len() >= u32::MAX {
        Some(Error::Overflow)
    } else if !enable && admins.len() <= 1 {
        Some(Error::LastAdmin)
    } else {
        None
    }
}

impl AdminSet {
    /// The invariant of the set: it is finite and its count fits 32 bits.
    pub closed spec fn wf(&self) -> bool {
        &&& keys_of(self.members@).no_duplicates()
        &&& self.members@.len() <= u32::MAX
    }

    /// A well-formed set is finite, and its count fits 32 bits.
    pub proof fn lemma_count_fits(&self)
        requires
            self.wf(),
        ensures
            self@.finite(),
            self@.len() <= u32::MAX,
    {
        keys_of(self.members@).unique_seq_to_set();
    }

    /// The set without administrators.
    pub fn new() -> (s: AdminSet)
        ensures
            s.wf(),
            s@ == Set::<Seq<u8>>::empty(),
    {
        let s = AdminSet { members: Vec::new() };
        assert(s@ =~= Set::<Seq<u8>>::empty());
        s
    }

    /// The set of the one administrator `first`.
    pub fn seeded(first: Address) -> (s: AdminSet)
        ensures
            s.wf(),
            s@ == Set::<Seq<u8>>::empty().insert(first@),
            s@.len() == 1,
    {
        let mut members: Vec<Address> = Vec::new();
        members.push(first);
        let s = AdminSet { members };
        proof {
            let empty = Seq::<Address>::empty();
            assert(s.members@ == empty.push(first));
            empty.lemma_push_map_commute(|a: Address| a@, first);
            keys_of(empty).lemma_push_to_set_commute(first@);
            assert(keys_of(empty).to_set() =~= Set::<Seq<u8>>::empty());
            assert(s@ =~= Set::<Seq<u8>>::empty().insert(first@));
            keys_of(s.members@).unique_seq_to_set();
        }
        s
    }

    /// Whether `address` is an administrator.
    pub fn is_admin(&self, address: &Address) -> (r: bool)
        ensures
            r == self@.contains(address@),
    {
        position(&self.members, address).is_some()
    }

    /// The number of administrators.
    pub fn count(&self) -> (n: u32)
        requires
            self.wf(),
        ensures
            n == self@.len(),
    {
        proof {
            keys_of(self.members@).unique_seq_to_set();
        }
        self.members.len() as u32
    }

    /// Gives `target` the administrator status `enable` on behalf of the
    /// administrator `caller`. The status must change, the count must stay
    /// in 32 bits, and the last administrator stays.
    pub fn set_admin(&mut self, caller: &Address, target: &Address, enable: bool) -> (r: Result<
        (),
        Error,
    >)
        requires
            old(self).wf(),
        ensures
            final(self).wf(),
            match r {
                Ok(()) => {
                    &&& set_admin_error(old(self)@, caller@, target@, enable) is None
                    &&& final(self)@ == if enable {
                        old(self)@.insert(target@)
                    } else {
                        old(self)@.remove(target@)
                    }
                    &&& final(self)@.len() == old(self)@.len() + if enable {
                        1int
                    } else {
                        -1int
                    }
                },
                Err(e) => {
                    &&& set_admin_error(old(self)@, caller@, target@, enable) == Some(e)
                    &&& final(self)@ == old(self)@
                },
            },
    {
        let ghost keys = keys_of(self.members@);
        proof {
            keys.unique_seq_to_set();
        }
        if position(&self.members, caller).is_none() {
            return Err(Error::NotAdmin);
        }
        let place = position(&self.members, target);
        if place.is_some() == enable {
            return Err(Error::AlreadyInState);
        }
        match place {
            None => {
                if self.members.len() >= u32::MAX as usize {
                    return Err(Error::Overflow);
                }
                let added = target.clone();
                self.members.push(added);
                proof {
                    old(self).members@.lemma_push_map_commute(|a: Address| a@, added);
                    keys.lemma_push_to_set_commute(target@);
                    assert(keys_of(self.members@) == keys.push(target@));
                    assert(keys.push(target@).no_duplicates());
                    keys_of(self.members@).unique_seq_to_set();
                }
                Ok(())
            },
            Some(i) => {
                if self.members.len() <= 1 {
                    return Err(Error::LastAdmin);
                }
                self.members.remove(i);
                proof {
                    let rest = keys_of(self.members@);
                    keys.remove_ensures(i as int);
                    old(self).members@.remove_ensures(i as int);
                    assert(rest =~= keys.remove(i as int));
                    assert(rest.no_duplicates());
                    assert forall|k: Seq<u8>| rest.to_set().contains(k) == keys.to_set().remove(
                        target@,
                    ).contains(k) by {
                        if rest.contains(k) {
                            let j = choose|j: int| 0 <= j < rest.len() && rest[j] == k;
                            if j < i {
                                assert(keys[j] == k);
                            } else {
                                assert(keys[j + 1] == k);
                            }
                        }
                        if keys.contains(k) && k != target@ {
                            let j = choose|j: int| 0 <= j < keys.len() && keys[j] == k;
                            if j < i {
                                assert(rest[j] == k);
                            } else {
                                assert(rest[j - 1] == k);
                            }
                        }
                    }
                    assert(rest.to_set() =~= keys.to_set().remove(target@));
                    rest.unique_seq_to_set();
                }
                Ok(())
            },
        }
    }

    /// The set of the administrators in `list`, where no key occurs twice
    /// in it and its length fits 32 bits.
    pub fn from_list(list: Vec<Address>) -> (r: Option<AdminSet>)
        ensures
            match r {
                Some(s) => {
                    &&& s.wf()
                    &&& s@ == keys_of(list@).to_set()
                    &&& keys_of(list@).no_duplicates()
                    &&& s@.len() == list@.len()
                },
                None => !keys_of(list@).no_duplicates() || list@.len() > u32::MAX,
            },
    {
        if list.len() > u32::MAX as usize {
            return None;
        }
        let mut i: usize = 0;
        while i < list.len()
            invariant
                i <= list.len(),
                keys_of(list@).take(i as int).no_duplicates(),
            decreases list.len() - i,
        {
            // The key at place `i` is found at `i` or at an earlier place.
            assert(keys_of(list@)[i as int] == list@[i as int]@);
            match position(&list, &list[i]) {
                Some(j) => {
                    if j != i {
                        assert(keys_of(list@)[j as int] == keys_of(list@)[i as int]);
                        return None;
                    }
                },
                None => {
                    return None;
                },
            }
            proof {
                let keys = keys_of(list@);
                let head = keys.take(i as int);
                let more = keys.take(i + 1);
                assert forall|a: int, b: int|
                    0 <= a < more.len() && 0 <= b < more.len() && a != b implies more[a]
                    != more[b] by {
                    if a < i && b < i {
                        assert(head[a] != head[b]);
                    } else if a == i {
                        assert(head[b] == keys[b]);
                    } else {
                        assert(head[a] == keys[a]);
                    }
                }
            }
            i += 1;
        }
        assert(keys_of(list@).take(list@.len() as int) =~= keys_of(list@));
        let s = AdminSet { members: list };
        proof {
            keys_of(s.members@).unique_seq_to_set();
        }
        Some(s)
    }

    /// The administrators, each once.
    pub fn list(&self) -> (list: Vec<Address>)
        requires
            self.wf(),
        ensures
            keys_of(list@).to_set() == self@,
            keys_of(list@).no_duplicates(),
    {
        let list = copy_range(&self.members, 0, self.members.len());
        assert(keys_of(self.members@).subrange(0, self.members@.len() as int) =~= keys_of(
            self.members@,
        ));
        list
    }
}

} // verus!
