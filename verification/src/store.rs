//! The schedules by id, with the recipients and each recipient's schedules.

use vstd::prelude::*;
use crate::address::{keys_of, position, Address};
use crate::vesting::{Schedule, Vesting};

verus! {

/// The values of a list of schedules, in the order of the list.
pub open spec fn schedules_of(list: Seq<Vesting>) -> Seq<Schedule> {
    list.map_values(|v: Vesting| v@)
}

/// The ids of the schedules in `s` whose recipient is `r`, in rising order.
/// The id of a schedule is its place in `s`.
pub open spec fn ids_of(s: Seq<Schedule>, r: Seq<u8>) -> Seq<u64>
    decreases s.len(),
{
    if s.len() == 0 {
        Seq::empty()
    } else {
        let before = ids_of(s.drop_last(), r);
        if s.last().recipient == r {
            before.push((s.len() - 1) as u64)
        } else {
            before
        }
    }
}

/// The recipients of the schedules in `s`, each once, in the order in which
/// they first appear.
pub open spec fn recipients_of(s: Seq<Schedule>) -> Seq<Seq<u8>>
    decreases s.len(),
{
    if s.len() == 0 {
        Seq::empty()
    } else {
        let before = recipients_of(s.drop_last());
        if before.contains(s.last().recipient) {
            before
        } else {
            before.push(s.last().recipient)
        }
    }
}

/// The ids of a recipient are exactly the places of its schedules: each id
/// resolves to a schedule of that recipient, every schedule of the recipient
/// is listed, and the ids rise strictly.
pub proof fn lemma_ids_of(s: Seq<Schedule>, r: Seq<u8>)
    requires
        s.len() <= u64::MAX,
    ensures
        ids_of(s, r).len() <= s.len(),
        forall|k: int|
            0 <= k < ids_of(s, r).len() ==> (#[trigger] ids_of(s, r)[k]) < s.len() && s[ids_of(
                s,
                r,
            )[k] as int].recipient == r,
        forall|j: int|
            0 <= j < s.len() && (#[trigger] s[j]).recipient == r ==> ids_of(s, r).contains(
                j as u64,
            ),
        forall|k: int, l: int|
            0 <= k < l < ids_of(s, r).len() ==> (#[trigger] ids_of(s, r)[k]) < (#[trigger] ids_of(
                s,
                r,
            )[l]),
    decreases s.len(),
{
    if s.len() > 0 {
        let head = s.drop_last();
        lemma_ids_of(head, r);
        let before = ids_of(head, r);
        let all = ids_of(s, r);
        assert forall|j: int| 0 <= j < s.len() && (#[trigger] s[j]).recipient == r implies all.contains(
            j as u64,
        ) by {
            if j < head.len() {
                assert(head[j].recipient == r);
                let k = choose|k: int| 0 <= k < before.len() && before[k] == j as u64;
                assert(all[k] == j as u64);
            } else {
                assert(all[all.len() - 1] == j as u64);
            }
        }
    }
}

/// The recipients are listed once each, and a principal is listed exactly
/// when it has a schedule.
pub proof fn lemma_recipients_of(s: Seq<Schedule>)
    ensures
        recipients_of(s).no_duplicates(),
        recipients_of(s).len() <= s.len(),
        forall|r: Seq<u8>| #[trigger] recipients_of(s).contains(r) <==> ids_of(s, r).len() > 0,
        forall|j: int| 0 <= j < s.len() ==> recipients_of(s).contains((#[trigger] s[j]).recipient),
    decreases s.len(),
{
    if s.len() > 0 {
        let head = s.drop_last();
        lemma_recipients_of(head);
        let before = recipients_of(head);
        let all = recipients_of(s);
        let last = s.last().recipient;
        assert forall|r: Seq<u8>| #[trigger] all.contains(r) <==> ids_of(s, r).len() > 0 by {
            if before.contains(r) {
                let k = choose|k: int| 0 <= k < before.len() && before[k] == r;
                assert(all[k] == r);
            }
            if all.contains(r) && !before.contains(r) {
                let k = choose|k: int| 0 <= k < all.len() && all[k] == r;
                assert(k == before.len());
                assert(r == last);
            }
            if r == last && !before.contains(last) {
                assert(all[before.len() as int] == last);
            }
        }
        assert forall|j: int| 0 <= j < s.len() implies all.contains((#[trigger] s[j]).recipient) by {
            if j < head.len() {
                assert(before.contains(head[j].recipient));
                let k = choose|k: int| 0 <= k < before.len() && before[k] == head[j].recipient;
                assert(all[k] == s[j].recipient);
            } else {
                if before.contains(last) {
                    let k = choose|k: int| 0 <= k < before.len() && before[k] == last;
                    assert(all[k] == last);
                } else {
                    assert(all[before.len() as int] == last);
                }
            }
        }
    }
}

/// Lists of schedules with the same recipients, place by place, have the
/// same recipients and the same ids for each recipient.
pub proof fn lemma_same_recipients(s1: Seq<Schedule>, s2: Seq<Schedule>, r: Seq<u8>)
    requires
        s1.len() == s2.len(),
        forall|j: int| 0 <= j < s1.len() ==> s1[j].recipient == s2[j].recipient,
    ensures
        ids_of(s1, r) == ids_of(s2, r),
        recipients_of(s1) == recipients_of(s2),
    decreases s1.len(),
{
    if s1.len() > 0 {
        lemma_same_recipients(s1.drop_last(), s2.drop_last(), r);
    }
}


/// The schedules of a manager. Its value is the list of the schedules; the
/// id of a schedule is its place in the list, so ids are dense from zero.
/// The recipients and each recipient's ids are kept beside the list and
/// always agree with it.
pub struct ScheduleStore {
    schedules: Vec<Vesting>,
    recipients: Vec<Address>,
    ids: Vec<Vec<u64>>,
}

impl View for ScheduleStore {
    type V = Seq<Schedule>;

    closed spec fn view(&self) -> Seq<Schedule> {
        schedules_of(self.schedules@)
    }
}

impl ScheduleStore {
    /// The invariant of the store: at most `u32::MAX` schedules, each of
    /// them well-formed, and the kept lists agree with the schedules.
    pub closed spec fn wf(&self) -> bool {
        &&& self.schedules@.len() <= u32::MAX
        &&& forall|j: int| 0 <= j < self@.len() ==> (#[trigger] self@[j]).wf()
        &&& keys_of(self.recipients@) == recipients_of(self@)
        &&& self.ids@.len() == self.recipients@.len()
        &&& forall|i: int|
            0 <= i < self.ids@.len() ==> (#[trigger] self.ids@[i])@ == ids_of(
                self@,
                keys_of(self.recipients@)[i],
            )
    }

    /// What the invariant says of the value.
    pub proof fn lemma_wf(&self)
        requires
            self.wf(),
        ensures
            self@.len() <= u32::MAX,
            forall|j: int| 0 <= j < self@.len() ==> (#[trigger] self@[j]).wf(),
    {
    }

    /// The store without schedules.
    pub fn new() -> (s: ScheduleStore)
        ensures
            s.wf(),
            s@ == Seq::<Schedule>::empty(),
    {
        let s = ScheduleStore { schedules: Vec::new(), recipients: Vec::new(), ids: Vec::new() };
        assert(s@ =~= Seq::<Schedule>::empty());
        assert(keys_of(s.recipients@) =~= recipients_of(s@));
        s
    }

    /// The number of schedules, which is the next id.
    pub fn len(&self) -> (n: u64)
        requires
            self.wf(),
        ensures
            n == self@.len(),
    {
        self.schedules.len() as u64
    }

    /// The schedule with the given id, if there is one.
    pub fn get(&self, id: u64) -> (r: Option<&Vesting>)
        requires
            self.wf(),
        ensures
            match r {
                Some(v) => id < self@.len() && v@ == self@[id as int],
                None => id >= self@.len(),
            },
    {
        if id < self.schedules.len() as u64 {
            Some(&self.schedules[id as usize])
        } else {
            None
        }
    }

    /// The recipients, each once, in the order of their first schedule.
    pub fn recipients(&self) -> (list: &Vec<Address>)
        requires
            self.wf(),
        ensures
            keys_of(list@) == recipients_of(self@),
            list@.len() <= u32::MAX,
    {
        proof {
            lemma_recipients_of(self@);
        }
        &self.recipients
    }

    /// The ids of the schedules of `recipient`, in rising order, where it
    /// has any.
    pub fn ids(&self, recipient: &Address) -> (r: Option<&Vec<u64>>)
        requires
            self.wf(),
        ensures
            match r {
                Some(list) => list@ == ids_of(self@, recipient@) && 0 < list@.len() <= u32::MAX,
                None => ids_of(self@, recipient@).len() == 0,
            },
    {
        proof {
            lemma_recipients_of(self@);
            lemma_ids_of(self@, recipient@);
        }
        match position(&self.recipients, recipient) {
            Some(i) => {
                assert(recipients_of(self@).contains(recipient@));
                Some(&self.ids[i])
            },
            None => None,
        }
    }

    /// Appends `vesting` and returns its id, the number of schedules before.
    pub fn insert(&mut self, vesting: Vesting) -> (id: u64)
        requires
            old(self).wf(),
            vesting@.wf(),
            old(self)@.len() < u32::MAX,
        ensures
            final(self).wf(),
            final(self)@ == old(self)@.push(vesting@),
            id == old(self)@.len(),
    {
        let ghost before = self@;
        let ghost after = before.push(vesting@);
        let ghost who = vesting@.recipient;
        let id: u64 = self.schedules.len() as u64;
        let place = position(&self.recipients, &vesting.recipient);
        proof {
            lemma_recipients_of(before);
            assert(after.drop_last() =~= before);
            old(self).schedules@.lemma_push_map_commute(|v: Vesting| v@, vesting);
            assert forall|r: Seq<u8>| r != who implies ids_of(after, r) == ids_of(before, r) by {}
            assert(ids_of(after, who) == ids_of(before, who).push(id));
        }
        match place {
            Some(i) => {
                self.ids[i].push(id);
            },
            None => {
                let mut list: Vec<u64> = Vec::new();
                list.push(id);
                let who_exec = vesting.recipient.clone();
                proof {
                    old(self).recipients@.lemma_push_map_commute(|a: Address| a@, who_exec);
                    assert(ids_of(before, who).len() == 0);
                    assert(list@ =~= ids_of(after, who));
                }
                self.recipients.push(who_exec);
                self.ids.push(list);
            },
        }
        self.schedules.push(vesting);
        proof {
            assert(self@ == after);
            assert forall|j: int| 0 <= j < self@.len() implies (#[trigger] self@[j]).wf() by {
                if j < before.len() {
                    assert(before[j].wf());
                }
            }
            assert forall|i: int| 0 <= i < self.ids@.len() implies (#[trigger] self.ids@[i])@
                == ids_of(self@, keys_of(self.recipients@)[i]) by {
                if i < old(self).ids@.len() {
                    assert(keys_of(self.recipients@)[i] == keys_of(old(self).recipients@)[i]);
                    assert(old(self).ids@[i]@ == ids_of(before, keys_of(old(self).recipients@)[i]));
                }
            }
        }
        id
    }

    /// Records that `claimed` has been claimed of the schedule `id`.
    pub fn set_claimed(&mut self, id: u64, claimed: i128)
        requires
            old(self).wf(),
            id < old(self)@.len(),
            0 <= claimed <= old(self)@[id as int].total(),
        ensures
            final(self).wf(),
            final(self)@ == old(self)@.update(
                id as int,
                (Schedule { claimed_amount: claimed, ..old(self)@[id as int] }),
            ),
    {
        let ghost before = self@;
        self.schedules[id as usize].claimed_amount = claimed;
        proof {
            let after = before.update(
                id as int,
                (Schedule { claimed_amount: claimed, ..before[id as int] }),
            );
            assert(self@ =~= after);
            self.lemma_kept_lists(*old(self));
        }
    }

    /// Records that the schedule `id` was revoked at `timestamp`.
    pub fn set_deactivation(&mut self, id: u64, timestamp: u64)
        requires
            old(self).wf(),
            id < old(self)@.len(),
        ensures
            final(self).wf(),
            final(self)@ == old(self)@.update(
                id as int,
                (Schedule { deactivation_timestamp: timestamp, ..old(self)@[id as int] }),
            ),
    {
        let ghost before = self@;
        self.schedules[id as usize].deactivation_timestamp = timestamp;
        proof {
            let after = before.update(
                id as int,
                (Schedule { deactivation_timestamp: timestamp, ..before[id as int] }),
            );
            assert(self@ =~= after);
            self.lemma_kept_lists(*old(self));
        }
    }

    /// The store of the schedules in `list`, in their order, where each of
    /// them is well-formed and there are at most `u32::MAX`.
    pub fn from_list(list: &Vec<Vesting>) -> (r: Option<ScheduleStore>)
        ensures
            match r {
                Some(s) => {
                    &&& s.wf()
                    &&& s@ == schedules_of(list@)
                },
                None => list@.len() > u32::MAX || exists|j: int|
                    0 <= j < list@.len() && !(#[trigger] schedules_of(list@)[j]).wf(),
            },
    {
        if list.len() > u32::MAX as usize {
            return None;
        }
        let mut store = ScheduleStore::new();
        let mut i: usize = 0;
        while i < list.len()
            invariant
                i <= list.len() <= u32::MAX,
                store.wf(),
                store@ == schedules_of(list@).take(i as int),
            decreases list.len() - i,
        {
            if !list[i].is_wf() {
                assert(!schedules_of(list@)[i as int].wf());
                return None;
            }
            store.insert(list[i].clone());
            assert(store@ =~= schedules_of(list@).take(i + 1));
            i += 1;
        }
        assert(schedules_of(list@).take(list@.len() as int) =~= schedules_of(list@));
        Some(store)
    }

    /// A store that differs from a well-formed one only in schedules that
    /// kept their recipients is well-formed where its schedules are.
    proof fn lemma_kept_lists(&self, before: ScheduleStore)
        requires
            before.wf(),
            self.recipients == before.recipients,
            self.ids == before.ids,
            self@.len() == before@.len(),
            forall|j: int| 0 <= j < self@.len() ==> self@[j].recipient == before@[j].recipient,
            forall|j: int| 0 <= j < self@.len() ==> (#[trigger] self@[j]).wf(),
        ensures
            self.wf(),
    {
        lemma_same_recipients(self@, before@, Seq::empty());
        assert forall|i: int| 0 <= i < self.ids@.len() implies (#[trigger] self.ids@[i])@
            == ids_of(self@, keys_of(self.recipients@)[i]) by {
            lemma_same_recipients(self@, before@, keys_of(self.recipients@)[i]);
        }
    }
}


/// A copy of the part `[from, to)` of `list`.
pub fn copy_ids(list: &Vec<u64>, from: usize, to: usize) -> (r: Vec<u64>)
    requires
        from <= to <= list.len(),
    ensures
        r@ == list@.subrange(from as int, to as int),
{
    let mut out: Vec<u64> = Vec::new();
    let mut i: usize = from;
    while i < to
        invariant
            from <= i <= to <= list.len(),
            out@ == list@.subrange(from as int, i as int),
        decreases to - i,
    {
        out.push(list[i]);
        assert(out@ =~= list@.subrange(from as int, i + 1));
        i += 1;
    }
    out
}

} // verus!
