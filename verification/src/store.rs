//! The store of service records, by name.
use crate::buffer::StatusBuffer;
use crate::names::{
    compare, lemma_name_lt_asymmetric, lemma_name_lt_transitive, name_lt, NameOrder,
};
use crate::service::{Service, ServiceModel};
use vstd::prelude::*;

verus! {

/// One record of the store, under its name.
#[derive(Debug)]
struct Slot<B: StatusBuffer> {
    name: String,
    service: Service<B>,
}

/// Whether a record stands under `name`.
spec fn has_name<B: StatusBuffer>(slots: Seq<Slot<B>>, name: Seq<char>) -> bool {
    exists|i: int| 0 <= i < slots.len() && (#[trigger] slots[i]).name@ == name
}

/// A position at which a record stands under `name`.
spec fn slot_of<B: StatusBuffer>(slots: Seq<Slot<B>>, name: Seq<char>) -> int {
    choose|i: int| 0 <= i < slots.len() && (#[trigger] slots[i]).name@ == name
}

/// Whether the records stand by increasing name.
spec fn sorted<B: StatusBuffer>(slots: Seq<Slot<B>>) -> bool {
    forall|i: int, j: int|
        0 <= i < j < slots.len() ==> name_lt(
            (#[trigger] slots[i]).name@,
            (#[trigger] slots[j]).name@,
        )
}

/// The records as a map from name to record.
spec fn model<B: StatusBuffer>(slots: Seq<Slot<B>>) -> Map<Seq<char>, ServiceModel> {
    Map::new(
        |name: Seq<char>| has_name(slots, name),
        |name: Seq<char>| slots[slot_of(slots, name)].service@,
    )
}

/// Whether `name` belongs at position `k`, where no record stands under it.
spec fn belongs_at<B: StatusBuffer>(slots: Seq<Slot<B>>, name: Seq<char>, k: int) -> bool {
    &&& 0 <= k <= slots.len()
    &&& forall|i: int| 0 <= i < k ==> name_lt((#[trigger] slots[i]).name@, name)
    &&& forall|i: int| k <= i < slots.len() ==> name_lt(name, (#[trigger] slots[i]).name@)
}

/// In sorted records a name stands at one position only.
proof fn lemma_slot<B: StatusBuffer>(slots: Seq<Slot<B>>, i: int)
    requires
        sorted(slots),
        0 <= i < slots.len(),
    ensures
        has_name(slots, slots[i].name@),
        slot_of(slots, slots[i].name@) == i,
        model(slots).contains_key(slots[i].name@),
        model(slots)[slots[i].name@] == slots[i].service@,
{
    let j = slot_of(slots, slots[i].name@);
    if j < i {
        lemma_name_lt_asymmetric(slots[j].name@, slots[i].name@);
    } else if i < j {
        lemma_name_lt_asymmetric(slots[i].name@, slots[j].name@);
    }
}

/// No record stands under a name that belongs between two records.
proof fn lemma_absent<B: StatusBuffer>(slots: Seq<Slot<B>>, name: Seq<char>, k: int)
    requires
        belongs_at(slots, name, k),
    ensures
        !has_name(slots, name),
        !model(slots).contains_key(name),
{
    if has_name(slots, name) {
        let i = slot_of(slots, name);
        if i < k {
            lemma_name_lt_asymmetric(slots[i].name@, name);
        } else {
            lemma_name_lt_asymmetric(name, slots[i].name@);
        }
    }
}

/// A record put where its name belongs enters the map.
proof fn lemma_insert<B: StatusBuffer>(slots: Seq<Slot<B>>, slot: Slot<B>, k: int)
    requires
        sorted(slots),
        belongs_at(slots, slot.name@, k),
    ensures
        sorted(slots.insert(k, slot)),
        model(slots.insert(k, slot)) == model(slots).insert(slot.name@, slot.service@),
{
    let after = slots.insert(k, slot);
    assert forall|i: int, j: int| 0 <= i < j < after.len() implies name_lt(
        (#[trigger] after[i]).name@,
        (#[trigger] after[j]).name@,
    ) by {
        if j < k {
            assert(name_lt(slots[i].name@, slots[j].name@));
        } else if j == k {
            assert(name_lt(slots[i].name@, slot.name@));
        } else if i < k {
            assert(name_lt(slots[i].name@, slot.name@));
            assert(name_lt(slot.name@, slots[j - 1].name@));
            lemma_name_lt_transitive(slots[i].name@, slot.name@, slots[j - 1].name@);
        } else if i == k {
            assert(name_lt(slot.name@, slots[j - 1].name@));
        } else {
            assert(name_lt(slots[i - 1].name@, slots[j - 1].name@));
        }
    }
    let m = model(slots).insert(slot.name@, slot.service@);
    assert forall|name: Seq<char>| model(after).contains_key(name) <==> m.contains_key(name) by {
        if has_name(after, name) {
            let i = slot_of(after, name);
            if i < k {
                assert(slots[i].name@ == name);
            } else if i > k {
                assert(slots[i - 1].name@ == name);
            }
        }
        if has_name(slots, name) {
            let i = slot_of(slots, name);
            if i < k {
                assert(after[i].name@ == name);
            } else {
                assert(after[i + 1].name@ == name);
            }
        }
        if name == slot.name@ {
            assert(after[k].name@ == name);
        }
    }
    assert forall|name: Seq<char>| model(after).contains_key(name) implies model(after)[name]
        == m[name] by {
        let i = slot_of(after, name);
        lemma_slot(after, i);
        if i < k {
            lemma_slot(slots, i);
        } else if i > k {
            lemma_slot(slots, i - 1);
        } else {
            assert(after[k] == slot);
        }
    }
    assert(model(after) =~= m);
}

/// A record taken out leaves the map.
proof fn lemma_remove<B: StatusBuffer>(slots: Seq<Slot<B>>, k: int)
    requires
        sorted(slots),
        0 <= k < slots.len(),
    ensures
        sorted(slots.remove(k)),
        model(slots.remove(k)) == model(slots).remove(slots[k].name@),
{
    let after = slots.remove(k);
    let gone = slots[k].name@;
    assert forall|i: int, j: int| 0 <= i < j < after.len() implies name_lt(
        (#[trigger] after[i]).name@,
        (#[trigger] after[j]).name@,
    ) by {
        let a = if i < k { i } else { i + 1 };
        let b = if j < k { j } else { j + 1 };
        assert(name_lt(slots[a].name@, slots[b].name@));
    }
    let m = model(slots).remove(gone);
    assert forall|name: Seq<char>| model(after).contains_key(name) <==> m.contains_key(name) by {
        if has_name(after, name) {
            let i = slot_of(after, name);
            let a = if i < k { i } else { i + 1 };
            assert(slots[a].name@ == name);
            lemma_slot(slots, a);
            lemma_slot(slots, k);
        }
        if has_name(slots, name) && name != gone {
            let i = slot_of(slots, name);
            if i < k {
                assert(after[i].name@ == name);
            } else {
                assert(after[i - 1].name@ == name);
            }
        }
    }
    assert forall|name: Seq<char>| model(after).contains_key(name) implies model(after)[name]
        == m[name] by {
        let i = slot_of(after, name);
        lemma_slot(after, i);
        let a = if i < k { i } else { i + 1 };
        lemma_slot(slots, a);
    }
    assert(model(after) =~= m);
}

/// A record changed in place changes in the map.
proof fn lemma_update<B: StatusBuffer>(slots: Seq<Slot<B>>, k: int, slot: Slot<B>)
    requires
        sorted(slots),
        0 <= k < slots.len(),
        slot.name@ == slots[k].name@,
    ensures
        sorted(slots.update(k, slot)),
        model(slots.update(k, slot)) == model(slots).insert(slot.name@, slot.service@),
{
    let after = slots.update(k, slot);
    assert forall|i: int, j: int| 0 <= i < j < after.len() implies name_lt(
        (#[trigger] after[i]).name@,
        (#[trigger] after[j]).name@,
    ) by {
        assert(name_lt(slots[i].name@, slots[j].name@));
    }
    let m = model(slots).insert(slot.name@, slot.service@);
    assert forall|name: Seq<char>| model(after).contains_key(name) <==> m.contains_key(name) by {
        if has_name(after, name) {
            let i = slot_of(after, name);
            assert(slots[i].name@ == name);
        }
        if has_name(slots, name) {
            let i = slot_of(slots, name);
            assert(after[i].name@ == name);
        }
        if name == slot.name@ {
            assert(after[k].name@ == name);
        }
    }
    assert forall|name: Seq<char>| model(after).contains_key(name) implies model(after)[name]
        == m[name] by {
        let i = slot_of(after, name);
        lemma_slot(after, i);
        lemma_slot(slots, i);
    }
    assert(model(after) =~= m);
}

/// Sorted records are as many as their names.
proof fn lemma_count<B: StatusBuffer>(slots: Seq<Slot<B>>)
    requires
        sorted(slots),
    ensures
        model(slots).dom().finite(),
        model(slots).dom().len() == slots.len(),
    decreases slots.len(),
{
    if slots.len() == 0 {
        assert(model(slots).dom() =~= Set::<Seq<char>>::empty());
    } else {
        let front = slots.drop_last();
        let last = slots.last();
        assert(forall|i: int| 0 <= i < front.len() ==> front[i] == slots[i]);
        assert(sorted(front));
        lemma_count(front);
        assert(belongs_at(front, last.name@, front.len() as int)) by {
            assert forall|i: int| 0 <= i < front.len() implies name_lt(
                (#[trigger] front[i]).name@,
                last.name@,
            ) by {
                assert(name_lt(slots[i].name@, slots[slots.len() - 1].name@));
            }
        }
        lemma_absent(front, last.name@, front.len() as int);
        lemma_insert(front, last, front.len() as int);
        assert(front.insert(front.len() as int, last) =~= slots);
        assert(model(slots).dom() =~= model(front).dom().insert(last.name@));
    }
}

/// The service records, each under its name.
///
/// Names are unique. The records stand by increasing name, so that a name
/// is found by bisection.
#[derive(Debug)]
pub struct ServiceMap<B: StatusBuffer> {
    slots: Vec<Slot<B>>,
}

impl<B: StatusBuffer> View for ServiceMap<B> {
    type V = Map<Seq<char>, ServiceModel>;

    closed spec fn view(&self) -> Map<Seq<char>, ServiceModel> {
        model(self.slots@)
    }
}

impl<B: StatusBuffer> ServiceMap<B> {
    /// The store's internal invariant, which includes that of each record.
    pub closed spec fn wf(&self) -> bool {
        &&& sorted(self.slots@)
        &&& forall|i: int| 0 <= i < self.slots@.len() ==> (#[trigger] self.slots@[i]).service.wf()
    }

    /// A store without records.
    pub fn new() -> (map: Self)
        ensures
            map.wf(),
            map@ == Map::<Seq<char>, ServiceModel>::empty(),
    {
        let map = ServiceMap { slots: Vec::new() };
        assert(map@ =~= Map::<Seq<char>, ServiceModel>::empty());
        map
    }

    /// The number of records.
    pub fn len(&self) -> (n: usize)
        requires
            self.wf(),
        ensures
            self@.dom().finite(),
            n == self@.dom().len(),
    {
        proof {
            lemma_count(self.slots@);
        }
        self.slots.len()
    }

    /// Where `name` stands, or where it belongs.
    fn find(&self, name: &str) -> (r: (usize, bool))
        requires
            self.wf(),
        ensures
            r.1 ==> r.0 < self.slots@.len() && self.slots@[r.0 as int].name@ == name@,
            !r.1 ==> belongs_at(self.slots@, name@, r.0 as int),
            r.1 == self@.contains_key(name@),
    {
        let mut lo: usize = 0;
        let mut hi: usize = self.slots.len();
        while lo < hi
            invariant
                lo <= hi <= self.slots@.len(),
                sorted(self.slots@),
                forall|i: int| 0 <= i < lo ==> name_lt((#[trigger] self.slots@[i]).name@, name@),
                forall|i: int|
                    hi <= i < self.slots@.len() ==> name_lt(
                        name@,
                        (#[trigger] self.slots@[i]).name@,
                    ),
            decreases hi - lo,
        {
            let mid = lo + (hi - lo) / 2;
            match compare(self.slots[mid].name.as_str(), name) {
                NameOrder::Same => {
                    proof {
                        lemma_slot(self.slots@, mid as int);
                    }
                    return (mid, true);
                },
                NameOrder::Before => {
                    proof {
                        assert forall|i: int| 0 <= i < mid + 1 implies name_lt(
                            (#[trigger] self.slots@[i]).name@,
                            name@,
                        ) by {
                            if i < mid {
                                lemma_name_lt_transitive(
                                    self.slots@[i].name@,
                                    self.slots@[mid as int].name@,
                                    name@,
                                );
                            }
                        }
                    }
                    lo = mid + 1;
                },
                NameOrder::After => {
                    proof {
                        assert forall|i: int| mid <= i < self.slots@.len() implies name_lt(
                            name@,
                            (#[trigger] self.slots@[i]).name@,
                        ) by {
                            if i > mid {
                                lemma_name_lt_transitive(
                                    name@,
                                    self.slots@[mid as int].name@,
                                    self.slots@[i].name@,
                                );
                            }
                        }
                    }
                    hi = mid;
                },
            }
        }
        proof {
            lemma_absent(self.slots@, name@, lo as int);
        }
        (lo, false)
    }

    /// Whether a record stands under `name`.
    pub fn contains_key(&self, name: &str) -> (b: bool)
        requires
            self.wf(),
        ensures
            b == self@.contains_key(name@),
    {
        self.find(name).1
    }

    /// The record under `name`, if there is one.
    pub fn get(&self, name: &str) -> (r: Option<&Service<B>>)
        requires
            self.wf(),
        ensures
            match r {
                Some(service) => self@.contains_key(name@) && service@ == self@[name@]
                    && service.wf(),
                None => !self@.contains_key(name@),
            },
    {
        let (k, found) = self.find(name);
        if found {
            proof {
                lemma_slot(self.slots@, k as int);
            }
            Some(&self.slots[k].service)
        } else {
            None
        }
    }

    /// The record under `name`, if there is one, to be changed in place.
    pub fn get_mut(&mut self, name: &str) -> (r: Option<&mut Service<B>>)
        requires
            old(self).wf(),
        ensures
            match r {
                Some(service) => {
                    &&& old(self)@.contains_key(name@)
                    &&& service@ == old(self)@[name@]
                    &&& service.wf()
                    &&& final(service).wf() ==> final(self).wf()
                    &&& final(self)@ == old(self)@.insert(name@, final(service)@)
                },
                None => {
                    &&& !old(self)@.contains_key(name@)
                    &&& final(self)@ == old(self)@
                    &&& final(self).wf()
                },
            },
    {
        let (k, found) = self.find(name);
        if found {
            proof {
                lemma_slot(self.slots@, k as int);
                // Whatever the caller leaves in the record, the store holds it
                // under the same name.
                let ghost slots = self.slots@;
                assert forall|slot: Slot<B>| slot.name@ == slots[k as int].name@ implies sorted(
                    #[trigger] slots.update(k as int, slot),
                ) && model(slots.update(k as int, slot)) == model(slots).insert(
                    slot.name@,
                    slot.service@,
                ) by {
                    lemma_update(slots, k as int, slot);
                }
            }
            Some(&mut self.slots[k].service)
        } else {
            None
        }
    }

    /// Puts `service` under `name`, in place of the record that stood there
    /// if there was one, and returns that record.
    pub fn insert(&mut self, name: String, service: Service<B>) -> (r: Option<Service<B>>)
        requires
            old(self).wf(),
            service.wf(),
        ensures
            final(self).wf(),
            final(self)@ == old(self)@.insert(name@, service@),
            match r {
                Some(previous) => old(self)@.contains_key(name@) && previous@ == old(self)@[name@]
                    && previous.wf(),
                None => !old(self)@.contains_key(name@),
            },
    {
        let (k, found) = self.find(name.as_str());
        let mut slot = Slot { name, service };
        if found {
            proof {
                lemma_slot(self.slots@, k as int);
                lemma_update(self.slots@, k as int, slot);
            }
            std::mem::swap(&mut self.slots[k], &mut slot);
            Some(slot.service)
        } else {
            proof {
                lemma_insert(self.slots@, slot, k as int);
            }
            self.slots.insert(k, slot);
            None
        }
    }

    /// Takes out the record under `name`, if there is one, and returns it.
    pub fn remove(&mut self, name: &str) -> (r: Option<Service<B>>)
        requires
            old(self).wf(),
        ensures
            final(self).wf(),
            final(self)@ == old(self)@.remove(name@),
            match r {
                Some(previous) => old(self)@.contains_key(name@) && previous@ == old(self)@[name@]
                    && previous.wf(),
                None => !old(self)@.contains_key(name@),
            },
    {
        let (k, found) = self.find(name);
        if found {
            proof {
                lemma_slot(self.slots@, k as int);
                lemma_remove(self.slots@, k as int);
            }
            let previous = self.slots.remove(k);
            Some(previous.service)
        } else {
            assert(self@.remove(name@) =~= self@);
            None
        }
    }
}

} // verus!
