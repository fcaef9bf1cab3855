//! The history that keeps its entries in the order in which they came.
use crate::buffer::{
    is_nearest, latest, lemma_nearest_is, lemma_nearest_step, pushed_all, StatusBuffer, Strategy,
};
use crate::status::TimedStatus;
use crate::time::Timestamp;
use std::collections::VecDeque;
use vstd::prelude::*;

verus! {

/// A history in insertion order: a ring of at most `capacity` entries.
///
/// The entries stand oldest push first. Entries with equal or earlier
/// instants than their predecessors are kept as they came. A push at
/// capacity evicts the entry that was pushed longest ago.
#[derive(Debug)]
pub struct VecBuffer {
    items: VecDeque<TimedStatus>,
    limit: usize,
}

impl Strategy for VecBuffer {
    open spec fn pushed(entries: Seq<TimedStatus>, capacity: nat, status: TimedStatus) -> Seq<
        TimedStatus,
    > {
        let all = entries.push(status);
        if all.len() > capacity {
            all.drop_first()
        } else {
            all
        }
    }
}

impl StatusBuffer for VecBuffer {
    closed spec fn wf(&self) -> bool {
        self.items@.len() <= self.limit
    }

    closed spec fn entries(&self) -> Seq<TimedStatus> {
        self.items@
    }

    closed spec fn capacity(&self) -> nat {
        self.limit as nat
    }

    fn push(&mut self, status: TimedStatus) {
        self.items.push_back(status);
        if self.items.len() > self.limit {
            self.items.pop_front();
        }
    }

    fn get(&self, index: usize) -> (r: Option<TimedStatus>) {
        if index < self.items.len() {
            Some(self.items[index].clone())
        } else {
            None
        }
    }

    fn len(&self) -> (n: usize) {
        assert(self.capacity() == self.limit);
        self.items.len()
    }

    fn cap(&self) -> (c: usize) {
        self.limit
    }

    fn from_vec(vec: Vec<TimedStatus>, cap: usize) -> (b: Self)
        ensures
            b.entries() == latest(vec@, cap as nat),
    {
        let mut b = VecBuffer { items: VecDeque::new(), limit: cap };
        let ghost all = vec@;
        for status in it: vec
            invariant
                it.seq() == all,
                b.wf(),
                b.limit == cap,
                b.entries() == pushed_all::<VecBuffer>(
                    Seq::empty(),
                    cap as nat,
                    all.take(it.index()),
                ),
        {
            proof {
                let k = it.index();
                assert(all.take(k + 1).drop_last() == all.take(k));
                assert(all.take(k + 1).last() == status);
            }
            b.push(status);
        }
        proof {
            assert(all.take(all.len() as int) == all);
            lemma_pushed_all_keeps_latest(Seq::empty(), cap as nat, all);
            assert(Seq::<TimedStatus>::empty() + all == all);
        }
        b
    }

    fn as_vec(&self) -> (v: Vec<TimedStatus>) {
        let mut v: Vec<TimedStatus> = Vec::new();
        let n = self.items.len();
        let mut i: usize = 0;
        while i < n
            invariant
                n == self.items@.len(),
                i <= n,
                v@ == self.items@.take(i as int),
            decreases n - i,
        {
            v.push(self.items[i].clone());
            i = i + 1;
        }
        proof {
            assert(self.items@.take(n as int) == self.items@);
        }
        v
    }

    fn nearest(&self, time: Timestamp) -> (r: Option<TimedStatus>) {
        let n = self.items.len();
        if n == 0 {
            return None;
        }
        let mut best: usize = 0;
        let mut best_gap: u128 = self.items[0].time.distance(time);
        let mut i: usize = 1;
        while i < n
            invariant
                n == self.items@.len(),
                1 <= i <= n,
                best < i,
                best_gap == self.items@[best as int].gap(time),
                is_nearest(self.items@.take(i as int), time, best as int),
            decreases n - i,
        {
            let gap = self.items[i].time.distance(time);
            proof {
                assert(self.items@.take(i + 1).drop_last() == self.items@.take(i as int));
                lemma_nearest_step(self.items@.take(i + 1), time, best as int);
            }
            if gap < best_gap {
                best = i;
                best_gap = gap;
            }
            i = i + 1;
        }
        proof {
            assert(self.items@.take(n as int) == self.items@);
            lemma_nearest_is(self.items@, time, best as int);
        }
        Some(self.items[best].clone())
    }
}

impl VecBuffer {
    /// An empty history that will hold at most `cap` entries.
    pub fn new(cap: usize) -> (b: Self)
        ensures
            b.wf(),
            b.capacity() == cap,
            b.entries() == Seq::<TimedStatus>::empty(),
    {
        VecBuffer { items: VecDeque::new(), limit: cap }
    }
}

/// One push keeps the latest: pushing onto the last `capacity` entries of a
/// sequence gives the last `capacity` entries of the sequence with the
/// pushed entry at its end.
pub proof fn lemma_pushed_keeps_latest(all: Seq<TimedStatus>, capacity: nat, status: TimedStatus)
    ensures
        VecBuffer::pushed(latest(all, capacity), capacity, status) == latest(
            all.push(status),
            capacity,
        ),
{
    let held = latest(all, capacity);
    let more = held.push(status);
    if all.len() < capacity {
        assert(more == all.push(status));
    } else {
        let dropped = all.len() - capacity;
        assert(more.drop_first() =~= all.push(status).skip(dropped + 1));
    }
}

/// However many entries are pushed, the history holds the last `capacity`
/// of them, in the order in which they were pushed, and so never more than
/// `capacity`.
pub proof fn lemma_pushed_all_keeps_latest(
    entries: Seq<TimedStatus>,
    capacity: nat,
    added: Seq<TimedStatus>,
)
    requires
        entries.len() <= capacity,
    ensures
        pushed_all::<VecBuffer>(entries, capacity, added) == latest(entries + added, capacity),
        pushed_all::<VecBuffer>(entries, capacity, added).len() <= capacity,
    decreases added.len(),
{
    if added.len() == 0 {
        assert(entries + added == entries);
    } else {
        let front = added.drop_last();
        lemma_pushed_all_keeps_latest(entries, capacity, front);
        lemma_pushed_keeps_latest(entries + front, capacity, added.last());
        assert((entries + front).push(added.last()) == entries + added);
    }
}

/// A history rebuilt from its own entries under its own capacity holds the
/// same entries in the same order, equal instants and all.
pub proof fn lemma_round_trip(entries: Seq<TimedStatus>, capacity: nat)
    requires
        entries.len() <= capacity,
    ensures
        pushed_all::<VecBuffer>(Seq::empty(), capacity, entries) == entries,
{
    lemma_pushed_all_keeps_latest(Seq::empty(), capacity, entries);
    assert(Seq::<TimedStatus>::empty() + entries == entries);
}

} // verus!
