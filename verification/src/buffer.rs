//! Bounded histories of status observations.
//!
//! A history keeps at most as many entries as its capacity. Two strategies
//! hold one: [`VecBuffer`](crate::vec_buffer::VecBuffer) keeps the entries
//! in the order in which they were pushed,
//! [`BTreeMapBuffer`](crate::btree_buffer::BTreeMapBuffer) keeps them by
//! instant. Both answer the same questions, stated here over the sequence
//! of entries that the history holds.
use crate::status::TimedStatus;
use crate::time::Timestamp;
use vstd::prelude::*;

verus! {

/// Whether `s[i]` is the entry nearest to `time`: no entry is nearer, and
/// every entry before it is farther away.
pub open spec fn is_nearest(s: Seq<TimedStatus>, time: Timestamp, i: int) -> bool {
    &&& 0 <= i < s.len()
    &&& forall|j: int| 0 <= j < s.len() ==> s[i].gap(time) <= (#[trigger] s[j]).gap(time)
    &&& forall|j: int| 0 <= j < i ==> s[i].gap(time) < (#[trigger] s[j]).gap(time)
}

/// The position of the entry nearest to `time`; among entries equally near,
/// the first. Meaningful for a sequence that is not empty.
pub open spec fn nearest_index(s: Seq<TimedStatus>, time: Timestamp) -> int {
    choose|i: int| is_nearest(s, time, i)
}

/// The entry nearest to `time`, if there is any entry.
pub open spec fn nearest(s: Seq<TimedStatus>, time: Timestamp) -> Option<TimedStatus> {
    if s.len() == 0 {
        None
    } else {
        Some(s[nearest_index(s, time)])
    }
}

/// At most one position is the nearest.
pub proof fn lemma_nearest_unique(s: Seq<TimedStatus>, time: Timestamp, i: int, j: int)
    requires
        is_nearest(s, time, i),
        is_nearest(s, time, j),
    ensures
        i == j,
{
    if i < j {
        assert(s[j].gap(time) < s[i].gap(time));
        assert(s[i].gap(time) <= s[j].gap(time));
    } else if j < i {
        assert(s[i].gap(time) < s[j].gap(time));
        assert(s[j].gap(time) <= s[i].gap(time));
    }
}

/// One more entry at the end of a sequence is its nearest if it is nearer
/// than the nearest before it, which else stays the nearest.
pub proof fn lemma_nearest_step(s: Seq<TimedStatus>, time: Timestamp, best: int)
    requires
        s.len() > 0,
        is_nearest(s.drop_last(), time, best),
    ensures
        is_nearest(
            s,
            time,
            if s.last().gap(time) < s[best].gap(time) {
                s.len() - 1
            } else {
                best
            },
        ),
{
    let front = s.drop_last();
    let next = if s.last().gap(time) < s[best].gap(time) {
        s.len() - 1
    } else {
        best
    };
    assert forall|j: int| 0 <= j < s.len() implies s[next].gap(time) <= (#[trigger] s[j]).gap(
        time,
    ) by {
        if j < front.len() {
            assert(front[best].gap(time) <= front[j].gap(time));
        }
    }
    assert forall|j: int| 0 <= j < next implies s[next].gap(time) < (#[trigger] s[j]).gap(
        time,
    ) by {
        if j < best {
            assert(front[best].gap(time) < front[j].gap(time));
        } else {
            assert(front[best].gap(time) <= front[j].gap(time));
        }
    }
}

/// A sequence that is not empty has a nearest entry.
pub proof fn lemma_nearest_exists(s: Seq<TimedStatus>, time: Timestamp)
    requires
        s.len() > 0,
    ensures
        is_nearest(s, time, nearest_index(s, time)),
    decreases s.len(),
{
    if s.len() == 1 {
        assert(is_nearest(s, time, 0));
    } else {
        lemma_nearest_exists(s.drop_last(), time);
        lemma_nearest_step(s, time, nearest_index(s.drop_last(), time));
    }
}

/// The position that is the nearest is the one that [`nearest`] returns.
pub proof fn lemma_nearest_is(s: Seq<TimedStatus>, time: Timestamp, i: int)
    requires
        is_nearest(s, time, i),
    ensures
        nearest_index(s, time) == i,
        nearest(s, time) == Some(s[i]),
{
    lemma_nearest_exists(s, time);
    lemma_nearest_unique(s, time, i, nearest_index(s, time));
}

/// The last `n` entries of `s`, or all of `s` if it has no more than `n`.
pub open spec fn latest(s: Seq<TimedStatus>, n: nat) -> Seq<TimedStatus> {
    if s.len() <= n {
        s
    } else {
        s.skip(s.len() - n)
    }
}

/// The rule by which a history of limited length takes one more observation.
pub trait Strategy {
    /// The entries held after `status` is pushed onto `entries` under
    /// `capacity`.
    spec fn pushed(entries: Seq<TimedStatus>, capacity: nat, status: TimedStatus) -> Seq<
        TimedStatus,
    >;
}

/// The entries held after each of `added` is pushed in turn onto `entries`.
pub open spec fn pushed_all<S: Strategy>(
    entries: Seq<TimedStatus>,
    capacity: nat,
    added: Seq<TimedStatus>,
) -> Seq<TimedStatus>
    decreases added.len(),
{
    if added.len() == 0 {
        entries
    } else {
        S::pushed(pushed_all::<S>(entries, capacity, added.drop_last()), capacity, added.last())
    }
}

/// A bounded, ordered history of status observations.
///
/// `entries` is what the history holds, in the order of the strategy, and
/// `capacity` is the most it will hold.
pub trait StatusBuffer: Strategy + Sized {
    /// The history's internal invariant.
    spec fn wf(&self) -> bool;

    /// The entries held, in the strategy's order.
    spec fn entries(&self) -> Seq<TimedStatus>;

    /// The greatest number of entries held at once.
    spec fn capacity(&self) -> nat;

    /// Inserts one entry and, if that exceeds the capacity, evicts one.
    fn push(&mut self, status: TimedStatus)
        requires
            old(self).wf(),
        ensures
            final(self).wf(),
            final(self).capacity() == old(self).capacity(),
            final(self).entries() == Self::pushed(
                old(self).entries(),
                old(self).capacity(),
                status,
            ),
    ;

    /// The entry at position `index`, if there is one.
    fn get(&self, index: usize) -> (r: Option<TimedStatus>)
        requires
            self.wf(),
        ensures
            r == if index < self.entries().len() {
                Some(self.entries()[index as int])
            } else {
                None
            },
    ;

    /// The number of entries held.
    fn len(&self) -> (n: usize)
        requires
            self.wf(),
        ensures
            n == self.entries().len(),
            n <= self.capacity(),
    ;

    /// Whether no entry is held.
    fn is_empty(&self) -> (b: bool)
        requires
            self.wf(),
        ensures
            b == (self.entries().len() == 0),
    {
        self.len() == 0
    }

    /// The greatest number of entries held at once.
    fn cap(&self) -> (c: usize)
        requires
            self.wf(),
        ensures
            c == self.capacity(),
    ;

    /// A history of the given capacity onto which the entries of `vec` are
    /// pushed in order, starting from none.
    fn from_vec(vec: Vec<TimedStatus>, cap: usize) -> (b: Self)
        ensures
            b.wf(),
            b.capacity() == cap,
            b.entries() == pushed_all::<Self>(Seq::empty(), cap as nat, vec@),
    ;

    /// A copy of the entries held, in the strategy's order.
    fn as_vec(&self) -> (v: Vec<TimedStatus>)
        requires
            self.wf(),
        ensures
            v@ == self.entries(),
    ;

    /// The entry nearest in time to `time`; among entries equally near, the
    /// first in the strategy's order. `None` only if no entry is held.
    fn nearest(&self, time: Timestamp) -> (r: Option<TimedStatus>)
        requires
            self.wf(),
        ensures
            r == nearest(self.entries(), time),
    ;
}

} // verus!
