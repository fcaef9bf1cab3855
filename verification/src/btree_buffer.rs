//! The history that keeps its entries by instant.
use crate::buffer::{is_nearest, latest, lemma_nearest_is, pushed_all, StatusBuffer, Strategy};
use crate::status::TimedStatus;
use crate::time::Timestamp;
use crate::vec_buffer::VecBuffer;
use vstd::prelude::*;

verus! {

/// Whether the instants of `s` strictly increase.
pub open spec fn increasing(s: Seq<TimedStatus>) -> bool {
    forall|i: int, j: int|
        0 <= i < j < s.len() ==> (#[trigger] s[i]).instant() < (#[trigger] s[j]).instant()
}

/// Whether `k` parts `s` into the entries before `time` and those at or
/// after it.
pub open spec fn splits_at(s: Seq<TimedStatus>, time: Timestamp, k: int) -> bool {
    &&& 0 <= k <= s.len()
    &&& forall|i: int| 0 <= i < k ==> (#[trigger] s[i]).instant() < time.as_nanos()
    &&& forall|i: int| k <= i < s.len() ==> (#[trigger] s[i]).instant() >= time.as_nanos()
}

/// The number of entries of `s` before `time`; for an increasing `s`, the
/// position at which an entry of that instant stands or belongs.
pub open spec fn rank(s: Seq<TimedStatus>, time: Timestamp) -> int {
    choose|k: int| splits_at(s, time, k)
}

/// `s` with `status` put at its instant: in place of the entry of the same
/// instant if there is one, else between its neighbours in time.
pub open spec fn inserted(s: Seq<TimedStatus>, status: TimedStatus) -> Seq<TimedStatus> {
    let k = rank(s, status.time);
    if k < s.len() && s[k].instant() == status.instant() {
        s.update(k, status)
    } else {
        s.insert(k, status)
    }
}

/// `s` with each of `added` put at its instant, in turn.
pub open spec fn inserted_all(s: Seq<TimedStatus>, added: Seq<TimedStatus>) -> Seq<TimedStatus>
    decreases added.len(),
{
    if added.len() == 0 {
        s
    } else {
        inserted(inserted_all(s, added.drop_last()), added.last())
    }
}

/// A sequence is parted at one position only.
pub proof fn lemma_split_unique(s: Seq<TimedStatus>, time: Timestamp, a: int, b: int)
    requires
        splits_at(s, time, a),
        splits_at(s, time, b),
    ensures
        a == b,
{
    if a < b {
        assert(s[a].instant() >= time.as_nanos());
        assert(s[a].instant() < time.as_nanos());
    } else if b < a {
        assert(s[b].instant() >= time.as_nanos());
        assert(s[b].instant() < time.as_nanos());
    }
}

/// An increasing sequence is parted by every instant.
pub proof fn lemma_split_exists(s: Seq<TimedStatus>, time: Timestamp)
    requires
        increasing(s),
    ensures
        splits_at(s, time, rank(s, time)),
    decreases s.len(),
{
    if s.len() == 0 {
        assert(splits_at(s, time, 0));
    } else if s.last().instant() < time.as_nanos() {
        assert forall|i: int| 0 <= i < s.len() implies (#[trigger] s[i]).instant()
            < time.as_nanos() by {
            if i < s.len() - 1 {
                assert(s[i].instant() < s[s.len() - 1].instant());
            }
        }
        assert(splits_at(s, time, s.len() as int));
    } else {
        let front = s.drop_last();
        assert(forall|i: int| 0 <= i < front.len() ==> front[i] == s[i]);
        assert(increasing(front));
        lemma_split_exists(front, time);
        let k = rank(front, time);
        assert forall|i: int| 0 <= i < k implies (#[trigger] s[i]).instant() < time.as_nanos() by {
            assert(front[i].instant() < time.as_nanos());
        }
        assert forall|i: int| k <= i < s.len() implies (#[trigger] s[i]).instant()
            >= time.as_nanos() by {
            if i < front.len() {
                assert(front[i].instant() >= time.as_nanos());
            }
        }
        assert(splits_at(s, time, k));
    }
}

/// The position that parts an increasing sequence is its rank.
pub proof fn lemma_rank_is(s: Seq<TimedStatus>, time: Timestamp, k: int)
    requires
        increasing(s),
        splits_at(s, time, k),
    ensures
        rank(s, time) == k,
{
    lemma_split_exists(s, time);
    lemma_split_unique(s, time, k, rank(s, time));
}

/// Putting an entry at its instant keeps the instants increasing, and
/// lengthens the sequence by one unless the instant was held already.
pub proof fn lemma_inserted_increasing(s: Seq<TimedStatus>, status: TimedStatus)
    requires
        increasing(s),
    ensures
        increasing(inserted(s, status)),
        s.len() <= inserted(s, status).len() <= s.len() + 1,
{
    lemma_split_exists(s, status.time);
    let k = rank(s, status.time);
    let r = inserted(s, status);
    let t = status.instant();
    if k < s.len() && s[k].instant() == t {
        assert forall|i: int, j: int| 0 <= i < j < r.len() implies (#[trigger] r[i]).instant() < (
        #[trigger] r[j]).instant() by {
            assert(s[i].instant() < s[j].instant());
        }
    } else {
        assert forall|i: int, j: int| 0 <= i < j < r.len() implies (#[trigger] r[i]).instant() < (
        #[trigger] r[j]).instant() by {
            if j < k {
                assert(s[i].instant() < s[j].instant());
            } else if j == k {
                assert(s[i].instant() < t);
            } else if i < k {
                assert(s[i].instant() < t);
                assert(s[j - 1].instant() >= t);
            } else if i == k {
                assert(s[j - 1].instant() >= t);
            } else {
                assert(s[i - 1].instant() < s[j - 1].instant());
            }
        }
    }
}

/// Putting entries at their instants keeps the instants increasing.
pub proof fn lemma_inserted_all_increasing(s: Seq<TimedStatus>, added: Seq<TimedStatus>)
    requires
        increasing(s),
    ensures
        increasing(inserted_all(s, added)),
    decreases added.len(),
{
    if added.len() > 0 {
        lemma_inserted_all_increasing(s, added.drop_last());
        lemma_inserted_increasing(inserted_all(s, added.drop_last()), added.last());
    }
}

/// The last entries of an increasing sequence increase.
pub proof fn lemma_latest_increasing(s: Seq<TimedStatus>, n: nat)
    requires
        increasing(s),
    ensures
        increasing(latest(s, n)),
{
    let held = latest(s, n);
    let dropped = s.len() - held.len();
    assert forall|i: int, j: int| 0 <= i < j < held.len() implies (#[trigger] held[i]).instant() < (
    #[trigger] held[j]).instant() by {
        assert(s[i + dropped].instant() < s[j + dropped].instant());
    }
}

/// In an increasing sequence the entry nearest to `time` stands next to
/// where `time` parts it: it is the last entry before `time`, unless the
/// first entry at or after `time` is nearer or there is none before.
pub proof fn lemma_nearest_is_neighbour(s: Seq<TimedStatus>, time: Timestamp, k: int)
    requires
        increasing(s),
        s.len() > 0,
        splits_at(s, time, k),
    ensures
        is_nearest(
            s,
            time,
            if k == 0 {
                0
            } else if k == s.len() || s[k - 1].gap(time) <= s[k].gap(time) {
                k - 1
            } else {
                k
            },
        ),
{
    let t = time.as_nanos();
    // Up to `k - 1` the gap shrinks, from `k` on it grows.
    assert forall|j: int| 0 <= j < k implies s[k - 1].gap(time) <= (#[trigger] s[j]).gap(time) && (j
        < k - 1 ==> s[k - 1].gap(time) < s[j].gap(time)) by {
        assert(s[j].instant() < t);
        assert(s[k - 1].instant() < t);
        if j < k - 1 {
            assert(s[j].instant() < s[k - 1].instant());
        }
    }
    assert forall|j: int| k <= j < s.len() implies s[k].gap(time) <= (#[trigger] s[j]).gap(
        time,
    ) by {
        assert(s[j].instant() >= t);
        assert(s[k].instant() >= t);
        if j > k {
            assert(s[k].instant() < s[j].instant());
        }
    }
}

/// A history by instant: at most `capacity` entries, one for an instant,
/// earliest first, as an ordered map from instants to statuses holds them.
///
/// A push for an instant that is held replaces the entry of that instant.
/// A push that exceeds the capacity evicts the earliest entry, which is the
/// pushed one if no entry held is earlier.
///
/// The entries are kept in a vector sorted by instant, in which an instant
/// is found by bisection.
#[derive(Debug)]
pub struct BTreeMapBuffer {
    items: Vec<TimedStatus>,
    limit: usize,
}

impl Strategy for BTreeMapBuffer {
    open spec fn pushed(entries: Seq<TimedStatus>, capacity: nat, status: TimedStatus) -> Seq<
        TimedStatus,
    > {
        let all = inserted(entries, status);
        if all.len() > capacity {
            all.drop_first()
        } else {
            all
        }
    }
}

impl BTreeMapBuffer {
    /// An empty history that will hold at most `cap` entries.
    pub fn new(cap: usize) -> (b: Self)
        ensures
            b.wf(),
            b.capacity() == cap,
            b.entries() == Seq::<TimedStatus>::empty(),
    {
        BTreeMapBuffer { items: Vec::new(), limit: cap }
    }

    /// The entries held stand by increasing instant.
    pub proof fn lemma_entries_increasing(&self)
        requires
            self.wf(),
        ensures
            increasing(self.entries()),
    {
    }

    /// The position at which an entry of instant `time` stands or belongs.
    fn lower_bound(&self, time: Timestamp) -> (k: usize)
        requires
            self.wf(),
        ensures
            splits_at(self.items@, time, k as int),
            k == rank(self.items@, time),
    {
        let t = time.total_nanos();
        let mut lo: usize = 0;
        let mut hi: usize = self.items.len();
        while lo < hi
            invariant
                lo <= hi <= self.items@.len(),
                increasing(self.items@),
                t == time.as_nanos(),
                forall|i: int| 0 <= i < lo ==> (#[trigger] self.items@[i]).instant() < t,
                forall|i: int|
                    hi <= i < self.items@.len() ==> (#[trigger] self.items@[i]).instant() >= t,
            decreases hi - lo,
        {
            let mid = lo + (hi - lo) / 2;
            let ghost at_mid = self.items@[mid as int].instant();
            if self.items[mid].time.total_nanos() < t {
                assert forall|i: int| 0 <= i < mid + 1 implies (
                #[trigger] self.items@[i]).instant() < t by {
                    if i < mid {
                        assert(self.items@[i].instant() < at_mid);
                    }
                }
                lo = mid + 1;
            } else {
                assert forall|i: int| mid <= i < self.items@.len() implies (
                #[trigger] self.items@[i]).instant() >= t by {
                    if i > mid {
                        assert(at_mid < self.items@[i].instant());
                    }
                }
                hi = mid;
            }
        }
        proof {
            lemma_rank_is(self.items@, time, lo as int);
        }
        lo
    }
}

impl StatusBuffer for BTreeMapBuffer {
    closed spec fn wf(&self) -> bool {
        &&& self.items@.len() <= self.limit
        &&& increasing(self.items@)
    }

    closed spec fn entries(&self) -> Seq<TimedStatus> {
        self.items@
    }

    closed spec fn capacity(&self) -> nat {
        self.limit as nat
    }

    fn push(&mut self, status: TimedStatus) {
        let k = self.lower_bound(status.time);
        let ghost all = inserted(self.items@, status);
        proof {
            lemma_inserted_increasing(self.items@, status);
        }
        if k < self.items.len() && self.items[k].time.total_nanos() == status.time.total_nanos() {
            self.items[k] = status;
        } else {
            self.items.insert(k, status);
        }
        assert(self.items@ == all);
        if self.items.len() > self.limit {
            self.items.remove(0);
            proof {
                assert(self.items@ == latest(all, self.limit as nat));
                lemma_latest_increasing(all, self.limit as nat);
            }
        }
    }

    fn get(&self, index: usize) -> (r: Option<TimedStatus>) {
        if index < self.items.len() {
            Some(self.items[index].clone())
        } else {
            None
        }
    }

    fn len(&self) -> (n: usize) {
        assert(self.capacity() == self.limit);
        self.items.len()
    }

    fn cap(&self) -> (c: usize) {
        self.limit
    }

    fn from_vec(vec: Vec<TimedStatus>, cap: usize) -> (b: Self)
        ensures
            b.entries() == latest(inserted_all(Seq::empty(), vec@), cap as nat),
            increasing(vec@) && vec@.len() <= cap ==> b.entries() == vec@,
    {
        let mut b = BTreeMapBuffer { items: Vec::new(), limit: cap };
        let ghost all = vec@;
        for status in it: vec
            invariant
                it.seq() == all,
                b.wf(),
                b.limit == cap,
                b.entries() == pushed_all::<BTreeMapBuffer>(
                    Seq::empty(),
                    cap as nat,
                    all.take(it.index()),
                ),
        {
            proof {
                let k = it.index();
                assert(all.take(k + 1).drop_last() == all.take(k));
                assert(all.take(k + 1).last() == status);
            }
            b.push(status);
        }
        proof {
            assert(all.take(all.len() as int) == all);
            lemma_pushed_all_keeps_latest(Seq::empty(), cap as nat, all);
            if increasing(all) && all.len() <= cap {
                lemma_round_trip(all, cap as nat);
            }
        }
        b
    }

    fn as_vec(&self) -> (v: Vec<TimedStatus>) {
        let mut v: Vec<TimedStatus> = Vec::new();
        let n = self.items.len();
        let mut i: usize = 0;
        while i < n
            invariant
                n == self.items@.len(),
                i <= n,
                v@ == self.items@.take(i as int),
            decreases n - i,
        {
            v.push(self.items[i].clone());
            i = i + 1;
        }
        proof {
            assert(self.items@.take(n as int) == self.items@);
        }
        v
    }

    fn nearest(&self, time: Timestamp) -> (r: Option<TimedStatus>) {
        let n = self.items.len();
        if n == 0 {
            return None;
        }
        let k = self.lower_bound(time);
        let best: usize = if k == 0 {
            0
        } else if k == n || self.items[k - 1].time.distance(time) <= self.items[k].time.distance(
            time,
        ) {
            k - 1
        } else {
            k
        };
        proof {
            lemma_nearest_is_neighbour(self.items@, time, k as int);
            lemma_nearest_is(self.items@, time, best as int);
        }
        Some(self.items[best].clone())
    }
}

/// An entry pushed for an instant that is held takes the place of the entry
/// of that instant, and the sequence is as long as before.
pub proof fn lemma_inserted_replaces(s: Seq<TimedStatus>, status: TimedStatus, i: int)
    requires
        increasing(s),
        0 <= i < s.len(),
        s[i].instant() == status.instant(),
    ensures
        inserted(s, status) == s.update(i, status),
{
    lemma_split_exists(s, status.time);
    let k = rank(s, status.time);
    if k < i {
        assert(s[k].instant() < s[i].instant());
    } else if i < k {
        assert(s[i].instant() < status.instant());
    }
}

/// One push keeps the latest: pushing onto the last `capacity` entries of
/// an increasing sequence gives the last `capacity` entries of the sequence
/// with the pushed entry put at its instant.
pub proof fn lemma_pushed_keeps_latest(all: Seq<TimedStatus>, capacity: nat, status: TimedStatus)
    requires
        increasing(all),
    ensures
        BTreeMapBuffer::pushed(latest(all, capacity), capacity, status) == latest(
            inserted(all, status),
            capacity,
        ),
{
    let t = status.instant();
    let held = latest(all, capacity);
    let dropped = all.len() - held.len();
    let k = rank(all, status.time);
    let hit = k < all.len() && all[k].instant() == t;
    lemma_split_exists(all, status.time);
    lemma_latest_increasing(all, capacity);
    assert(forall|i: int| 0 <= i < held.len() ==> held[i] == all[i + dropped]);
    if k >= dropped {
        // The pushed entry goes among the entries held, where it would go
        // among all.
        assert(splits_at(held, status.time, k - dropped)) by {
            assert forall|i: int| 0 <= i < k - dropped implies (#[trigger] held[i]).instant()
                < t by {
                assert(all[i + dropped].instant() < t);
            }
            assert forall|i: int| k - dropped <= i < held.len() implies (
            #[trigger] held[i]).instant() >= t by {
                assert(all[i + dropped].instant() >= t);
            }
        }
        lemma_rank_is(held, status.time, k - dropped);
        if hit {
            assert(held.update(k - dropped, status) =~= latest(all.update(k, status), capacity));
        } else if all.len() < capacity {
            assert(held.insert(k - dropped, status) =~= all.insert(k, status));
        } else {
            assert(held.insert(k - dropped, status).drop_first() =~= all.insert(k, status).skip(
                dropped + 1,
            ));
        }
    } else {
        // The pushed entry is earlier than all that are held: it goes to
        // the front and is evicted at once.
        assert(splits_at(held, status.time, 0)) by {
            assert forall|i: int| 0 <= i < held.len() implies (#[trigger] held[i]).instant()
                >= t by {
                assert(all[i + dropped].instant() >= t);
            }
        }
        lemma_rank_is(held, status.time, 0);
        if held.len() > 0 {
            assert(all[k].instant() < all[dropped].instant());
            assert(held[0].instant() > t);
        }
        assert(held.insert(0, status).drop_first() =~= held);
        if hit {
            assert(held =~= latest(all.update(k, status), capacity));
        } else {
            assert(held =~= all.insert(k, status).skip(dropped + 1));
        }
    }
}

/// However many entries are pushed, the history holds the `capacity`
/// latest instants among those ever held or pushed, each with the entry
/// pushed last for it, and so never more than `capacity` entries.
pub proof fn lemma_pushed_all_keeps_latest(
    entries: Seq<TimedStatus>,
    capacity: nat,
    added: Seq<TimedStatus>,
)
    requires
        increasing(entries),
        entries.len() <= capacity,
    ensures
        pushed_all::<BTreeMapBuffer>(entries, capacity, added) == latest(
            inserted_all(entries, added),
            capacity,
        ),
        pushed_all::<BTreeMapBuffer>(entries, capacity, added).len() <= capacity,
        increasing(pushed_all::<BTreeMapBuffer>(entries, capacity, added)),
    decreases added.len(),
{
    if added.len() > 0 {
        let front = added.drop_last();
        lemma_pushed_all_keeps_latest(entries, capacity, front);
        lemma_inserted_all_increasing(entries, front);
        lemma_pushed_keeps_latest(inserted_all(entries, front), capacity, added.last());
    }
    lemma_inserted_all_increasing(entries, added);
    lemma_latest_increasing(inserted_all(entries, added), capacity);
}

/// Entries that stand by increasing instant are put back as they stand.
pub proof fn lemma_inserted_all_of_increasing(entries: Seq<TimedStatus>)
    requires
        increasing(entries),
    ensures
        inserted_all(Seq::empty(), entries) == entries,
    decreases entries.len(),
{
    if entries.len() > 0 {
        let front = entries.drop_last();
        let last = entries.last();
        assert(forall|i: int| 0 <= i < front.len() ==> front[i] == entries[i]);
        assert(increasing(front));
        lemma_inserted_all_of_increasing(front);
        assert(splits_at(front, last.time, front.len() as int)) by {
            assert forall|i: int| 0 <= i < front.len() implies (#[trigger] front[i]).instant()
                < last.instant() by {
                assert(entries[i].instant() < entries[entries.len() - 1].instant());
            }
        }
        lemma_rank_is(front, last.time, front.len() as int);
        assert(front.insert(front.len() as int, last) =~= entries);
    }
}

/// A history rebuilt from its own entries under its own capacity holds the
/// same entries: once instants are unique, rebuilding changes nothing.
pub proof fn lemma_round_trip(entries: Seq<TimedStatus>, capacity: nat)
    requires
        increasing(entries),
        entries.len() <= capacity,
    ensures
        pushed_all::<BTreeMapBuffer>(Seq::empty(), capacity, entries) == entries,
{
    lemma_pushed_all_keeps_latest(Seq::empty(), capacity, entries);
    lemma_inserted_all_of_increasing(entries);
}

/// Entries that arrive by increasing instant fare alike under both
/// strategies: either history holds the last `capacity` of them, in the
/// order in which they came.
pub proof fn lemma_strategies_agree(capacity: nat, added: Seq<TimedStatus>)
    requires
        increasing(added),
    ensures
        pushed_all::<BTreeMapBuffer>(Seq::empty(), capacity, added) == latest(added, capacity),
        pushed_all::<VecBuffer>(Seq::empty(), capacity, added) == latest(added, capacity),
{
    lemma_pushed_all_keeps_latest(Seq::empty(), capacity, added);
    lemma_inserted_all_of_increasing(added);
    crate::vec_buffer::lemma_pushed_all_keeps_latest(Seq::empty(), capacity, added);
    assert(Seq::<TimedStatus>::empty() + added == added);
}

} // verus!
