//! Priority lanes and the work queue that orders IR batches by priority and
//! decides how many of them one frame processes.

use vstd::prelude::*;

verus! {

/// Maximum batches to coalesce per frame before forcing a flush.
/// Prevents starvation under high update load.
pub const MAX_COALESCE_COUNT: usize = 8;

/// Priority lanes for scheduling commits, most urgent first.
#[derive(Debug, Clone, Copy, PartialEq, Eq, PartialOrd, Ord)]
pub enum Priority {
    /// User input (touch, keyboard) — process immediately, skip coalescing.
    Immediate,
    /// Discrete user interactions — process within current frame.
    UserBlocking,
    /// Normal state updates — can be coalesced across frames.
    Normal,
    /// Low priority — prefetch, background sync.
    Low,
    /// Idle work — only when nothing else is pending.
    Idle,
}

/// The lane's place in the order: 0 for `Immediate` up to 4 for `Idle`.
pub open spec fn rank(p: Priority) -> nat {
    match p {
        Priority::Immediate => 0,
        Priority::UserBlocking => 1,
        Priority::Normal => 2,
        Priority::Low => 3,
        Priority::Idle => 4,
    }
}

impl Priority {
    /// The lane's place in the order: 0 for `Immediate` up to 4 for `Idle`.
    pub fn rank(&self) -> (r: u8)
        ensures
            r == rank(*self),
    {
        match self {
            Priority::Immediate => 0,
            Priority::UserBlocking => 1,
            Priority::Normal => 2,
            Priority::Low => 3,
            Priority::Idle => 4,
        }
    }
}

/// The lanes of `s`, in queue order, never go back to a more urgent lane.
pub open spec fn lanes_sorted(s: Seq<Priority>) -> bool {
    forall|i: int, j: int| 0 <= i <= j < s.len() ==> rank(#[trigger] s[i]) <= rank(#[trigger] s[j])
}

/// Where an item of lane `p` joins the queue: before the first item of a less
/// urgent lane, so that it follows every item of its own lane.
pub open spec fn insert_position(s: Seq<Priority>, p: Priority) -> int
    decreases s.len(),
{
    if s.len() == 0 {
        0
    } else if rank(s[0]) > rank(p) {
        0
    } else {
        1 + insert_position(s.drop_first(), p)
    }
}

/// How many items one frame takes from a queue whose lanes are `s`: nothing
/// from an empty queue; a single `Immediate` item; all the `UserBlocking`
/// items at the front; up to `MAX_COALESCE_COUNT` of the `Normal` and `Low`
/// items at the front; and `Idle` items, up to `MAX_COALESCE_COUNT`, only
/// when nothing else is queued.
pub open spec fn drain_count(s: Seq<Priority>) -> int {
    if s.len() == 0 {
        0
    } else if s[0] == Priority::Immediate {
        1
    } else if s[0] == Priority::UserBlocking {
        leading_within(s, 1)
    } else if s[0] == Priority::Idle {
        coalesced(s.len() as int)
    } else {
        coalesced(leading_within(s, 3))
    }
}

/// At most `MAX_COALESCE_COUNT` of `n` items.
pub open spec fn coalesced(n: int) -> int {
    if n < MAX_COALESCE_COUNT {
        n
    } else {
        MAX_COALESCE_COUNT as int
    }
}

/// The number of items at the front of `s` in a lane of rank `r` or more
/// urgent.
pub open spec fn leading_within(s: Seq<Priority>, r: nat) -> int
    decreases s.len(),
{
    if s.len() == 0 || rank(s[0]) > r {
        0
    } else {
        1 + leading_within(s.drop_first(), r)
    }
}

/// Pending work, kept in lane order and first come, first served within a lane.
pub struct WorkQueue<T> {
    items: Vec<(T, Priority)>,
}

impl<T> WorkQueue<T> {
    /// The queued items, front first.
    pub closed spec fn items(&self) -> Seq<T> {
        self.items@.map_values(|e: (T, Priority)| e.0)
    }

    /// The lanes of the queued items, front first.
    pub closed spec fn lanes(&self) -> Seq<Priority> {
        self.items@.map_values(|e: (T, Priority)| e.1)
    }

    /// Well-formedness: the lanes run from the most urgent to the least.
    pub open spec fn wf(&self) -> bool {
        lanes_sorted(self.lanes())
    }

    pub fn new() -> (r: Self)
        ensures
            r.wf(),
            r.items() == Seq::<T>::empty(),
            r.lanes() == Seq::<Priority>::empty(),
    {
        let r = WorkQueue { items: Vec::new() };
        assert(r.items() =~= Seq::<T>::empty());
        assert(r.lanes() =~= Seq::<Priority>::empty());
        r
    }

    pub fn len(&self) -> (r: usize)
        ensures
            r == self.items().len(),
    {
        self.items.len()
    }

    /// Whether any work is pending.
    pub fn has_pending_work(&self) -> (r: bool)
        ensures
            r == (self.items().len() > 0),
    {
        self.items.len() > 0
    }

    /// Queue `item` in lane `priority`: after every item of its lane or a
    /// more urgent one, before every item of a less urgent lane.
    pub fn enqueue(&mut self, item: T, priority: Priority)
        requires
            old(self).wf(),
        ensures
            final(self).wf(),
            final(self).items() == old(self).items().insert(insert_position(old(self).lanes(), priority), item),
            final(self).lanes() == old(self).lanes().insert(insert_position(old(self).lanes(), priority), priority),
    {
        let ghost lanes0 = self.lanes();
        let ghost items0 = self.items();
        let r = priority.rank();
        let mut pos: usize = 0;
        while pos < self.items.len() && self.items[pos].1.rank() <= r
            invariant
                pos <= self.items@.len(),
                r == rank(priority),
                lanes0 == self.lanes(),
                lanes_sorted(lanes0),
                forall|q: int| 0 <= q < pos ==> rank(#[trigger] lanes0[q]) <= rank(priority),
            decreases self.items@.len() - pos,
        {
            assert(lanes0[pos as int] == self.items@[pos as int].1);
            pos = pos + 1;
        }
        assert(pos < self.items@.len() ==> lanes0[pos as int] == self.items@[pos as int].1);
        proof {
            lemma_insert_position(lanes0, priority, pos as int);
        }
        let ghost before = self.items@;
        self.items.insert(pos, (item, priority));
        proof {
            assert(self.items() =~= items0.insert(pos as int, item));
            assert(self.lanes() =~= lanes0.insert(pos as int, priority));
            let l = self.lanes();
            assert forall|i: int, j: int| 0 <= i <= j < l.len() implies rank(#[trigger] l[i]) <= rank(#[trigger] l[j]) by {
                if i < pos && j < pos {
                    assert(l[i] == lanes0[i] && l[j] == lanes0[j]);
                } else if i < pos && j == pos {
                    assert(l[i] == lanes0[i]);
                } else if i < pos {
                    assert(l[i] == lanes0[i] && l[j] == lanes0[j - 1]);
                } else if i == pos && j > pos {
                    assert(l[j] == lanes0[j - 1]);
                    assert(rank(lanes0[pos as int]) > rank(priority));
                    assert(rank(lanes0[pos as int]) <= rank(lanes0[j - 1]));
                } else if i > pos {
                    assert(l[i] == lanes0[i - 1] && l[j] == lanes0[j - 1]);
                }
            }
        }
    }

    /// The number of items at the front in a lane of rank `r` or more urgent.
    fn leading_count(&self, r: u8) -> (k: usize)
        ensures
            k == leading_within(self.lanes(), r as nat),
    {
        let ghost lanes0 = self.lanes();
        let mut k: usize = 0;
        while k < self.items.len() && self.items[k].1.rank() <= r
            invariant
                k <= self.items@.len(),
                lanes0 == self.lanes(),
                forall|q: int| 0 <= q < k ==> rank(#[trigger] lanes0[q]) <= r,
            decreases self.items@.len() - k,
        {
            assert(lanes0[k as int] == self.items@[k as int].1);
            k = k + 1;
        }
        assert(k < self.items@.len() ==> lanes0[k as int] == self.items@[k as int].1);
        proof {
            lemma_leading_within(lanes0, r as nat, k as int);
        }
        k
    }

    /// Take the work for one frame, front first (see `drain_count`): a single
    /// `Immediate` item; all the `UserBlocking` items at the front; up to
    /// `MAX_COALESCE_COUNT` `Normal` and `Low` items; `Idle` items only when
    /// nothing else is queued.
    pub fn drain_frame(&mut self) -> (r: Vec<T>)
        requires
            old(self).wf(),
        ensures
            final(self).wf(),
            r@ == old(self).items().take(drain_count(old(self).lanes())),
            final(self).items() == old(self).items().skip(drain_count(old(self).lanes())),
            final(self).lanes() == old(self).lanes().skip(drain_count(old(self).lanes())),
            old(self).lanes().len() > 0 && rank(old(self).lanes()[0]) >= 2 ==> r@.len() <= MAX_COALESCE_COUNT,
    {
        proof {
            lemma_drain_count_by_lane(self.lanes());
        }
        let ghost items0 = self.items();
        let ghost lanes0 = self.lanes();
        let mut out: Vec<T> = Vec::new();
        if self.items.len() == 0 {
            assert(self.items() =~= items0.skip(0));
            assert(self.lanes() =~= lanes0.skip(0));
            assert(out@ =~= items0.take(0));
            return out;
        }
        let top = self.items[0].1.rank();
        let count: usize = if top == 0 {
            1
        } else if top == 1 {
            self.leading_count(1)
        } else if top == 4 {
            if self.items.len() < MAX_COALESCE_COUNT {
                self.items.len()
            } else {
                MAX_COALESCE_COUNT
            }
        } else {
            let k = self.leading_count(3);
            if k < MAX_COALESCE_COUNT {
                k
            } else {
                MAX_COALESCE_COUNT
            }
        };
        proof {
            lemma_leading_within_bounds(lanes0, 3);
            lemma_leading_within_bounds(lanes0, 1);
        }
        assert(count == drain_count(lanes0));
        let mut taken: usize = 0;
        while taken < count
            invariant
                count <= items0.len(),
                taken <= count,
                items0.len() == lanes0.len(),
                out@ == items0.take(taken as int),
                self.items() == items0.skip(taken as int),
                self.lanes() == lanes0.skip(taken as int),
            decreases count - taken,
        {
            let ghost rest = self.items@;
            let ghost lanes_now = self.lanes();
            let ghost items_now = self.items();
            assert(rest.len() == self.items().len());
            assert(self.items()[0] == items0[taken as int]);
            let (item, _p) = self.items.remove(0);
            proof {
                assert(item == rest[0].0);
            }
            out.push(item);
            proof {
                assert(out@ =~= items0.take(taken + 1));
                assert(self.items@ == rest.remove(0));
                assert forall|q: int| 0 <= q < self.items@.len() implies self.items@[q] == rest[q + 1] by {}
                assert forall|q: int| 0 <= q < rest.len() implies #[trigger] rest[q].0 == items0[taken + q] && rest[q].1
                    == lanes0[taken + q] by {
                    assert(items_now[q] == rest[q].0);
                    assert(lanes_now[q] == rest[q].1);
                }
                assert(self.items() =~= items0.skip(taken + 1));
                assert(self.lanes().len() == self.items@.len());
                assert forall|q: int| 0 <= q < self.lanes().len() implies self.lanes()[q] == lanes0.skip(taken + 1)[q] by {
                    assert(self.lanes()[q] == self.items@[q].1);
                    assert(self.items@[q] == rest[q + 1]);
                    assert(lanes_now[q + 1] == rest[q + 1].1);
                }
                assert(self.lanes() =~= lanes0.skip(taken + 1));
            }
            taken = taken + 1;
        }
        proof {
            let l = self.lanes();
            assert forall|i: int, j: int| 0 <= i <= j < l.len() implies rank(#[trigger] l[i]) <= rank(#[trigger] l[j]) by {
                assert(l[i] == lanes0[i + count]);
                assert(l[j] == lanes0[j + count]);
            }
        }
        out
    }
}

/// The insertion point is the first item of a less urgent lane.
proof fn lemma_insert_position(s: Seq<Priority>, p: Priority, pos: int)
    requires
        0 <= pos <= s.len(),
        forall|q: int| 0 <= q < pos ==> rank(#[trigger] s[q]) <= rank(p),
        pos < s.len() ==> rank(s[pos]) > rank(p),
    ensures
        insert_position(s, p) == pos,
    decreases s.len(),
{
    if s.len() > 0 && pos > 0 {
        assert forall|q: int| 0 <= q < pos - 1 implies rank(#[trigger] s.drop_first()[q]) <= rank(p) by {
            assert(s.drop_first()[q] == s[q + 1]);
        }
        lemma_insert_position(s.drop_first(), p, pos - 1);
    }
}

/// The prefix of lanes of rank `r` or more urgent ends at the first item of a
/// less urgent lane.
proof fn lemma_leading_within(s: Seq<Priority>, r: nat, k: int)
    requires
        0 <= k <= s.len(),
        forall|q: int| 0 <= q < k ==> rank(#[trigger] s[q]) <= r,
        k < s.len() ==> rank(s[k]) > r,
    ensures
        leading_within(s, r) == k,
    decreases s.len(),
{
    if s.len() > 0 && k > 0 {
        assert forall|q: int| 0 <= q < k - 1 implies rank(#[trigger] s.drop_first()[q]) <= r by {
            assert(s.drop_first()[q] == s[q + 1]);
        }
        lemma_leading_within(s.drop_first(), r, k - 1);
    }
}

proof fn lemma_leading_within_bounds(s: Seq<Priority>, r: nat)
    ensures
        0 <= leading_within(s, r) <= s.len(),
        s.len() > 0 && rank(s[0]) <= r ==> leading_within(s, r) >= 1,
        forall|q: int| 0 <= q < leading_within(s, r) ==> rank(#[trigger] s[q]) <= r,
    decreases s.len(),
{
    if s.len() > 0 && rank(s[0]) <= r {
        lemma_leading_within_bounds(s.drop_first(), r);
        assert forall|q: int| 0 <= q < leading_within(s, r) implies rank(#[trigger] s[q]) <= r by {
            if q > 0 {
                assert(s[q] == s.drop_first()[q - 1]);
            }
        }
    }
}

} // verus!

verus! {

/// In a queue kept in lane order, a new item of lane `p` lands after every
/// queued item of its own or a more urgent lane, and before every item of a
/// less urgent one: first come, first served within a lane.
pub proof fn lemma_enqueue_first_come_first_served(s: Seq<Priority>, p: Priority)
    requires
        lanes_sorted(s),
    ensures
        0 <= insert_position(s, p) <= s.len(),
        forall|q: int| 0 <= q < insert_position(s, p) ==> rank(#[trigger] s[q]) <= rank(p),
        forall|q: int| insert_position(s, p) <= q < s.len() ==> rank(#[trigger] s[q]) > rank(p),
    decreases s.len(),
{
    if s.len() > 0 {
        let t = s.drop_first();
        assert forall|i: int, j: int| 0 <= i <= j < t.len() implies rank(#[trigger] t[i]) <= rank(#[trigger] t[j]) by {
            assert(t[i] == s[i + 1] && t[j] == s[j + 1]);
        }
        lemma_enqueue_first_come_first_served(t, p);
        if rank(s[0]) > rank(p) {
            assert forall|q: int| 0 <= q < s.len() implies rank(#[trigger] s[q]) > rank(p) by {
                assert(rank(s[0]) <= rank(s[q]));
            }
        } else {
            assert forall|q: int| 1 <= q < s.len() implies #[trigger] s[q] == t[q - 1] by {}
        }
    }
}

/// A frame takes work from the front: what it takes, followed by what stays
/// queued, is the queue as it was.
pub proof fn lemma_drain_keeps_order<T>(before: Seq<T>, lanes: Seq<Priority>, taken: Seq<T>, left: Seq<T>)
    requires
        before.len() == lanes.len(),
        taken == before.take(drain_count(lanes)),
        left == before.skip(drain_count(lanes)),
    ensures
        taken + left == before,
        lanes.len() > 0 && lanes[0] == Priority::Immediate ==> taken.len() == 1,
        lanes.len() > 0 ==> taken.len() >= 1,
        taken.len() <= lanes.len(),
{
    lemma_leading_within_bounds(lanes, 1);
    lemma_leading_within_bounds(lanes, 3);
    assert(taken + left =~= before);
}

/// How much one frame takes, stated lane by lane over a queue kept in lane
/// order: one `Immediate` item alone; every `UserBlocking` item at the front;
/// the `Normal` and `Low` items at the front but never more than
/// `MAX_COALESCE_COUNT` of them and never an `Idle` one; and `Idle` items, at
/// most `MAX_COALESCE_COUNT`, only from a queue that holds nothing else. A
/// frame stops short of its cap only where the run it takes ends.
pub proof fn lemma_drain_count_by_lane(lanes: Seq<Priority>)
    requires
        lanes_sorted(lanes),
    ensures
        ({
            let d = drain_count(lanes);
            &&& 0 <= d <= lanes.len()
            &&& lanes.len() == 0 ==> d == 0
            &&& lanes.len() > 0 ==> d >= 1
            &&& lanes.len() > 0 && lanes[0] == Priority::Immediate ==> d == 1
            &&& lanes.len() > 0 && lanes[0] == Priority::UserBlocking ==> {
                &&& forall|j: int| 0 <= j < d ==> lanes[j] == Priority::UserBlocking
                &&& d == lanes.len() || lanes[d] != Priority::UserBlocking
            }
            &&& lanes.len() > 0 && (lanes[0] == Priority::Normal || lanes[0] == Priority::Low) ==> {
                &&& d <= MAX_COALESCE_COUNT
                &&& forall|j: int| 0 <= j < d ==> (lanes[j] == Priority::Normal || lanes[j] == Priority::Low)
                &&& d == MAX_COALESCE_COUNT || d == lanes.len() || lanes[d] == Priority::Idle
            }
            &&& lanes.len() > 0 && lanes[0] == Priority::Idle ==> {
                &&& d <= MAX_COALESCE_COUNT
                &&& d == MAX_COALESCE_COUNT || d == lanes.len()
                &&& forall|j: int| 0 <= j < lanes.len() ==> lanes[j] == Priority::Idle
            }
            &&& lanes.len() > 0 && rank(lanes[0]) >= 2 ==> d <= MAX_COALESCE_COUNT
        }),
{
    lemma_leading_within_bounds(lanes, 1);
    lemma_leading_within_bounds(lanes, 3);
    lemma_leading_within_ends(lanes, 1);
    lemma_leading_within_ends(lanes, 3);
    if lanes.len() > 0 {
        assert forall|j: int| 0 <= j < lanes.len() implies rank(lanes[0]) <= rank(#[trigger] lanes[j]) by {}
    }
}

/// The run of lanes of rank `r` or more urgent ends at the end of `s` or at a
/// less urgent lane.
proof fn lemma_leading_within_ends(s: Seq<Priority>, r: nat)
    ensures
        leading_within(s, r) == s.len() || (0 <= leading_within(s, r) < s.len() && rank(s[leading_within(s, r)]) > r),
    decreases s.len(),
{
    if s.len() > 0 && rank(s[0]) <= r {
        lemma_leading_within_ends(s.drop_first(), r);
        lemma_leading_within_bounds(s.drop_first(), r);
    }
}

/// Idle work waits: a frame takes an `Idle` item only when every queued item
/// is `Idle`.
pub proof fn lemma_idle_waits(lanes: Seq<Priority>, k: int)
    requires
        lanes_sorted(lanes),
        0 <= k < drain_count(lanes),
        lanes[k] == Priority::Idle,
    ensures
        forall|j: int| 0 <= j < lanes.len() ==> lanes[j] == Priority::Idle,
{
    lemma_leading_within_bounds(lanes, 1);
    lemma_leading_within_bounds(lanes, 3);
    assert(rank(lanes[k]) == 4);
    assert(lanes[0] == Priority::Idle) by {
        if lanes[0] != Priority::Idle {
            assert(rank(lanes[k]) <= 3);
        }
    }
    assert forall|j: int| 0 <= j < lanes.len() implies lanes[j] == Priority::Idle by {
        assert(rank(lanes[0]) <= rank(lanes[j]));
    }
}

} // verus!
