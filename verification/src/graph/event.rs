//! Bounded buffers of timestamped events, kept sorted.
//!
//! Events are ordered by timestamp, then by their value. At most one event
//! of each value class is kept per timestamp: pushing an event equal to a
//! stored one replaces it.
use vstd::prelude::*;
use super::{Timestamped, NoteKey};

verus! {

/// Result of comparing two event values.
#[derive(Debug, Copy, Clone, PartialEq, Eq)]
pub enum EventCmp {
    /// The first value sorts before the second.
    Less,
    /// The values sort together.
    Equal,
    /// The first value sorts after the second.
    Greater,
}

/// Values that events can carry: they come with a total order, used to
/// sort events that share a timestamp.
pub trait EventOrd: Sized {
    /// `self` sorts no later than `other`.
    spec fn order_le(self, other: Self) -> bool;

    /// Any two values are comparable.
    proof fn lemma_le_total(a: Self, b: Self)
        ensures
            a.order_le(b) || b.order_le(a),
    ;

    /// The order is transitive.
    proof fn lemma_le_transitive(a: Self, b: Self, c: Self)
        requires
            a.order_le(b),
            b.order_le(c),
        ensures
            a.order_le(c),
    ;

    /// Values that sort together are equal.
    proof fn lemma_le_antisymmetric(a: Self, b: Self)
        requires
            a.order_le(b),
            b.order_le(a),
        ensures
            a == b,
    ;

    /// Compares two values.
    fn event_cmp(&self, other: &Self) -> (c: EventCmp)
        ensures
            (c == EventCmp::Equal) == (self.order_le(*other) && other.order_le(*self)),
            (c == EventCmp::Less) == (self.order_le(*other) && !other.order_le(*self)),
            (c == EventCmp::Greater) == !self.order_le(*other),
    ;
}

impl EventOrd for u8 {
    open spec fn order_le(self, other: Self) -> bool {
        self <= other
    }

    proof fn lemma_le_total(a: Self, b: Self) {
    }

    proof fn lemma_le_transitive(a: Self, b: Self, c: Self) {
    }

    proof fn lemma_le_antisymmetric(a: Self, b: Self) {
    }

    fn event_cmp(&self, other: &Self) -> (c: EventCmp) {
        if *self < *other {
            EventCmp::Less
        } else if *self == *other {
            EventCmp::Equal
        } else {
            EventCmp::Greater
        }
    }
}

impl EventOrd for u16 {
    open spec fn order_le(self, other: Self) -> bool {
        self <= other
    }

    proof fn lemma_le_total(a: Self, b: Self) {
    }

    proof fn lemma_le_transitive(a: Self, b: Self, c: Self) {
    }

    proof fn lemma_le_antisymmetric(a: Self, b: Self) {
    }

    fn event_cmp(&self, other: &Self) -> (c: EventCmp) {
        if *self < *other {
            EventCmp::Less
        } else if *self == *other {
            EventCmp::Equal
        } else {
            EventCmp::Greater
        }
    }
}

impl EventOrd for u32 {
    open spec fn order_le(self, other: Self) -> bool {
        self <= other
    }

    proof fn lemma_le_total(a: Self, b: Self) {
    }

    proof fn lemma_le_transitive(a: Self, b: Self, c: Self) {
    }

    proof fn lemma_le_antisymmetric(a: Self, b: Self) {
    }

    fn event_cmp(&self, other: &Self) -> (c: EventCmp) {
        if *self < *other {
            EventCmp::Less
        } else if *self == *other {
            EventCmp::Equal
        } else {
            EventCmp::Greater
        }
    }
}

impl EventOrd for u64 {
    open spec fn order_le(self, other: Self) -> bool {
        self <= other
    }

    proof fn lemma_le_total(a: Self, b: Self) {
    }

    proof fn lemma_le_transitive(a: Self, b: Self, c: Self) {
    }

    proof fn lemma_le_antisymmetric(a: Self, b: Self) {
    }

    fn event_cmp(&self, other: &Self) -> (c: EventCmp) {
        if *self < *other {
            EventCmp::Less
        } else if *self == *other {
            EventCmp::Equal
        } else {
            EventCmp::Greater
        }
    }
}

impl EventOrd for usize {
    open spec fn order_le(self, other: Self) -> bool {
        self <= other
    }

    proof fn lemma_le_total(a: Self, b: Self) {
    }

    proof fn lemma_le_transitive(a: Self, b: Self, c: Self) {
    }

    proof fn lemma_le_antisymmetric(a: Self, b: Self) {
    }

    fn event_cmp(&self, other: &Self) -> (c: EventCmp) {
        if *self < *other {
            EventCmp::Less
        } else if *self == *other {
            EventCmp::Equal
        } else {
            EventCmp::Greater
        }
    }
}

impl EventOrd for i32 {
    open spec fn order_le(self, other: Self) -> bool {
        self <= other
    }

    proof fn lemma_le_total(a: Self, b: Self) {
    }

    proof fn lemma_le_transitive(a: Self, b: Self, c: Self) {
    }

    proof fn lemma_le_antisymmetric(a: Self, b: Self) {
    }

    fn event_cmp(&self, other: &Self) -> (c: EventCmp) {
        if *self < *other {
            EventCmp::Less
        } else if *self == *other {
            EventCmp::Equal
        } else {
            EventCmp::Greater
        }
    }
}

impl EventOrd for i64 {
    open spec fn order_le(self, other: Self) -> bool {
        self <= other
    }

    proof fn lemma_le_total(a: Self, b: Self) {
    }

    proof fn lemma_le_transitive(a: Self, b: Self, c: Self) {
    }

    proof fn lemma_le_antisymmetric(a: Self, b: Self) {
    }

    fn event_cmp(&self, other: &Self) -> (c: EventCmp) {
        if *self < *other {
            EventCmp::Less
        } else if *self == *other {
            EventCmp::Equal
        } else {
            EventCmp::Greater
        }
    }
}

impl EventOrd for bool {
    open spec fn order_le(self, other: Self) -> bool {
        !self || other
    }

    proof fn lemma_le_total(a: Self, b: Self) {
    }

    proof fn lemma_le_transitive(a: Self, b: Self, c: Self) {
    }

    proof fn lemma_le_antisymmetric(a: Self, b: Self) {
    }

    fn event_cmp(&self, other: &Self) -> (c: EventCmp) {
        if *self == *other {
            EventCmp::Equal
        } else if !*self {
            EventCmp::Less
        } else {
            EventCmp::Greater
        }
    }
}

impl EventOrd for NoteKey {
    /// Notes sort by channel, then by key number.
    open spec fn order_le(self, other: Self) -> bool {
        self.channel < other.channel || (self.channel == other.channel && self.note <= other.note)
    }

    proof fn lemma_le_total(a: Self, b: Self) {
    }

    proof fn lemma_le_transitive(a: Self, b: Self, c: Self) {
    }

    proof fn lemma_le_antisymmetric(a: Self, b: Self) {
    }

    fn event_cmp(&self, other: &Self) -> (c: EventCmp) {
        if self.channel < other.channel {
            EventCmp::Less
        } else if self.channel > other.channel {
            EventCmp::Greater
        } else if self.note < other.note {
            EventCmp::Less
        } else if self.note == other.note {
            EventCmp::Equal
        } else {
            EventCmp::Greater
        }
    }
}

impl<A: EventOrd, B: EventOrd> EventOrd for (A, B) {
    /// Pairs sort by their first component, then by their second.
    open spec fn order_le(self, other: Self) -> bool {
        ||| (self.0.order_le(other.0) && !other.0.order_le(self.0))
        ||| (self.0.order_le(other.0) && other.0.order_le(self.0) && self.1.order_le(other.1))
    }

    proof fn lemma_le_total(a: Self, b: Self) {
        A::lemma_le_total(a.0, b.0);
        B::lemma_le_total(a.1, b.1);
    }

    proof fn lemma_le_transitive(a: Self, b: Self, c: Self) {
        A::lemma_le_transitive(a.0, b.0, c.0);
        if c.0.order_le(a.0) {
            A::lemma_le_transitive(b.0, c.0, a.0);
            A::lemma_le_transitive(c.0, a.0, b.0);
            B::lemma_le_transitive(a.1, b.1, c.1);
        }
    }

    proof fn lemma_le_antisymmetric(a: Self, b: Self) {
        A::lemma_le_antisymmetric(a.0, b.0);
        B::lemma_le_antisymmetric(a.1, b.1);
    }

    fn event_cmp(&self, other: &Self) -> (c: EventCmp) {
        match self.0.event_cmp(&other.0) {
            EventCmp::Less => EventCmp::Less,
            EventCmp::Greater => EventCmp::Greater,
            EventCmp::Equal => self.1.event_cmp(&other.1),
        }
    }
}

/// Events sort by timestamp, then by value: `a` sorts no later than `b`.
pub open spec fn ts_le<T: EventOrd>(a: Timestamped<T>, b: Timestamped<T>) -> bool {
    a.sample < b.sample || (a.sample == b.sample && a.value.order_le(b.value))
}

/// `a` sorts strictly before `b`.
pub open spec fn ts_lt<T: EventOrd>(a: Timestamped<T>, b: Timestamped<T>) -> bool {
    !ts_le(b, a)
}

/// `a` and `b` happen at the same time and sort together.
pub open spec fn ts_equiv<T: EventOrd>(a: Timestamped<T>, b: Timestamped<T>) -> bool {
    ts_le(a, b) && ts_le(b, a)
}

/// The event order is total.
pub proof fn lemma_ts_total<T: EventOrd>(a: Timestamped<T>, b: Timestamped<T>)
    ensures
        ts_le(a, b) || ts_le(b, a),
{
    T::lemma_le_total(a.value, b.value);
}

/// The event order is transitive.
pub proof fn lemma_ts_transitive<T: EventOrd>(a: Timestamped<T>, b: Timestamped<T>, c: Timestamped<T>)
    requires
        ts_le(a, b),
        ts_le(b, c),
    ensures
        ts_le(a, c),
{
    if a.sample == b.sample && b.sample == c.sample {
        T::lemma_le_transitive(a.value, b.value, c.value);
    }
}

/// Strictly sorted: every event sorts strictly before every later one.
pub open spec fn strictly_sorted<T: EventOrd>(s: Seq<Timestamped<T>>) -> bool {
    forall|i: int, j: int| 0 <= i < j < s.len() ==> ts_lt(#[trigger] s[i], #[trigger] s[j])
}

/// Compares two events by timestamp, then by value.
fn compare_events<T: EventOrd>(a: &Timestamped<T>, b: &Timestamped<T>) -> (c: EventCmp)
    ensures
        c == EventCmp::Equal <==> ts_equiv(*a, *b),
        c == EventCmp::Less <==> ts_lt(*a, *b),
        c == EventCmp::Greater <==> ts_lt(*b, *a),
{
    proof {
        lemma_ts_total(*a, *b);
        T::lemma_le_total(a.value, b.value);
    }
    if a.sample < b.sample {
        EventCmp::Less
    } else if a.sample > b.sample {
        EventCmp::Greater
    } else {
        a.value.event_cmp(&b.value)
    }
}

/// `after` is `before` with `entry` pushed: either `entry` replaces the one
/// stored event that sorts together with it, or, when there is none, it is
/// inserted somewhere.
pub open spec fn pushed_into<T: EventOrd>(
    before: Seq<Timestamped<T>>,
    after: Seq<Timestamped<T>>,
    entry: Timestamped<T>,
) -> bool {
    ||| exists|i: int| 0 <= i < before.len() && ts_equiv(#[trigger] before[i], entry) && after == before.update(i, entry)
    ||| (forall|i: int| 0 <= i < before.len() ==> !ts_equiv(#[trigger] before[i], entry))
        && exists|p: int| 0 <= p <= before.len() && after == before.insert(p, entry)
}

/// A push into a sorted buffer leaves a sorted buffer that holds the pushed
/// event: the old events plus the new one, or, when an event sorting
/// together with it was stored, the old events with that one replaced by
/// the new one. As values that sort together are equal, that stored event
/// is the pushed one: pushing an event that is already stored changes
/// nothing, and pushing any other adds exactly it.
pub proof fn lemma_push_result<T: EventOrd>(
    before: Seq<Timestamped<T>>,
    after: Seq<Timestamped<T>>,
    entry: Timestamped<T>,
)
    requires
        strictly_sorted(before),
        strictly_sorted(after),
        pushed_into(before, after, entry),
    ensures
        after.contains(entry),
        before.contains(entry) ==> after == before,
        (exists|i: int| 0 <= i < before.len() && ts_equiv(#[trigger] before[i], entry)) ==> exists|i: int|
            0 <= i < before.len() && after.len() == before.len() && after.to_multiset()
                == before.to_multiset().remove(#[trigger] before[i]).insert(entry),
        !(exists|i: int| 0 <= i < before.len() && ts_equiv(#[trigger] before[i], entry)) ==> after.len()
            == before.len() + 1 && after.to_multiset() == before.to_multiset().insert(entry),
        (exists|i: int| 0 <= i < before.len() && ts_equiv(#[trigger] before[i], entry)) ==> after == before,
        !before.contains(entry) ==> after.len() == before.len() + 1 && after.to_multiset()
            == before.to_multiset().insert(entry),
{
    broadcast use vstd::multiset::group_multiset_axioms;
    lemma_ts_total(entry, entry);
    if exists|i: int| 0 <= i < before.len() && ts_equiv(#[trigger] before[i], entry) && after == before.update(i, entry) {
        let i = choose|i: int| 0 <= i < before.len() && ts_equiv(#[trigger] before[i], entry) && after == before.update(i, entry);
        assert(after[i] == entry);
        let a = before.take(i);
        let b = before.skip(i + 1);
        assert(before =~= a.push(before[i]) + b);
        assert(after =~= a.push(entry) + b);
        vstd::seq_lib::lemma_multiset_commutative(a.push(before[i]), b);
        vstd::seq_lib::lemma_multiset_commutative(a.push(entry), b);
        a.to_multiset_ensures();
        assert(after.to_multiset() =~= before.to_multiset().remove(before[i]).insert(entry));
        T::lemma_le_antisymmetric(before[i].value, entry.value);
        assert(before[i] == entry);
        assert(before.contains(entry));
        if before.contains(entry) {
            let j = choose|j: int| 0 <= j < before.len() && before[j] == entry;
            if j < i {
                assert(ts_lt(before[j], before[i]));
            } else if j > i {
                assert(ts_lt(before[i], before[j]));
                lemma_ts_transitive(before[j], entry, before[i]);
            }
            assert(after =~= before);
        }
    } else {
        let p = choose|p: int| 0 <= p <= before.len() && after == before.insert(p, entry);
        assert(after[p] == entry);
        let a = before.take(p);
        let b = before.skip(p);
        assert(before =~= a + b);
        assert(after =~= a.push(entry) + b);
        vstd::seq_lib::lemma_multiset_commutative(a, b);
        vstd::seq_lib::lemma_multiset_commutative(a.push(entry), b);
        a.to_multiset_ensures();
        assert(after.to_multiset() =~= before.to_multiset().insert(entry));
        if before.contains(entry) {
            let j = choose|j: int| 0 <= j < before.len() && before[j] == entry;
            assert(ts_equiv(before[j], entry));
        }
    }
}

/// A bounded buffer of timestamped events, kept strictly sorted by
/// timestamp and value.
pub struct EventBuffer<T> {
    data: Vec<Timestamped<T>>,
    capacity: usize,
}

impl<T> View for EventBuffer<T> {
    type V = Seq<Timestamped<T>>;

    closed spec fn view(&self) -> Seq<Timestamped<T>> {
        self.data@
    }
}

impl<T> EventBuffer<T> {
    /// Maximum number of events the buffer holds.
    pub closed spec fn spec_capacity(&self) -> nat {
        self.capacity as nat
    }

    /// Creates an empty buffer holding at most `capacity` events.
    pub fn new(capacity: usize) -> (b: Self)
        ensures
            b@ == Seq::<Timestamped<T>>::empty(),
            b.spec_capacity() == capacity,
    {
        EventBuffer { data: Vec::with_capacity(capacity), capacity }
    }

    /// Whether the buffer holds no event.
    pub fn is_empty(&self) -> (b: bool)
        ensures
            b == (self@.len() == 0),
    {
        self.data.len() == 0
    }

    /// Number of events held.
    pub fn len(&self) -> (n: usize)
        ensures
            n == self@.len(),
    {
        self.data.len()
    }

    /// Maximum number of events the buffer holds.
    pub fn capacity(&self) -> (n: usize)
        ensures
            n == self.spec_capacity(),
    {
        self.capacity
    }

    /// Lists all events in order, borrowing their values.
    pub fn iter_events(&self) -> (events: Vec<Timestamped<&T>>)
        ensures
            events@.len() == self@.len(),
            forall|i: int|
                0 <= i < self@.len() ==> (#[trigger] events@[i]).sample == self@[i].sample
                    && *events@[i].value == self@[i].value,
    {
        let mut events: Vec<Timestamped<&T>> = Vec::with_capacity(self.data.len());
        let mut i: usize = 0;
        while i < self.data.len()
            invariant
                i <= self@.len(),
                events@.len() == i,
                forall|j: int|
                    0 <= j < i ==> (#[trigger] events@[j]).sample == self@[j].sample
                        && *events@[j].value == self@[j].value,
            decreases self@.len() - i,
        {
            events.push(self.data[i].as_ref());
            i = i + 1;
        }
        events
    }

    /// Lists all events in order, borrowing their values mutably; what is
    /// written through a value is what the buffer then holds for that event.
    /// The timestamps stay as they are.
    pub fn iter_events_mut(&mut self) -> (events: Vec<Timestamped<&mut T>>)
        ensures
            events@.len() == old(self)@.len(),
            final(self)@.len() == old(self)@.len(),
            final(self).spec_capacity() == old(self).spec_capacity(),
            forall|i: int|
                0 <= i < old(self)@.len() ==> (#[trigger] events@[i]).sample == old(self)@[i].sample
                    && *events@[i].value == old(self)@[i].value && final(self)@[i] == (Timestamped {
                    sample: old(self)@[i].sample,
                    value: *final(events@[i].value),
                }),
    {
        let n = self.data.len();
        let mut events: Vec<Timestamped<&mut T>> = Vec::with_capacity(n);
        let ghost fin = final(self)@;
        let ghost start = self.data@;
        let mut rest: &mut [Timestamped<T>] = self.data.as_mut_slice();
        let mut i: usize = 0;
        while i < n
            invariant
                i <= n,
                n == start.len(),
                events@.len() == i,
                rest@ == start.subrange(i as int, n as int),
                forall|j: int|
                    0 <= j < i ==> (#[trigger] events@[j]).sample == start[j].sample && *events@[j].value == start[j].value,
                fin == Seq::new(
                    i as nat,
                    |j: int| Timestamped { sample: events@[j].sample, value: *final(events@[j].value) },
                ) + final(rest)@,
            decreases n - i,
        {
            let (head, tail) = rest.split_at_mut(1);
            let first = head.first_mut().unwrap();
            events.push(first.as_mut());
            rest = tail;
            i = i + 1;
        }
        events
    }

    /// Removes all events; the capacity is kept.
    pub fn clear(&mut self)
        ensures
            final(self)@ == Seq::<Timestamped<T>>::empty(),
            final(self).spec_capacity() == old(self).spec_capacity(),
    {
        self.data.clear();
    }
}

impl<T: EventOrd> EventBuffer<T> {
    /// Well-formedness: within capacity and strictly sorted.
    pub open spec fn wf(&self) -> bool {
        &&& self@.len() <= self.spec_capacity()
        &&& strictly_sorted(self@)
    }

    /// Pushes `event` at `timestamp`, keeping the buffer sorted.
    ///
    /// When the buffer is full the event is handed back and nothing changes.
    /// Otherwise, an event that sorts together with a stored one (same
    /// timestamp, equal value) replaces it; any other event is inserted at
    /// its place in the order.
    pub fn push(&mut self, timestamp: usize, event: T) -> (r: Result<(), T>)
        requires
            old(self).wf(),
        ensures
            final(self).wf(),
            final(self).spec_capacity() == old(self).spec_capacity(),
            old(self)@.len() == old(self).spec_capacity() ==> r == Err::<(), T>(event) && final(self)@
                == old(self)@,
            old(self)@.len() < old(self).spec_capacity() ==> r is Ok && pushed_into(
                old(self)@,
                final(self)@,
                Timestamped { sample: timestamp, value: event },
            ),
    {
        if self.data.len() == self.capacity {
            return Err(event);
        }
        let entry = Timestamped { sample: timestamp, value: event };
        let ghost old_data = self.data@;
        let mut lo: usize = 0;
        let mut hi: usize = self.data.len();
        while lo < hi
            invariant
                0 <= lo <= hi <= self.data@.len(),
                self.data@ == old_data,
                old(self)@ == old_data,
                entry == (Timestamped { sample: timestamp, value: event }),
                self.capacity == old(self).capacity,
                old_data.len() < self.capacity,
                strictly_sorted(old_data),
                forall|i: int| 0 <= i < lo ==> ts_lt(#[trigger] old_data[i], entry),
                forall|i: int| hi <= i < old_data.len() ==> ts_lt(entry, #[trigger] old_data[i]),
            decreases hi - lo,
        {
            let mid = lo + (hi - lo) / 2;
            match compare_events(&self.data[mid], &entry) {
                EventCmp::Less => {
                    proof {
                        assert forall|i: int| 0 <= i <= mid implies ts_lt(#[trigger] old_data[i], entry) by {
                            if i < mid {
                                assert(ts_lt(old_data[i], old_data[mid as int]));
                                lemma_ts_total(old_data[i], old_data[mid as int]);
                                if ts_le(entry, old_data[i]) {
                                    lemma_ts_transitive(entry, old_data[i], old_data[mid as int]);
                                }
                            }
                        }
                    }
                    lo = mid + 1;
                },
                EventCmp::Greater => {
                    proof {
                        assert forall|i: int| mid <= i < old_data.len() implies ts_lt(entry, #[trigger] old_data[i]) by {
                            if i > mid {
                                assert(ts_lt(old_data[mid as int], old_data[i]));
                                lemma_ts_total(old_data[mid as int], old_data[i]);
                                if ts_le(old_data[i], entry) {
                                    lemma_ts_transitive(old_data[mid as int], old_data[i], entry);
                                }
                            }
                        }
                    }
                    hi = mid;
                },
                EventCmp::Equal => {
                    let ghost e2 = entry;
                    self.data.set(mid, entry);
                    proof {
                        let s = self.data@;
                        assert(s == old_data.update(mid as int, e2));
                        assert forall|i: int, j: int| 0 <= i < j < s.len() implies ts_lt(#[trigger] s[i], #[trigger] s[j]) by {
                            if i == mid {
                                assert(ts_lt(old_data[i], old_data[j]));
                                if ts_le(s[j], s[i]) {
                                    lemma_ts_transitive(old_data[j], e2, old_data[i]);
                                }
                            } else if j == mid {
                                assert(ts_lt(old_data[i], old_data[j]));
                                if ts_le(s[j], s[i]) {
                                    lemma_ts_transitive(old_data[j], e2, old_data[i]);
                                }
                            } else {
                                assert(ts_lt(old_data[i], old_data[j]));
                            }
                        }
                        assert(ts_equiv(old_data[mid as int], e2));
                        assert(e2 == Timestamped { sample: timestamp, value: event });
                        assert(ts_equiv(old(self)@[mid as int], e2) && self@ == old(self)@.update(mid as int, e2));
                    }
                    return Ok(());
                },
            }
        }
        let ghost e2 = entry;
        self.data.insert(lo, entry);
        proof {
            let s = self.data@;
            assert(s == old_data.insert(lo as int, e2));
            assert forall|i: int, j: int| 0 <= i < j < s.len() implies ts_lt(#[trigger] s[i], #[trigger] s[j]) by {
                if i < lo && j < lo {
                    assert(ts_lt(old_data[i], old_data[j]));
                } else if i < lo && j == lo {
                    assert(ts_lt(old_data[i], e2));
                } else if i < lo && j > lo {
                    assert(ts_lt(old_data[i], old_data[j - 1]));
                } else if i == lo {
                    assert(ts_lt(e2, old_data[j - 1]));
                } else {
                    assert(ts_lt(old_data[i - 1], old_data[j - 1]));
                }
            }
            assert forall|i: int| 0 <= i < old_data.len() implies !ts_equiv(#[trigger] old_data[i], e2) by {
                if i < lo {
                    assert(ts_lt(old_data[i], e2));
                } else {
                    assert(ts_lt(e2, old_data[i]));
                }
            }
        }
        Ok(())
    }

    /// The first event at or after `timestamp`, if there is one.
    pub fn next_event(&self, timestamp: usize) -> (r: Option<Timestamped<&T>>)
        requires
            self.wf(),
        ensures
            r is None <==> (forall|i: int| 0 <= i < self@.len() ==> (#[trigger] self@[i]).sample < timestamp),
            r matches Some(e) ==> exists|i: int|
                0 <= i < self@.len() && e.sample == (#[trigger] self@[i]).sample && *e.value == self@[i].value
                    && e.sample >= timestamp && forall|j: int| 0 <= j < i ==> (#[trigger] self@[j]).sample
                    < timestamp,
    {
        let mut lo: usize = 0;
        let mut hi: usize = self.data.len();
        while lo < hi
            invariant
                0 <= lo <= hi <= self@.len(),
                strictly_sorted(self@),
                forall|i: int| 0 <= i < lo ==> (#[trigger] self@[i]).sample < timestamp,
                forall|i: int| hi <= i < self@.len() ==> (#[trigger] self@[i]).sample >= timestamp,
            decreases hi - lo,
        {
            let mid = lo + (hi - lo) / 2;
            if self.data[mid].sample < timestamp {
                proof {
                    assert forall|i: int| 0 <= i <= mid implies (#[trigger] self@[i]).sample < timestamp by {
                        if i < mid {
                            assert(ts_lt(self@[i], self@[mid as int]));
                        }
                    }
                }
                lo = mid + 1;
            } else {
                proof {
                    assert forall|i: int| mid <= i < self@.len() implies (#[trigger] self@[i]).sample >= timestamp by {
                        if i > mid {
                            assert(ts_lt(self@[mid as int], self@[i]));
                        }
                    }
                }
                hi = mid;
            }
        }
        if lo < self.data.len() {
            Some(self.data[lo].as_ref())
        } else {
            None
        }
    }
}

/// Merges two event sequences: repeatedly takes the head of `a` when it
/// sorts strictly before the head of `b`, and the head of `b` otherwise.
pub open spec fn merge_events<T: EventOrd>(a: Seq<Timestamped<T>>, b: Seq<Timestamped<T>>) -> Seq<Timestamped<T>>
    decreases a.len() + b.len(),
{
    if a.len() == 0 {
        b
    } else if b.len() == 0 {
        a
    } else if ts_lt(a[0], b[0]) {
        seq![a[0]] + merge_events(a.drop_first(), b)
    } else {
        seq![b[0]] + merge_events(a, b.drop_first())
    }
}

/// Sorted: every event sorts no later than every later one.
pub open spec fn sorted_events<T: EventOrd>(s: Seq<Timestamped<T>>) -> bool {
    forall|i: int, j: int| 0 <= i < j < s.len() ==> ts_le(#[trigger] s[i], #[trigger] s[j])
}

/// A merge holds as many events as both merged sequences, each taken from
/// one of them.
proof fn lemma_merge_from<T: EventOrd>(a: Seq<Timestamped<T>>, b: Seq<Timestamped<T>>)
    ensures
        merge_events(a, b).len() == a.len() + b.len(),
        forall|k: int|
            0 <= k < merge_events(a, b).len() ==> a.contains(#[trigger] merge_events(a, b)[k]) || b.contains(
                merge_events(a, b)[k],
            ),
    decreases a.len() + b.len(),
{
    let m = merge_events(a, b);
    if a.len() == 0 || b.len() == 0 {
    } else if ts_lt(a[0], b[0]) {
        let r = merge_events(a.drop_first(), b);
        lemma_merge_from(a.drop_first(), b);
        assert forall|k: int| 0 <= k < m.len() implies a.contains(#[trigger] m[k]) || b.contains(m[k]) by {
            if k == 0 {
                assert(a[0] == m[k]);
            } else {
                assert(m[k] == r[k - 1]);
                if a.drop_first().contains(r[k - 1]) {
                    let i = choose|i: int| 0 <= i < a.drop_first().len() && a.drop_first()[i] == r[k - 1];
                    assert(a[i + 1] == m[k]);
                }
            }
        }
    } else {
        let r = merge_events(a, b.drop_first());
        lemma_merge_from(a, b.drop_first());
        assert forall|k: int| 0 <= k < m.len() implies a.contains(#[trigger] m[k]) || b.contains(m[k]) by {
            if k == 0 {
                assert(b[0] == m[k]);
            } else {
                assert(m[k] == r[k - 1]);
                if b.drop_first().contains(r[k - 1]) {
                    let i = choose|i: int| 0 <= i < b.drop_first().len() && b.drop_first()[i] == r[k - 1];
                    assert(b[i + 1] == m[k]);
                }
            }
        }
    }
}

/// An event that sorts no later than every event of a sorted sequence can
/// be put in front of it.
proof fn lemma_sorted_cons<T: EventOrd>(x: Timestamped<T>, r: Seq<Timestamped<T>>)
    requires
        sorted_events(r),
        forall|k: int| 0 <= k < r.len() ==> ts_le(x, #[trigger] r[k]),
    ensures
        sorted_events(seq![x] + r),
{
    let m = seq![x] + r;
    assert forall|i: int, j: int| 0 <= i < j < m.len() implies ts_le(#[trigger] m[i], #[trigger] m[j]) by {
        if i == 0 {
            assert(m[j] == r[j - 1]);
        } else {
            assert(m[i] == r[i - 1] && m[j] == r[j - 1]);
        }
    }
}

/// Merging two sorted streams gives a sorted stream that holds exactly the
/// events of both.
pub proof fn lemma_merge_sorted<T: EventOrd>(a: Seq<Timestamped<T>>, b: Seq<Timestamped<T>>)
    requires
        sorted_events(a),
        sorted_events(b),
    ensures
        sorted_events(merge_events(a, b)),
        merge_events(a, b).to_multiset() == a.to_multiset().add(b.to_multiset()),
    decreases a.len() + b.len(),
{
    broadcast use vstd::multiset::group_multiset_axioms;
    if a.len() == 0 {
        vstd::seq_lib::lemma_multiset_commutative(a, b);
        assert(a + b =~= b);
    } else if b.len() == 0 {
        vstd::seq_lib::lemma_multiset_commutative(a, b);
        assert(a + b =~= a);
    } else {
        let take_a = ts_lt(a[0], b[0]);
        let x = if take_a { a[0] } else { b[0] };
        let a2 = if take_a { a.drop_first() } else { a };
        let b2 = if take_a { b } else { b.drop_first() };
        let r = merge_events(a2, b2);
        assert(merge_events(a, b) == seq![x] + r);
        assert(sorted_events(a2) && sorted_events(b2)) by {
            assert forall|i: int, j: int| 0 <= i < j < a2.len() implies ts_le(#[trigger] a2[i], #[trigger] a2[j]) by {
                if take_a {
                    assert(a2[i] == a[i + 1] && a2[j] == a[j + 1]);
                }
            }
            assert forall|i: int, j: int| 0 <= i < j < b2.len() implies ts_le(#[trigger] b2[i], #[trigger] b2[j]) by {
                if !take_a {
                    assert(b2[i] == b[i + 1] && b2[j] == b[j + 1]);
                }
            }
        }
        lemma_merge_sorted(a2, b2);
        lemma_merge_from(a2, b2);
        lemma_ts_total(a[0], b[0]);
        assert forall|k: int| 0 <= k < r.len() implies ts_le(x, #[trigger] r[k]) by {
            if a2.contains(r[k]) {
                let i = choose|i: int| 0 <= i < a2.len() && a2[i] == r[k];
                if take_a {
                    assert(a[i + 1] == r[k]);
                    assert(ts_le(a[0], a[i + 1]));
                } else {
                    if i > 0 {
                        assert(ts_le(a[0], a[i]));
                        lemma_ts_transitive(b[0], a[0], a[i]);
                    }
                }
            } else {
                let j = choose|j: int| 0 <= j < b2.len() && b2[j] == r[k];
                if take_a {
                    if j > 0 {
                        assert(ts_le(b[0], b[j]));
                        lemma_ts_transitive(a[0], b[0], b[j]);
                    }
                } else {
                    assert(b[j + 1] == r[k]);
                    assert(ts_le(b[0], b[j + 1]));
                }
            }
        }
        lemma_sorted_cons(x, r);
        vstd::seq_lib::lemma_multiset_commutative(seq![x], r);
        if take_a {
            assert(a =~= seq![x] + a2);
            vstd::seq_lib::lemma_multiset_commutative(seq![x], a2);
        } else {
            assert(b =~= seq![x] + b2);
            vstd::seq_lib::lemma_multiset_commutative(seq![x], b2);
        }
        assert(merge_events(a, b).to_multiset() =~= a.to_multiset().add(b.to_multiset()));
    }
}

/// Moves the items of a vector into a new one in reverse order.
fn reversed<T>(v: Vec<T>) -> (r: Vec<T>)
    ensures
        r@ == v@.reverse(),
{
    let ghost orig = v@;
    let mut v = v;
    let mut r: Vec<T> = Vec::with_capacity(v.len());
    while v.len() > 0
        invariant
            v@ == orig.take(v@.len() as int),
            r@ == orig.skip(v@.len() as int).reverse(),
            v@.len() <= orig.len(),
        decreases v@.len(),
    {
        let ghost before = v@;
        let x = v.pop().unwrap();
        r.push(x);
        proof {
            assert(v@ =~= orig.take(v@.len() as int));
            assert(r@ =~= orig.skip(v@.len() as int).reverse());
        }
    }
    proof {
        assert(orig.skip(0) =~= orig);
    }
    r
}

/// Merges two streams of timestamped events into one ordered stream.
///
/// Each call to [`next`](Self::next) yields the head of the first stream
/// when it sorts strictly before the head of the second, and the head of the
/// second otherwise; once one stream is exhausted, the rest of the other
/// follows.
pub struct OrderedTimestampCombinator<T> {
    first: Vec<Timestamped<T>>,
    second: Vec<Timestamped<T>>,
}

impl<T> OrderedTimestampCombinator<T> {
    /// Events still to come from the first stream, in order.
    pub closed spec fn rest_first(&self) -> Seq<Timestamped<T>> {
        self.first@.reverse()
    }

    /// Events still to come from the second stream, in order.
    pub closed spec fn rest_second(&self) -> Seq<Timestamped<T>> {
        self.second@.reverse()
    }
}

impl<T: EventOrd> OrderedTimestampCombinator<T> {
    /// The next event of the merged stream.
    pub fn next(&mut self) -> (r: Option<Timestamped<T>>)
        ensures
            ({
                let a = old(self).rest_first();
                let b = old(self).rest_second();
                if a.len() == 0 && b.len() == 0 {
                    r is None && final(self).rest_first() == a && final(self).rest_second() == b
                } else if a.len() > 0 && (b.len() == 0 || ts_lt(a[0], b[0])) {
                    r == Some(a[0]) && final(self).rest_first() == a.drop_first()
                        && final(self).rest_second() == b
                } else {
                    r == Some(b[0]) && final(self).rest_first() == a && final(self).rest_second()
                        == b.drop_first()
                }
            }),
    {
        let ghost a = self.first@;
        let ghost b = self.second@;
        let take_first = if self.first.len() == 0 {
            false
        } else if self.second.len() == 0 {
            true
        } else {
            let x = &self.first[self.first.len() - 1];
            let y = &self.second[self.second.len() - 1];
            match compare_events(x, y) {
                EventCmp::Less => true,
                _ => false,
            }
        };
        if take_first {
            let r = self.first.pop();
            proof {
                assert(self.first@.reverse() =~= a.reverse().drop_first());
            }
            r
        } else if self.second.len() > 0 {
            let r = self.second.pop();
            proof {
                assert(self.second@.reverse() =~= b.reverse().drop_first());
            }
            r
        } else {
            None
        }
    }

    /// Drains the merged stream into a vector.
    pub fn collect(self) -> (events: Vec<Timestamped<T>>)
        ensures
            events@ == merge_events(self.rest_first(), self.rest_second()),
    {
        let ghost total = merge_events(self.rest_first(), self.rest_second());
        let mut stream = self;
        let mut events: Vec<Timestamped<T>> = Vec::new();
        while stream.first.len() > 0 || stream.second.len() > 0
            invariant
                total == events@ + merge_events(stream.rest_first(), stream.rest_second()),
            decreases stream.first@.len() + stream.second@.len(),
        {
            let ghost a = stream.rest_first();
            let ghost b = stream.rest_second();
            let e = stream.next();
            match e {
                Some(x) => {
                    proof {
                        assert(events@.push(x) + merge_events(stream.rest_first(), stream.rest_second())
                            =~= events@ + merge_events(a, b));
                    }
                    events.push(x);
                },
                None => {},
            }
        }
        proof {
            assert(stream.rest_first().len() == 0 && stream.rest_second().len() == 0);
            assert(events@ =~= total);
        }
        events
    }
}

/// Ordered merging of timestamped event streams.
pub trait TimestampedIteratorExt<T>: Sized {
    /// The events of this stream, in order.
    spec fn spec_events(&self) -> Seq<Timestamped<T>>;

    /// Consumes both streams and returns their ordered merge.
    fn ordered_with(self, other: Vec<Timestamped<T>>) -> (c: OrderedTimestampCombinator<T>)
        ensures
            c.rest_first() == self.spec_events(),
            c.rest_second() == other@,
    ;
}

impl<T> TimestampedIteratorExt<T> for Vec<Timestamped<T>> {
    open spec fn spec_events(&self) -> Seq<Timestamped<T>> {
        self@
    }

    fn ordered_with(self, other: Vec<Timestamped<T>>) -> (c: OrderedTimestampCombinator<T>) {
        let first = reversed(self);
        let second = reversed(other);
        proof {
            assert(first@.reverse() =~= self@);
            assert(second@.reverse() =~= other@);
        }
        OrderedTimestampCombinator { first, second }
    }
}

} // verus!
