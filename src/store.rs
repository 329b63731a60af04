use vstd::prelude::*;
use crate::styled::{LogEntry, SpanView};

verus! {

/// The log's history as the pushes left it: each push appends, and when the length then
/// exceeds `cap` the oldest entry leaves.
pub open spec fn push_model<A>(s: Seq<A>, e: A, cap: nat) -> Seq<A> {
    if s.len() + 1 > cap {
        s.push(e).drop_first()
    } else {
        s.push(e)
    }
}

/// The history after pushing each of `es`, in order, onto `s`.
pub open spec fn push_all<A>(s: Seq<A>, es: Seq<A>, cap: nat) -> Seq<A>
    decreases es.len(),
{
    if es.len() == 0 {
        s
    } else {
        push_all(push_model(s, es[0], cap), es.drop_first(), cap)
    }
}

/// A bounded history of log entries, oldest first.
pub struct LogStore {
    entries: Vec<LogEntry>,
    capacity: usize,
}

impl View for LogStore {
    type V = Seq<Seq<Seq<SpanView>>>;

    closed spec fn view(&self) -> Seq<Seq<Seq<SpanView>>> {
        self.entries@.map_values(|e: LogEntry| e@)
    }
}

impl LogStore {
    /// The most entries the store keeps.
    pub closed spec fn cap(&self) -> nat {
        self.capacity as nat
    }

    /// Never more entries than the capacity.
    pub open spec fn wf(&self) -> bool {
        self@.len() <= self.cap()
    }

    /// An empty store that keeps at most `capacity` entries.
    pub fn new(capacity: usize) -> (r: LogStore)
        ensures
            r.wf(),
            r@ == Seq::<Seq<Seq<SpanView>>>::empty(),
            r.cap() == capacity,
    {
        let r = LogStore { entries: Vec::new(), capacity };
        assert(r@ =~= Seq::<Seq<Seq<SpanView>>>::empty());
        r
    }

    /// The capacity the store was made with.
    pub fn capacity(&self) -> (r: usize)
        ensures
            r == self.cap(),
    {
        self.capacity
    }

    /// The number of entries held.
    pub fn len(&self) -> (r: usize)
        ensures
            r == self@.len(),
    {
        self.entries.len()
    }

    /// Appends `entry`; if the store then holds more than its capacity, the oldest entry
    /// is evicted.
    pub fn push(&mut self, entry: LogEntry)
        requires
            old(self).wf(),
        ensures
            final(self).wf(),
            final(self).cap() == old(self).cap(),
            final(self)@ == push_model(old(self)@, entry@, old(self).cap()),
    {
        let ghost e = entry@;
        self.entries.push(entry);
        if self.entries.len() > self.capacity {
            self.entries.remove(0);
        }
        assert(self@ =~= push_model(old(self)@, e, old(self).cap()));
    }

    /// A copy of the entries, oldest first.
    pub fn snapshot(&self) -> (r: Vec<LogEntry>)
        ensures
            r@.map_values(|e: LogEntry| e@) == self@,
    {
        let mut out: Vec<LogEntry> = Vec::new();
        let mut i: usize = 0;
        while i < self.entries.len()
            invariant
                i <= self.entries@.len(),
                out@.len() == i,
                forall|j: int| 0 <= j < i ==> #[trigger] out@[j]@ == self.entries@[j]@,
            decreases self.entries@.len() - i,
        {
            out.push(self.entries[i].duplicate());
            i += 1;
        }
        assert(out@.map_values(|e: LogEntry| e@) =~= self@);
        out
    }
}

proof fn lemma_push_all_prefix<A>(s: Seq<A>, es: Seq<A>, cap: nat)
    requires
        s.len() + es.len() <= cap,
    ensures
        push_all(s, es, cap) == s + es,
    decreases es.len(),
{
    if es.len() == 0 {
        assert(s + es =~= s);
    } else {
        lemma_push_all_prefix(s.push(es[0]), es.drop_first(), cap);
        assert(s.push(es[0]) + es.drop_first() =~= s + es);
    }
}

proof fn lemma_push_all_window<A>(s: Seq<A>, es: Seq<A>, cap: nat)
    requires
        s.len() == cap,
    ensures
        push_all(s, es, cap) == (s + es).subrange(es.len() as int, (s.len() + es.len()) as int),
    decreases es.len(),
{
    if es.len() == 0 {
        assert((s + es).subrange(0, s.len() as int) =~= s);
    } else {
        let t = push_model(s, es[0], cap);
        assert(t.len() == cap);
        lemma_push_all_window(t, es.drop_first(), cap);
        assert(t + es.drop_first() =~= (s + es).subrange(1, (s.len() + es.len()) as int));
        assert((t + es.drop_first()).subrange(es.len() - 1, (t.len() + es.len() - 1) as int)
            =~= (s + es).subrange(es.len() as int, (s.len() + es.len()) as int));
    }
}

/// Bounded history: pushing `es` one by one onto an empty store of capacity `cap` leaves
/// exactly the last `min(cap, |es|)` of them, in the order they were pushed.
pub proof fn lemma_push_keeps_latest<A>(es: Seq<A>, cap: nat)
    ensures
        es.len() <= cap ==> push_all(Seq::<A>::empty(), es, cap) == es,
        es.len() > cap ==> push_all(Seq::<A>::empty(), es, cap) == es.subrange(
            es.len() - cap,
            es.len() as int,
        ),
{
    if es.len() <= cap {
        lemma_push_all_prefix(Seq::<A>::empty(), es, cap);
        assert(Seq::<A>::empty() + es =~= es);
    } else {
        let k = (es.len() - cap) as int;
        let head = es.subrange(0, cap as int);
        let rest = es.subrange(cap as int, es.len() as int);
        lemma_push_all_prefix(Seq::<A>::empty(), head, cap);
        assert(Seq::<A>::empty() + head =~= head);
        lemma_push_all_split(Seq::<A>::empty(), head, rest, cap);
        assert(head + rest =~= es);
        lemma_push_all_window(head, rest, cap);
    }
}

proof fn lemma_push_all_split<A>(s: Seq<A>, a: Seq<A>, b: Seq<A>, cap: nat)
    ensures
        push_all(s, a + b, cap) == push_all(push_all(s, a, cap), b, cap),
    decreases a.len(),
{
    if a.len() == 0 {
        assert(a + b =~= b);
    } else {
        lemma_push_all_split(push_model(s, a[0], cap), a.drop_first(), b, cap);
        assert((a + b).drop_first() =~= a.drop_first() + b);
        assert((a + b)[0] == a[0]);
    }
}

} // verus!
