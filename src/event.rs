//! Listeners keyed by event kind, and a queue of pending events.
use crate::order::as_ints;
use vstd::prelude::*;

verus! {

/// Something that reacts to events of type `E`.
pub trait EventHandler<E> {
    fn handle(&self, event: &E);
}

/// Number of entries of the given kind.
pub open spec fn count_kind<H>(s: Seq<(u64, H)>, kind: u64) -> nat
    decreases s.len(),
{
    if s.len() == 0 {
        0
    } else {
        count_kind(s.drop_last(), kind) + if s.last().0 == kind { 1nat } else { 0nat }
    }
}

/// Positions of the entries of the given kind, in order.
pub open spec fn positions_of_kind<H>(s: Seq<(u64, H)>, kind: u64) -> Seq<int>
    decreases s.len(),
{
    if s.len() == 0 {
        Seq::empty()
    } else if s.last().0 == kind {
        positions_of_kind(s.drop_last(), kind).push(s.len() - 1)
    } else {
        positions_of_kind(s.drop_last(), kind)
    }
}

/// The handlers of the given kind, in subscription order.
pub open spec fn handlers_of_kind<H>(s: Seq<(u64, H)>, kind: u64) -> Seq<H>
    decreases s.len(),
{
    if s.len() == 0 {
        Seq::empty()
    } else if s.last().0 == kind {
        handlers_of_kind(s.drop_last(), kind).push(s.last().1)
    } else {
        handlers_of_kind(s.drop_last(), kind)
    }
}

/// Clearing a kind leaves it no handler, and leaves every other kind's
/// handlers as they were, in their order.
pub proof fn lemma_clear_keeps_others<H>(s: Seq<(u64, H)>, kind: u64, other: u64)
    ensures
        handlers_of_kind(without_kind(s, kind), kind) == Seq::<H>::empty(),
        other != kind ==> handlers_of_kind(without_kind(s, kind), other) == handlers_of_kind(s, other),
    decreases s.len(),
{
    if s.len() > 0 {
        lemma_clear_keeps_others(s.drop_last(), kind, other);
        let w = without_kind(s.drop_last(), kind);
        if s.last().0 != kind {
            assert(without_kind(s, kind).drop_last() == w);
        }
    }
}

/// The entries whose kind differs from `kind`, in order.
pub open spec fn without_kind<H>(s: Seq<(u64, H)>, kind: u64) -> Seq<(u64, H)>
    decreases s.len(),
{
    if s.len() == 0 {
        s
    } else if s.last().0 == kind {
        without_kind(s.drop_last(), kind)
    } else {
        without_kind(s.drop_last(), kind).push(s.last())
    }
}

/// Handlers subscribed to event kinds, in subscription order.
pub struct EventSystem<H> {
    listeners: Vec<(u64, H)>,
}

impl<H> EventSystem<H> {
    pub closed spec fn spec_listeners(&self) -> Seq<(u64, H)> {
        self.listeners@
    }

    /// No handlers.
    pub fn new() -> (r: EventSystem<H>)
        ensures
            r.spec_listeners() == Seq::<(u64, H)>::empty(),
    {
        EventSystem { listeners: Vec::new() }
    }

    /// Adds a handler for events of `kind`, after those already there.
    pub fn subscribe(&mut self, kind: u64, handler: H)
        ensures
            final(self).spec_listeners() == old(self).spec_listeners().push((kind, handler)),
    {
        self.listeners.push((kind, handler));
    }

    /// Hands `event` to every handler of `kind`, once each, in subscription
    /// order, and returns the subscription positions of the handlers it
    /// called, in the order it called them.
    pub fn dispatch<E>(&self, kind: u64, event: &E) -> (r: Vec<usize>) where H: EventHandler<E>
        ensures
            as_ints(r@) == positions_of_kind(self.spec_listeners(), kind),
            r@.len() == count_kind(self.spec_listeners(), kind),
            Seq::new(r@.len(), |p: int| self.spec_listeners()[r@[p] as int].1) == handlers_of_kind(
                self.spec_listeners(),
                kind,
            ),
    {
        let mut called: Vec<usize> = Vec::new();
        let mut i: usize = 0;
        while i < self.listeners.len()
            invariant
                i <= self.spec_listeners().len(),
                as_ints(called@) == positions_of_kind(self.spec_listeners().take(i as int), kind),
                called@.len() == count_kind(self.spec_listeners().take(i as int), kind),
                forall|p: int| 0 <= p < called@.len() ==> #[trigger] called@[p] < i,
                Seq::new(called@.len(), |p: int| self.spec_listeners()[called@[p] as int].1)
                    == handlers_of_kind(self.spec_listeners().take(i as int), kind),
            decreases self.spec_listeners().len() - i,
        {
            proof {
                assert(self.spec_listeners().take(i + 1).drop_last() == self.spec_listeners().take(i as int));
            }
            let ghost before = called@;
            if self.listeners[i].0 == kind {
                self.listeners[i].1.handle(event);
                called.push(i);
            }
            i = i + 1;
            proof {
                let l = self.spec_listeners();
                assert(Seq::new(called@.len(), |p: int| l[called@[p] as int].1) =~= handlers_of_kind(
                    l.take(i as int),
                    kind,
                )) by {
                    assert(l.take(i as int).last() == l[i - 1]);
                    if called@.len() > before.len() {
                        assert forall|p: int| 0 <= p < before.len() implies called@[p] == before[p] by {}
                    }
                }
                assert(as_ints(called@) =~= positions_of_kind(self.spec_listeners().take(i as int), kind));
            }
        }
        proof {
            assert(self.spec_listeners().take(i as int) == self.spec_listeners());
        }
        called
    }

    /// Drops every handler of `kind`, keeping the others in order.
    pub fn clear(&mut self, kind: u64)
        ensures
            final(self).spec_listeners() == without_kind(old(self).spec_listeners(), kind),
    {
        let ghost s = self.listeners@;
        let ghost mut j: int = 0;
        let mut i: usize = 0;
        while i < self.listeners.len()
            invariant
                0 <= i <= self.listeners@.len(),
                0 <= j <= s.len(),
                self.listeners@.take(i as int) == without_kind(s.take(j), kind),
                self.listeners@.skip(i as int) == s.skip(j),
            decreases self.listeners@.len() - i,
        {
            let ghost cur = self.listeners@;
            proof {
                assert(cur.skip(i as int).len() > 0);
                assert(s.skip(j).len() == s.len() - j);
                assert(j < s.len());
                assert(s[j] == s.skip(j)[0]);
                assert(s[j] == cur.skip(i as int)[0]);
                assert(s.take(j + 1).drop_last() == s.take(j));
                assert(s.take(j + 1).last() == s[j]);
            }
            if self.listeners[i].0 == kind {
                self.listeners.remove(i);
                proof {
                    assert(self.listeners@.take(i as int) =~= cur.take(i as int));
                    assert forall|k: int| 0 <= k < s.skip(j + 1).len() implies #[trigger] s.skip(j + 1)[k]
                        == self.listeners@.skip(i as int)[k] by {
                        assert(s.skip(j + 1)[k] == s.skip(j)[k + 1]);
                        assert(cur.skip(i as int)[k + 1] == cur[i + 1 + k]);
                    }
                    assert(self.listeners@.skip(i as int) =~= s.skip(j + 1));
                    j = j + 1;
                }
            } else {
                proof {
                    assert(self.listeners@.take(i + 1) =~= cur.take(i as int).push(s[j]));
                    assert forall|k: int| 0 <= k < s.skip(j + 1).len() implies #[trigger] s.skip(j + 1)[k]
                        == self.listeners@.skip(i + 1)[k] by {
                        assert(s.skip(j + 1)[k] == s.skip(j)[k + 1]);
                        assert(cur.skip(i as int)[k + 1] == cur[i + 1 + k]);
                    }
                    assert(self.listeners@.skip(i + 1) =~= s.skip(j + 1));
                    j = j + 1;
                }
                i = i + 1;
            }
        }
        proof {
            assert(s.skip(j).len() == 0);
            assert(j == s.len());
            assert(s.take(j) == s);
            assert(self.listeners@.take(i as int) == self.listeners@);
        }
    }

    /// Drops every handler.
    pub fn clear_all(&mut self)
        ensures
            final(self).spec_listeners() == Seq::<(u64, H)>::empty(),
    {
        self.listeners.clear();
    }
}

/// Events waiting to be handled; the latest comes out first.
pub struct EventQueue<E> {
    pending_events: Vec<E>,
}

impl<E> EventQueue<E> {
    pub closed spec fn spec_pending(&self) -> Seq<E> {
        self.pending_events@
    }

    /// An empty queue.
    pub fn new() -> (r: EventQueue<E>)
        ensures
            r.spec_pending() == Seq::<E>::empty(),
    {
        EventQueue { pending_events: Vec::new() }
    }

    /// Adds an event.
    pub fn push(&mut self, event: E)
        ensures
            final(self).spec_pending() == old(self).spec_pending().push(event),
    {
        self.pending_events.push(event);
    }

    /// Takes the most recently pushed event, if any.
    pub fn pop(&mut self) -> (r: Option<E>)
        ensures
            old(self).spec_pending().len() == 0 ==> r is None && final(self).spec_pending()
                == old(self).spec_pending(),
            old(self).spec_pending().len() > 0 ==> r == Some(old(self).spec_pending().last())
                && final(self).spec_pending() == old(self).spec_pending().drop_last(),
    {
        self.pending_events.pop()
    }

    /// Number of waiting events.
    pub fn len(&self) -> (r: usize)
        ensures
            r == self.spec_pending().len(),
    {
        self.pending_events.len()
    }
}

} // verus!
