use vstd::prelude::*;

use crate::errors::ActorError;

verus! {

/// A bounded FIFO queue of messages owned by one actor.
///
/// Senders append at the tail; the owning actor removes from the head, so
/// messages from one sender are handled in send order. The capacity is fixed
/// at creation and finite; a non-blocking enqueue on a full mailbox reports
/// [`ActorError::MailboxFull`] and leaves the queue unchanged (the blocking
/// send variant is the caller retrying once the owner has drained a slot).
pub struct Mailbox<M> {
    queue: Vec<M>,
    capacity: usize,
}

impl<M> View for Mailbox<M> {
    type V = Seq<M>;

    /// The pending messages, head first.
    closed spec fn view(&self) -> Seq<M> {
        self.queue@
    }
}

impl<M> Mailbox<M> {
    /// The fixed capacity the mailbox was created with.
    pub closed spec fn spec_capacity(&self) -> nat {
        self.capacity as nat
    }

    /// A mailbox never holds more messages than its capacity, and the
    /// capacity is positive.
    pub open spec fn wf(&self) -> bool {
        self@.len() <= self.spec_capacity() && self.spec_capacity() >= 1
    }

    /// Creates an empty mailbox bounded at `capacity` messages.
    pub fn new(capacity: usize) -> (m: Mailbox<M>)
        requires
            capacity >= 1,
        ensures
            m.wf(),
            m@ == Seq::<M>::empty(),
            m.spec_capacity() == capacity,
    {
        Mailbox { queue: Vec::new(), capacity }
    }

    /// The number of pending messages.
    pub fn len(&self) -> (n: usize)
        ensures
            n == self@.len(),
    {
        self.queue.len()
    }

    /// The fixed capacity.
    pub fn capacity(&self) -> (n: usize)
        ensures
            n == self.spec_capacity(),
    {
        self.capacity
    }

    /// Whether a further enqueue would be refused.
    pub fn is_full(&self) -> (b: bool)
        ensures
            b == (self@.len() >= self.spec_capacity()),
    {
        self.queue.len() >= self.capacity
    }

    /// Appends `m` at the tail; on a full mailbox reports `MailboxFull` and
    /// changes nothing.
    pub fn try_enqueue(&mut self, m: M) -> (r: Result<(), ActorError>)
        requires
            old(self).wf(),
        ensures
            final(self).wf(),
            final(self).spec_capacity() == old(self).spec_capacity(),
            r is Ok <==> old(self)@.len() < old(self).spec_capacity(),
            old(self)@.len() < old(self).spec_capacity() ==> final(self)@ == old(self)@.push(m),
            old(self)@.len() >= old(self).spec_capacity() ==> r == Err::<(), ActorError>(
                ActorError::MailboxFull,
            ) && final(self)@ == old(self)@,
    {
        if self.queue.len() < self.capacity {
            self.queue.push(m);
            Ok(())
        } else {
            Err(ActorError::MailboxFull)
        }
    }

    /// Removes and returns the head message; `None` on an empty mailbox (the
    /// blocking receive is the owner retrying until a sender has enqueued).
    pub fn dequeue(&mut self) -> (r: Option<M>)
        requires
            old(self).wf(),
        ensures
            final(self).wf(),
            final(self).spec_capacity() == old(self).spec_capacity(),
            old(self)@.len() > 0 ==> r == Some(old(self)@[0]) && final(self)@ == old(
                self,
            )@.drop_first(),
            old(self)@.len() == 0 ==> r is None && final(self)@ == old(self)@,
    {
        if self.queue.len() > 0 {
            let m = self.queue.remove(0);
            proof {
                assert(self.queue@ =~= old(self).queue@.drop_first());
            }
            Some(m)
        } else {
            None
        }
    }

    /// Removes every pending message, head first: the order of `out` is the
    /// order in which the owner would have handled them.
    pub fn drain(&mut self) -> (out: Vec<M>)
        requires
            old(self).wf(),
        ensures
            final(self).wf(),
            final(self).spec_capacity() == old(self).spec_capacity(),
            out@ == old(self)@,
            final(self)@ == Seq::<M>::empty(),
    {
        let mut out: Vec<M> = Vec::new();
        loop
            invariant
                self.wf(),
                self.spec_capacity() == old(self).spec_capacity(),
                out@ + self@ == old(self)@,
            ensures
                self@.len() == 0,
            decreases self@.len(),
        {
            let next = self.dequeue();
            match next {
                Some(m) => {
                    out.push(m);
                    proof {
                        assert(out@ + self@ =~= old(self)@);
                    }
                },
                None => {
                    proof {
                        assert(out@ =~= old(self)@);
                    }
                    break ;
                },
            }
        }
        out
    }
}

/// What one enqueue does to the queue contents: an append while there is
/// room, otherwise no change.
pub open spec fn enqueue_spec<M>(q: Seq<M>, m: M, capacity: nat) -> Seq<M> {
    if q.len() < capacity {
        q.push(m)
    } else {
        q
    }
}

/// Per-pair FIFO ordering, first half: when a sender enqueues `a` and then
/// `b` into a mailbox with room for both, `a` sits at a strictly earlier
/// position than `b`. The second half is [`lemma_dequeue_position`]: the
/// earlier position is handed to the owner at the earlier step, so the
/// owning actor's handler runs for `a` before it runs for `b`.
pub proof fn lemma_send_order<M>(q: Seq<M>, a: M, b: M, capacity: nat)
    requires
        q.len() + 2 <= capacity,
    ensures
        enqueue_spec(enqueue_spec(q, a, capacity), b, capacity)[q.len() as int] == a,
        enqueue_spec(enqueue_spec(q, a, capacity), b, capacity)[q.len() as int + 1] == b,
        enqueue_spec(enqueue_spec(q, a, capacity), b, capacity).len() == q.len() + 2,
{
}

/// The queue contents after the owner removed the head `k` times.
pub open spec fn after_dequeues<M>(q: Seq<M>, k: int) -> Seq<M>
    recommends
        0 <= k <= q.len(),
{
    q.subrange(k, q.len() as int)
}

/// Per-pair FIFO ordering, second half: each `dequeue` removes the head, so
/// the `k`-th dequeue (counting from zero) hands the owner exactly the
/// message at position `k` — the message at the earlier position is handled
/// at the strictly earlier step.
pub proof fn lemma_dequeue_position<M>(q: Seq<M>, k: int)
    requires
        0 <= k < q.len(),
    ensures
        after_dequeues(q, 0) =~= q,
        after_dequeues(q, k).len() == q.len() - k,
        after_dequeues(q, k)[0] == q[k],
        after_dequeues(q, k).drop_first() =~= after_dequeues(q, k + 1),
{
}

} // verus!
