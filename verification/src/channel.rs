use vstd::prelude::*;
use crate::messages::Message;

verus! {

/// Unbounded ordered queue carrying typed messages from producing contexts
/// to the single consuming control loop. Sending never fails and never
/// blocks; receiving is non-blocking; messages leave in arrival order.
pub struct MessageChannel {
    queue: Vec<Message>,
}

impl View for MessageChannel {
    type V = Seq<Message>;

    closed spec fn view(&self) -> Seq<Message> {
        self.queue@
    }
}

impl MessageChannel {
    /// An empty channel.
    pub fn new() -> (r: Self)
        ensures
            r@ == Seq::<Message>::empty(),
    {
        MessageChannel { queue: Vec::new() }
    }

    /// Enqueues `m` behind every pending message.
    pub fn send(&mut self, m: Message)
        ensures
            final(self)@ == old(self)@.push(m),
    {
        self.queue.push(m);
    }

    /// Removes and returns the oldest pending message, or returns nothing
    /// at once when no message is pending.
    pub fn try_receive(&mut self) -> (r: Option<Message>)
        ensures
            old(self)@.len() == 0 ==> r is None && final(self)@ == old(self)@,
            old(self)@.len() > 0 ==> r == Some(old(self)@[0]) && final(self)@ == old(
                self,
            )@.drop_first(),
    {
        if self.queue.len() == 0 {
            None
        } else {
            let m = self.queue.remove(0);
            proof {
                assert(self.queue@ =~= old(self).queue@.drop_first());
            }
            Some(m)
        }
    }

    /// The number of pending messages.
    pub fn pending(&self) -> (r: usize)
        ensures
            r == self@.len(),
    {
        self.queue.len()
    }
}

/// Law: delivery keeps send order. After sending `a` and then `b` into a
/// channel holding `q`, `a` stands closer to the head than `b`, and every
/// already-pending message leaves before either.
pub proof fn lemma_send_order(q: Seq<Message>, a: Message, b: Message)
    ensures
        q.push(a).push(b)[q.len() as int] == a,
        q.push(a).push(b)[q.len() as int + 1] == b,
        forall|i: int| 0 <= i < q.len() ==> q.push(a).push(b)[i] == q[i],
{
}

} // verus!
