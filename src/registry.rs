use vstd::prelude::*;

use crate::task::Task;

verus! {

/// Which pending task a dequeue hands out.
#[derive(Clone, Copy, Debug, PartialEq, Eq, Structural)]
pub enum DequeueOrder {
    /// The oldest pending task first.
    Fifo,
    /// The newest pending task first.
    Lifo,
}

/// Index in a pending sequence of length `len` of the task that a dequeue
/// under `order` removes.
pub open spec fn dequeue_position(len: nat, order: DequeueOrder) -> int {
    match order {
        DequeueOrder::Fifo => 0,
        DequeueOrder::Lifo => len - 1,
    }
}

/// The ordered collection of tasks that have been submitted and not yet
/// started.
pub struct TaskRegistry<W> {
    pending: Vec<Task<W>>,
    order: DequeueOrder,
}

impl<W> View for TaskRegistry<W> {
    type V = Seq<Task<W>>;

    /// The pending tasks, oldest first.
    closed spec fn view(&self) -> Seq<Task<W>> {
        self.pending@
    }
}

impl<W> TaskRegistry<W> {
    /// The policy that this registry dequeues by.
    pub closed spec fn policy(&self) -> DequeueOrder {
        self.order
    }

    /// An empty registry that dequeues by `order`.
    pub fn new(order: DequeueOrder) -> (r: TaskRegistry<W>)
        ensures
            r@ == Seq::<Task<W>>::empty(),
            r.policy() == order,
    {
        TaskRegistry { pending: Vec::new(), order }
    }

    /// The policy that this registry dequeues by.
    pub fn order(&self) -> (r: DequeueOrder)
        ensures
            r == self.policy(),
    {
        self.order
    }

    /// Appends `task` to the pending tasks.
    pub fn enqueue(&mut self, task: Task<W>)
        ensures
            final(self)@ == old(self)@.push(task),
            final(self).policy() == old(self).policy(),
    {
        self.pending.push(task);
    }

    /// Removes and returns one pending task, chosen by the registry's policy,
    /// or `None` when nothing is pending.
    pub fn dequeue(&mut self) -> (r: Option<Task<W>>)
        ensures
            final(self).policy() == old(self).policy(),
            old(self)@.len() == 0 ==> r is None && final(self)@ == old(self)@,
            old(self)@.len() > 0 ==> {
                let i = dequeue_position(old(self)@.len(), old(self).policy());
                &&& r == Some(old(self)@[i])
                &&& final(self)@ == old(self)@.remove(i)
            },
    {
        if self.pending.len() == 0 {
            return None;
        }
        match self.order {
            DequeueOrder::Fifo => Some(self.pending.remove(0)),
            DequeueOrder::Lifo => {
                let r = self.pending.pop();
                proof {
                    assert(self.pending@ =~= old(self)@.remove(old(self)@.len() - 1));
                }
                r
            },
        }
    }

    /// Number of pending tasks.
    pub fn len(&self) -> (r: usize)
        ensures
            r == self@.len(),
    {
        self.pending.len()
    }

    /// Whether nothing is pending.
    pub fn is_empty(&self) -> (r: bool)
        ensures
            r == (self@.len() == 0),
    {
        self.pending.len() == 0
    }
}

} // verus!
