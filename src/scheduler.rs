use vstd::prelude::*;

use crate::registry::{dequeue_position, DequeueOrder, TaskRegistry};
use crate::task::Task;

verus! {

/// How long the dispatch loop pauses before looking again when it can do
/// nothing else.
pub const BACKOFF_MILLIS: u64 = 250;

/// What the dispatch loop is told to do next.
pub enum Action<W> {
    /// Start the carried task on a thread of its own; it now counts as in flight.
    Dispatch(Task<W>),
    /// Pause for this many milliseconds, then ask again.
    Wait(u64),
    /// Nothing is pending and nothing is in flight: the run is complete.
    Done,
}

/// The abstract state of a manager.
pub struct ManagerModel<W> {
    /// Tasks submitted and not yet dispatched, oldest first.
    pub pending: Seq<Task<W>>,
    /// The policy by which pending tasks are handed out.
    pub order: DequeueOrder,
    /// Number of dispatched tasks that have not been reported finished.
    pub in_flight: nat,
    /// Largest number of tasks that may be in flight at once.
    pub max_concurrency: nat,
    /// The id most recently handed out by a submission; zero before the first.
    pub last_id: nat,
    /// When the manager was created.
    pub start_time: std::time::Instant,
}

/// A manager state is sound: the concurrency limit is positive and not
/// exceeded.
pub open spec fn model_wf<W>(s: ManagerModel<W>) -> bool {
    &&& 1 <= s.max_concurrency
    &&& s.in_flight <= s.max_concurrency
}

/// `t` follows from `s` by submitting `task`: it is numbered one past the
/// last id handed out, whatever has been dequeued since, and appended to the
/// pending tasks.
pub open spec fn submit_step<W>(s: ManagerModel<W>, task: Task<W>, t: ManagerModel<W>) -> bool {
    &&& task.id == s.last_id + 1
    &&& t == ManagerModel { pending: s.pending.push(task), last_id: task.id as nat, ..s }
}

/// `t` follows from `s` when the dispatch loop is told `a`: a task is handed
/// out whenever one is pending and there is capacity; the run is done when
/// nothing is pending or in flight; otherwise the loop backs off.
pub open spec fn decide_step<W>(s: ManagerModel<W>, a: Action<W>, t: ManagerModel<W>) -> bool {
    if s.in_flight < s.max_concurrency && s.pending.len() > 0 {
        let i = dequeue_position(s.pending.len(), s.order);
        &&& a == Action::Dispatch(s.pending[i])
        &&& t == ManagerModel { pending: s.pending.remove(i), in_flight: s.in_flight + 1, ..s }
    } else if s.pending.len() == 0 && s.in_flight == 0 {
        a == Action::<W>::Done && t == s
    } else {
        a == Action::<W>::Wait(BACKOFF_MILLIS) && t == s
    }
}

/// `t` follows from `s` when one task in flight is reported finished,
/// whether its work returned normally or failed.
pub open spec fn finish_step<W>(s: ManagerModel<W>, t: ManagerModel<W>) -> bool {
    &&& s.in_flight > 0
    &&& t == ManagerModel { in_flight: (s.in_flight - 1) as nat, ..s }
}

/// Runs tasks with at most a fixed number of them in flight at once.
pub struct TaskManager<W> {
    /// When this manager was created; for diagnostics only.
    pub start_time: std::time::Instant,
    list: TaskRegistry<W>,
    max_threads: u32,
    current_threads: u32,
    last_id: u32,
}

impl<W> View for TaskManager<W> {
    type V = ManagerModel<W>;

    closed spec fn view(&self) -> ManagerModel<W> {
        ManagerModel {
            pending: self.list@,
            order: self.list.policy(),
            in_flight: self.current_threads as nat,
            max_concurrency: self.max_threads as nat,
            last_id: self.last_id as nat,
            start_time: self.start_time,
        }
    }
}

/// The concurrency limit used when none is given, from the number of logical
/// cores of the host: that number, or the largest `u32` where it does not fit.
pub fn limit_from_cores(cores: usize) -> (r: u32)
    requires
        cores >= 1,
    ensures
        r >= 1,
        r as int == if cores <= u32::MAX { cores as int } else { u32::MAX as int },
{
    if cores > u32::MAX as usize {
        u32::MAX
    } else {
        cores as u32
    }
}

impl<W> TaskManager<W> {
    /// The manager's invariant.
    pub open spec fn wf(&self) -> bool {
        model_wf(self@)
    }

    /// An empty manager that hands out the oldest task first. At most
    /// `max_concurrency` tasks run at once; when it is `None`, the limit is the
    /// number of logical cores of the host.
    pub fn new(max_concurrency: Option<u32>) -> (r: TaskManager<W>)
        requires
            max_concurrency != Some(0u32),
        ensures
            r.wf(),
            r@.pending == Seq::<Task<W>>::empty(),
            r@.order == DequeueOrder::Fifo,
            r@.in_flight == 0,
            r@.last_id == 0,
            (max_concurrency matches Some(n) ==> r@.max_concurrency == n),
    {
        Self::with_order(max_concurrency, DequeueOrder::Fifo)
    }

    /// An empty manager that hands out pending tasks by `order`, with the
    /// concurrency limit chosen as for `new`.
    pub fn with_order(max_concurrency: Option<u32>, order: DequeueOrder) -> (r: TaskManager<W>)
        requires
            max_concurrency != Some(0u32),
        ensures
            r.wf(),
            r@.pending == Seq::<Task<W>>::empty(),
            r@.order == order,
            r@.in_flight == 0,
            r@.last_id == 0,
            (max_concurrency matches Some(n) ==> r@.max_concurrency == n),
    {
        let max_threads: u32 = match max_concurrency {
            Some(n) => n,
            None => limit_from_cores(num_cpus::get()),
        };
        TaskManager {
            start_time: std::time::Instant::now(),
            list: TaskRegistry::new(order),
            max_threads,
            current_threads: 0,
            last_id: 0,
        }
    }

    /// Appends `task` to the pending tasks as it is, id included; the id
    /// counter is left alone.
    pub fn add_task(&mut self, task: Task<W>)
        requires
            old(self).wf(),
        ensures
            final(self).wf(),
            final(self)@ == (ManagerModel { pending: old(self)@.pending.push(task), ..old(self)@ }),
    {
        self.list.enqueue(task);
    }

    /// Submits `closure` under `name`. Its id is one past the last id handed
    /// out, so ids keep increasing even after tasks were dequeued; that id is
    /// returned.
    pub fn create_task(&mut self, name: String, closure: W) -> (id: u32)
        requires
            old(self).wf(),
            old(self)@.last_id < u32::MAX,
        ensures
            final(self).wf(),
            id == old(self)@.last_id + 1,
            submit_step(old(self)@, (Task { id, name, closure }), final(self)@),
    {
        let task_id = self.last_id + 1;
        let task = Task::new(task_id, name, closure);
        self.add_task(task);
        self.last_id = task_id;
        task_id
    }

    /// Decides the dispatch loop's next action. While below the limit it hands
    /// out a pending task and counts it in flight; at the limit it never
    /// dequeues and tells the loop to back off; it answers `Done` exactly when
    /// nothing is pending and nothing is in flight.
    pub fn next_action(&mut self) -> (r: Action<W>)
        requires
            old(self).wf(),
        ensures
            final(self).wf(),
            decide_step(old(self)@, r, final(self)@),
            final(self)@.in_flight <= final(self)@.max_concurrency,
            old(self)@.in_flight >= old(self)@.max_concurrency ==> r == Action::<W>::Wait(BACKOFF_MILLIS)
                && final(self)@ == old(self)@,
            (r is Done) <==> (old(self)@.pending.len() == 0 && old(self)@.in_flight == 0),
    {
        if self.current_threads < self.max_threads {
            match self.list.dequeue() {
                Some(task) => {
                    self.current_threads = self.current_threads + 1;
                    return Action::Dispatch(task);
                },
                None => {},
            }
        }
        if self.current_threads == 0 && self.list.is_empty() {
            Action::Done
        } else {
            Action::Wait(BACKOFF_MILLIS)
        }
    }

    /// Records that one task in flight has finished, whether its work returned
    /// normally or failed.
    pub fn task_finished(&mut self)
        requires
            old(self).wf(),
            old(self)@.in_flight > 0,
        ensures
            final(self).wf(),
            finish_step(old(self)@, final(self)@),
    {
        self.current_threads = self.current_threads - 1;
    }

    /// Largest number of tasks that may be in flight at once.
    pub fn max_threads(&self) -> (r: u32)
        ensures
            r == self@.max_concurrency,
    {
        self.max_threads
    }

    /// Number of tasks in flight.
    pub fn current_threads(&self) -> (r: u32)
        ensures
            r == self@.in_flight,
    {
        self.current_threads
    }

    /// The id most recently handed out by `create_task`; zero before the
    /// first.
    pub fn last_id(&self) -> (r: u32)
        ensures
            r == self@.last_id,
    {
        self.last_id
    }

    /// Number of tasks pending.
    pub fn pending_len(&self) -> (r: usize)
        ensures
            r == self@.pending.len(),
    {
        self.list.len()
    }

    /// The policy by which pending tasks are handed out.
    pub fn order(&self) -> (r: DequeueOrder)
        ensures
            r == self@.order,
    {
        self.list.order()
    }
}

} // verus!
