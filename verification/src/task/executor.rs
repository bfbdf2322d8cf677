//! Wake-driven task executor: runnable tasks sit in a FIFO run queue,
//! suspended tasks in a wait queue keyed by task id, and wakes arrive through
//! a bounded lock-free queue that interrupt handlers may push into. Each
//! scheduling pass first drains the wake queue, moving woken tasks back to
//! the run queue, then polls every runnable task exactly once.
use vstd::prelude::*;

use std::collections::BTreeMap;
use std::collections::VecDeque;
use std::sync::Arc;

verus! {

broadcast use vstd::laws_cmp::group_laws_cmp;

use crate::task::{Task, TaskId, PollState};

/// Capacity of the wake queue; a full wake queue drops wakes, which is fatal
/// to the task concerned.
pub const WAKE_QUEUE_SIZE: usize = 100;

/// Handle to the shared wake queue: a bounded lock-free multi-producer queue
/// of task ids, pushed from wakers — including in interrupt context — and
/// drained by the executor. Every handle reaches the same queue, so what a
/// `pop` returns depends on the other handles: nothing is assumed of it.
#[verifier::external_body]
pub struct WakeQueue {
    inner: Arc<crossbeam_queue::ArrayQueue<u64>>,
}

/// Which shared wake queue a handle reaches. Cloning a handle preserves it,
/// so a waker built from an executor's handle is bound to that executor's
/// queue.
pub uninterp spec fn wake_queue_id(q: WakeQueue) -> int;

impl WakeQueue {
    /// Relies on crossbeam_queue::ArrayQueue::new: an empty bounded queue of
    /// the given capacity; it panics on capacity zero, which the precondition
    /// rules out.
    #[verifier::external_body]
    pub(crate) fn new(capacity: usize) -> (r: WakeQueue)
        requires
            capacity > 0,
    {
        WakeQueue { inner: Arc::new(crossbeam_queue::ArrayQueue::new(capacity)) }
    }

    /// Relies on alloc::sync::Arc::clone: another handle to the same queue.
    #[verifier::external_body]
    pub(crate) fn clone_handle(&self) -> (r: WakeQueue)
        ensures
            wake_queue_id(r) == wake_queue_id(*self),
    {
        WakeQueue { inner: Arc::clone(&self.inner) }
    }

    /// Relies on crossbeam_queue::ArrayQueue::push: enqueues the value, or
    /// hands it back when the queue is full.
    #[verifier::external_body]
    pub(crate) fn push(&self, id: u64) -> (r: Result<(), u64>)
        ensures
            r matches Err(v) ==> v == id,
    {
        self.inner.push(id)
    }

    /// Relies on crossbeam_queue::ArrayQueue::pop: dequeues an element if one
    /// is there. Other handles feed the queue concurrently, so nothing is
    /// promised about the result.
    #[verifier::external_body]
    pub(crate) fn pop(&self) -> (r: Option<u64>) {
        self.inner.pop()
    }

    /// Relies on crossbeam_queue::ArrayQueue::is_empty: whether the queue
    /// appeared empty; concurrent pushes can outdate the answer at once.
    #[verifier::external_body]
    pub(crate) fn is_empty(&self) -> (r: bool) {
        self.inner.is_empty()
    }
}

/// Relies on x86_64::instructions::interrupts::disable: clears the interrupt
/// flag, so no maskable interrupt is delivered until they are enabled again.
#[verifier::external_body]
fn interrupts_disable() {
    x86_64::instructions::interrupts::disable()
}

/// Relies on x86_64::instructions::interrupts::enable: sets the interrupt
/// flag again.
#[verifier::external_body]
fn interrupts_enable() {
    x86_64::instructions::interrupts::enable()
}

/// Relies on x86_64::instructions::interrupts::enable_and_hlt: sets the
/// interrupt flag and halts in one step, so an interrupt arriving in between
/// cannot be lost before the halt.
#[verifier::external_body]
fn interrupts_enable_and_hlt() {
    x86_64::instructions::interrupts::enable_and_hlt()
}

/// The waker of one task: a capability bound to that task's id, holding a
/// handle to the shared wake queue. Invoking it is the only way to move the
/// task from waiting back to runnable; it may be invoked from interrupt
/// context, and never blocks.
pub struct TaskWaker {
    pub id: TaskId,
    pub wake_queue: WakeQueue,
}

impl TaskWaker {
    /// Wake the bound task: push its id onto the wake queue. `false` means
    /// the queue was full and the wake was dropped — a fatal condition, since
    /// a dropped wake strands its task forever.
    pub fn wake_task(&self) -> (r: bool) {
        self.wake_queue.push(self.id.0).is_ok()
    }
}

/// The ids of the tasks of a queue, in queue order.
pub open spec fn task_ids(s: Seq<Task>) -> Seq<u64> {
    s.map_values(|t: Task| t.id.0)
}

/// The ids of the tasks of a queue that resolve on their next poll, in queue
/// order.
pub open spec fn done_ids(s: Seq<Task>) -> Seq<u64> {
    task_ids(s.filter(|t: Task| t.remaining == 0))
}

/// Filtering keeps a sequence whole when the predicate holds everywhere.
proof fn lemma_filter_all(s: Seq<Task>, pred: spec_fn(Task) -> bool)
    requires
        forall|i: int| 0 <= i < s.len() ==> pred(#[trigger] s[i]),
    ensures
        s.filter(pred) == s,
    decreases s.len(),
{
    reveal(Seq::filter);
    if s.len() == 0 {
        assert(s.filter(pred) =~= s);
    } else {
        lemma_filter_all(s.drop_last(), pred);
        assert(pred(s.last()));
        assert(s.filter(pred) =~= s);
    }
}

/// Filtering empties a sequence when the predicate holds nowhere.
proof fn lemma_filter_none(s: Seq<Task>, pred: spec_fn(Task) -> bool)
    requires
        forall|i: int| 0 <= i < s.len() ==> !pred(#[trigger] s[i]),
    ensures
        s.filter(pred) == Seq::<Task>::empty(),
    decreases s.len(),
{
    reveal(Seq::filter);
    if s.len() == 0 {
        assert(s.filter(pred) =~= Seq::<Task>::empty());
    } else {
        lemma_filter_none(s.drop_last(), pred);
        assert(!pred(s.last()));
        assert(s.filter(pred) =~= Seq::<Task>::empty());
    }
}

/// A sequence extended by one element contains exactly its old elements and
/// the new one.
proof fn lemma_push_contains(s: Seq<u64>, x: u64, k: u64)
    ensures
        s.push(x).contains(k) <==> (s.contains(k) || k == x),
{
    if s.contains(k) {
        let i = choose|i: int| 0 <= i < s.len() && s[i] == k;
        assert(s.push(x)[i] == k);
    }
    if k == x {
        assert(s.push(x)[s.len() as int] == k);
    }
    if s.push(x).contains(k) && k != x {
        let i = choose|i: int| 0 <= i < s.push(x).len() && s.push(x)[i] == k;
        assert(i < s.len());
        assert(s[i] == k);
    }
}

/// Wake-driven executor state.
pub struct Executor {
    pub run_queue: VecDeque<Task>,
    pub wait_queue: BTreeMap<u64, Task>,
    pub wake_queue: WakeQueue,
    pub waker_cache: BTreeMap<u64, TaskWaker>,
    pub completed: Vec<u64>,
}

impl Default for Executor {
    /// An executor with no tasks and a fresh wake queue.
    fn default() -> (r: Self)
        ensures
            r.wf(),
            r.run_queue@ == Seq::<Task>::empty(),
            r.wait_queue@ == Map::<u64, Task>::empty(),
            r.waker_cache@ == Map::<u64, TaskWaker>::empty(),
            r.completed@ == Seq::<u64>::empty(),
    {
        Executor::new()
    }
}

impl Executor {
    /// Every task lives in exactly one queue: ids in the run queue are
    /// distinct and absent from the wait queue, and both the wait queue and
    /// the waker cache key each entry by the id it carries.
    pub open spec fn wf(&self) -> bool {
        &&& forall|i: int, j: int|
            0 <= i < j < self.run_queue@.len() ==> (#[trigger] self.run_queue@[i]).id != (
            #[trigger] self.run_queue@[j]).id
        &&& forall|i: int|
            0 <= i < self.run_queue@.len() ==> !self.wait_queue@.contains_key(
                (#[trigger] self.run_queue@[i]).id.0,
            )
        &&& forall|k: u64|
            #[trigger] self.wait_queue@.contains_key(k) ==> self.wait_queue@[k].id == TaskId(k)
        &&& forall|k: u64|
            #[trigger] self.waker_cache@.contains_key(k) ==> self.waker_cache@[k].id == TaskId(k)
    }

    /// An executor with no tasks and a fresh wake queue.
    pub fn new() -> (r: Self)
        ensures
            r.wf(),
            r.run_queue@ == Seq::<Task>::empty(),
            r.wait_queue@ == Map::<u64, Task>::empty(),
            r.waker_cache@ == Map::<u64, TaskWaker>::empty(),
            r.completed@ == Seq::<u64>::empty(),
    {
        Self {
            run_queue: VecDeque::new(),
            wait_queue: BTreeMap::new(),
            wake_queue: WakeQueue::new(WAKE_QUEUE_SIZE),
            waker_cache: BTreeMap::new(),
            completed: Vec::new(),
        }
    }

    /// Spawn a task: append it to the run queue. A task whose id is already
    /// tracked is refused and handed back, so ids stay unique.
    pub fn spawn(&mut self, task: Task) -> (r: Result<(), Task>)
        requires
            old(self).wf(),
        ensures
            final(self).wf(),
            final(self).wake_queue == old(self).wake_queue,
            final(self).wait_queue == old(self).wait_queue,
            final(self).waker_cache == old(self).waker_cache,
            final(self).completed == old(self).completed,
            ({
                let fresh = !task_ids(old(self).run_queue@).contains(task.id.0) && !old(
                    self,
                ).wait_queue@.contains_key(task.id.0);
                &&& fresh ==> r is Ok && final(self).run_queue@ == old(self).run_queue@.push(task)
                &&& !fresh ==> r == Result::<(), Task>::Err(task) && final(self).run_queue == old(
                    self,
                ).run_queue
            }),
    {
        let mut i: usize = 0;
        let mut seen = false;
        while i < self.run_queue.len()
            invariant
                i <= self.run_queue@.len(),
                seen == exists|k: int|
                    0 <= k < i && (#[trigger] self.run_queue@[k]).id.0 == task.id.0,
            decreases self.run_queue@.len() - i,
        {
            if self.run_queue[i].id.0 == task.id.0 {
                seen = true;
            }
            i = i + 1;
        }
        proof {
            if seen {
                let k = choose|k: int|
                    0 <= k < self.run_queue@.len() && (#[trigger] self.run_queue@[k]).id.0
                        == task.id.0;
                assert(task_ids(self.run_queue@)[k] == task.id.0);
            } else {
                if task_ids(self.run_queue@).contains(task.id.0) {
                    let k = choose|k: int|
                        0 <= k < task_ids(self.run_queue@).len() && task_ids(self.run_queue@)[k]
                            == task.id.0;
                    assert(self.run_queue@[k].id.0 == task.id.0);
                }
            }
        }
        if seen || self.wait_queue.contains_key(&task.id.0) {
            Err(task)
        } else {
            self.run_queue.push_back(task);
            Ok(())
        }
    }

    /// A waker for the given task id, bound to this executor's wake queue:
    /// invoking it pushes the id where this executor's scheduling passes
    /// drain.
    pub fn create_waker(&self, task_id: TaskId) -> (r: TaskWaker)
        ensures
            r.id == task_id,
            wake_queue_id(r.wake_queue) == wake_queue_id(self.wake_queue),
    {
        TaskWaker { id: task_id, wake_queue: self.wake_queue.clone_handle() }
    }

    /// Deliver one wake, for whatever id the concurrent wake queue handed
    /// back: a task still waiting under that id moves, exactly once, to the
    /// back of the run queue — ownership moves with it — while any other id
    /// (already completed, a duplicate wake, or still runnable) changes
    /// nothing. Wake delivery is idempotent.
    pub fn deliver_wake(&mut self, task_id: u64)
        requires
            old(self).wf(),
        ensures
            final(self).wf(),
            final(self).wake_queue == old(self).wake_queue,
            final(self).waker_cache == old(self).waker_cache,
            final(self).completed == old(self).completed,
            old(self).wait_queue@.contains_key(task_id) ==> final(self).run_queue@ == old(
                self,
            ).run_queue@.push(old(self).wait_queue@[task_id]) && final(self).wait_queue@ == old(
                self,
            ).wait_queue@.remove(task_id),
            !old(self).wait_queue@.contains_key(task_id) ==> final(self).run_queue == old(
                self,
            ).run_queue && final(self).wait_queue@ == old(self).wait_queue@,
    {
        match self.wait_queue.remove(&task_id) {
            Some(task) => {
                proof {
                    assert(old(self).wait_queue@.contains_key(task_id));
                    assert(task.id == TaskId(task_id));
                }
                self.run_queue.push_back(task);
            },
            None => {},
        }
    }

    /// Drain the wake queue — up to its capacity of ids in one pass — and
    /// deliver each drained id through `deliver_wake`: a task still waiting
    /// under it moves to the back of the run queue, any other id is silently
    /// ignored. The run queue keeps its old tasks, in order, in front; the
    /// wait queue loses exactly the tasks that were moved.
    pub fn wake_tasks(&mut self)
        requires
            old(self).wf(),
        ensures
            final(self).wf(),
            final(self).wake_queue == old(self).wake_queue,
            final(self).waker_cache == old(self).waker_cache,
            final(self).completed == old(self).completed,
            final(self).run_queue@.len() >= old(self).run_queue@.len(),
            final(self).run_queue@.subrange(0, old(self).run_queue@.len() as int) == old(
                self,
            ).run_queue@,
            forall|i: int|
                old(self).run_queue@.len() <= i < final(self).run_queue@.len() ==> old(
                    self,
                ).wait_queue@.contains_key((#[trigger] final(self).run_queue@[i]).id.0) && old(
                    self,
                ).wait_queue@[final(self).run_queue@[i].id.0] == final(self).run_queue@[i],
            forall|k: u64|
                #[trigger] final(self).wait_queue@.contains_key(k) ==> old(
                    self,
                ).wait_queue@.contains_key(k) && final(self).wait_queue@[k] == old(
                    self,
                ).wait_queue@[k],
            forall|k: u64|
                #[trigger] old(self).wait_queue@.contains_key(k) && !final(self).wait_queue@.contains_key(k) ==> task_ids(final(self).run_queue@).contains(k),
            old(self).wait_queue@ =~= Map::<u64, Task>::empty() ==> final(self).run_queue == old(
                self,
            ).run_queue && final(self).wait_queue@ == old(self).wait_queue@,
    {
        let ghost pre = *old(self);
        let mut budget: usize = WAKE_QUEUE_SIZE;
        while budget > 0
            invariant
                pre == *old(self),
                self.wf(),
                self.waker_cache == pre.waker_cache,
                self.completed == pre.completed,
                self.wake_queue == pre.wake_queue,
                self.run_queue@.len() >= pre.run_queue@.len(),
                self.run_queue@.subrange(0, pre.run_queue@.len() as int) == pre.run_queue@,
                forall|i: int|
                    pre.run_queue@.len() <= i < self.run_queue@.len()
                        ==> pre.wait_queue@.contains_key(
                        (#[trigger] self.run_queue@[i]).id.0,
                    ) && pre.wait_queue@[self.run_queue@[i].id.0] == self.run_queue@[i],
                forall|k: u64|
                    #[trigger] self.wait_queue@.contains_key(k) ==> pre.wait_queue@.contains_key(
                        k,
                    ) && self.wait_queue@[k] == pre.wait_queue@[k],
                forall|k: u64|
                    #[trigger] pre.wait_queue@.contains_key(k) && !self.wait_queue@.contains_key(
                        k,
                    ) ==> task_ids(self.run_queue@).contains(k),
                pre.wait_queue@ =~= Map::<u64, Task>::empty() ==> self.run_queue == pre.run_queue
                    && self.wait_queue@ == pre.wait_queue@,
            decreases budget,
        {
            match self.wake_queue.pop() {
                Some(task_id) => {
                    let ghost before = *self;
                    self.deliver_wake(task_id);
                    proof {
                        if before.wait_queue@.contains_key(task_id) {
                            let task = before.wait_queue@[task_id];
                            assert(task.id == TaskId(task_id));
                            assert(self.run_queue@ == before.run_queue@.push(task));
                            assert(task_ids(self.run_queue@).last() == task_id);
                            assert forall|k: u64|
                                #[trigger] pre.wait_queue@.contains_key(k)
                                    && !self.wait_queue@.contains_key(
                                    k,
                                ) implies task_ids(self.run_queue@).contains(k) by {
                                if k == task_id {
                                    assert(task_ids(self.run_queue@)[task_ids(
                                        self.run_queue@,
                                    ).len() - 1] == k);
                                } else {
                                    assert(!before.wait_queue@.contains_key(k)
                                        ==> task_ids(before.run_queue@).contains(k));
                                    if task_ids(before.run_queue@).contains(k) {
                                        let ki = choose|ki: int|
                                            0 <= ki < task_ids(before.run_queue@).len()
                                                && task_ids(before.run_queue@)[ki] == k;
                                        assert(task_ids(self.run_queue@)[ki] == k);
                                    }
                                }
                            }
                            assert(self.run_queue@.subrange(0, pre.run_queue@.len() as int)
                                =~= pre.run_queue@);
                        }
                    }
                },
                None => {
                    return ;
                },
            }
            budget = budget - 1;
        }
    }

    /// Poll every task in the run queue exactly once, in FIFO order, making
    /// sure each has a cached waker first. A task that reports `Ready` is
    /// dropped, its id appended to the completion record and its waker
    /// uncached; one that reports `Pending` moves to the wait queue, solely
    /// responsible for its own resumption via its waker. The run queue is
    /// empty afterwards.
    pub fn poll_tasks(&mut self)
        requires
            old(self).wf(),
        ensures
            final(self).wf(),
            final(self).run_queue@.len() == 0,
            final(self).completed@ == old(self).completed@ + done_ids(old(self).run_queue@),
            forall|k: u64|
                #[trigger] final(self).wait_queue@.contains_key(k) <==> (old(
                    self,
                ).wait_queue@.contains_key(k) || task_ids(
                    old(self).run_queue@.filter(|t: Task| t.remaining > 0),
                ).contains(k)),
            forall|k: u64|
                #[trigger] old(self).wait_queue@.contains_key(k) ==> final(self).wait_queue@.contains_key(k) && final(self).wait_queue@[k] == old(
                    self,
                ).wait_queue@[k],
            forall|i: int|
                0 <= i < old(self).run_queue@.len() && (#[trigger] old(
                    self,
                ).run_queue@[i]).remaining > 0 ==> final(self).wait_queue@.contains_key(old(
                    self,
                ).run_queue@[i].id.0) && final(self).wait_queue@[old(self).run_queue@[i].id.0] == (
                Task { id: old(self).run_queue@[i].id, remaining: (old(self).run_queue@[i].remaining
                    - 1) as u64 }),
            final(self).wake_queue == old(self).wake_queue,
            forall|k: u64|
                #[trigger] final(self).waker_cache@.contains_key(k) <==> ((old(
                    self,
                ).waker_cache@.contains_key(k) || task_ids(old(self).run_queue@).contains(k))
                    && !done_ids(old(self).run_queue@).contains(
                    k,
                )),
            forall|k: u64|
                #[trigger] final(self).waker_cache@.contains_key(k) && old(
                    self,
                ).waker_cache@.contains_key(k) ==> final(self).waker_cache@[k] == old(
                    self,
                ).waker_cache@[k],
    {
        let ghost pre = *old(self);
        let ghost mut processed: int = 0;
        loop
            invariant
                pre == *old(self),
                pre.wf(),
                self.wf(),
                0 <= processed <= pre.run_queue@.len(),
                self.run_queue@ =~= pre.run_queue@.skip(processed),
                self.wake_queue == pre.wake_queue,
                self.completed@ == pre.completed@ + done_ids(pre.run_queue@.take(processed)),
                forall|k: u64|
                    #[trigger] self.wait_queue@.contains_key(k) <==> (pre.wait_queue@.contains_key(
                        k,
                    ) || task_ids(
                        pre.run_queue@.take(processed).filter(|t: Task| t.remaining > 0),
                    ).contains(k)),
                forall|k: u64|
                    #[trigger] pre.wait_queue@.contains_key(k) ==> self.wait_queue@.contains_key(
                        k,
                    ) && self.wait_queue@[k] == pre.wait_queue@[k],
                forall|i: int|
                    0 <= i < processed && (#[trigger] pre.run_queue@[i]).remaining > 0
                        ==> self.wait_queue@.contains_key(pre.run_queue@[i].id.0)
                        && self.wait_queue@[pre.run_queue@[i].id.0] == (Task {
                        id: pre.run_queue@[i].id,
                        remaining: (pre.run_queue@[i].remaining - 1) as u64,
                    }),
                forall|i: int, j: int|
                    0 <= i < processed <= j < pre.run_queue@.len() ==> (
                    #[trigger] pre.run_queue@[i]).id != (#[trigger] pre.run_queue@[j]).id,
                forall|k: u64|
                    #[trigger] self.waker_cache@.contains_key(k) <==> ((
                    pre.waker_cache@.contains_key(k) || task_ids(
                        pre.run_queue@.take(processed),
                    ).contains(k)) && !done_ids(pre.run_queue@.take(processed)).contains(k)),
                forall|k: u64|
                    #[trigger] self.waker_cache@.contains_key(k) && pre.waker_cache@.contains_key(
                        k,
                    ) ==> self.waker_cache@[k] == pre.waker_cache@[k],
                forall|k: u64|
                    #[trigger] done_ids(pre.run_queue@.take(processed)).contains(k) ==> task_ids(pre.run_queue@.take(processed)).contains(k),
            ensures
                self.run_queue@.len() == 0,
            decreases self.run_queue@.len(),
        {
            let task_opt = self.run_queue.pop_front();
            let mut task = match task_opt {
                Some(t) => t,
                None => {
                    proof {
                        assert(pre.run_queue@.skip(processed).len() == 0);
                        assert(processed == pre.run_queue@.len());
                        assert(pre.run_queue@.take(processed) =~= pre.run_queue@);
                    }
                    break ;
                },
            };
            let ghost popped = *self;
            proof {
                assert(task == pre.run_queue@[processed]);
                assert(popped.run_queue@ =~= pre.run_queue@.skip(processed + 1));
            }
            let task_id = task.id;
            if !self.waker_cache.contains_key(&task_id.0) {
                let waker = self.create_waker(task_id);
                self.waker_cache.insert(task_id.0, waker);
            }
            let ghost cache_mid = self.waker_cache@;
            proof {
                assert(forall|k: u64|
                    #[trigger] cache_mid.contains_key(k) ==> popped.waker_cache@.contains_key(k)
                        || k == task_id.0);
                assert(forall|k: u64|
                    popped.waker_cache@.contains_key(k) ==> #[trigger] cache_mid.contains_key(k)
                        && cache_mid[k] == popped.waker_cache@[k]);
                assert(cache_mid.contains_key(task_id.0));
                assert(!task_ids(pre.run_queue@.take(processed)).contains(task_id.0)) by {
                    let ids_p = task_ids(pre.run_queue@.take(processed));
                    if ids_p.contains(task_id.0) {
                        let i0 = choose|i0: int| 0 <= i0 < ids_p.len() && ids_p[i0] == task_id.0;
                        assert(pre.run_queue@[i0].id == pre.run_queue@[processed].id);
                    }
                }
            }
            match task.poll() {
                PollState::Ready => {
                    self.waker_cache.remove(&task_id.0);
                    self.completed.push(task_id.0);
                    proof {
                        let done = |t: Task| t.remaining == 0;
                        assert(pre.run_queue@.take(processed + 1).drop_last() =~= pre.run_queue@
                            .take(processed));
                        assert(pre.run_queue@.take(processed + 1).last() == pre.run_queue@[
                            processed]);
                        reveal(Seq::filter);
                        assert(pre.run_queue@.take(processed + 1).filter(done)
                            =~= pre.run_queue@.take(processed).filter(done).push(pre.run_queue@[
                            processed]));
                        assert(done_ids(pre.run_queue@.take(processed+1)) =~= done_ids(pre.run_queue@.take(processed)).push(task_id.0));
                        let hold = |t: Task| t.remaining > 0;
                        assert(pre.run_queue@.take(processed + 1).filter(hold) =~= pre.run_queue@
                            .take(processed).filter(hold));
                        assert(task_ids(pre.run_queue@.take(processed + 1)) =~= task_ids(
                            pre.run_queue@.take(processed),
                        ).push(task_id.0));
                        assert forall|k: u64| #[trigger]
                            self.waker_cache@.contains_key(k) <==> ((pre.waker_cache@.contains_key(
                            k,
                        ) || task_ids(pre.run_queue@.take(processed + 1)).contains(k)) && !done_ids(pre.run_queue@.take(processed+1)).contains(k)) by {
                            lemma_push_contains(
                                task_ids(pre.run_queue@.take(processed)),
                                task_id.0,
                                k,
                            );
                            lemma_push_contains(
                                done_ids(pre.run_queue@.take(processed)),
                                task_id.0,
                                k,
                            );
                        }
                        assert forall|k: u64|
                            #[trigger] done_ids(pre.run_queue@.take(processed+1)).contains(k) implies task_ids(
                            pre.run_queue@.take(processed + 1),
                        ).contains(k) by {
                            lemma_push_contains(
                                task_ids(pre.run_queue@.take(processed)),
                                task_id.0,
                                k,
                            );
                            lemma_push_contains(
                                done_ids(pre.run_queue@.take(processed)),
                                task_id.0,
                                k,
                            );
                        }
                    }
                },
                PollState::Pending => {
                    let prev = self.wait_queue.insert(task_id.0, task);
                    proof {
                        assert(prev is None);
                        reveal(Seq::filter);
                        let hold = |t: Task| t.remaining > 0;
                        assert(pre.run_queue@.take(processed + 1).drop_last() =~= pre.run_queue@
                            .take(processed));
                        assert(pre.run_queue@.take(processed + 1).filter(hold)
                            =~= pre.run_queue@.take(processed).filter(hold).push(pre.run_queue@[
                            processed]));
                        assert forall|k: u64| #[trigger]
                            self.wait_queue@.contains_key(k) <==> (pre.wait_queue@.contains_key(k)
                                || task_ids(
                                pre.run_queue@.take(processed + 1).filter(hold),
                            ).contains(k)) by {
                            let ids_new = task_ids(pre.run_queue@.take(processed + 1).filter(hold));
                            let ids_old = task_ids(pre.run_queue@.take(processed).filter(hold));
                            assert(ids_new =~= ids_old.push(task_id.0));
                            if k == task_id.0 {
                                assert(ids_new[ids_new.len() - 1] == k);
                            } else {
                                assert(ids_new.contains(k) <==> ids_old.contains(k)) by {
                                    if ids_old.contains(k) {
                                        let ki = choose|ki: int|
                                            0 <= ki < ids_old.len() && ids_old[ki] == k;
                                        assert(ids_new[ki] == k);
                                    }
                                    if ids_new.contains(k) {
                                        let ki = choose|ki: int|
                                            0 <= ki < ids_new.len() && ids_new[ki] == k;
                                        assert(ki < ids_old.len());
                                        assert(ids_old[ki] == k);
                                    }
                                }
                            }
                        }
                        let done = |t: Task| t.remaining == 0;
                        assert(pre.run_queue@.take(processed + 1).filter(done)
                            =~= pre.run_queue@.take(processed).filter(done));
                        assert(task_ids(pre.run_queue@.take(processed + 1)) =~= task_ids(
                            pre.run_queue@.take(processed),
                        ).push(task_id.0));
                        assert forall|k: u64| #[trigger]
                            self.waker_cache@.contains_key(k) <==> ((pre.waker_cache@.contains_key(
                            k,
                        ) || task_ids(pre.run_queue@.take(processed + 1)).contains(k)) && !done_ids(pre.run_queue@.take(processed+1)).contains(k)) by {
                            lemma_push_contains(
                                task_ids(pre.run_queue@.take(processed)),
                                task_id.0,
                                k,
                            );
                        }
                        assert forall|k: u64|
                            #[trigger] done_ids(pre.run_queue@.take(processed+1)).contains(k) implies task_ids(
                            pre.run_queue@.take(processed + 1),
                        ).contains(k) by {
                            lemma_push_contains(
                                task_ids(pre.run_queue@.take(processed)),
                                task_id.0,
                                k,
                            );
                        }
                    }
                },
            }
            proof {
                processed = processed + 1;
            }
        }
    }

    /// One scheduling pass: move woken tasks back to the run queue, then poll
    /// every runnable task once. Tasks that resolve are recorded in spawn
    /// order of the run queue; tasks that stay suspended park in the wait
    /// queue. In particular, when every runnable task resolves on this poll
    /// and nothing is waiting, everything completes in queue order and both
    /// queues are empty afterwards.
    pub fn run(&mut self)
        requires
            old(self).wf(),
        ensures
            final(self).wf(),
            final(self).wake_queue == old(self).wake_queue,
            final(self).run_queue@.len() == 0,
            old(self).wait_queue@ =~= Map::<u64, Task>::empty() && (forall|i: int|
                0 <= i < old(self).run_queue@.len() ==> (#[trigger] old(
                    self,
                ).run_queue@[i]).remaining == 0) ==> {
                &&& final(self).completed@ == old(self).completed@ + task_ids(
                    old(self).run_queue@,
                )
                &&& final(self).wait_queue@ =~= Map::<u64, Task>::empty()
            },
    {
        let ghost pre = *old(self);
        self.wake_tasks();
        let ghost mid = *self;
        self.poll_tasks();
        proof {
            if pre.wait_queue@ =~= Map::<u64, Task>::empty() && (forall|i: int|
                0 <= i < pre.run_queue@.len() ==> (#[trigger] pre.run_queue@[i]).remaining == 0) {
                assert(mid.run_queue == pre.run_queue && mid.wait_queue@ == pre.wait_queue@
                    && mid.completed == pre.completed);
                lemma_filter_all(mid.run_queue@, |t: Task| t.remaining == 0);
                lemma_filter_none(mid.run_queue@, |t: Task| t.remaining > 0);
                assert(done_ids(mid.run_queue@) == task_ids(
                    mid.run_queue@,
                ));
                assert forall|k: u64| !(#[trigger] self.wait_queue@.contains_key(k)) by {
                    assert(!task_ids(mid.run_queue@.filter(|t: Task| t.remaining > 0)).contains(
                        k,
                    ));
                }
                assert(self.wait_queue@ =~= Map::<u64, Task>::empty());
            }
        }
    }

    /// Idle until the next interrupt if no wake is pending. Interrupts are
    /// disabled before the wake queue is rechecked, and re-enabled atomically
    /// with the halt: an interrupt firing between the recheck and the halt
    /// would otherwise be lost, stalling the kernel indefinitely.
    pub fn sleep_if_idle(&self) {
        if !self.wake_queue.is_empty() {
            return ;
        }
        interrupts_disable();
        if self.wake_queue.is_empty() {
            interrupts_enable_and_hlt();
        } else {
            interrupts_enable();
        }
    }
}

} // verus!
