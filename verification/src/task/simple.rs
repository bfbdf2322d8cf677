//! Round-robin fallback executor: a single FIFO of tasks, each polled in
//! turn with nothing to wake it — a task that reports `Pending` simply goes
//! to the back of the queue. Behaviourally equivalent to the wake-driven
//! executor for tasks that need no external wake, and useful without any
//! interrupt machinery.
use vstd::prelude::*;

use std::collections::VecDeque;

verus! {

use vstd::multiset::Multiset;

use crate::task::{Task, PollState};
use crate::task::executor::task_ids;

/// The polls still owed to the tasks of a queue: each task will be polled
/// once more than its countdown.
pub open spec fn spec_budget(s: Seq<Task>) -> nat
    decreases s.len(),
{
    if s.len() == 0 {
        0
    } else {
        (s[0].remaining + 1 + spec_budget(s.drop_first())) as nat
    }
}

/// Appending a task adds its polls to the budget.
proof fn lemma_budget_push(s: Seq<Task>, t: Task)
    ensures
        spec_budget(s.push(t)) == spec_budget(s) + t.remaining + 1,
    decreases s.len(),
{
    if s.len() == 0 {
        assert(s.push(t).drop_first() =~= Seq::<Task>::empty());
        assert(s.push(t)[0] == t);
        assert(spec_budget(s.push(t).drop_first()) == 0);
        assert(spec_budget(s.push(t)) == t.remaining + 1);
    } else {
        assert(s.push(t).drop_first() =~= s.drop_first().push(t));
        lemma_budget_push(s.drop_first(), t);
        assert(s.push(t)[0] == s[0]);
        assert(spec_budget(s.push(t)) == s[0].remaining + 1 + spec_budget(s.drop_first().push(t)));
    }
}

/// Round-robin executor state: the task FIFO, and the record of completed
/// task ids in completion order.
pub struct Executor {
    pub task_queue: VecDeque<Task>,
    pub completed: Vec<u64>,
}

impl Default for Executor {
    /// An executor with no tasks.
    fn default() -> (r: Self)
        ensures
            r.task_queue@ == Seq::<Task>::empty(),
            r.completed@ == Seq::<u64>::empty(),
    {
        Executor::new()
    }
}

impl Executor {
    /// An executor with no tasks.
    pub fn new() -> (r: Self)
        ensures
            r.task_queue@ == Seq::<Task>::empty(),
            r.completed@ == Seq::<u64>::empty(),
    {
        Self { task_queue: VecDeque::new(), completed: Vec::new() }
    }

    /// Spawn a task: append it to the queue.
    pub fn spawn(&mut self, task: Task)
        ensures
            final(self).task_queue@ == old(self).task_queue@.push(task),
            final(self).completed == old(self).completed,
    {
        self.task_queue.push_back(task)
    }

    /// Poll every task in turn until all have resolved: a `Pending` task goes
    /// to the back of the queue, a `Ready` one is dropped and its id
    /// recorded. Every spawned task completes — its id joins the record
    /// exactly once per spawn — and when every task resolves on its first
    /// poll they complete in spawn order.
    pub fn run(&mut self)
        ensures
            final(self).task_queue@.len() == 0,
            final(self).completed@.to_multiset() == old(self).completed@.to_multiset().add(
                task_ids(old(self).task_queue@).to_multiset(),
            ),
            (forall|i: int|
                0 <= i < old(self).task_queue@.len() ==> (#[trigger] old(
                    self,
                ).task_queue@[i]).remaining == 0) ==> final(self).completed@ == old(
                self,
            ).completed@ + task_ids(old(self).task_queue@),
    {
        let ghost pre = *old(self);
        let ghost all_ready = forall|i: int|
            0 <= i < pre.task_queue@.len() ==> (#[trigger] pre.task_queue@[i]).remaining == 0;
        let ghost mut processed: int = 0;
        loop
            invariant
                pre == *old(self),
                all_ready == (forall|i: int|
                    0 <= i < pre.task_queue@.len() ==> (#[trigger] pre.task_queue@[i]).remaining
                        == 0),
                self.completed@.to_multiset().add(task_ids(self.task_queue@).to_multiset())
                    =~= pre.completed@.to_multiset().add(
                    task_ids(pre.task_queue@).to_multiset(),
                ),
                all_ready ==> {
                    &&& 0 <= processed <= pre.task_queue@.len()
                    &&& self.task_queue@ =~= pre.task_queue@.skip(processed)
                    &&& self.completed@ == pre.completed@ + task_ids(
                        pre.task_queue@.take(processed),
                    )
                },
            ensures
                self.task_queue@.len() == 0,
            decreases spec_budget(self.task_queue@),
        {
            let ghost before = *self;
            let task_opt = self.task_queue.pop_front();
            let mut task = match task_opt {
                Some(t) => t,
                None => {
                    proof {
                        if all_ready {
                            assert(processed == pre.task_queue@.len());
                            assert(pre.task_queue@.take(processed) =~= pre.task_queue@);
                        }
                    }
                    break ;
                },
            };
            proof {
                broadcast use vstd::seq_lib::group_to_multiset_ensures;

                assert(task == before.task_queue@[0]);
                assert(self.task_queue@ =~= before.task_queue@.remove(0));
                assert(task_ids(self.task_queue@) =~= task_ids(before.task_queue@).remove(0));
                assert(task_ids(before.task_queue@)[0] == task.id.0);
                assert(task_ids(self.task_queue@).to_multiset() =~= task_ids(
                    before.task_queue@,
                ).to_multiset().remove(task.id.0));
            }
            match task.poll() {
                PollState::Pending => {
                    self.task_queue.push_back(task);
                    proof {
                        broadcast use vstd::seq_lib::group_to_multiset_ensures;

                        assert(task_ids(self.task_queue@) =~= task_ids(
                            before.task_queue@.remove(0),
                        ).push(task.id.0));
                        assert(self.completed@.to_multiset().add(
                            task_ids(self.task_queue@).to_multiset(),
                        ) =~= pre.completed@.to_multiset().add(
                            task_ids(pre.task_queue@).to_multiset(),
                        ));
                        lemma_budget_push(before.task_queue@.remove(0), task);
                        assert(before.task_queue@.remove(0) =~= before.task_queue@.drop_first());
                        assert(spec_budget(self.task_queue@) < spec_budget(before.task_queue@));
                        if all_ready {
                            assert(before.task_queue@[0].remaining == 0);
                            assert(false);
                        }
                    }
                },
                PollState::Ready => {
                    self.completed.push(task.id.0);
                    proof {
                        broadcast use vstd::seq_lib::group_to_multiset_ensures;

                        assert(self.completed@.to_multiset() =~= before.completed@
                            .to_multiset().insert(task.id.0));
                        assert(self.completed@.to_multiset().add(
                            task_ids(self.task_queue@).to_multiset(),
                        ) =~= pre.completed@.to_multiset().add(
                            task_ids(pre.task_queue@).to_multiset(),
                        ));
                        assert(before.task_queue@.remove(0) =~= before.task_queue@.drop_first());
                        assert(spec_budget(self.task_queue@) < spec_budget(before.task_queue@));
                        if all_ready {
                            assert(before.task_queue@ =~= pre.task_queue@.skip(processed));
                            assert(pre.task_queue@[processed] == task);
                            assert(self.task_queue@ =~= pre.task_queue@.skip(processed + 1));
                            assert(pre.task_queue@.take(processed + 1).drop_last()
                                =~= pre.task_queue@.take(processed));
                            assert(task_ids(pre.task_queue@.take(processed + 1)) =~= task_ids(
                                pre.task_queue@.take(processed),
                            ).push(task.id.0));
                            assert(self.completed@ =~= pre.completed@ + task_ids(
                                pre.task_queue@.take(processed + 1),
                            ));
                            processed = processed + 1;
                        }
                    }
                },
            }
        }
        proof {
            broadcast use vstd::seq_lib::group_to_multiset_ensures;

            assert(task_ids(self.task_queue@) =~= Seq::<u64>::empty());
            assert(task_ids(self.task_queue@).to_multiset() =~= Multiset::<u64>::empty());
            assert(self.completed@.to_multiset().add(Multiset::<u64>::empty())
                =~= self.completed@.to_multiset());
        }
    }
}

} // verus!
