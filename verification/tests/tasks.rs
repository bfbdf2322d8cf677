//! Tests of the task executors and the scancode stream.
use rustos::task::executor::Executor;
use rustos::task::keyboard::{
    add_scancode, new_keyboard, print_keypress, process_scancode, KeyOutput, KeypressStep,
    ScancodeDelivery, ScancodeQueue, ScancodeStream, StreamPoll, SCANCODE_QUEUE_SIZE,
};
use rustos::task::simple;
use rustos::task::{PollState, Task, TaskId};

#[test]
fn task_poll_counts_down_to_ready() {
    let mut t = Task::new(TaskId::new(7), 2);
    assert_eq!(t.poll(), PollState::Pending);
    assert_eq!(t.poll(), PollState::Pending);
    assert_eq!(t.poll(), PollState::Ready);
    // A ready task stays ready.
    assert_eq!(t.poll(), PollState::Ready);
}

#[test]
fn executor_completes_ready_tasks_in_spawn_order() {
    let mut ex = Executor::new();
    for id in [3u64, 1, 2] {
        ex.spawn(Task::new(TaskId::new(id), 0)).expect("fresh id");
    }
    ex.run();
    // All three completed, in spawn order, and both queues are empty.
    assert_eq!(ex.completed, vec![3, 1, 2]);
    assert!(ex.run_queue.is_empty());
    assert!(ex.wait_queue.is_empty());
}

#[test]
fn executor_rejects_duplicate_ids() {
    let mut ex = Executor::new();
    ex.spawn(Task::new(TaskId::new(5), 0)).expect("fresh id");
    let dup = Task::new(TaskId::new(5), 3);
    assert!(ex.spawn(dup).is_err());
}

#[test]
fn executor_parks_pending_task_until_woken() {
    let mut ex = Executor::new();
    ex.spawn(Task::new(TaskId::new(9), 1)).expect("fresh id");
    // First pass: the task reports Pending and parks in the wait queue.
    ex.run();
    assert!(ex.completed.is_empty());
    assert!(ex.run_queue.is_empty());
    assert!(ex.wait_queue.contains_key(&9));
    // Without a wake, further passes leave it parked.
    ex.run();
    assert!(ex.completed.is_empty());
    assert!(ex.wait_queue.contains_key(&9));
    // The externally held waker is invoked exactly once: the next pass
    // completes the task.
    let waker = ex.create_waker(TaskId::new(9));
    assert!(waker.wake_task());
    ex.run();
    assert_eq!(ex.completed, vec![9]);
    assert!(ex.run_queue.is_empty());
    assert!(ex.wait_queue.is_empty());
    // Extra invocations of the same waker neither duplicate queue membership
    // nor crash the executor: the stale wake is silently ignored.
    assert!(waker.wake_task());
    assert!(waker.wake_task());
    ex.run();
    assert_eq!(ex.completed, vec![9]);
    assert!(ex.run_queue.is_empty());
    assert!(ex.wait_queue.is_empty());
}

#[test]
fn deliver_wake_moves_only_waiting_tasks() {
    let mut ex = Executor::new();
    ex.spawn(Task::new(TaskId::new(7), 2)).expect("fresh id");
    // First pass: the task reports Pending and parks.
    ex.run();
    assert!(ex.wait_queue.contains_key(&7));
    let run_len = ex.run_queue.len();
    // An unknown id changes nothing: wake delivery is idempotent.
    ex.deliver_wake(99);
    assert!(ex.wait_queue.contains_key(&7));
    assert_eq!(ex.run_queue.len(), run_len);
    // A waiting id moves its task, exactly once, to the back of the run
    // queue; ownership moves with it.
    ex.deliver_wake(7);
    assert!(!ex.wait_queue.contains_key(&7));
    assert_eq!(ex.run_queue.back().map(|t| t.id), Some(TaskId::new(7)));
    // A duplicate wake for the now-runnable id is ignored.
    let len_after = ex.run_queue.len();
    ex.deliver_wake(7);
    assert_eq!(ex.run_queue.len(), len_after);
    assert!(!ex.wait_queue.contains_key(&7));
}

#[test]
fn executor_duplicate_wakes_before_completion_are_idempotent() {
    let mut ex = Executor::new();
    ex.spawn(Task::new(TaskId::new(4), 1)).expect("fresh id");
    ex.run();
    assert!(ex.wait_queue.contains_key(&4));
    let waker = ex.create_waker(TaskId::new(4));
    assert!(waker.wake_task());
    assert!(waker.wake_task());
    assert!(waker.wake_task());
    ex.run();
    // Woken once, completed once.
    assert_eq!(ex.completed, vec![4]);
    assert!(ex.run_queue.is_empty());
    assert!(ex.wait_queue.is_empty());
}

#[test]
fn simple_executor_completes_everything_round_robin() {
    let mut ex = simple::Executor::new();
    ex.spawn(Task::new(TaskId::new(1), 2));
    ex.spawn(Task::new(TaskId::new(2), 0));
    ex.spawn(Task::new(TaskId::new(3), 1));
    ex.run();
    assert!(ex.task_queue.is_empty());
    // Round robin: 2 resolves on the first cycle, 3 on its second poll,
    // 1 on its third.
    assert_eq!(ex.completed, vec![2, 3, 1]);
}

#[test]
fn simple_executor_spawn_order_kept_for_ready_tasks() {
    let mut ex = simple::Executor::new();
    for id in [10u64, 20, 30] {
        ex.spawn(Task::new(TaskId::new(id), 0));
    }
    ex.run();
    assert_eq!(ex.completed, vec![10, 20, 30]);
}

#[test]
fn scancode_stream_delivers_byte_pushed_before_first_poll() {
    let ex = Executor::new();
    let channel = ScancodeQueue::new(SCANCODE_QUEUE_SIZE);
    // The byte arrives before the consumer's first poll...
    assert_eq!(add_scancode(&channel, 0x1e), ScancodeDelivery::Delivered);
    let mut stream = ScancodeStream::new(&channel).expect("first construction");
    // ...and is still delivered on that first poll, without a wake.
    let waker = ex.create_waker(TaskId::new(1));
    assert_eq!(stream.poll_next(waker), StreamPoll::Ready(0x1e));
}

#[test]
fn scancode_stream_second_construction_fails() {
    let channel = ScancodeQueue::new(SCANCODE_QUEUE_SIZE);
    let first = ScancodeStream::new(&channel);
    assert!(first.is_some());
    let second = ScancodeStream::new(&channel);
    assert!(second.is_none());
    // Deterministically: it keeps failing.
    assert!(ScancodeStream::new(&channel).is_none());
}

#[test]
fn scancode_wakes_registered_consumer() {
    let mut ex = Executor::new();
    ex.spawn(Task::new(TaskId::new(2), 1)).expect("fresh id");
    ex.run();
    assert!(ex.wait_queue.contains_key(&2));

    let channel = ScancodeQueue::new(SCANCODE_QUEUE_SIZE);
    let mut stream = ScancodeStream::new(&channel).expect("first construction");
    // The consumer polls, finds nothing, and registers its waker.
    assert_eq!(stream.poll_next(ex.create_waker(TaskId::new(2))), StreamPoll::Pending);
    // The interrupt handler pushes a byte: the registered waker fires.
    assert_eq!(add_scancode(&channel, 0xaa), ScancodeDelivery::DeliveredAndWoken);
    // The wake moves the parked task, and the byte is ready on the next poll.
    ex.run();
    assert_eq!(ex.completed, vec![2]);
    assert_eq!(stream.poll_next(ex.create_waker(TaskId::new(2))), StreamPoll::Ready(0xaa));
}

#[test]
fn scancode_queue_overflow_drops_bytes() {
    let channel = ScancodeQueue::new(2);
    assert_eq!(add_scancode(&channel, 1), ScancodeDelivery::Delivered);
    assert_eq!(add_scancode(&channel, 2), ScancodeDelivery::Delivered);
    // Queue full: the byte is dropped, lossily but without blocking.
    assert_eq!(add_scancode(&channel, 3), ScancodeDelivery::QueueFull);
}

#[test]
fn process_scancode_decodes_a_key_press() {
    let mut kb = new_keyboard();
    // Scan code set 1: 0x1e is the press of the A key.
    match process_scancode(&mut kb, 0x1e) {
        Some(KeyOutput::Unicode(c)) => assert_eq!(c, 'a'),
        other => panic!("expected the letter a, got {:?}", other),
    }
    // The release (0x9e) decodes to no printable key.
    assert_eq!(process_scancode(&mut kb, 0x9e), None);
}

#[test]
fn print_keypress_steps_through_stream_and_decoder() {
    let ex = Executor::new();
    let channel = ScancodeQueue::new(SCANCODE_QUEUE_SIZE);
    let mut stream = ScancodeStream::new(&channel).expect("first construction");
    let mut kb = new_keyboard();
    // Nothing queued: the task parks.
    assert_eq!(
        print_keypress(&mut stream, &mut kb, ex.create_waker(TaskId::new(3))),
        KeypressStep::Parked
    );
    // A press of the B key (0x30) produces its letter.
    add_scancode(&channel, 0x30);
    assert_eq!(
        print_keypress(&mut stream, &mut kb, ex.create_waker(TaskId::new(3))),
        KeypressStep::Output(KeyOutput::Unicode('b'))
    );
    // Its release is consumed without output.
    add_scancode(&channel, 0xb0);
    assert_eq!(
        print_keypress(&mut stream, &mut kb, ex.create_waker(TaskId::new(3))),
        KeypressStep::NoKey
    );
}
