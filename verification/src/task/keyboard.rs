//! Scancode stream: a bounded lock-free byte queue fed by the keyboard
//! interrupt handler, paired with a single registered-waker slot for its one
//! async consumer, plus the decoding of scancodes into key presses.
use vstd::prelude::*;

use std::sync::Arc;

verus! {

use crate::task::executor::TaskWaker;

/// Capacity of the scancode queue; on overflow the incoming byte is dropped.
pub const SCANCODE_QUEUE_SIZE: usize = 100;

/// Handle to the shared scancode channel: the bounded lock-free byte queue,
/// the single registered-waker slot — itself a lock-free queue of capacity
/// one, since it is touched from both the consumer and the interrupt
/// producer, and a lock either might spin on would stall the core for good —
/// and the one-time claim that makes sure only one consumer stream is ever
/// constructed. The producer side runs in interrupt context, so nothing is
/// assumed about what `pop` returns.
#[verifier::external_body]
pub struct ScancodeQueue {
    queue: Arc<crossbeam_queue::ArrayQueue<u8>>,
    waker: Arc<crossbeam_queue::ArrayQueue<TaskWaker>>,
    claimed: Arc<conquer_once::spin::OnceCell<()>>,
}

/// Which shared scancode channel a handle reaches. Cloning a handle
/// preserves it, so the consumer stream stays bound to the channel it
/// claimed.
pub uninterp spec fn scancode_queue_id(q: ScancodeQueue) -> int;

impl ScancodeQueue {
    /// Relies on crossbeam_queue::ArrayQueue::new (panics on capacity zero,
    /// ruled out here — the waker slot's capacity is the constant one) and
    /// conquer_once's OnceCell::uninit: an empty channel with no registered
    /// waker and no consumer yet.
    #[verifier::external_body]
    pub fn new(capacity: usize) -> (r: ScancodeQueue)
        requires
            capacity > 0,
    {
        ScancodeQueue {
            queue: Arc::new(crossbeam_queue::ArrayQueue::new(capacity)),
            waker: Arc::new(crossbeam_queue::ArrayQueue::new(1)),
            claimed: Arc::new(conquer_once::spin::OnceCell::uninit()),
        }
    }

    /// Relies on alloc::sync::Arc::clone: another handle to the same channel.
    #[verifier::external_body]
    pub fn clone_handle(&self) -> (r: ScancodeQueue)
        ensures
            scancode_queue_id(r) == scancode_queue_id(*self),
    {
        ScancodeQueue {
            queue: Arc::clone(&self.queue),
            waker: Arc::clone(&self.waker),
            claimed: Arc::clone(&self.claimed),
        }
    }

    /// Relies on crossbeam_queue::ArrayQueue::push: enqueues the byte, or
    /// hands it back when the queue is full.
    #[verifier::external_body]
    pub(crate) fn push(&self, scancode: u8) -> (r: Result<(), u8>)
        ensures
            r matches Err(v) ==> v == scancode,
    {
        self.queue.push(scancode)
    }

    /// Relies on crossbeam_queue::ArrayQueue::pop: dequeues a byte if one is
    /// there. The interrupt producer feeds the queue concurrently, so nothing
    /// is promised about the result.
    #[verifier::external_body]
    pub(crate) fn pop(&self) -> (r: Option<u8>) {
        self.queue.pop()
    }

    /// Relies on crossbeam_queue::ArrayQueue::force_push, which never blocks
    /// and never spins on a lock: stores the consumer's waker in the
    /// capacity-one slot, displacing whatever was registered.
    #[verifier::external_body]
    pub(crate) fn register_waker(&self, waker: TaskWaker) {
        let _ = self.waker.force_push(waker);
    }

    /// Relies on crossbeam_queue::ArrayQueue::pop, which never blocks and
    /// never spins on a lock: empties the shared slot, handing out the
    /// registered waker if one was there.
    #[verifier::external_body]
    pub(crate) fn take_waker(&self) -> (r: Option<TaskWaker>) {
        self.waker.pop()
    }

    /// Relies on conquer_once's OnceCell::try_init_once: at most one caller
    /// ever succeeds over the channel's lifetime, across all handles; every
    /// later call fails.
    #[verifier::external_body]
    pub(crate) fn try_claim_consumer(&self) -> (r: bool) {
        self.claimed.try_init_once(|| ()).is_ok()
    }
}

/// What became of a scancode handed in by the keyboard interrupt handler.
#[derive(Clone, Copy, Debug, PartialEq, Eq, Structural)]
pub enum ScancodeDelivery {
    /// Enqueued; no waker was registered, so nobody needed waking.
    Delivered,
    /// Enqueued, and the registered consumer waker was invoked.
    DeliveredAndWoken,
    /// Enqueued, but waking the consumer failed: its wake queue was full and
    /// the wake was dropped — fatal to the consumer task.
    WakeLost,
    /// The scancode queue was full: the byte was dropped. Lossy but
    /// recoverable; the caller may log it.
    QueueFull,
}

/// Hand a raw scancode from the keyboard interrupt handler to the consumer:
/// push it onto the queue — dropping it, without blocking, when the queue is
/// full — and on success invoke the registered consumer waker, if any. This
/// is the only entry point from interrupt context into this core besides
/// waker invocation.
pub fn add_scancode(channel: &ScancodeQueue, scancode: u8) -> (r: ScancodeDelivery) {
    match channel.push(scancode) {
        Err(_) => ScancodeDelivery::QueueFull,
        Ok(()) => {
            match channel.take_waker() {
                Some(waker) => {
                    if waker.wake_task() {
                        ScancodeDelivery::DeliveredAndWoken
                    } else {
                        ScancodeDelivery::WakeLost
                    }
                },
                None => ScancodeDelivery::Delivered,
            }
        },
    }
}

/// What one poll of the scancode stream reports.
#[derive(Clone, Copy, Debug, PartialEq, Eq, Structural)]
pub enum StreamPoll {
    /// A scancode was ready.
    Ready(u8),
    /// No scancode yet; the consumer's waker is registered and will be
    /// invoked when the next scancode arrives.
    Pending,
}

/// The consumer end of the scancode channel. At most one stream ever exists
/// per channel: construction claims the channel's one consumer slot.
pub struct ScancodeStream {
    channel: ScancodeQueue,
}

impl ScancodeStream {
    /// Which shared scancode channel this stream consumes.
    pub closed spec fn channel_id(&self) -> int {
        scancode_queue_id(self.channel)
    }

    /// Claim the channel's consumer slot and build the stream over it. A
    /// second construction attempt on the same channel fails, deterministically,
    /// with `None`.
    pub fn new(channel: &ScancodeQueue) -> (r: Option<ScancodeStream>)
        ensures
            r matches Some(s) ==> s.channel_id() == scancode_queue_id(*channel),
    {
        if channel.try_claim_consumer() {
            Some(ScancodeStream { channel: channel.clone_handle() })
        } else {
            None
        }
    }

    /// Poll for the next scancode: try the queue first and deliver without
    /// registering when a byte is ready. Otherwise register the consumer's
    /// waker and try once more — closing the race with a byte that arrived
    /// between the first try and the registration — before reporting
    /// `Pending`.
    pub fn poll_next(&mut self, waker: TaskWaker) -> (r: StreamPoll)
        ensures
            final(self).channel_id() == old(self).channel_id(),
    {
        match self.channel.pop() {
            Some(scancode) => StreamPoll::Ready(scancode),
            None => {
                self.channel.register_waker(waker);
                match self.channel.pop() {
                    Some(scancode) => {
                        let _ = self.channel.take_waker();
                        StreamPoll::Ready(scancode)
                    },
                    None => StreamPoll::Pending,
                }
            },
        }
    }
}

#[verifier::external_type_specification]
#[verifier::external_body]
pub struct ExKeyEvent(pc_keyboard::KeyEvent);

#[verifier::external_type_specification]
#[verifier::external_body]
pub struct ExScancodeSet1(pc_keyboard::ScancodeSet1);

/// The PS/2 keyboard decoder — scan code set 1, US 104-key layout, control
/// keys left alone — held opaquely: its decode state belongs to the outside
/// crate.
#[verifier::external_body]
pub struct Keyboard {
    inner: pc_keyboard::PS2Keyboard<pc_keyboard::layouts::Us104Key, pc_keyboard::ScancodeSet1>,
}

/// A decoding error reported by the keyboard protocol decoder.
#[derive(Clone, Copy, Debug, PartialEq, Eq, Structural)]
pub enum KeyboardError {
    BadStartBit,
    BadStopBit,
    ParityError,
    UnknownKeyCode,
    Unrecognized,
}

/// A decoded key press: either a printable character, or the debug name of a
/// key with no character.
#[derive(Clone, Debug, PartialEq, Eq)]
pub enum KeyOutput {
    Unicode(char),
    RawKey(String),
}

/// Relies on pc_keyboard::ScancodeSet1::new: a fresh scan-code-set-1 decoder
/// at its start state.
#[verifier::external_body]
fn scancode_set1_new() -> (r: pc_keyboard::ScancodeSet1) {
    pc_keyboard::ScancodeSet1::new()
}

/// Relies on pc_keyboard::PS2Keyboard::new: a keyboard decoder over the given
/// scan-code set, with the US 104-key layout, leaving control keys alone.
#[verifier::external_body]
fn keyboard_with_set(set: pc_keyboard::ScancodeSet1) -> (r: Keyboard) {
    Keyboard {
        inner: pc_keyboard::PS2Keyboard::new(
            set,
            pc_keyboard::layouts::Us104Key,
            pc_keyboard::HandleControl::Ignore,
        ),
    }
}

/// Relies on pc_keyboard::PS2Keyboard::add_byte: advances the decoder by one
/// scancode byte, yielding a key event when one completes; the error is
/// carried over variant for variant.
#[verifier::external_body]
fn keyboard_add_byte(kb: &mut Keyboard, byte: u8) -> (r: Result<
    Option<pc_keyboard::KeyEvent>,
    KeyboardError,
>) {
    match kb.inner.add_byte(byte) {
        Ok(ev) => Ok(ev),
        Err(pc_keyboard::Error::BadStartBit) => Err(KeyboardError::BadStartBit),
        Err(pc_keyboard::Error::BadStopBit) => Err(KeyboardError::BadStopBit),
        Err(pc_keyboard::Error::ParityError) => Err(KeyboardError::ParityError),
        Err(pc_keyboard::Error::UnknownKeyCode) => Err(KeyboardError::UnknownKeyCode),
        Err(_) => Err(KeyboardError::Unrecognized),
    }
}

/// Relies on pc_keyboard::PS2Keyboard::process_keyevent: turns a key event
/// into a decoded key under the keyboard's modifier state; the decoded key is
/// carried over as its character, or the debug name of the raw key.
#[verifier::external_body]
fn keyboard_process_keyevent(kb: &mut Keyboard, ev: pc_keyboard::KeyEvent) -> (r: Option<
    KeyOutput,
>) {
    match kb.inner.process_keyevent(ev) {
        Some(pc_keyboard::DecodedKey::Unicode(c)) => Some(KeyOutput::Unicode(c)),
        Some(pc_keyboard::DecodedKey::RawKey(code)) => Some(KeyOutput::RawKey(format!("{:?}", code))),
        None => None,
    }
}

/// A fresh US-layout scan-code-set-1 keyboard decoder, as both the interrupt
/// handler and the keypress task use.
pub fn new_keyboard() -> (r: Keyboard) {
    let set = scancode_set1_new();
    keyboard_with_set(set)
}

/// Feed one scancode byte through the keyboard decoder: a completed key
/// event, decoded under the current modifier state, yields the key's output;
/// a byte in mid-sequence, an event that decodes to nothing, or a protocol
/// error yields `None` — the caller ignores errors, as dropped bytes only
/// lose keystrokes. What comes back is the outside decoder's to decide.
pub fn process_scancode(kb: &mut Keyboard, scancode: u8) -> (r: Option<KeyOutput>) {
    match keyboard_add_byte(kb, scancode) {
        Ok(Some(key_event)) => keyboard_process_keyevent(kb, key_event),
        Ok(None) => None,
        Err(_) => None,
    }
}

/// What one step of the keypress task does next.
#[derive(Clone, Debug, PartialEq, Eq)]
pub enum KeypressStep {
    /// A key press completed: hand this output to the console.
    Output(KeyOutput),
    /// A scancode was consumed but no key press completed yet.
    NoKey,
    /// No scancode is ready; the task parks until its waker fires.
    Parked,
}

/// One step of the keypress task: poll the scancode stream, and when a byte
/// is ready, run it through the keyboard decoder. The caller loops over this,
/// printing each `Output` and suspending on `Parked` — the decision logic of
/// the task lives here, the printing and the suspension with it do not.
pub fn print_keypress(stream: &mut ScancodeStream, kb: &mut Keyboard, waker: TaskWaker) -> (r:
    KeypressStep)
    ensures
        final(stream).channel_id() == old(stream).channel_id(),
{
    match stream.poll_next(waker) {
        StreamPoll::Pending => KeypressStep::Parked,
        StreamPoll::Ready(scancode) => {
            match process_scancode(kb, scancode) {
                Some(output) => KeypressStep::Output(output),
                None => KeypressStep::NoKey,
            }
        },
    }
}

} // verus!
