use vstd::prelude::*;
use crossbeam_queue::ArrayQueue;
use futures_util::task::AtomicWaker;
use pc_keyboard::{layouts, DecodedKey, HandleControl, Keyboard, ScancodeSet1};

verus! {

/// Capacity of the scancode queue that the keyboard interrupt fills.
pub const SCANCODE_QUEUE_CAPACITY: usize = 100;

/// `crossbeam_queue::ArrayQueue`, the bounded lock-free queue that carries
/// scancodes from the interrupt handler to the reader; opaque here.
#[verifier::external_type_specification]
#[verifier::external_body]
#[verifier::reject_recursive_types(T)]
pub struct ExArrayQueue<T>(ArrayQueue<T>);

/// `futures_util::task::AtomicWaker`, which holds the waker of the task
/// waiting for keys; opaque here.
#[verifier::external_type_specification]
#[verifier::external_body]
pub struct ExAtomicWaker(AtomicWaker);

/// `ArrayQueue::push`: appends `value` unless the queue is full, in which
/// case the same value comes back as the error. Whether it is full depends on
/// the other producers and consumers, so nothing is claimed about which
/// outcome occurs.
#[verifier::external_body]
fn queue_push(queue: &ArrayQueue<u8>, value: u8) -> (r: Result<(), u8>)
    ensures
        r matches Err(v) ==> v == value,
{
    queue.push(value)
}

/// `AtomicWaker::wake`: wakes the task last registered, if any. Nothing is
/// claimed of it.
#[verifier::external_body]
fn waker_wake(waker: &AtomicWaker) {
    waker.wake()
}

/// Called from the keyboard interrupt: push `scancode` onto the queue and,
/// exactly when the push succeeds, wake the task waiting for keys. Returns
/// `None` while the queue does not exist yet, and otherwise what the push
/// gave: `Ok(())` when the scancode was queued, `Err(scancode)` when the
/// queue was full.
pub fn add_scancode(queue: Option<&ArrayQueue<u8>>, waker: &AtomicWaker, scancode: u8) -> (r: Option<
    Result<(), u8>,
>)
    ensures
        queue is None <==> r is None,
        r matches Some(Err(v)) ==> v == scancode,
{
    match queue {
        Some(q) => {
            let pushed = queue_push(q, scancode);
            if pushed.is_ok() {
                waker_wake(waker);
            }
            Some(pushed)
        },
        None => None,
    }
}

/// `pc_keyboard::Keyboard` for the US 104-key layout and scancode set 1,
/// which tracks scancode prefixes and the modifier keys seen so far; opaque
/// here.
#[verifier::external_body]
pub struct Ps2Keyboard {
    keyboard: Keyboard<layouts::Us104Key, ScancodeSet1>,
}

/// The keyboard's decoder: a `Ps2Keyboard` and, as its view, the scancodes
/// fed to it since it was made.
pub struct KeyDecoder {
    keyboard: Ps2Keyboard,
    fed: Ghost<Seq<u8>>,
}

impl View for KeyDecoder {
    type V = Seq<u8>;

    closed spec fn view(&self) -> Seq<u8> {
        self.fed@
    }
}

/// The character, if any, that a keyboard decoder made by `Keyboard::new`
/// (scancode set 1, US 104-key layout, control keys left unmapped) yields
/// for the last of `bytes` when `bytes` are fed to it in order, each event
/// that a byte completes being decoded at once. The decoder keeps no other
/// state, so this is a function of the bytes alone.
pub uninterp spec fn key_after(bytes: Seq<u8>) -> Option<char>;

/// `Keyboard::new(ScancodeSet1::new(), layouts::Us104Key,
/// HandleControl::Ignore)`. Nothing is claimed of it: its state is what
/// `key_after` starts from.
#[verifier::external_body]
fn keyboard_new() -> (r: Ps2Keyboard) {
    Ps2Keyboard {
        keyboard: Keyboard::new(ScancodeSet1::new(), layouts::Us104Key, HandleControl::Ignore),
    }
}

/// `Keyboard::add_byte` on `sc`, then, when that completes a key event,
/// `Keyboard::process_keyevent` on it: the Unicode character it decodes to,
/// `None` for a raw key, for no decoded key, for no completed event or for a
/// byte that the scancode set rejects. The decoder's view records `sc`, and
/// the result is `key_after` of the bytes fed so far. The two calls are made
/// together because the event passed between them is an opaque outside
/// value; `key_after` names their combined result.
#[verifier::external_body]
fn keyboard_feed(d: &mut KeyDecoder, sc: u8) -> (r: Option<char>)
    ensures
        final(d)@ == old(d)@.push(sc),
        r == key_after(old(d)@.push(sc)),
{
    match d.keyboard.keyboard.add_byte(sc) {
        Ok(Some(ev)) => match d.keyboard.keyboard.process_keyevent(ev) {
            Some(DecodedKey::Unicode(c)) => Some(c),
            Some(DecodedKey::RawKey(_)) => None,
            None => None,
        },
        Ok(None) => None,
        Err(_) => None,
    }
}

/// A decoder for the keyboard (scancode set 1, US 104-key layout, control
/// keys left unmapped) that has been fed nothing.
pub fn decoder_new() -> (r: KeyDecoder)
    ensures
        r@ == Seq::<u8>::empty(),
{
    KeyDecoder { keyboard: keyboard_new(), fed: Ghost(Seq::empty()) }
}

/// Feed one scancode to the decoder: the character that the scancodes fed so
/// far complete with this one, if any.
pub fn key_step(d: &mut KeyDecoder, sc: u8) -> (r: Option<char>)
    ensures
        final(d)@ == old(d)@.push(sc),
        r == key_after(final(d)@),
{
    keyboard_feed(d, sc)
}

} // verus!
