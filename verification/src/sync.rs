//! Decision logic of the SMP synchronisation primitives.
//!
//! The spinning loops and the shared cells of the locks live with the
//! callers; this module decides, from the values those loops observe in the
//! lock words, what to attempt next, and states the protocol each lock word
//! follows.

use vstd::prelude::*;
use std::sync::atomic::AtomicU64;

verus! {

/// Number of failed acquisition attempts after which a spin lock reports a
/// suspiciously long wait.
pub const SPIN_WARN_LIMIT: u32 = 10_000_000;

/// Next value of a spin lock's wait counter after one more failed attempt,
/// and whether to warn about a long wait (the counter then starts over).
pub fn spin_backoff(spin_count: u32) -> (r: (u32, bool))
    requires
        spin_count <= SPIN_WARN_LIMIT,
    ensures
        spin_count + 1 > SPIN_WARN_LIMIT ==> r == (0u32, true),
        spin_count + 1 <= SPIN_WARN_LIMIT ==> r == ((spin_count + 1) as u32, false),
        r.0 <= SPIN_WARN_LIMIT,
{
    let next = spin_count + 1;
    if next > SPIN_WARN_LIMIT {
        (0, true)
    } else {
        (next, false)
    }
}

/// Lock word of a reader-writer spin lock that a writer holds.
pub const RW_WRITER: i32 = -1;
/// Lock word of a free reader-writer spin lock.
pub const RW_FREE: i32 = 0;

/// Whether `w` is a lock word of a reader-writer spin lock: `-1` while a
/// writer holds it, otherwise the number of readers holding it.
pub open spec fn rw_word_valid(w: int) -> bool {
    w >= RW_WRITER
}

/// The word `rw_read_target` yields.
pub open spec fn rw_read_target_spec(observed: i32) -> Option<i32> {
    if observed >= 0 {
        Some((observed + 1) as i32)
    } else {
        None
    }
}

/// The lock word a reader tries to install after observing `observed`: one
/// more reader, unless a writer holds the lock.
pub fn rw_read_target(observed: i32) -> (r: Option<i32>)
    requires
        observed < i32::MAX,
    ensures
        r == rw_read_target_spec(observed),
{
    if observed >= 0 {
        Some(observed + 1)
    } else {
        None
    }
}

/// Steps of one reader-writer lock word: a valid word is `RW_WRITER` exactly
/// when it is negative; a reader's attempt targets a word only when the
/// observed word is not `RW_WRITER`, and the word it installs is valid and
/// above `RW_FREE` (so a writer, who installs only over `RW_FREE`, cannot take
/// it); releasing a read lock from a word of at least one reader leaves a
/// valid word; and `RW_FREE` is valid.
pub proof fn lemma_rw_exclusion(w: i32)
    requires
        rw_word_valid(w as int),
        w < i32::MAX,
    ensures
        (w >= 0) == (w != RW_WRITER),
        rw_read_target_spec(w) matches Some(t) ==> w != RW_WRITER && rw_word_valid(t as int)
            && t > RW_FREE,
        w >= 1 ==> rw_word_valid(w - 1),
        rw_word_valid(RW_FREE as int),
{
}

/// Whether a sequence-lock reader that saw `seq1` before copying the data
/// and `seq2` after it got a consistent copy: no write was in progress at the
/// start (even counter) and none happened meanwhile (same counter).
pub fn seqlock_read_consistent(seq1: u64, seq2: u64) -> (r: bool)
    ensures
        r == (seq1 % 2 == 0 && seq1 == seq2),
{
    seq1 % 2 == 0 && seq1 == seq2
}

/// `s + 1` modulo 2^64: one step of a sequence-lock counter.
pub open spec fn seq_step(s: u64) -> u64 {
    if s == u64::MAX {
        0
    } else {
        (s + 1) as u64
    }
}

/// A sequence-lock write moves an even counter to an odd one while the data
/// is replaced and to the next even one afterwards: a reader that starts
/// during the write, or starts before and finishes after it, never accepts
/// its copy.
pub proof fn lemma_seqlock_write_detected(s: u64, seq2: u64)
    requires
        s % 2 == 0,
    ensures
        seq_step(s) % 2 == 1,
        seq_step(seq_step(s)) % 2 == 0,
        seq_step(seq_step(s)) != s,
        !(seq_step(s) % 2 == 0 && seq_step(s) == seq2),
{
}

/// States of a run-once cell.
pub const ONCE_INCOMPLETE: u32 = 0;
pub const ONCE_RUNNING: u32 = 1;
pub const ONCE_COMPLETE: u32 = 2;

/// What `call_once` does next.
#[derive(Debug, Clone, Copy, PartialEq, Eq, Structural)]
pub enum OnceStep {
    /// The initialisation has completed: return.
    Done,
    /// Try to claim the initialisation: INCOMPLETE → RUNNING.
    Claim,
    /// Another CPU runs the initialisation: wait for COMPLETE.
    Wait,
}

/// The next step of `call_once` after observing `state`.
pub fn once_step(state: u32) -> (r: OnceStep)
    ensures
        state == ONCE_COMPLETE ==> r == OnceStep::Done,
        state == ONCE_INCOMPLETE ==> r == OnceStep::Claim,
        state != ONCE_COMPLETE && state != ONCE_INCOMPLETE ==> r == OnceStep::Wait,
{
    if state == ONCE_COMPLETE {
        OnceStep::Done
    } else if state == ONCE_INCOMPLETE {
        OnceStep::Claim
    } else {
        OnceStep::Wait
    }
}

/// The initialisation runs at most once: only INCOMPLETE is claimed, claiming
/// moves it to RUNNING, and neither RUNNING nor COMPLETE is ever claimed.
pub proof fn lemma_once_claims_once()
    ensures
        forall|s: u32| #![trigger once_step_spec(s)]
            once_step_spec(s) == OnceStep::Claim <==> s == ONCE_INCOMPLETE,
        once_step_spec(ONCE_RUNNING) == OnceStep::Wait,
        once_step_spec(ONCE_COMPLETE) == OnceStep::Done,
{
}

/// The step `once_step` takes.
pub open spec fn once_step_spec(state: u32) -> OnceStep {
    if state == ONCE_COMPLETE {
        OnceStep::Done
    } else if state == ONCE_INCOMPLETE {
        OnceStep::Claim
    } else {
        OnceStep::Wait
    }
}

/// Timer frequency: ticks per second.
pub const TICKS_PER_SECOND: u64 = 100;
/// Nanoseconds per timer tick.
pub const NANOS_PER_TICK: u64 = 10_000_000;

/// Wall time since boot derived from the timer tick count.
#[derive(Debug, Clone, Copy, Default)]
pub struct SystemTime {
    pub seconds: u64,
    pub nanoseconds: u32,
    pub ticks: u64,
}

impl SystemTime {
    /// The time after `ticks` ticks of the 100 Hz timer.
    pub fn from_ticks(ticks: u64) -> (r: Self)
        ensures
            r.ticks == ticks,
            r.seconds == ticks / TICKS_PER_SECOND,
            r.nanoseconds == (ticks % TICKS_PER_SECOND) * NANOS_PER_TICK,
            r.nanoseconds < 1_000_000_000,
            r.seconds * 1_000_000_000 + r.nanoseconds == ticks * NANOS_PER_TICK,
    {
        let sub = ticks % TICKS_PER_SECOND;
        assert(sub * NANOS_PER_TICK < 1_000_000_000) by (nonlinear_arith)
            requires
                sub < 100,
        ;
        assert((ticks / 100) * 1_000_000_000 + sub * 10_000_000 == ticks * 10_000_000) by (
        nonlinear_arith)
            requires
                sub == ticks % 100,
        ;
        SystemTime { seconds: ticks / TICKS_PER_SECOND, nanoseconds: (sub * NANOS_PER_TICK) as u32, ticks }
    }
}

/// A 64-bit counter shared between CPUs. Its value lives in a std atomic that
/// other CPUs change through shared references, so the contracts below say
/// nothing of the value that a call reads or leaves: no view of a value can
/// follow changes made through `&self`.
pub struct AtomicCounter {
    value: AtomicU64,
}

#[verifier::external_body]
fn atomic_u64_compare_exchange(a: &AtomicU64, expected: u64, new: u64) -> (r: Result<u64, u64>)
    ensures
        r matches Ok(v) ==> v == expected,
        r matches Err(v) ==> v != expected,
{
    a.compare_exchange(expected, new, std::sync::atomic::Ordering::SeqCst, std::sync::atomic::Ordering::Relaxed)
}

impl AtomicCounter {
    /// A counter holding `val`.
    pub fn new(val: u64) -> (r: Self) {
        AtomicCounter { value: AtomicU64::new(val) }
    }

    /// The current value.
    pub fn get(&self) -> (r: u64) {
        self.value.load(std::sync::atomic::Ordering::Relaxed)
    }

    /// Store `val`.
    pub fn set(&self, val: u64) {
        self.value.store(val, std::sync::atomic::Ordering::Relaxed);
    }

    /// Add one (wrapping); returns the value before.
    pub fn increment(&self) -> (r: u64) {
        self.value.fetch_add(1, std::sync::atomic::Ordering::Relaxed)
    }

    /// Add `n` (wrapping); returns the value before.
    pub fn add(&self, n: u64) -> (r: u64) {
        self.value.fetch_add(n, std::sync::atomic::Ordering::Relaxed)
    }

    /// Replace the value by `new` if it is `expected`: `Ok` with the value
    /// found when it was replaced, `Err` with the value found otherwise.
    pub fn compare_and_swap(&self, expected: u64, new: u64) -> (r: Result<u64, u64>)
        ensures
            r matches Ok(v) ==> v == expected,
            r matches Err(v) ==> v != expected,
    {
        atomic_u64_compare_exchange(&self.value, expected, new)
    }
}

} // verus!
