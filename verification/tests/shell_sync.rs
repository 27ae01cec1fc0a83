use mykernel::qemu::QemuExitCode;
use mykernel::shell::{brand_bytes, edit_line, parse_ip, security_rating, KeyOutcome, SecurityRating};
use mykernel::sync::{
    once_step, rw_read_target, seqlock_read_consistent, spin_backoff, AtomicCounter, OnceStep,
    SystemTime, ONCE_COMPLETE, ONCE_INCOMPLETE, ONCE_RUNNING, SPIN_WARN_LIMIT,
};
use mykernel::task::keyboard::{add_scancode, decoder_new, key_step};
use crossbeam_queue::ArrayQueue;
use futures_util::task::AtomicWaker;

#[test]
fn parse_ip_accepts_dotted_quads() {
    assert_eq!(parse_ip("10.0.2.2"), Some([10, 0, 2, 2]));
    assert_eq!(parse_ip("255.255.255.255"), Some([255, 255, 255, 255]));
    assert_eq!(parse_ip("001.02.3.004"), Some([1, 2, 3, 4]));
    assert_eq!(parse_ip("+1.2.3.+4"), Some([1, 2, 3, 4]));
}

#[test]
fn parse_ip_rejects_malformed() {
    assert_eq!(parse_ip(""), None);
    assert_eq!(parse_ip("1.2.3"), None);
    assert_eq!(parse_ip("1.2.3.4.5"), None);
    assert_eq!(parse_ip("1.2.3.4."), None);
    assert_eq!(parse_ip("256.0.0.1"), None);
    assert_eq!(parse_ip("1..2.3"), None);
    assert_eq!(parse_ip(" 1.2.3.4"), None);
    assert_eq!(parse_ip("1.2.3.x"), None);
    assert_eq!(parse_ip("1.2.3.+"), None);
    assert_eq!(parse_ip("1.2.3.4+"), None);
    assert_eq!(parse_ip("-1.2.3.4"), None);
    assert_eq!(parse_ip("99999999999.1.1.1"), None);
}

#[test]
fn line_editor_keys() {
    let mut line = Vec::new();
    assert_eq!(edit_line(&mut line, '\x08'), KeyOutcome::Ignored);
    assert_eq!(edit_line(&mut line, 'l'), KeyOutcome::Inserted);
    assert_eq!(edit_line(&mut line, 's'), KeyOutcome::Inserted);
    assert_eq!(edit_line(&mut line, 'x'), KeyOutcome::Inserted);
    assert_eq!(edit_line(&mut line, '\x7f'), KeyOutcome::Erased);
    assert_eq!(edit_line(&mut line, '\x1b'), KeyOutcome::Ignored);
    assert_eq!(edit_line(&mut line, 'é'), KeyOutcome::Inserted);
    assert_eq!(line, vec!['l', 's', 'é']);
    assert_eq!(edit_line(&mut line, '\r'), KeyOutcome::Submit);
    assert_eq!(line, vec!['l', 's', 'é']);
    assert_eq!(edit_line(&mut line, '\x03'), KeyOutcome::Cancel);
    assert!(line.is_empty());
}

#[test]
fn security_ratings() {
    assert_eq!(security_rating(100), SecurityRating::Strong);
    assert_eq!(security_rating(80), SecurityRating::Strong);
    assert_eq!(security_rating(79), SecurityRating::Good);
    assert_eq!(security_rating(60), SecurityRating::Good);
    assert_eq!(security_rating(59), SecurityRating::Fair);
}

#[test]
fn cpu_brand_bytes() {
    // "GenuineIntel"-style packing: each register contributes its bytes low first.
    let regs = [[0x6c65_746e, 0x2952_2820, 0, 0], [0; 4], [0x4142_4344, 0, 0, 0x1]];
    let b = brand_bytes(regs);
    assert_eq!(b.len(), 48);
    assert_eq!(&b[..8], b"ntel (R)");
    assert_eq!(&b[32..36], &[0x44, 0x43, 0x42, 0x41]);
    assert_eq!(b[44], 1);
}

#[test]
fn qemu_exit_codes() {
    assert_eq!(QemuExitCode::Success.code(), 0x10);
    assert_eq!(QemuExitCode::Failed.code(), 0x11);
}

#[test]
fn spin_backoff_warns_every_limit() {
    assert_eq!(spin_backoff(0), (1, false));
    assert_eq!(spin_backoff(SPIN_WARN_LIMIT - 1), (SPIN_WARN_LIMIT, false));
    assert_eq!(spin_backoff(SPIN_WARN_LIMIT), (0, true));
}

#[test]
fn rwlock_and_seqlock_decisions() {
    assert_eq!(rw_read_target(0), Some(1));
    assert_eq!(rw_read_target(3), Some(4));
    assert_eq!(rw_read_target(-1), None);
    assert!(seqlock_read_consistent(4, 4));
    assert!(!seqlock_read_consistent(5, 5));
    assert!(!seqlock_read_consistent(4, 6));
}

#[test]
fn once_steps() {
    assert_eq!(once_step(ONCE_INCOMPLETE), OnceStep::Claim);
    assert_eq!(once_step(ONCE_RUNNING), OnceStep::Wait);
    assert_eq!(once_step(ONCE_COMPLETE), OnceStep::Done);
}

#[test]
fn system_time_from_ticks() {
    let t = SystemTime::from_ticks(12345);
    assert_eq!(t.seconds, 123);
    assert_eq!(t.nanoseconds, 450_000_000);
    assert_eq!(t.ticks, 12345);
    let t = SystemTime::from_ticks(u64::MAX);
    assert_eq!(t.seconds, u64::MAX / 100);
    assert_eq!(t.nanoseconds, 150_000_000);
}

#[test]
fn atomic_counter_ops() {
    let c = AtomicCounter::new(5);
    assert_eq!(c.increment(), 5);
    assert_eq!(c.add(10), 6);
    assert_eq!(c.get(), 16);
    assert_eq!(c.compare_and_swap(1, 2), Err(16));
    assert_eq!(c.compare_and_swap(16, 2), Ok(16));
    c.set(9);
    assert_eq!(c.get(), 9);
    let m = AtomicCounter::new(u64::MAX);
    assert_eq!(m.increment(), u64::MAX);
    assert_eq!(m.get(), 0);
}

#[test]
fn scancodes_are_queued_until_full() {
    let waker = AtomicWaker::new();
    assert_eq!(add_scancode(None, &waker, 0x1e), None);
    let q = ArrayQueue::new(2);
    assert_eq!(add_scancode(Some(&q), &waker, 0x1e), Some(Ok(())));
    assert_eq!(add_scancode(Some(&q), &waker, 0x9e), Some(Ok(())));
    assert_eq!(add_scancode(Some(&q), &waker, 0x30), Some(Err(0x30)));
    assert_eq!(q.pop(), Some(0x1e));
    assert_eq!(q.pop(), Some(0x9e));
    assert_eq!(q.pop(), None);
}

#[test]
fn key_step_decodes_scancode_set_one() {
    let mut d = decoder_new();
    assert_eq!(key_step(&mut d, 0x1e), Some('a'));
    assert_eq!(key_step(&mut d, 0x9e), None);
    assert_eq!(key_step(&mut d, 0x2a), None);
    assert_eq!(key_step(&mut d, 0x1e), Some('A'));
    assert_eq!(key_step(&mut d, 0xaa), None);
    assert_eq!(key_step(&mut d, 0x02), Some('1'));
    assert_eq!(key_step(&mut d, 0x39), Some(' '));
}

#[test]
fn printed_addresses_parse_back() {
    for ip in [[0u8, 0, 0, 0], [10, 0, 2, 15], [255, 255, 255, 255], [1, 23, 100, 9], [192, 168, 0, 1]] {
        let text = format!("{}.{}.{}.{}", ip[0], ip[1], ip[2], ip[3]);
        assert_eq!(parse_ip(&text), Some(ip));
    }
}
