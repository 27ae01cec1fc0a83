//! Verified core of a small x86_64 kernel: the TCP/IP packet builders and
//! parsers, the TCP connection state machine, the POSIX-style socket layer,
//! the decision logic of the SMP lock primitives and the keyboard scancode
//! intake.

pub mod net;
pub mod sync;
pub mod task;
pub mod qemu;
pub mod shell;
