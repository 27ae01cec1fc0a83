# mykernel

The verified core of a small bare-metal x86_64 kernel, written in Verus.

`src/` is the library. Its functions are verified, except the few trusted
wrappers that call the outside crates (the scancode queue, the waker, the
keyboard decoder) and a std atomic, whose contracts are assumed:

- `net::checksum` — RFC 1071 internet checksum, and the proof that a block
  carrying its own checksum checks to zero.
- `net::ip`, `net::ethernet` — IPv4 and Ethernet framing.
- `net::udp`, `net::tcp` — header parsing and building with pseudo-header
  checksums; the TCP connection state machine
  (LISTEN → SYN_RECEIVED → ESTABLISHED → CLOSE_WAIT → LAST_ACK → CLOSED) as a
  step function, with the handshake, in-order delivery and close proved over it.
- `net::socket` — the POSIX socket layer: a 64-slot socket table (descriptors
  100..=163), the port registry and the `socket`/`bind`/`listen`/`connect`/
  `accept`/`send`/`recv`/... calls, and delivery of incoming segments, with
  the three-way handshake completed on the queued connection.
- `sync` — the decisions of the spin, reader-writer and sequence locks and of
  run-once cells, the shared counter, and timer-derived time.
- `task::keyboard` — the keyboard interrupt's scancode intake and the
  scancode-to-character decoding step.
- `shell` — the shell's line editor, command-line splitting, IPv4 address
  parsing and hex dump rows.
- `qemu` — QEMU debug-exit codes.

`app/` is the program around it: global state under locks, the syscall entry
points that read and write user memory, the spinning lock loops over shared
cells, the keyboard reader, the debug-exit port and an interactive shell.
