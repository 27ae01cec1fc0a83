use vstd::prelude::*;
use std::collections::VecDeque;
use std::sync::atomic::AtomicU32;
use crate::net::ip::{be16_value, IPV4_HDR_LEN};
use crate::net::tcp::{
    alloc_ephemeral_port,
    append_bytes,
    no_data,
    TCP_PSH,
    conn_packet,
    fresh_conn,
    opt_bytes,
    seq_add,
    tcp_step,
    TcpConn,
    TcpHdr,
    TcpModel,
    TcpState,
    TCP_ACK,
    TCP_HDR_LEN,
    TCP_SYN,
};
use crate::net::udp::{build_udp, udp_segment, UDP_HDR_LEN};
use crate::net::ip::{ipv4_packet, PROTO_UDP};

verus! {

/// Address family: IPv4.
pub const AF_INET: i32 = 2;
/// Address family: IPv6 (not supported).
pub const AF_INET6: i32 = 10;
/// Socket type: stream (TCP).
pub const SOCK_STREAM: i32 = 1;
/// Socket type: datagram (UDP).
pub const SOCK_DGRAM: i32 = 2;
/// Socket type: raw (not supported).
pub const SOCK_RAW: i32 = 3;
pub const IPPROTO_TCP: i32 = 6;
pub const IPPROTO_UDP: i32 = 17;
/// Option level of socket-wide options.
pub const SOL_SOCKET: i32 = 1;
pub const SO_REUSEADDR: i32 = 2;
pub const SO_RCVBUF: i32 = 8;
pub const SO_SNDBUF: i32 = 7;
pub const SHUT_RD: i32 = 0;
pub const SHUT_WR: i32 = 1;
pub const SHUT_RDWR: i32 = 2;
/// Bad file descriptor.
pub const EBADF: i64 = -9;
/// Invalid argument.
pub const EINVAL: i64 = -22;
/// Operation not supported.
pub const ENOTSUP: i64 = -95;
/// Socket not connected.
pub const ENOTCONN: i64 = -107;
/// Address already in use.
pub const EADDRINUSE: i64 = -98;
/// Try again.
pub const EAGAIN: i64 = -11;
/// Connection refused.
pub const ECONNREFUSED: i64 = -111;
/// Too many open files.
pub const EMFILE: i64 = -24;
/// Capacity of the socket table.
pub const MAX_SOCKETS: usize = 64;
/// Descriptor of the first table slot: socket descriptors are 100..=163.
pub const SOCKET_FD_BASE: usize = 100;
/// Number of TCP/UDP ports.
pub const NUM_PORTS: usize = 65536;

/// Linux `sockaddr_in`: family, big-endian port, address, padding.
#[derive(Debug, Clone, Copy, Default)]
pub struct SockaddrIn {
    pub sin_family: u16,
    pub sin_port: [u8; 2],
    pub sin_addr: [u8; 4],
    pub _pad: [u8; 8],
}

impl SockaddrIn {
    pub open spec fn port_spec(&self) -> u16 {
        be16_value(self.sin_port)
    }

    /// Port, in host order.
    #[verifier::when_used_as_spec(port_spec)]
    pub fn port(&self) -> (r: u16)
        ensures
            r == self.port_spec(),
    {
        (self.sin_port[0] as u16) * 256 + (self.sin_port[1] as u16)
    }

    /// IPv4 address.
    pub fn ip(&self) -> (r: [u8; 4])
        ensures
            r == self.sin_addr,
    {
        self.sin_addr
    }
}

/// Whether `a` is an AF_INET address for `ip:port`.
pub open spec fn is_inet_addr(a: SockaddrIn, ip: [u8; 4], port: u16) -> bool {
    &&& a.sin_family == AF_INET as u16
    &&& a.sin_addr == ip
    &&& a.port_spec() == port
    &&& a._pad == [0u8, 0u8, 0u8, 0u8, 0u8, 0u8, 0u8, 0u8]
}

/// The AF_INET address `ip:port`, as the kernel writes it back to callers.
pub fn inet_addr(ip: [u8; 4], port: u16) -> (r: SockaddrIn)
    ensures
        is_inet_addr(r, ip, port),
{
    let r = SockaddrIn {
        sin_family: 2u16,
        sin_port: [(port / 256) as u8, (port % 256) as u8],
        sin_addr: ip,
        _pad: [0u8, 0u8, 0u8, 0u8, 0u8, 0u8, 0u8, 0u8],
    };
    r
}

/// Lifecycle states of a socket.
#[derive(Debug, Clone, Copy, PartialEq, Eq, Structural)]
pub enum SocketState {
    Closed,
    Bound,
    Listening,
    Connecting,
    Connected,
    CloseWait,
}

/// A socket: type, state, endpoints, byte buffers, pending connections of a
/// listening socket and the TCP connection of a stream socket.
pub struct Socket {
    pub sock_type: i32,
    pub state: SocketState,
    pub local_ip: [u8; 4],
    pub local_port: u16,
    pub remote_ip: [u8; 4],
    pub remote_port: u16,
    pub rx_buf: VecDeque<u8>,
    pub tx_buf: VecDeque<u8>,
    pub backlog: VecDeque<Socket>,
    pub tcp_conn: Option<TcpConn>,
    pub nonblocking: bool,
    pub reuse_addr: bool,
}

/// Whether `s` is a freshly created socket of type `t`: closed, unbound,
/// unconnected, with empty buffers and backlog, blocking, no address reuse.
pub open spec fn is_fresh_socket(s: Socket, t: i32) -> bool {
    &&& s.sock_type == t
    &&& s.state == SocketState::Closed
    &&& s.local_ip == [0u8, 0u8, 0u8, 0u8]
    &&& s.local_port == 0
    &&& s.remote_ip == [0u8, 0u8, 0u8, 0u8]
    &&& s.remote_port == 0
    &&& s.rx_buf@ == Seq::<u8>::empty()
    &&& s.tx_buf@ == Seq::<u8>::empty()
    &&& s.backlog@ == Seq::<Socket>::empty()
    &&& s.tcp_conn is None
    &&& !s.nonblocking
    &&& !s.reuse_addr
}

impl Socket {
    /// A new socket of type `sock_type`.
    pub fn new(sock_type: i32) -> (r: Self)
        ensures
            is_fresh_socket(r, sock_type),
    {
        Socket {
            sock_type,
            state: SocketState::Closed,
            local_ip: [0u8, 0u8, 0u8, 0u8],
            local_port: 0,
            remote_ip: [0u8, 0u8, 0u8, 0u8],
            remote_port: 0,
            rx_buf: VecDeque::new(),
            tx_buf: VecDeque::new(),
            backlog: VecDeque::new(),
            tcp_conn: None,
            nonblocking: false,
            reuse_addr: false,
        }
    }
}

/// Whether `fd` names a slot of the socket table.
pub open spec fn valid_fd(fd: usize) -> bool {
    SOCKET_FD_BASE <= fd < SOCKET_FD_BASE + MAX_SOCKETS
}

/// Whether slot `i` is the first free slot of `s`.
pub open spec fn is_first_free(s: Seq<Option<Socket>>, i: int) -> bool {
    &&& 0 <= i < s.len()
    &&& s[i] is None
    &&& forall|j: int| 0 <= j < i ==> s[j] is Some
}

/// Whether every slot of `s` is taken.
pub open spec fn table_full(s: Seq<Option<Socket>>) -> bool {
    forall|j: int| 0 <= j < s.len() ==> s[j] is Some
}

/// The socket table: `MAX_SOCKETS` slots, slot `i` holding descriptor
/// `SOCKET_FD_BASE + i`.
pub struct SocketTable {
    sockets: Vec<Option<Socket>>,
}

impl View for SocketTable {
    type V = Seq<Option<Socket>>;

    closed spec fn view(&self) -> Seq<Option<Socket>> {
        self.sockets@
    }
}

impl SocketTable {
    /// Well-formed: exactly `MAX_SOCKETS` slots.
    pub open spec fn wf(&self) -> bool {
        self@.len() == MAX_SOCKETS
    }

    /// The socket that descriptor `fd` names, if any.
    pub open spec fn socket_at(&self, fd: usize) -> Option<Socket> {
        if valid_fd(fd) {
            self@[fd - SOCKET_FD_BASE]
        } else {
            None
        }
    }

    /// An empty table.
    pub fn new() -> (r: Self)
        ensures
            r.wf(),
            forall|i: int| 0 <= i < MAX_SOCKETS ==> r@[i] is None,
            forall|ps: Set<u16>| #[trigger] ports_cover(r@, ps),
    {
        let mut sockets: Vec<Option<Socket>> = Vec::new();
        let mut i: usize = 0;
        while i < MAX_SOCKETS
            invariant
                i <= MAX_SOCKETS,
                sockets@.len() == i,
                forall|j: int| 0 <= j < i ==> sockets@[j] is None,
            decreases MAX_SOCKETS - i,
        {
            sockets.push(None);
            i = i + 1;
        }
        SocketTable { sockets }
    }

    /// Place `sock` in the first free slot and return its descriptor; `None`
    /// when the table is full.
    pub fn allocate(&mut self, sock: Socket) -> (r: Option<usize>)
        requires
            old(self).wf(),
        ensures
            final(self).wf(),
            match r {
                Some(fd) => {
                    &&& is_first_free(old(self)@, fd - SOCKET_FD_BASE)
                    &&& valid_fd(fd)
                    &&& final(self)@ == old(self)@.update(fd - SOCKET_FD_BASE, Some(sock))
                },
                None => table_full(old(self)@) && final(self)@ == old(self)@,
            },
    {
        let mut i: usize = 0;
        while i < MAX_SOCKETS
            invariant
                i <= MAX_SOCKETS,
                self.sockets.len() == MAX_SOCKETS,
                self@ == old(self)@,
                forall|j: int| 0 <= j < i ==> self@[j] is Some,
            decreases MAX_SOCKETS - i,
        {
            if self.sockets[i].is_none() {
                self.sockets.set(i, Some(sock));
                return Some(i + SOCKET_FD_BASE);
            }
            i = i + 1;
        }
        None
    }

    /// The socket that `fd` names, if any.
    pub fn get(&self, fd: usize) -> (r: Option<&Socket>)
        requires
            self.wf(),
        ensures
            r is Some <==> self.socket_at(fd) is Some,
            r matches Some(s) ==> self.socket_at(fd) == Some(*s),
    {
        if fd < SOCKET_FD_BASE || fd >= SOCKET_FD_BASE + MAX_SOCKETS {
            return None;
        }
        self.sockets[fd - SOCKET_FD_BASE].as_ref()
    }

    /// Remove and return the socket that `fd` names, leaving its slot free.
    pub fn take(&mut self, fd: usize) -> (r: Option<Socket>)
        requires
            old(self).wf(),
        ensures
            final(self).wf(),
            r == old(self).socket_at(fd),
            final(self)@ == if valid_fd(fd) {
                old(self)@.update(fd - SOCKET_FD_BASE, None)
            } else {
                old(self)@
            },
    {
        if fd < SOCKET_FD_BASE || fd >= SOCKET_FD_BASE + MAX_SOCKETS {
            return None;
        }
        let mut slot: Option<Socket> = None;
        self.sockets.set_and_swap(fd - SOCKET_FD_BASE, &mut slot);
        slot
    }

    /// Put `sock` into the slot of the valid descriptor `fd`.
    pub fn put(&mut self, fd: usize, sock: Socket)
        requires
            old(self).wf(),
            valid_fd(fd),
        ensures
            final(self).wf(),
            final(self)@ == old(self)@.update(fd - SOCKET_FD_BASE, Some(sock)),
    {
        self.sockets.set(fd - SOCKET_FD_BASE, Some(sock));
    }

    /// Free the slot of `fd`; whether it held a socket.
    pub fn free(&mut self, fd: usize) -> (r: bool)
        requires
            old(self).wf(),
        ensures
            final(self).wf(),
            r == old(self).socket_at(fd) is Some,
            final(self)@ == if valid_fd(fd) {
                old(self)@.update(fd - SOCKET_FD_BASE, None)
            } else {
                old(self)@
            },
    {
        self.take(fd).is_some()
    }
}

/// Registry of ports taken by bound or connected sockets.
pub struct PortRegistry {
    used: Vec<bool>,
}

impl View for PortRegistry {
    type V = Set<u16>;

    closed spec fn view(&self) -> Set<u16> {
        Set::new(|p: u16| self.used@[p as int])
    }
}

impl PortRegistry {
    /// Well-formed: one flag per port.
    pub closed spec fn wf(&self) -> bool {
        self.used.len() == NUM_PORTS
    }

    /// A registry with no port taken.
    pub fn new() -> (r: Self)
        ensures
            r.wf(),
            r@ == Set::<u16>::empty(),
    {
        let mut used: Vec<bool> = Vec::new();
        let mut i: usize = 0;
        while i < NUM_PORTS
            invariant
                i <= NUM_PORTS,
                used@.len() == i,
                forall|j: int| 0 <= j < i ==> !used@[j],
            decreases NUM_PORTS - i,
        {
            used.push(false);
            i = i + 1;
        }
        let r = PortRegistry { used };
        assert(r@ =~= Set::<u16>::empty());
        r
    }

    /// Whether `port` is taken.
    pub fn port_in_use(&self, port: u16) -> (r: bool)
        requires
            self.wf(),
        ensures
            r == self@.contains(port),
    {
        self.used[port as usize]
    }

    /// Mark `port` as taken.
    pub fn reserve_port(&mut self, port: u16)
        requires
            old(self).wf(),
        ensures
            final(self).wf(),
            final(self)@ == old(self)@.insert(port),
    {
        self.used.set(port as usize, true);
        assert(final(self)@ =~= old(self)@.insert(port));
    }

    /// Mark `port` as free.
    pub fn release_port(&mut self, port: u16)
        requires
            old(self).wf(),
        ensures
            final(self).wf(),
            final(self)@ == old(self)@.remove(port),
    {
        self.used.set(port as usize, false);
        assert(final(self)@ =~= old(self)@.remove(port));
    }
}


/// Whether `ip` is the unspecified address 0.0.0.0.
pub open spec fn is_any_addr(ip: [u8; 4]) -> bool {
    ip@[0] == 0 && ip@[1] == 0 && ip@[2] == 0 && ip@[3] == 0
}

fn any_addr(ip: &[u8; 4]) -> (r: bool)
    ensures
        r == is_any_addr(*ip),
{
    ip[0] == 0 && ip[1] == 0 && ip[2] == 0 && ip[3] == 0
}

fn same_addr(a: &[u8; 4], b: &[u8; 4]) -> (r: bool)
    ensures
        r == (a@ == b@),
{
    let r = a[0] == b[0] && a[1] == b[1] && a[2] == b[2] && a[3] == b[3];
    if r {
        assert(a@ =~= b@);
    }
    r
}

/// The slot index of descriptor `fd`.
pub open spec fn slot(fd: usize) -> int {
    fd - SOCKET_FD_BASE
}

/// Outcome of `sys_socket`: the result, and the socket placed in the table.
pub open spec fn socket_outcome(old_table: Seq<Option<Socket>>, new_table: Seq<Option<Socket>>, domain: i32, sock_type: i32, r: i64) -> bool {
    if domain != AF_INET {
        r == EINVAL && new_table == old_table
    } else if sock_type != SOCK_STREAM && sock_type != SOCK_DGRAM {
        r == ENOTSUP && new_table == old_table
    } else if table_full(old_table) {
        r == EMFILE && new_table == old_table
    } else {
        &&& SOCKET_FD_BASE <= r < SOCKET_FD_BASE + MAX_SOCKETS
        &&& is_first_free(old_table, r - SOCKET_FD_BASE)
        &&& new_table[r - SOCKET_FD_BASE] matches Some(s) && is_fresh_socket(s, sock_type)
        &&& new_table == old_table.update(r - SOCKET_FD_BASE, new_table[r - SOCKET_FD_BASE])
    }
}

/// `socket(domain, type, protocol)`: create an AF_INET stream or datagram
/// socket and return its descriptor.
pub fn sys_socket(table: &mut SocketTable, domain: i32, sock_type: i32, _protocol: i32) -> (r: i64)
    requires
        old(table).wf(),
    ensures
        final(table).wf(),
        forall|ps: Set<u16>|
            ports_cover(old(table)@, ps) ==> #[trigger] ports_cover(final(table)@, ps),
        socket_outcome(old(table)@, final(table)@, domain, sock_type, r),
{
    if domain != AF_INET {
        return EINVAL;
    }
    if sock_type != SOCK_STREAM && sock_type != SOCK_DGRAM {
        return ENOTSUP;
    }
    let sock = Socket::new(sock_type);
    match table.allocate(sock) {
        Some(fd) => fd as i64,
        None => EMFILE,
    }
}

/// The address a socket binds to: `our_ip` for the unspecified address.
pub open spec fn bind_addr(ip: [u8; 4], our_ip: [u8; 4]) -> [u8; 4] {
    if is_any_addr(ip) {
        our_ip
    } else {
        ip
    }
}

/// Outcome of `sys_bind` on a table and port set.
pub open spec fn bind_spec(
    t: Seq<Option<Socket>>,
    ports: Set<u16>,
    fd: usize,
    addr: SockaddrIn,
    our_ip: [u8; 4],
) -> (i64, Seq<Option<Socket>>, Set<u16>) {
    let port = addr.port_spec();
    if port == 0 {
        (EINVAL, t, ports)
    } else if !valid_fd(fd) || t[slot(fd)] is None {
        (EBADF, t, ports)
    } else {
        let s = t[slot(fd)].unwrap();
        if s.state != SocketState::Closed {
            (EINVAL, t, ports)
        } else if ports.contains(port) && !s.reuse_addr {
            (EADDRINUSE, t, ports)
        } else {
            (
                0,
                t.update(
                    slot(fd),
                    Some(
                        Socket {
                            local_port: port,
                            local_ip: bind_addr(addr.sin_addr, our_ip),
                            state: SocketState::Bound,
                            ..s
                        },
                    ),
                ),
                ports.insert(port),
            )
        }
    }
}

/// `bind(fd, addr)`: give a closed socket a local address; the unspecified
/// address stands for `our_ip`.
pub fn sys_bind(
    table: &mut SocketTable,
    ports: &mut PortRegistry,
    fd: usize,
    addr: &SockaddrIn,
    our_ip: [u8; 4],
) -> (r: i64)
    requires
        old(table).wf(),
        old(ports).wf(),
    ensures
        final(table).wf(),
        final(ports).wf(),
        ports_cover(old(table)@, old(ports)@) ==> ports_cover(final(table)@, final(ports)@),
        (r, final(table)@, final(ports)@) == bind_spec(old(table)@, old(ports)@, fd, *addr, our_ip),
{
    let port = addr.port();
    let ip = addr.ip();
    if port == 0 {
        return EINVAL;
    }
    let mut sock = match table.take(fd) {
        Some(s) => s,
        None => {
            return EBADF;
        },
    };
    if sock.state != SocketState::Closed {
        table.put(fd, sock);
        assert(table@ =~= old(table)@);
        return EINVAL;
    }
    if ports.port_in_use(port) && !sock.reuse_addr {
        table.put(fd, sock);
        assert(table@ =~= old(table)@);
        return EADDRINUSE;
    }
    sock.local_port = port;
    sock.local_ip = if any_addr(&ip) {
        our_ip
    } else {
        ip
    };
    sock.state = SocketState::Bound;
    table.put(fd, sock);
    ports.reserve_port(port);
    assert(table@ =~= bind_spec(old(table)@, old(ports)@, fd, *addr, our_ip).1);
    0
}

/// `listen(fd, backlog)`: turn a bound stream socket into a listening one
/// with a TCP connection in LISTEN; its initial sequence number is drawn from
/// `isn_counter`.
pub fn sys_listen(table: &mut SocketTable, fd: usize, _backlog: i32, isn_counter: &AtomicU32) -> (r:
    i64)
    requires
        old(table).wf(),
    ensures
        final(table).wf(),
        forall|ps: Set<u16>|
            ports_cover(old(table)@, ps) ==> #[trigger] ports_cover(final(table)@, ps),
        ({
            let t = old(table)@;
            if !valid_fd(fd) || t[slot(fd)] is None {
                r == EBADF && final(table)@ == t
            } else {
                let s = t[slot(fd)].unwrap();
                if s.sock_type != SOCK_STREAM || s.state != SocketState::Bound {
                    r == EINVAL && final(table)@ == t
                } else {
                    &&& r == 0
                    &&& final(table)@ == t.update(slot(fd), final(table)@[slot(fd)])
                    &&& final(table)@[slot(fd)] matches Some(ns) && {
                        &&& ns == Socket { tcp_conn: ns.tcp_conn, state: SocketState::Listening, ..s }
                        &&& ns.tcp_conn matches Some(c) && exists|isn: u32|
                            c@ == (TcpModel {
                                state: TcpState::Listen,
                                ..#[trigger] fresh_conn(s.local_ip, s.local_port, isn)
                            })
                    }
                }
            }
        }),
{
    let mut sock = match table.take(fd) {
        Some(s) => s,
        None => {
            return EBADF;
        },
    };
    if sock.sock_type != SOCK_STREAM || sock.state != SocketState::Bound {
        table.put(fd, sock);
        assert(table@ =~= old(table)@);
        return EINVAL;
    }
    let ghost s0 = sock;
    let mut conn = TcpConn::new(sock.local_ip, sock.local_port, isn_counter);
    let ghost isn = choose|isn: u32| conn@ == fresh_conn(s0.local_ip, s0.local_port, isn);
    conn.state = TcpState::Listen;
    let ghost c = conn;
    sock.tcp_conn = Some(conn);
    sock.state = SocketState::Listening;
    table.put(fd, sock);
    assert(table@ =~= old(table)@.update(
        slot(fd),
        Some(Socket { tcp_conn: Some(c), state: SocketState::Listening, ..s0 }),
    ));
    0
}

/// Whether one of the pending connections `b` has local port `port`.
pub open spec fn pending_on(b: Seq<Socket>, port: u16) -> bool {
    exists|k: int| 0 <= k < b.len() && (#[trigger] b[k]).local_port == port
}

/// Whether slot content `o` is a socket that has local port `port`, itself or
/// through one of its pending connections.
pub open spec fn holds_port(o: Option<Socket>, port: u16) -> bool {
    o matches Some(s) && (s.local_port == port || pending_on(s.backlog@, port))
}

/// Whether some socket of table contents `t` has local port `port`.
pub open spec fn port_held(t: Seq<Option<Socket>>, port: u16) -> bool {
    exists|i: int| 0 <= i < t.len() && #[trigger] holds_port(t[i], port)
}

/// Whether the local ports of `s` and of its pending connections are
/// reserved in `ports` (port 0 stands for none), and its pending connections
/// have none of their own.
pub open spec fn socket_ports_in(s: Socket, ports: Set<u16>) -> bool {
    &&& s.local_port != 0 ==> ports.contains(s.local_port)
    &&& forall|k: int|
        0 <= k < s.backlog@.len() ==> {
            &&& (#[trigger] s.backlog@[k]).local_port != 0 ==> ports.contains(
                s.backlog@[k].local_port,
            )
            &&& s.backlog@[k].backlog@.len() == 0
        }
}

/// The registry covers the table: every local port that an open socket of
/// `t`, or one of its pending connections, has is reserved in `ports` (and
/// pending connections have none of their own).
pub open spec fn ports_cover(t: Seq<Option<Socket>>, ports: Set<u16>) -> bool {
    forall|i: int|
        0 <= i < t.len() && (#[trigger] t[i]) is Some ==> socket_ports_in(t[i].unwrap(), ports)
}

/// Outcome of closing descriptor `fd`: its slot is freed, and its local port,
/// if it had one, is released unless another open socket still has it.
pub open spec fn close_spec(t: Seq<Option<Socket>>, ports: Set<u16>, fd: usize) -> (
    i64,
    Seq<Option<Socket>>,
    Set<u16>,
) {
    if !valid_fd(fd) || t[slot(fd)] is None {
        (EBADF, t, ports)
    } else {
        let s = t[slot(fd)].unwrap();
        let t2 = t.update(slot(fd), None);
        (
            0,
            t2,
            if s.local_port != 0 && !port_held(t2, s.local_port) {
                ports.remove(s.local_port)
            } else {
                ports
            },
        )
    }
}

/// Whether one of the pending connections `b` has local port `port`.
fn pending_on_in(b: &VecDeque<Socket>, port: u16) -> (r: bool)
    ensures
        r == pending_on(b@, port),
{
    let mut k: usize = 0;
    while k < b.len()
        invariant
            k <= b@.len(),
            forall|j: int| 0 <= j < k ==> (#[trigger] b@[j]).local_port != port,
        decreases b@.len() - k,
    {
        if b[k].local_port == port {
            assert(b@[k as int].local_port == port);
            return true;
        }
        k = k + 1;
    }
    false
}

/// Whether some socket of `table` has local port `port`.
fn port_held_in(table: &SocketTable, port: u16) -> (r: bool)
    requires
        table.wf(),
    ensures
        r == port_held(table@, port),
{
    let mut i: usize = 0;
    while i < MAX_SOCKETS
        invariant
            i <= MAX_SOCKETS,
            table.wf(),
            forall|j: int| 0 <= j < i ==> !#[trigger] holds_port(table@[j], port),
        decreases MAX_SOCKETS - i,
    {
        match table.get(i + SOCKET_FD_BASE) {
            Some(sock) => {
                if sock.local_port == port || pending_on_in(&sock.backlog, port) {
                    assert(holds_port(table@[i as int], port));
                    return true;
                }
            },
            None => {},
        }
        i = i + 1;
    }
    false
}

/// `close(fd)` on a socket: free its slot, and release its local port when no
/// other open socket (such as a listener and the connections it accepted, or
/// sockets sharing the port through address reuse) still has it.
pub fn sys_close_socket(table: &mut SocketTable, ports: &mut PortRegistry, fd: usize) -> (r: i64)
    requires
        old(table).wf(),
        old(ports).wf(),
    ensures
        final(table).wf(),
        final(ports).wf(),
        (r, final(table)@, final(ports)@) == close_spec(old(table)@, old(ports)@, fd),
        ports_cover(old(table)@, old(ports)@) ==> ports_cover(final(table)@, final(ports)@),
{
    match table.take(fd) {
        Some(sock) => {
            let port = sock.local_port;
            if port != 0 && !port_held_in(table, port) {
                ports.release_port(port);
                assert forall|i: int|
                    0 <= i < table@.len() && (#[trigger] table@[i]) is Some && ports_cover(
                        old(table)@,
                        old(ports)@,
                    ) implies socket_ports_in(table@[i].unwrap(), ports@) by {
                    assert(!holds_port(table@[i], port));
                    assert(old(table)@[i] == table@[i]);
                    let b = table@[i].unwrap().backlog@;
                    assert forall|k: int|
                        0 <= k < b.len() && (#[trigger] b[k]).local_port != 0 implies ports@.contains(
                        b[k].local_port,
                    ) by {
                        assert(!pending_on(b, port));
                    }
                    assert(socket_ports_in(old(table)@[i].unwrap(), old(ports)@));
                }
            }
            0
        },
        None => {
            assert(table@ =~= old(table)@);
            EBADF
        },
    }
}

/// Descriptor lifecycle: a socket created in a table with a free slot gets a
/// descriptor in 100..=163 that names it; closing that descriptor succeeds
/// once, and a second close of it fails with EBADF.
pub proof fn lemma_socket_close_lifecycle(
    t: Seq<Option<Socket>>,
    t2: Seq<Option<Socket>>,
    ports: Set<u16>,
    sock_type: i32,
    r: i64,
)
    requires
        t.len() == MAX_SOCKETS,
        sock_type == SOCK_STREAM || sock_type == SOCK_DGRAM,
        !table_full(t),
        socket_outcome(t, t2, AF_INET, sock_type, r),
    ensures
        valid_fd(r as usize),
        t2[slot(r as usize)] is Some,
        ({
            let (c1, t3, p3) = close_spec(t2, ports, r as usize);
            &&& c1 == 0
            &&& t3[slot(r as usize)] is None
            &&& close_spec(t3, p3, r as usize).0 == EBADF
        }),
{
}

/// Ports are exclusive: once one socket has bound a port, binding another
/// closed socket without address reuse to the same port is refused with
/// EADDRINUSE.
pub proof fn lemma_bind_port_exclusive(
    t: Seq<Option<Socket>>,
    ports: Set<u16>,
    fd1: usize,
    fd2: usize,
    addr1: SockaddrIn,
    addr2: SockaddrIn,
    our_ip: [u8; 4],
)
    requires
        t.len() == MAX_SOCKETS,
        fd1 != fd2,
        valid_fd(fd2),
        addr1.port_spec() == addr2.port_spec(),
        bind_spec(t, ports, fd1, addr1, our_ip).0 == 0,
        t[slot(fd2)] matches Some(s2) && s2.state == SocketState::Closed && !s2.reuse_addr,
    ensures
        ({
            let (r1, t1, p1) = bind_spec(t, ports, fd1, addr1, our_ip);
            bind_spec(t1, p1, fd2, addr2, our_ip).0 == EADDRINUSE
        }),
{
}

/// Closing a bound socket gives its port back: when the registry covers the
/// table and a socket binds a port that was free, then after that socket is
/// closed the port is free again and another closed socket can bind it.
pub proof fn lemma_close_releases_port(
    t: Seq<Option<Socket>>,
    ports: Set<u16>,
    fd1: usize,
    fd2: usize,
    addr1: SockaddrIn,
    addr2: SockaddrIn,
    our_ip: [u8; 4],
)
    requires
        t.len() == MAX_SOCKETS,
        fd1 != fd2,
        valid_fd(fd2),
        addr1.port_spec() == addr2.port_spec(),
        !ports.contains(addr1.port_spec()),
        ports_cover(t, ports),
        bind_spec(t, ports, fd1, addr1, our_ip).0 == 0,
        t[slot(fd2)] matches Some(s2) && s2.state == SocketState::Closed,
    ensures
        ({
            let (r1, t1, p1) = bind_spec(t, ports, fd1, addr1, our_ip);
            let (r2, t2, p2) = close_spec(t1, p1, fd1);
            &&& r2 == 0
            &&& !p2.contains(addr1.port_spec())
            &&& bind_spec(t2, p2, fd2, addr2, our_ip).0 == 0
        }),
{
    let p = addr1.port_spec();
    let (r1, t1, p1) = bind_spec(t, ports, fd1, addr1, our_ip);
    let t2 = t1.update(slot(fd1), None);
    assert forall|i: int| 0 <= i < t2.len() implies !#[trigger] holds_port(t2[i], p) by {
        if i != slot(fd1) && t[i] is Some {
            assert(socket_ports_in(t[i].unwrap(), ports));
            let b = t[i].unwrap().backlog@;
            if pending_on(b, p) {
                let k = choose|k: int| 0 <= k < b.len() && (#[trigger] b[k]).local_port == p;
                assert(ports.contains(p));
            }
        }
    }
}

/// A port stays reserved while a socket still has it: when the registry
/// covers the table (as it does from `SocketTable::new` on, every socket call
/// keeping it) and two open sockets share local port `p` (a listener and
/// a connection it accepted, or two sockets bound with address reuse),
/// closing one of them succeeds, keeps `p` reserved and keeps the registry
/// covering the table, so binding a fresh socket without address reuse to `p`
/// is refused with EADDRINUSE.
pub proof fn lemma_shared_port_stays_reserved(
    t: Seq<Option<Socket>>,
    ports: Set<u16>,
    fd: usize,
    other: usize,
    fresh: usize,
    addr: SockaddrIn,
    our_ip: [u8; 4],
)
    requires
        t.len() == MAX_SOCKETS,
        ports_cover(t, ports),
        valid_fd(fd),
        valid_fd(other),
        valid_fd(fresh),
        fd != other,
        fresh != fd,
        t[slot(fd)] matches Some(s) && s.local_port == addr.port_spec(),
        t[slot(other)] matches Some(u) && u.local_port == addr.port_spec(),
        addr.port_spec() != 0,
        t[slot(fresh)] matches Some(f) && f.state == SocketState::Closed && !f.reuse_addr,
    ensures
        ({
            let (r, t2, p2) = close_spec(t, ports, fd);
            &&& r == 0
            &&& p2.contains(addr.port_spec())
            &&& ports_cover(t2, p2)
            &&& bind_spec(t2, p2, fresh, addr, our_ip).0 == EADDRINUSE
        }),
{
    let p = addr.port_spec();
    let t2 = t.update(slot(fd), None);
    assert(holds_port(t2[slot(other)], p));
    assert(t[slot(other)] is Some);
    assert(ports.contains(p));
}

/// `shutdown(fd, how)`: mark the socket closed.
pub fn sys_shutdown(table: &mut SocketTable, fd: usize, _how: i32) -> (r: i64)
    requires
        old(table).wf(),
    ensures
        final(table).wf(),
        forall|ps: Set<u16>|
            ports_cover(old(table)@, ps) ==> #[trigger] ports_cover(final(table)@, ps),
        old(table).socket_at(fd) is None ==> r == EBADF && final(table)@ == old(table)@,
        old(table).socket_at(fd) matches Some(s) ==> r == 0 && final(table)@ == old(table)@.update(
            slot(fd),
            Some(Socket { state: SocketState::Closed, ..s }),
        ),
{
    let mut sock = match table.take(fd) {
        Some(s) => s,
        None => {
            return EBADF;
        },
    };
    sock.state = SocketState::Closed;
    table.put(fd, sock);
    0
}

/// Whether `fd` names an open socket.
pub fn is_socket_fd(table: &SocketTable, fd: usize) -> (r: bool)
    requires
        table.wf(),
    ensures
        r == table.socket_at(fd) is Some,
{
    fd >= SOCKET_FD_BASE && fd < SOCKET_FD_BASE + MAX_SOCKETS && table.get(fd).is_some()
}

/// `setsockopt(fd, level, optname, optval)`: SO_REUSEADDR at SOL_SOCKET sets
/// address reuse from `optval`; every other option is accepted and ignored.
pub fn sys_setsockopt(table: &mut SocketTable, fd: usize, level: i32, optname: i32, optval: i32) -> (r:
    i64)
    requires
        old(table).wf(),
    ensures
        final(table).wf(),
        forall|ps: Set<u16>|
            ports_cover(old(table)@, ps) ==> #[trigger] ports_cover(final(table)@, ps),
        old(table).socket_at(fd) is None ==> r == EBADF && final(table)@ == old(table)@,
        old(table).socket_at(fd) matches Some(s) ==> r == 0 && final(table)@ == if level
            == SOL_SOCKET && optname == SO_REUSEADDR {
            old(table)@.update(slot(fd), Some(Socket { reuse_addr: optval != 0, ..s }))
        } else {
            old(table)@
        },
{
    let mut sock = match table.take(fd) {
        Some(s) => s,
        None => {
            return EBADF;
        },
    };
    if level == SOL_SOCKET && optname == SO_REUSEADDR {
        sock.reuse_addr = optval != 0;
    }
    table.put(fd, sock);
    assert(level != SOL_SOCKET || optname != SO_REUSEADDR ==> table@ =~= old(table)@);
    0
}

/// `getsockname(fd)`: the socket's local address.
pub fn sys_getsockname(table: &SocketTable, fd: usize) -> (r: (i64, Option<SockaddrIn>))
    requires
        table.wf(),
    ensures
        table.socket_at(fd) is None ==> r.0 == EBADF && r.1 is None,
        table.socket_at(fd) matches Some(s) ==> r.0 == 0 && (r.1 matches Some(a) && is_inet_addr(
            a,
            s.local_ip,
            s.local_port,
        )),
{
    match table.get(fd) {
        Some(sock) => (0, Some(inet_addr(sock.local_ip, sock.local_port))),
        None => (EBADF, None),
    }
}

/// `getpeername(fd)`: the remote address of a connected socket.
pub fn sys_getpeername(table: &SocketTable, fd: usize) -> (r: (i64, Option<SockaddrIn>))
    requires
        table.wf(),
    ensures
        table.socket_at(fd) is None ==> r.0 == EBADF && r.1 is None,
        table.socket_at(fd) matches Some(s) ==> if s.state != SocketState::Connected {
            r.0 == ENOTCONN && r.1 is None
        } else {
            r.0 == 0 && (r.1 matches Some(a) && is_inet_addr(a, s.remote_ip, s.remote_port))
        },
{
    match table.get(fd) {
        Some(sock) => {
            if sock.state != SocketState::Connected {
                (ENOTCONN, None)
            } else {
                (0, Some(inet_addr(sock.remote_ip, sock.remote_port)))
            }
        },
        None => (EBADF, None),
    }
}


/// `connect(fd, addr)` on a stream socket: bind an ephemeral local port drawn
/// from `next_port`, create the TCP connection (initial sequence number from
/// `isn_counter`), and return with the SYN segment to transmit. The socket is
/// marked connected at once, without waiting for the SYN-ACK.
pub fn sys_connect(
    table: &mut SocketTable,
    ports: &mut PortRegistry,
    fd: usize,
    addr: &SockaddrIn,
    our_ip: [u8; 4],
    next_port: &AtomicU32,
    isn_counter: &AtomicU32,
    ident: u16,
) -> (r: (i64, Option<Vec<u8>>))
    requires
        old(table).wf(),
        old(ports).wf(),
    ensures
        final(table).wf(),
        final(ports).wf(),
        ports_cover(old(table)@, old(ports)@) ==> ports_cover(final(table)@, final(ports)@),
        ({
            let t = old(table)@;
            if !valid_fd(fd) || t[slot(fd)] is None {
                r.0 == EBADF && r.1 is None && final(table)@ == t && final(ports)@ == old(ports)@
            } else {
                let s = t[slot(fd)].unwrap();
                if s.sock_type != SOCK_STREAM {
                    r.0 == EINVAL && r.1 is None && final(table)@ == t && final(ports)@ == old(
                        ports,
                    )@
                } else {
                    &&& r.0 == 0
                    &&& final(table)@ == t.update(slot(fd), final(table)@[slot(fd)])
                    &&& final(table)@[slot(fd)] matches Some(ns) && {
                        &&& ns == Socket {
                            tcp_conn: ns.tcp_conn,
                            local_port: ns.local_port,
                            remote_ip: addr.sin_addr,
                            remote_port: addr.port_spec(),
                            state: SocketState::Connected,
                            ..s
                        }
                        &&& ns.local_port >= 49152
                        &&& final(ports)@ == old(ports)@.insert(ns.local_port)
                        &&& ns.tcp_conn matches Some(c) && exists|isn: u32|
                            {
                                let syn = TcpModel {
                                    remote_ip: addr.sin_addr,
                                    remote_port: addr.port_spec(),
                                    state: TcpState::SynSent,
                                    ..#[trigger] fresh_conn(our_ip, ns.local_port, isn)
                                };
                                &&& c@ == (TcpModel {
                                    snd_nxt: seq_add(isn, 1),
                                    state: TcpState::Established,
                                    ..syn
                                })
                                &&& opt_bytes(r.1) == Some(
                                    conn_packet(syn, TCP_SYN, Seq::empty(), ident),
                                )
                            }
                    }
                }
            }
        }),
{
    let dst_port = addr.port();
    let dst_ip = addr.ip();
    let mut sock = match table.take(fd) {
        Some(s) => s,
        None => {
            return (EBADF, None);
        },
    };
    if sock.sock_type != SOCK_STREAM {
        table.put(fd, sock);
        assert(table@ =~= old(table)@);
        return (EINVAL, None);
    }
    let ghost s0 = sock;
    let src_port = alloc_ephemeral_port(next_port);
    let mut conn = TcpConn::new(our_ip, src_port, isn_counter);
    let ghost isn = choose|isn: u32| conn@ == fresh_conn(our_ip, src_port, isn);
    conn.remote_ip = dst_ip;
    conn.remote_port = dst_port;
    conn.state = TcpState::SynSent;
    let syn = conn.build_tcp_pkt(TCP_SYN, no_data(), ident);
    conn.snd_nxt = conn.snd_nxt.wrapping_add(1);
    conn.state = TcpState::Established;
    sock.tcp_conn = Some(conn);
    sock.local_port = src_port;
    sock.remote_ip = dst_ip;
    sock.remote_port = dst_port;
    sock.state = SocketState::Connected;
    ports.reserve_port(src_port);
    table.put(fd, sock);
    assert(table@ =~= old(table)@.update(slot(fd), table@[slot(fd)]));
    (0, Some(syn))
}

/// `accept(fd)` on a listening socket: take the oldest pending connection,
/// give it a descriptor, and return the peer's address to report.
pub fn sys_accept(table: &mut SocketTable, fd: usize) -> (r: (i64, Option<SockaddrIn>))
    requires
        old(table).wf(),
    ensures
        final(table).wf(),
        forall|ps: Set<u16>|
            ports_cover(old(table)@, ps) ==> #[trigger] ports_cover(final(table)@, ps),
        ({
            let t = old(table)@;
            if !valid_fd(fd) || t[slot(fd)] is None {
                r.0 == EBADF && r.1 is None && final(table)@ == t
            } else {
                let s = t[slot(fd)].unwrap();
                if s.state != SocketState::Listening {
                    r.0 == EINVAL && r.1 is None && final(table)@ == t
                } else if s.backlog@.len() == 0 {
                    r.0 == EAGAIN && r.1 is None && final(table)@ == t
                } else {
                    let c = s.backlog@[0];
                    let mid = t.update(slot(fd), final(table)@[slot(fd)]);
                    &&& final(table)@[slot(fd)] matches Some(l) && (l == Socket {
                        backlog: l.backlog,
                        ..s
                    } && l.backlog@ == s.backlog@.skip(1))
                    &&& r.1 matches Some(a) && is_inet_addr(a, c.remote_ip, c.remote_port)
                    &&& if table_full(mid) {
                        r.0 == EMFILE && final(table)@ == mid
                    } else {
                        &&& SOCKET_FD_BASE <= r.0 < SOCKET_FD_BASE + MAX_SOCKETS
                        &&& is_first_free(mid, r.0 - SOCKET_FD_BASE)
                        &&& final(table)@ == mid.update(r.0 - SOCKET_FD_BASE, Some(c))
                    }
                }
            }
        }),
{
    let mut sock = match table.take(fd) {
        Some(s) => s,
        None => {
            return (EBADF, None);
        },
    };
    if sock.state != SocketState::Listening {
        table.put(fd, sock);
        assert(table@ =~= old(table)@);
        return (EINVAL, None);
    }
    if sock.backlog.len() == 0 {
        table.put(fd, sock);
        assert(table@ =~= old(table)@);
        return (EAGAIN, None);
    }
    let ghost s0 = sock;
    let conn_sock = sock.backlog.pop_front().unwrap();
    let addr = inet_addr(conn_sock.remote_ip, conn_sock.remote_port);
    table.put(fd, sock);
    let ghost mid = table@;
    assert(mid =~= old(table)@.update(slot(fd), mid[slot(fd)]));
    let ghost c = conn_sock;
    let r = match table.allocate(conn_sock) {
        Some(new_fd) => (new_fd as i64, Some(addr)),
        None => (EMFILE, Some(addr)),
    };
    assert forall|ps: Set<u16>| ports_cover(old(table)@, ps) implies #[trigger] ports_cover(
        table@,
        ps,
    ) by {
        assert(socket_ports_in(s0, ps));
        assert(s0.backlog@[0] == c);
        assert forall|k: int| 0 <= k < s0.backlog@.len() - 1 implies #[trigger] sock.backlog@[k]
            == s0.backlog@[k + 1] by {}
        assert(socket_ports_in(sock, ps));
        assert(socket_ports_in(c, ps));
        assert forall|i: int| 0 <= i < table@.len() && (#[trigger] table@[i]) is Some implies socket_ports_in(
            table@[i].unwrap(),
            ps,
        ) by {
            if i != slot(fd) && table@[i] != Some(c) {
                assert(old(table)@[i] == table@[i]);
            }
        }
    }
    r
}

/// Outcome of `send` on socket table `t` (becoming `t2`): the result and the
/// packet to transmit.
pub open spec fn send_outcome(
    t: Seq<Option<Socket>>,
    t2: Seq<Option<Socket>>,
    fd: usize,
    data: Seq<u8>,
    ident: u16,
    r: i64,
    pkt: Option<Seq<u8>>,
) -> bool {
    if !valid_fd(fd) || t[slot(fd)] is None {
        r == EBADF && pkt is None && t2 == t
    } else {
        let s = t[slot(fd)].unwrap();
        if s.state != SocketState::Connected {
            r == ENOTCONN && pkt is None && t2 == t
        } else if s.sock_type == SOCK_STREAM {
            match s.tcp_conn {
                Some(c) => if c.state == TcpState::Established {
                    &&& r == data.len()
                    &&& pkt == Some(conn_packet(c@, TCP_PSH | TCP_ACK, data, ident))
                    &&& t2 == t.update(slot(fd), t2[slot(fd)])
                    &&& t2[slot(fd)] matches Some(ns) && (ns == Socket {
                        tcp_conn: ns.tcp_conn,
                        ..s
                    } && (ns.tcp_conn matches Some(c2) && c2@ == (TcpModel {
                        snd_nxt: seq_add(c.snd_nxt, data.len() as u32),
                        ..c@
                    })))
                } else {
                    r == ENOTCONN && pkt is None && t2 == t
                },
                None => r == ENOTCONN && pkt is None && t2 == t,
            }
        } else if s.sock_type == SOCK_DGRAM {
            &&& r == data.len()
            &&& pkt == Some(
                ipv4_packet(
                    s.local_ip@,
                    s.remote_ip@,
                    PROTO_UDP,
                    ident,
                    udp_segment(s.local_ip@, s.remote_ip@, s.local_port, s.remote_port, data),
                ),
            )
            &&& t2 == t
        } else {
            r == EINVAL && pkt is None && t2 == t
        }
    }
}

/// The socket that descriptor `fd` names in table contents `t`, if any.
pub open spec fn socket_in(t: Seq<Option<Socket>>, fd: usize) -> Option<Socket> {
    if valid_fd(fd) {
        t[slot(fd)]
    } else {
        None
    }
}

/// Whether `len` bytes sent on socket `s` fit in one IPv4 packet: with a
/// 20-byte TCP header on a connected stream socket, an 8-byte UDP header on a
/// connected datagram socket. Nothing is built otherwise.
pub open spec fn send_fits(s: Option<Socket>, len: int) -> bool {
    match s {
        Some(s) => s.state == SocketState::Connected ==> {
            &&& s.sock_type == SOCK_STREAM ==> len + TCP_HDR_LEN + IPV4_HDR_LEN <= 65535
            &&& s.sock_type == SOCK_DGRAM ==> len + UDP_HDR_LEN + IPV4_HDR_LEN <= 65535
        },
        None => true,
    }
}

/// `send(fd, data)`: on a connected stream socket, a PSH-ACK segment of its
/// connection; on a connected datagram socket, a UDP datagram to its remote
/// address. Returns the number of bytes sent and the packet to transmit.
pub fn sys_send(table: &mut SocketTable, fd: usize, data: &[u8], _flags: i32, ident: u16) -> (r: (
    i64,
    Option<Vec<u8>>,
))
    requires
        old(table).wf(),
        send_fits(socket_in(old(table)@, fd), data.len() as int),
    ensures
        final(table).wf(),
        forall|ps: Set<u16>|
            ports_cover(old(table)@, ps) ==> #[trigger] ports_cover(final(table)@, ps),
        send_outcome(old(table)@, final(table)@, fd, data@, ident, r.0, opt_bytes(r.1)),
{
    let mut sock = match table.take(fd) {
        Some(s) => s,
        None => {
            assert(table@ =~= old(table)@);
            return (EBADF, None);
        },
    };
    if sock.state != SocketState::Connected {
        table.put(fd, sock);
        assert(table@ =~= old(table)@);
        return (ENOTCONN, None);
    }
    if sock.sock_type == SOCK_STREAM {
        let ghost s0 = sock;
        match sock.tcp_conn.take() {
            Some(mut conn) => {
                let sent = conn.send(data, ident);
                sock.tcp_conn = Some(conn);
                table.put(fd, sock);
                match sent {
                    Some(pkt) => {
                        assert(table@ =~= old(table)@.update(slot(fd), table@[slot(fd)]));
                        (data.len() as i64, Some(pkt))
                    },
                    None => {
                        assert(table@ =~= old(table)@);
                        (ENOTCONN, None)
                    },
                }
            },
            None => {
                table.put(fd, sock);
                assert(table@ =~= old(table)@);
                (ENOTCONN, None)
            },
        }
    } else if sock.sock_type == SOCK_DGRAM {
        let pkt = build_udp(
            sock.local_ip,
            sock.remote_ip,
            sock.local_port,
            sock.remote_port,
            data,
            ident,
        );
        table.put(fd, sock);
        assert(table@ =~= old(table)@);
        (data.len() as i64, Some(pkt))
    } else {
        table.put(fd, sock);
        assert(table@ =~= old(table)@);
        (EINVAL, None)
    }
}

/// Outcome of `recv` into a buffer `b` (becoming `b2`) on socket table `t`
/// (becoming `t2`).
pub open spec fn recv_outcome(
    t: Seq<Option<Socket>>,
    t2: Seq<Option<Socket>>,
    fd: usize,
    b: Seq<u8>,
    b2: Seq<u8>,
    r: i64,
) -> bool {
    if !valid_fd(fd) || t[slot(fd)] is None {
        r == EBADF && t2 == t && b2 == b
    } else {
        let s = t[slot(fd)].unwrap();
        let avail = s.rx_buf@.len();
        let n = if b.len() < avail {
            b.len()
        } else {
            avail
        };
        if s.state != SocketState::Connected && s.state != SocketState::CloseWait {
            r == ENOTCONN && t2 == t && b2 == b
        } else if n == 0 {
            r == (if s.nonblocking {
                EAGAIN
            } else {
                0
            }) && t2 == t && b2 == b
        } else {
            &&& r == n
            &&& b2 == s.rx_buf@.take(n as int) + b.skip(n as int)
            &&& t2 == t.update(slot(fd), t2[slot(fd)])
            &&& t2[slot(fd)] matches Some(ns) && (ns == Socket { rx_buf: ns.rx_buf, ..s }
                && ns.rx_buf@ == s.rx_buf@.skip(n as int))
        }
    }
}

/// `recv(fd, buf)` on a connected (or half-closed) socket: move the oldest
/// received bytes into `buf`; returns how many.
pub fn sys_recv(table: &mut SocketTable, fd: usize, buf: &mut [u8], _flags: i32) -> (r: i64)
    requires
        old(table).wf(),
        old(buf)@.len() <= i64::MAX,
    ensures
        final(table).wf(),
        forall|ps: Set<u16>|
            ports_cover(old(table)@, ps) ==> #[trigger] ports_cover(final(table)@, ps),
        recv_outcome(old(table)@, final(table)@, fd, old(buf)@, final(buf)@, r),
{
    let mut sock = match table.take(fd) {
        Some(s) => s,
        None => {
            assert(table@ =~= old(table)@);
            return EBADF;
        },
    };
    if sock.state != SocketState::Connected && sock.state != SocketState::CloseWait {
        table.put(fd, sock);
        assert(table@ =~= old(table)@);
        return ENOTCONN;
    }
    let n = if buf.len() < sock.rx_buf.len() {
        buf.len()
    } else {
        sock.rx_buf.len()
    };
    if n == 0 {
        let nonblocking = sock.nonblocking;
        table.put(fd, sock);
        assert(table@ =~= old(table)@);
        return if nonblocking {
            EAGAIN
        } else {
            0
        };
    }
    let ghost rx0 = sock.rx_buf@;
    let ghost s_before = sock;
    let ghost buf0 = buf@;
    let mut i: usize = 0;
    assert(rx0.skip(0) =~= rx0);
    assert(rx0.take(0) + buf0.skip(0) =~= buf0);
    while i < n
        invariant
            n <= buf0.len(),
            n <= rx0.len(),
            i <= n,
            buf@.len() == buf0.len(),
            buf@ == rx0.take(i as int) + buf0.skip(i as int),
            sock.rx_buf@ == rx0.skip(i as int),
            sock == (Socket { rx_buf: sock.rx_buf, ..s_before }),
        decreases n - i,
    {
        let b = sock.rx_buf.pop_front().unwrap();
        buf[i] = b;
        i = i + 1;
        assert(buf@ =~= rx0.take(i as int) + buf0.skip(i as int));
        assert(sock.rx_buf@ =~= rx0.skip(i as int));
    }
    let ghost s1 = sock;
    table.put(fd, sock);
    assert(table@ =~= old(table)@.update(slot(fd), table@[slot(fd)]));
    assert(table@[slot(fd)] == Some(s1));
    n as i64
}

/// The table after `sendto` names a destination: the socket of `fd`, if any,
/// gets that remote address, and a bound one becomes connected.
pub open spec fn sendto_target(
    t: Seq<Option<Socket>>,
    fd: usize,
    addr: Option<SockaddrIn>,
) -> Seq<Option<Socket>> {
    match addr {
        Some(a) => if valid_fd(fd) && t[slot(fd)] is Some {
            let s = t[slot(fd)].unwrap();
            t.update(
                slot(fd),
                Some(
                    Socket {
                        remote_ip: a.sin_addr,
                        remote_port: a.port_spec(),
                        state: if s.state == SocketState::Bound {
                            SocketState::Connected
                        } else {
                            s.state
                        },
                        ..s
                    },
                ),
            )
        } else {
            t
        },
        None => t,
    }
}

/// `sendto` addresses the socket to the destination given, whatever the
/// socket's state: afterwards the socket's remote address and port are that
/// destination's, and everything else but the state is as before; a bound
/// socket becomes connected and any other keeps its state.
pub proof fn lemma_sendto_sets_destination(t: Seq<Option<Socket>>, fd: usize, a: SockaddrIn)
    requires
        valid_fd(fd),
        t.len() == MAX_SOCKETS,
        t[slot(fd)] is Some,
    ensures
        ({
            let s = t[slot(fd)].unwrap();
            let t2 = sendto_target(t, fd, Some(a));
            &&& t2.len() == t.len()
            &&& forall|j: int| 0 <= j < t.len() && j != slot(fd) ==> t2[j] == t[j]
            &&& t2[slot(fd)] matches Some(s2) && {
                &&& s2.remote_ip == a.sin_addr
                &&& s2.remote_port == a.port_spec()
                &&& s2.local_ip == s.local_ip && s2.local_port == s.local_port
                &&& s2.sock_type == s.sock_type
                &&& s2.state == (if s.state == SocketState::Bound {
                    SocketState::Connected
                } else {
                    s.state
                })
            }
        }),
{
}

/// `sendto(fd, data, addr)`: `send`, after setting the socket's remote
/// address to `addr` when one is given (a bound socket then counts as
/// connected).
pub fn sys_sendto(
    table: &mut SocketTable,
    fd: usize,
    data: &[u8],
    flags: i32,
    addr: Option<&SockaddrIn>,
    ident: u16,
) -> (r: (i64, Option<Vec<u8>>))
    requires
        old(table).wf(),
        send_fits(
            socket_in(
                sendto_target(
                    old(table)@,
                    fd,
                    match addr {
                        Some(a) => Some(*a),
                        None => None,
                    },
                ),
                fd,
            ),
            data.len() as int,
        ),
    ensures
        final(table).wf(),
        forall|ps: Set<u16>|
            ports_cover(old(table)@, ps) ==> #[trigger] ports_cover(final(table)@, ps),
        send_outcome(
            sendto_target(
                old(table)@,
                fd,
                match addr {
                    Some(a) => Some(*a),
                    None => None,
                },
            ),
            final(table)@,
            fd,
            data@,
            ident,
            r.0,
            opt_bytes(r.1),
        ),
        match addr {
            Some(a) => old(table).socket_at(fd) is Some ==> (final(table).socket_at(fd) matches Some(
                s2,
            ) && s2.remote_ip == a.sin_addr && s2.remote_port == a.port_spec()),
            None => true,
        },
        match (addr, old(table).socket_at(fd)) {
            (Some(a), Some(s)) => s.sock_type == SOCK_DGRAM && (s.state == SocketState::Bound
                || s.state == SocketState::Connected) ==> {
                &&& r.0 == data@.len()
                &&& opt_bytes(r.1) == Some(
                    ipv4_packet(
                        s.local_ip@,
                        a.sin_addr@,
                        PROTO_UDP,
                        ident,
                        udp_segment(s.local_ip@, a.sin_addr@, s.local_port, a.port_spec(), data@),
                    ),
                )
            },
            _ => true,
        },
{
    match addr {
        Some(a) => {
            match table.take(fd) {
                Some(mut sock) => {
                    sock.remote_ip = a.ip();
                    sock.remote_port = a.port();
                    if sock.state == SocketState::Bound {
                        sock.state = SocketState::Connected;
                    }
                    table.put(fd, sock);
                    assert(table@ =~= sendto_target(old(table)@, fd, Some(*a)));
                },
                None => {
                    assert(table@ =~= old(table)@);
                },
            }
        },
        None => {},
    }
    sys_send(table, fd, data, flags, ident)
}

/// `recvfrom(fd, buf)`: `recv`, reporting the socket's remote address when
/// bytes were received.
pub fn sys_recvfrom(table: &mut SocketTable, fd: usize, buf: &mut [u8], flags: i32) -> (r: (
    i64,
    Option<SockaddrIn>,
))
    requires
        old(table).wf(),
        old(buf)@.len() <= i64::MAX,
    ensures
        final(table).wf(),
        forall|ps: Set<u16>|
            ports_cover(old(table)@, ps) ==> #[trigger] ports_cover(final(table)@, ps),
        recv_outcome(old(table)@, final(table)@, fd, old(buf)@, final(buf)@, r.0),
        r.0 > 0 ==> (r.1 matches Some(a) && (final(table).socket_at(fd) matches Some(s)
            && is_inet_addr(a, s.remote_ip, s.remote_port))),
        r.0 <= 0 ==> r.1 is None,
{
    let n = sys_recv(table, fd, buf, flags);
    if n > 0 {
        match table.get(fd) {
            Some(sock) => {
                return (n, Some(inet_addr(sock.remote_ip, sock.remote_port)));
            },
            None => {},
        }
    }
    (n, None)
}

/// Whether socket `s` has a TCP connection with the peer `src_ip:src_port`.
pub open spec fn peer_is(s: Socket, src_ip: [u8; 4], src_port: u16) -> bool {
    &&& s.remote_ip@ == src_ip@
    &&& s.remote_port == src_port
    &&& s.tcp_conn is Some
}

/// Whether queued connection `s` is with `src_ip:src_port` and still waits
/// for the ACK that completes its handshake (its TCP state is SYN_RECEIVED).
pub open spec fn awaits_ack(s: Socket, src_ip: [u8; 4], src_port: u16) -> bool {
    peer_is(s, src_ip, src_port) && s.tcp_conn.unwrap().state == TcpState::SynReceived
}

/// Whether one of the queued connections `b` with `src_ip:src_port` still
/// waits for the ACK of its handshake.
pub open spec fn has_pending(b: Seq<Socket>, src_ip: [u8; 4], src_port: u16) -> bool {
    exists|k: int| 0 <= k < b.len() && awaits_ack(#[trigger] b[k], src_ip, src_port)
}

/// Whether `k` is the first of the queued connections `b` with
/// `src_ip:src_port` that waits for the ACK of its handshake.
pub open spec fn is_first_pending(b: Seq<Socket>, k: int, src_ip: [u8; 4], src_port: u16) -> bool {
    &&& 0 <= k < b.len()
    &&& awaits_ack(b[k], src_ip, src_port)
    &&& forall|j: int| 0 <= j < k ==> !awaits_ack(#[trigger] b[j], src_ip, src_port)
}

/// Whether segment `hdr` from `src_ip:src_port` to port `dst_port` is for
/// socket `o`: a listening socket on that port that receives a SYN without
/// ACK or has a queued connection with the sender still waiting for the ACK
/// of its handshake, or a connected stream socket on that port whose peer is
/// the sender.
pub open spec fn tcp_target(
    o: Option<Socket>,
    src_ip: [u8; 4],
    src_port: u16,
    dst_port: u16,
    hdr: TcpHdr,
) -> bool {
    o matches Some(s) && s.local_port == dst_port && ((s.state == SocketState::Listening && ((
    hdr.has_syn() && !hdr.has_ack()) || has_pending(s.backlog@, src_ip, src_port))) || (s.state
        == SocketState::Connected && peer_is(s, src_ip, src_port)))
}

/// Whether `n` is socket `p` after segment `hdr` with `payload` from `src_ip`
/// reached it, with `reply` to transmit: the payload is appended to its
/// receive buffer and its connection takes one `tcp_step`.
pub open spec fn socket_stepped(
    p: Socket,
    n: Socket,
    src_ip: [u8; 4],
    hdr: TcpHdr,
    payload: Seq<u8>,
    ident: u16,
    reply: Option<Seq<u8>>,
) -> bool {
    &&& n == Socket { rx_buf: n.rx_buf, tcp_conn: n.tcp_conn, ..p }
    &&& n.rx_buf@ == p.rx_buf@ + payload
    &&& p.tcp_conn matches Some(c0) && {
        let (c1, out) = tcp_step(c0@, src_ip, hdr, payload, ident);
        &&& n.tcp_conn matches Some(c) && c@ == c1
        &&& reply == out
    }
}

/// Whether `n` is the pending connection that a listening socket queues for a
/// SYN with sequence number `seq` from `src_ip:src_port` to `our_ip:dst_port`,
/// whose SYN-ACK is `reply`: a connected stream socket, ready for `accept`,
/// whose connection is in SYN_RECEIVED, expecting `seq + 1`, with its SYN
/// counted as sent. The connection becomes established when the peer
/// acknowledges the SYN-ACK, whether or not the socket was accepted by then.
pub open spec fn pending_socket(
    n: Socket,
    our_ip: [u8; 4],
    dst_port: u16,
    src_ip: [u8; 4],
    src_port: u16,
    seq: u32,
    ident: u16,
    reply: Option<Seq<u8>>,
) -> bool {
    &&& n.sock_type == SOCK_STREAM
    &&& n.state == SocketState::Connected
    &&& n.local_ip == our_ip
    &&& n.local_port == dst_port
    &&& n.remote_ip == src_ip
    &&& n.remote_port == src_port
    &&& n.rx_buf@ == Seq::<u8>::empty()
    &&& n.tx_buf@ == Seq::<u8>::empty()
    &&& n.backlog@ == Seq::<Socket>::empty()
    &&& !n.nonblocking
    &&& !n.reuse_addr
    &&& n.tcp_conn matches Some(c) && exists|isn: u32|
        {
            let syn_rcvd = TcpModel {
                remote_ip: src_ip,
                remote_port: src_port,
                rcv_nxt: seq_add(seq, 1),
                state: TcpState::SynReceived,
                ..#[trigger] fresh_conn(our_ip, dst_port, isn)
            };
            &&& c@ == (TcpModel { snd_nxt: seq_add(isn, 1), ..syn_rcvd })
            &&& reply == Some(conn_packet(syn_rcvd, TCP_SYN | TCP_ACK, Seq::empty(), ident))
        }
}

/// Whether `s` is a stream socket on `dst_port` whose peer is `src_ip:src_port`.
fn peer_matches(s: &Socket, src_ip: &[u8; 4], src_port: u16) -> (r: bool)
    ensures
        r == peer_is(*s, *src_ip, src_port),
{
    same_addr(&s.remote_ip, src_ip) && s.remote_port == src_port && s.tcp_conn.is_some()
}

/// Whether queued connection `s` is with `src_ip:src_port` and in SYN_RECEIVED.
fn awaits_ack_of(s: &Socket, src_ip: &[u8; 4], src_port: u16) -> (r: bool)
    ensures
        r == awaits_ack(*s, *src_ip, src_port),
{
    if !peer_matches(s, src_ip, src_port) {
        return false;
    }
    match &s.tcp_conn {
        Some(c) => c.state == TcpState::SynReceived,
        None => false,
    }
}

/// The first queued connection of `b` with `src_ip:src_port` that waits for
/// the ACK of its handshake, if any.
fn find_pending(b: &VecDeque<Socket>, src_ip: &[u8; 4], src_port: u16) -> (r: Option<usize>)
    ensures
        match r {
            Some(k) => is_first_pending(b@, k as int, *src_ip, src_port),
            None => !has_pending(b@, *src_ip, src_port),
        },
{
    let mut k: usize = 0;
    while k < b.len()
        invariant
            k <= b@.len(),
            forall|j: int| 0 <= j < k ==> !awaits_ack(#[trigger] b@[j], *src_ip, src_port),
        decreases b@.len() - k,
    {
        if awaits_ack_of(&b[k], src_ip, src_port) {
            return Some(k);
        }
        k = k + 1;
    }
    None
}

/// Let segment `hdr` with `payload` from `src_ip` reach socket `sock`, which
/// has a TCP connection; returns the reply to transmit.
fn step_socket(sock: &mut Socket, src_ip: [u8; 4], hdr: &TcpHdr, payload: &[u8], ident: u16) -> (r:
    Option<Vec<u8>>)
    requires
        old(sock).tcp_conn is Some,
    ensures
        socket_stepped(*old(sock), *final(sock), src_ip, *hdr, payload@, ident, opt_bytes(r)),
{
    let mut conn = sock.tcp_conn.take().unwrap();
    append_bytes(&mut sock.rx_buf, payload);
    let reply = conn.process(src_ip, hdr, payload, ident);
    sock.tcp_conn = Some(conn);
    reply
}

/// Deliver an incoming TCP segment to the first socket it is for (see
/// `tcp_target`). A listening socket answers a SYN without ACK by queuing a
/// new connected socket whose connection is in SYN_RECEIVED, and answers
/// SYN-ACK; it passes any other segment to its first queued connection with
/// the sender that still waits for the ACK of its handshake. A connected
/// socket receives the payload and its connection processes the segment.
/// Returns the reply to transmit.
pub fn deliver_tcp(
    table: &mut SocketTable,
    src_ip: [u8; 4],
    src_port: u16,
    dst_port: u16,
    hdr: &TcpHdr,
    payload: &[u8],
    our_ip: [u8; 4],
    isn_counter: &AtomicU32,
    ident: u16,
) -> (r: Option<Vec<u8>>)
    requires
        old(table).wf(),
    ensures
        final(table).wf(),
        forall|ps: Set<u16>|
            ports_cover(old(table)@, ps) ==> #[trigger] ports_cover(final(table)@, ps),
        forall|i: int|
            0 <= i < MAX_SOCKETS && (#[trigger] old(table)@[i] matches Some(s) && s.state
                == SocketState::Connected && !(s.remote_ip@ == src_ip@ && s.remote_port == src_port))
                ==> final(table)@[i] == old(table)@[i],
        (forall|i: int|
            0 <= i < MAX_SOCKETS ==> !tcp_target(old(table)@[i], src_ip, src_port, dst_port, *hdr))
            ==> r is None && final(table)@ == old(table)@,
        forall|i: int|
            0 <= i < MAX_SOCKETS && tcp_target(old(table)@[i], src_ip, src_port, dst_port, *hdr)
                && (forall|j: int|
                0 <= j < i ==> !tcp_target(old(table)@[j], src_ip, src_port, dst_port, *hdr))
                ==> {
                &&& final(table)@ == old(table)@.update(i, final(table)@[i])
                &&& old(table)@[i] matches Some(s) && (final(table)@[i] matches Some(ns) && if s.state
                    == SocketState::Listening {
                    &&& ns == Socket { backlog: ns.backlog, ..s }
                    &&& if hdr.has_syn() && !hdr.has_ack() {
                        &&& ns.backlog@.len() == s.backlog@.len() + 1
                        &&& ns.backlog@.take(s.backlog@.len() as int) == s.backlog@
                        &&& pending_socket(
                            ns.backlog@.last(),
                            our_ip,
                            dst_port,
                            src_ip,
                            src_port,
                            hdr.seq_num(),
                            ident,
                            opt_bytes(r),
                        )
                    } else {
                        &&& ns.backlog@.len() == s.backlog@.len()
                        &&& forall|k: int|
                            is_first_pending(s.backlog@, k, src_ip, src_port) ==> {
                                &&& ns.backlog@ == s.backlog@.update(k, ns.backlog@[k])
                                &&& socket_stepped(
                                    #[trigger] s.backlog@[k],
                                    ns.backlog@[k],
                                    src_ip,
                                    *hdr,
                                    payload@,
                                    ident,
                                    opt_bytes(r),
                                )
                            }
                    }
                } else {
                    socket_stepped(s, ns, src_ip, *hdr, payload@, ident, opt_bytes(r))
                })
            },
{
    let mut i: usize = 0;
    while i < MAX_SOCKETS
        invariant
            i <= MAX_SOCKETS,
            table.wf(),
            table@ == old(table)@,
            forall|j: int| 0 <= j < i ==> !tcp_target(table@[j], src_ip, src_port, dst_port, *hdr),
        decreases MAX_SOCKETS - i,
    {
        let fd = i + SOCKET_FD_BASE;
        let is_target = match table.get(fd) {
            Some(sock) => {
                sock.local_port == dst_port && ((sock.state == SocketState::Listening && ((
                hdr.has_syn() && !hdr.has_ack()) || find_pending(&sock.backlog, &src_ip, src_port).is_some()))
                    || (sock.state == SocketState::Connected && peer_matches(sock, &src_ip, src_port)))
            },
            None => false,
        };
        if is_target {
            let mut sock = table.take(fd).unwrap();
            let ghost s0 = sock;
            if sock.state == SocketState::Listening {
                if hdr.has_syn() && !hdr.has_ack() {
                    let mut new_conn = TcpConn::new(our_ip, dst_port, isn_counter);
                    let ghost isn = choose|isn: u32| new_conn@ == fresh_conn(our_ip, dst_port, isn);
                    new_conn.remote_ip = src_ip;
                    new_conn.remote_port = src_port;
                    new_conn.rcv_nxt = hdr.seq_num().wrapping_add(1);
                    new_conn.state = TcpState::SynReceived;
                    let reply = new_conn.build_tcp_pkt(TCP_SYN | TCP_ACK, no_data(), ident);
                    new_conn.snd_nxt = new_conn.snd_nxt.wrapping_add(1);
                    let mut new_sock = Socket::new(SOCK_STREAM);
                    new_sock.local_ip = our_ip;
                    new_sock.local_port = dst_port;
                    new_sock.remote_ip = src_ip;
                    new_sock.remote_port = src_port;
                    new_sock.state = SocketState::Connected;
                    new_sock.tcp_conn = Some(new_conn);
                    sock.backlog.push_back(new_sock);
                    assert(sock.backlog@.take(s0.backlog@.len() as int) =~= s0.backlog@);
                    table.put(fd, sock);
                    assert(table@ =~= old(table)@.update(i as int, table@[i as int]));
                    return Some(reply);
                } else {
                    let k = find_pending(&sock.backlog, &src_ip, src_port).unwrap();
                    let mut pending = sock.backlog.remove(k).unwrap();
                    let reply = step_socket(&mut pending, src_ip, hdr, payload, ident);
                    sock.backlog.insert(k, pending);
                    assert(sock.backlog@ =~= s0.backlog@.update(k as int, sock.backlog@[k as int]));
                    assert forall|k2: int|
                        is_first_pending(s0.backlog@, k2, src_ip, src_port) implies k2 == k by {
                        if k2 < k {
                            assert(!awaits_ack(s0.backlog@[k2], src_ip, src_port));
                        } else if k2 > k {
                            assert(!awaits_ack(s0.backlog@[k as int], src_ip, src_port));
                        }
                    }
                    table.put(fd, sock);
                    assert(table@ =~= old(table)@.update(i as int, table@[i as int]));
                    return reply;
                }
            } else {
                let reply = step_socket(&mut sock, src_ip, hdr, payload, ident);
                table.put(fd, sock);
                assert(table@ =~= old(table)@.update(i as int, table@[i as int]));
                return reply;
            }
        }
        i = i + 1;
    }
    None
}

/// Segments reach connected sockets by peer: a connected socket is a target
/// of a segment only when its remote address and port are the segment's
/// source address and port, so a segment from a peer without a connection on
/// the port reaches no connected socket.
pub proof fn lemma_tcp_target_connected_is_peer(
    s: Socket,
    src_ip: [u8; 4],
    src_port: u16,
    dst_port: u16,
    hdr: TcpHdr,
)
    requires
        s.state == SocketState::Connected,
        tcp_target(Some(s), src_ip, src_port, dst_port, hdr),
    ensures
        s.remote_ip == src_ip,
        s.remote_port == src_port,
        s.local_port == dst_port,
{
    assert(s.remote_ip@ =~= src_ip@);
}

/// Three-way handshake on a listening socket: the connection queued for a
/// SYN is a connected socket whose TCP connection is in SYN_RECEIVED; a
/// segment from the peer that acknowledges its SYN-ACK (ACK of `snd_nxt`)
/// moves the connection to ESTABLISHED, and any other segment without a SYN
/// leaves it unchanged in SYN_RECEIVED. Neither answers anything.
pub proof fn lemma_handshake_completes(
    n: Socket,
    n2: Socket,
    our_ip: [u8; 4],
    dst_port: u16,
    src_ip: [u8; 4],
    src_port: u16,
    seq: u32,
    ident: u16,
    reply: Option<Seq<u8>>,
    hdr: TcpHdr,
    payload: Seq<u8>,
    ident2: u16,
    reply2: Option<Seq<u8>>,
)
    requires
        pending_socket(n, our_ip, dst_port, src_ip, src_port, seq, ident, reply),
        socket_stepped(n, n2, src_ip, hdr, payload, ident2, reply2),
    ensures
        n.state == SocketState::Connected,
        awaits_ack(n, src_ip, src_port),
        n2.state == SocketState::Connected,
        reply2 is None,
        if hdr.has_ack() && hdr.ack_num() == n.tcp_conn.unwrap().snd_nxt {
            &&& n2.tcp_conn.unwrap().state == TcpState::Established
            &&& n2.tcp_conn.unwrap().snd_una == hdr.ack_num()
            &&& n2.tcp_conn.unwrap().rcv_nxt == seq_add(seq, 1)
        } else {
            n2.tcp_conn.unwrap()@ == n.tcp_conn.unwrap()@
        },
{
}

/// Whether a datagram to port `dst_port` is for socket `o`: a datagram
/// socket bound to that port.
pub open spec fn udp_target(o: Option<Socket>, dst_port: u16) -> bool {
    o matches Some(s) && s.sock_type == SOCK_DGRAM && s.local_port == dst_port
}

/// Deliver an incoming datagram to the first datagram socket on `dst_port`:
/// its payload is appended to the socket's receive buffer and the sender
/// becomes the socket's remote address.
pub fn deliver_udp(
    table: &mut SocketTable,
    src_ip: [u8; 4],
    src_port: u16,
    dst_port: u16,
    payload: &[u8],
)
    requires
        old(table).wf(),
    ensures
        final(table).wf(),
        forall|ps: Set<u16>|
            ports_cover(old(table)@, ps) ==> #[trigger] ports_cover(final(table)@, ps),
        (forall|i: int| 0 <= i < MAX_SOCKETS ==> !udp_target(old(table)@[i], dst_port))
            ==> final(table)@ == old(table)@,
        forall|i: int|
            0 <= i < MAX_SOCKETS && udp_target(old(table)@[i], dst_port) && (forall|j: int|
                0 <= j < i ==> !udp_target(old(table)@[j], dst_port)) ==> {
                &&& final(table)@ == old(table)@.update(i, final(table)@[i])
                &&& old(table)@[i] matches Some(s) && (final(table)@[i] matches Some(ns) && ns
                    == Socket { remote_ip: src_ip, remote_port: src_port, rx_buf: ns.rx_buf, ..s }
                    && ns.rx_buf@ == s.rx_buf@ + payload@)
            },
{
    let mut i: usize = 0;
    while i < MAX_SOCKETS
        invariant
            i <= MAX_SOCKETS,
            table.wf(),
            table@ == old(table)@,
            forall|j: int| 0 <= j < i ==> !udp_target(table@[j], dst_port),
        decreases MAX_SOCKETS - i,
    {
        let fd = i + SOCKET_FD_BASE;
        let is_target = match table.get(fd) {
            Some(sock) => sock.sock_type == SOCK_DGRAM && sock.local_port == dst_port,
            None => false,
        };
        if is_target {
            let mut sock = table.take(fd).unwrap();
            sock.remote_ip = src_ip;
            sock.remote_port = src_port;
            append_bytes(&mut sock.rx_buf, payload);
            table.put(fd, sock);
            assert(table@ =~= old(table)@.update(i as int, table@[i as int]));
            return ;
        }
        i = i + 1;
    }
}

/// What a socket received is what `recv` returns: on a connected socket
/// holding received bytes `d`, a `recv` into a buffer with room for all of
/// them returns their count, fills the buffer's front with them in order and
/// leaves nothing behind.
pub proof fn lemma_recv_returns_received(
    t: Seq<Option<Socket>>,
    t2: Seq<Option<Socket>>,
    fd: usize,
    b: Seq<u8>,
    b2: Seq<u8>,
    r: i64,
)
    requires
        valid_fd(fd),
        t.len() == MAX_SOCKETS,
        t[slot(fd)] matches Some(s) && s.state == SocketState::Connected && s.rx_buf@.len() > 0
            && b.len() >= s.rx_buf@.len(),
        recv_outcome(t, t2, fd, b, b2, r),
    ensures
        ({
            let d = t[slot(fd)].unwrap().rx_buf@;
            &&& r == d.len()
            &&& b2.take(d.len() as int) == d
            &&& t2[slot(fd)] matches Some(ns) && ns.rx_buf@.len() == 0
        }),
{
    let d = t[slot(fd)].unwrap().rx_buf@;
    assert((d.take(d.len() as int) + b.skip(d.len() as int)).take(d.len() as int) =~= d);
}

} // verus!
