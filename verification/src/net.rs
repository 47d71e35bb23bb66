//! The in-memory network fabric: endpoint registry, full-duplex socket
//! pairs, and per-direction bounded byte queues.
//!
//! A socket pair is two half-sockets wired back to back; each direction
//! is a bounded FIFO of bytes with a ghost history of everything ever
//! submitted, so delivery in write-submission order and the
//! read-equals-written accounting are stated and proved exactly.

use vstd::prelude::*;
use crate::errors::ErrorKind;

verus! {

pub const DEFAULT_CAPACITY: usize = 65536;
pub const EPHEMERAL_LO: u16 = 49152;
pub const LOCALHOST_IP: u32 = 0x7F00_0001;

/// A simulated endpoint address: an IPv4 address and a port.
#[derive(Clone, Copy, PartialEq, Eq, Structural, Debug, Hash)]
pub struct Addr {
    pub ip: u32,
    pub port: u16,
}

impl Addr {
    pub fn new(ip: u32, port: u16) -> (r: Addr)
        ensures
            r.ip == ip,
            r.port == port,
    {
        Addr { ip, port }
    }

    /// An address from dotted-quad octets.
    pub fn v4(a: u8, b: u8, c: u8, d: u8, port: u16) -> (r: Addr)
        ensures
            r.ip == ((a as u32) << 24) | ((b as u32) << 16) | ((c as u32) << 8) | (d as u32),
            r.port == port,
    {
        let ip: u32 = ((a as u32) << 24) | ((b as u32) << 16) | ((c as u32) << 8) | (d as u32);
        Addr { ip, port }
    }

    pub fn localhost(port: u16) -> (r: Addr)
        ensures
            r.ip == LOCALHOST_IP,
            r.port == port,
    {
        Addr { ip: LOCALHOST_IP, port }
    }
}

/// One direction of a socket pair: the bytes in flight, the fixed
/// capacity, whether the writing side is gone, and the ghost history of
/// every byte ever submitted.
pub struct DirState {
    pub buf: Vec<u8>,
    pub capacity: usize,
    pub closed: bool,
    pub hist: Ghost<Seq<u8>>,
}

impl DirState {
    /// The bytes already taken out by the reader, in order.
    pub open spec fn delivered(&self) -> Seq<u8> {
        self.hist@.take(self.hist@.len() - self.buf@.len())
    }

    /// The queue holds exactly the not-yet-read suffix of the history,
    /// within capacity.
    pub open spec fn wf(&self) -> bool {
        &&& self.buf@.len() <= self.capacity
        &&& self.buf@.len() <= self.hist@.len()
        &&& self.buf@ == self.hist@.skip(self.hist@.len() - self.buf@.len())
    }

    pub fn new(capacity: usize) -> (r: DirState)
        ensures
            r.wf(),
            r.buf@.len() == 0,
            r.capacity == capacity,
            !r.closed,
            r.hist@.len() == 0,
    {
        let r = DirState { buf: Vec::new(), capacity, closed: false, hist: Ghost(Seq::empty()) };
        proof {
            assert(r.buf@ =~= r.hist@.skip(0));
        }
        r
    }
}

/// Total bytes read equal total bytes written once the reader observes
/// end of stream: a closed direction with a drained queue has delivered
/// its entire history.
pub proof fn lemma_eof_accounts_all_bytes(d: DirState)
    requires
        d.wf(),
        d.buf@.len() == 0,
    ensures
        d.delivered() == d.hist@,
{
    assert(d.delivered() =~= d.hist@);
}

/// Writing `data` into a direction whose queue holds `pending` enqueues
/// `data` behind it, and a read of `data.len()` bytes from a direction
/// that held nothing else returns `data` byte-identically. This is the
/// echo round trip with no fault injector active, composed from the
/// `write` and `read` contracts.
pub proof fn lemma_write_read_round_trip(pending: Seq<u8>, data: Seq<u8>)
    requires
        pending.len() == 0,
    ensures
        (pending + data.take(data.len() as int)).take(data.len() as int) == data,
{
    assert((pending + data.take(data.len() as int)).take(data.len() as int) =~= data);
}

} // verus!

verus! {

/// Which half of a socket pair a handle names.
#[derive(Clone, Copy, PartialEq, Eq, Structural, Debug)]
pub enum Side {
    A,
    B,
}

/// The other half.
pub open spec fn opposite(s: Side) -> Side {
    match s {
        Side::A => Side::B,
        Side::B => Side::A,
    }
}

/// A capability naming one half of one socket pair in a fabric.
#[derive(Clone, Copy, PartialEq, Eq, Structural, Debug)]
pub struct SocketHandle {
    pub pair: usize,
    pub side: Side,
}

/// A full-duplex socket pair: two directed byte queues, the local
/// address of each half, and liveness plus read-shutdown flags.
pub struct PairState {
    pub a_to_b: DirState,
    pub b_to_a: DirState,
    pub a_addr: Addr,
    pub b_addr: Addr,
    pub a_open: bool,
    pub b_open: bool,
    pub a_read_shut: bool,
    pub b_read_shut: bool,
}

impl PairState {
    pub open spec fn wf(&self) -> bool {
        self.a_to_b.wf() && self.b_to_a.wf()
    }
}

/// The direction a half writes into.
pub open spec fn out_dir(p: PairState, s: Side) -> DirState {
    match s {
        Side::A => p.a_to_b,
        Side::B => p.b_to_a,
    }
}

/// The direction a half reads from.
pub open spec fn in_dir(p: PairState, s: Side) -> DirState {
    match s {
        Side::A => p.b_to_a,
        Side::B => p.a_to_b,
    }
}

pub open spec fn read_shut_of(p: PairState, s: Side) -> bool {
    match s {
        Side::A => p.a_read_shut,
        Side::B => p.b_read_shut,
    }
}

pub open spec fn open_of(p: PairState, s: Side) -> bool {
    match s {
        Side::A => p.a_open,
        Side::B => p.b_open,
    }
}

/// A bound listener: its address, the FIFO of connected-but-unaccepted
/// peer halves in connect-arrival order, and whether it is still open.
pub struct ListenerSlot {
    pub addr: Addr,
    pub inbound: Vec<SocketHandle>,
    pub open: bool,
}

/// The next ephemeral port after `p`, wrapping within the range.
pub open spec fn eph_wrap(p: u16) -> u16 {
    if p == 65535 {
        EPHEMERAL_LO
    } else {
        (p + 1) as u16
    }
}

/// The process-wide network state shared by every handle of one
/// runtime: the endpoint registry, all socket pairs, all listeners, and
/// a per-IP ephemeral port counter.
pub struct Fabric {
    pub pairs: Vec<PairState>,
    pub listeners: Vec<ListenerSlot>,
    pub endpoints: Vec<(Addr, usize)>,
    pub eph: Vec<(u32, u16)>,
    pub capacity: usize,
}

impl Fabric {
    /// Whether a listener is registered at `a`.
    pub open spec fn registered(&self, a: Addr) -> bool {
        exists|i: int| 0 <= i < self.endpoints@.len() && (#[trigger] self.endpoints@[i]).0 == a
    }

    /// Whether `h` names an existing pair.
    pub open spec fn handle_ok(&self, h: SocketHandle) -> bool {
        (h.pair as int) < self.pairs@.len()
    }

    pub open spec fn pair_of(&self, h: SocketHandle) -> PairState {
        self.pairs@[h.pair as int]
    }

    pub open spec fn local_addr_spec(&self, h: SocketHandle) -> Addr {
        match h.side {
            Side::A => self.pair_of(h).a_addr,
            Side::B => self.pair_of(h).b_addr,
        }
    }

    pub open spec fn peer_addr_spec(&self, h: SocketHandle) -> Addr {
        match h.side {
            Side::A => self.pair_of(h).b_addr,
            Side::B => self.pair_of(h).a_addr,
        }
    }

    pub open spec fn half_open(&self, h: SocketHandle) -> bool {
        open_of(self.pair_of(h), h.side)
    }

    /// Registry entries point at listeners, addresses are registered at
    /// most once, queued inbound handles name existing peer halves, the
    /// ephemeral counters track one IP each within the ephemeral range,
    /// and every byte queue is well-formed.
    pub open spec fn wf(&self) -> bool {
        &&& forall|i: int|
            0 <= i < self.endpoints@.len() ==> (#[trigger] self.endpoints@[i]).1
                < self.listeners@.len()
        &&& forall|i: int, j: int|
            0 <= i < self.endpoints@.len() && 0 <= j < self.endpoints@.len() && i != j
                ==> (#[trigger] self.endpoints@[i]).0 != (#[trigger] self.endpoints@[j]).0
        &&& forall|li: int, k: int|
            0 <= li < self.listeners@.len() && 0 <= k < self.listeners@[li].inbound@.len() ==> ((
            #[trigger] self.listeners@[li].inbound@[k]).pair as int) < self.pairs@.len()
                && self.listeners@[li].inbound@[k].side is B
        &&& forall|p: int| 0 <= p < self.pairs@.len() ==> (#[trigger] self.pairs@[p]).wf()
        &&& forall|i: int, j: int|
            0 <= i < self.eph@.len() && 0 <= j < self.eph@.len() && i != j ==> (
            #[trigger] self.eph@[i]).0 != (#[trigger] self.eph@[j]).0
        &&& forall|i: int|
            0 <= i < self.eph@.len() ==> EPHEMERAL_LO <= (#[trigger] self.eph@[i]).1
    }

    pub fn new(capacity: usize) -> (r: Fabric)
        ensures
            r.wf(),
            r.pairs@.len() == 0,
            r.listeners@.len() == 0,
            r.endpoints@.len() == 0,
            r.eph@.len() == 0,
            r.capacity == capacity,
    {
        Fabric {
            pairs: Vec::new(),
            listeners: Vec::new(),
            endpoints: Vec::new(),
            eph: Vec::new(),
            capacity,
        }
    }

    /// Finds the listener registered at `a`, if any.
    fn lookup(&self, a: Addr) -> (r: Option<usize>)
        ensures
            match r {
                Option::None => !self.registered(a),
                Option::Some(li) => self.registered(a) && (exists|i: int|
                    0 <= i < self.endpoints@.len() && #[trigger] self.endpoints@[i] == (a, li)),
            },
    {
        let mut i: usize = 0;
        while i < self.endpoints.len()
            invariant
                0 <= i <= self.endpoints@.len(),
                forall|j: int| 0 <= j < i ==> (#[trigger] self.endpoints@[j]).0 != a,
            decreases self.endpoints@.len() - i,
        {
            if self.endpoints[i].0 == a {
                return Some(self.endpoints[i].1);
            }
            i = i + 1;
        }
        None
    }

    /// The lowest port in the ephemeral range not registered for
    /// `ip`, or nothing when the whole range is taken.
    fn lowest_free_ephemeral(&self, ip: u32) -> (r: Option<u16>)
        ensures
            match r {
                Option::Some(p) => p >= EPHEMERAL_LO && !self.registered((Addr { ip, port: p }))
                    && (forall|q: u16|
                    EPHEMERAL_LO <= q < p ==> self.registered((Addr { ip, port: q }))),
                Option::None => forall|q: u16|
                    q >= EPHEMERAL_LO ==> self.registered((Addr { ip, port: q })),
            },
    {
        let mut p: u16 = EPHEMERAL_LO;
        loop
            invariant
                EPHEMERAL_LO <= p,
                forall|q: u16|
                    EPHEMERAL_LO <= q < p ==> self.registered((Addr { ip, port: q })),
            decreases 65535 - p,
        {
            if self.lookup(Addr { ip, port: p }).is_none() {
                return Some(p);
            }
            if p == 65535 {
                proof {
                    assert forall|q: u16| q >= EPHEMERAL_LO implies self.registered(
                        (Addr { ip, port: q }),
                    ) by {
                        if q < 65535 {
                        } else {
                            assert(q == 65535);
                        }
                    }
                }
                return None;
            }
            p = p + 1;
        }
    }

    /// Registers a listener. A requested port of zero means: assign the
    /// lowest free port in the ephemeral range. Binding a port that is
    /// already registered for this IP fails with `AddressInUse` and
    /// changes nothing.
    pub fn bind(&mut self, ip: u32, port: u16) -> (r: Result<(usize, Addr), ErrorKind>)
        requires
            old(self).wf(),
        ensures
            final(self).wf(),
            final(self).pairs@ == old(self).pairs@,
            final(self).eph@ == old(self).eph@,
            final(self).capacity == old(self).capacity,
            match r {
                Ok(ok) => {
                    let lid = ok.0;
                    let addr = ok.1;
                    &&& addr.ip == ip
                    &&& (port != 0 ==> addr.port == port)
                    &&& (port == 0 ==> addr.port >= EPHEMERAL_LO && (forall|q: u16|
                        EPHEMERAL_LO <= q < addr.port ==> old(self).registered(
                            (Addr { ip, port: q }),
                        )))
                    &&& !old(self).registered(addr)
                    &&& lid == old(self).listeners@.len()
                    &&& final(self).listeners@.len() == old(self).listeners@.len() + 1
                    &&& (forall|j: int|
                        0 <= j < old(self).listeners@.len() ==> final(self).listeners@[j] == old(self).listeners@[j])
                    &&& final(self).listeners@[lid as int].addr == addr
                    &&& final(self).listeners@[lid as int].inbound@.len() == 0
                    &&& final(self).listeners@[lid as int].open
                    &&& final(self).endpoints@ == old(self).endpoints@.push((addr, lid))
                    &&& final(self).registered(addr)
                },
                Err(e) => {
                    &&& e == ErrorKind::AddressInUse
                    &&& *final(self) == *old(self)
                    &&& (port != 0 ==> old(self).registered((Addr { ip, port })))
                    &&& (port == 0 ==> (forall|q: u16|
                        q >= EPHEMERAL_LO ==> old(self).registered((Addr { ip, port: q }))))
                },
            },
    {
        let resolved: u16;
        if port == 0 {
            match self.lowest_free_ephemeral(ip) {
                Option::None => {
                    return Err(ErrorKind::AddressInUse);
                },
                Option::Some(p) => {
                    resolved = p;
                },
            }
        } else {
            if self.lookup(Addr { ip, port }).is_some() {
                return Err(ErrorKind::AddressInUse);
            }
            resolved = port;
        }
        proof {
            assert(!self.registered((Addr { ip, port: resolved })));
        }
        let addr = Addr { ip, port: resolved };
        let lid = self.listeners.len();
        self.listeners.push(ListenerSlot { addr, inbound: Vec::new(), open: true });
        self.endpoints.push((addr, lid));
        proof {
            assert forall|i: int, j: int|
                0 <= i < self.endpoints@.len() && 0 <= j < self.endpoints@.len() && i != j implies (
            #[trigger] self.endpoints@[i]).0 != (#[trigger] self.endpoints@[j]).0 by {
                let n = old(self).endpoints@.len() as int;
                if i == n {
                    assert(!old(self).registered(addr));
                    assert(old(self).endpoints@[j] == self.endpoints@[j]);
                } else if j == n {
                    assert(!old(self).registered(addr));
                    assert(old(self).endpoints@[i] == self.endpoints@[i]);
                }
            }
            assert(self.registered(addr)) by {
                assert(self.endpoints@[self.endpoints@.len() - 1].0 == addr);
            }
        }
        Ok((lid, addr))
    }
}

} // verus!

verus! {

impl Fabric {
    /// The registry slot holding `a`; meaningful only when registered.
    pub open spec fn endpoint_index(&self, a: Addr) -> int {
        choose|i: int| 0 <= i < self.endpoints@.len() && (#[trigger] self.endpoints@[i]).0 == a
    }

    /// The listener registered at `a`; meaningful only when registered.
    pub open spec fn listener_at(&self, a: Addr) -> int {
        self.endpoints@[self.endpoint_index(a)].1 as int
    }

    pub fn local_addr(&self, h: SocketHandle) -> (r: Addr)
        requires
            self.handle_ok(h),
        ensures
            r == self.local_addr_spec(h),
    {
        match h.side {
            Side::A => self.pairs[h.pair].a_addr,
            Side::B => self.pairs[h.pair].b_addr,
        }
    }

    pub fn peer_addr(&self, h: SocketHandle) -> (r: Addr)
        requires
            self.handle_ok(h),
        ensures
            r == self.peer_addr_spec(h),
    {
        match h.side {
            Side::A => self.pairs[h.pair].b_addr,
            Side::B => self.pairs[h.pair].a_addr,
        }
    }

    /// Hands out the next ephemeral source port for `ip` and advances
    /// that IP's counter, starting a counter at the bottom of the range
    /// the first time an IP connects.
    fn alloc_eph(&mut self, ip: u32) -> (p: u16)
        requires
            old(self).wf(),
        ensures
            final(self).wf(),
            p >= EPHEMERAL_LO,
            final(self).pairs@ == old(self).pairs@,
            final(self).listeners@ == old(self).listeners@,
            final(self).endpoints@ == old(self).endpoints@,
            final(self).capacity == old(self).capacity,
            (exists|i: int|
                0 <= i < old(self).eph@.len() && #[trigger] old(self).eph@[i] == (ip, p) && final(self).eph@ == old(self).eph@.update(i, (ip, eph_wrap(p)))) || ((forall|i: int|
                0 <= i < old(self).eph@.len() ==> (#[trigger] old(self).eph@[i]).0 != ip) && p
                == EPHEMERAL_LO && final(self).eph@ == old(self).eph@.push((ip, eph_wrap(p)))),
    {
        let mut i: usize = 0;
        while i < self.eph.len()
            invariant
                0 <= i <= self.eph@.len(),
                forall|j: int| 0 <= j < i ==> (#[trigger] self.eph@[j]).0 != ip,
                *self == *old(self),
                old(self).wf(),
            decreases self.eph@.len() - i,
        {
            if self.eph[i].0 == ip {
                let p = self.eph[i].1;
                proof {
                    assert(EPHEMERAL_LO <= (old(self).eph@[i as int]).1);
                    assert(old(self).eph@[i as int] == (ip, p));
                }
                let np: u16 = if p == 65535 {
                    EPHEMERAL_LO
                } else {
                    p + 1
                };
                self.eph.set(i, (ip, np));
                proof {
                    assert(np == eph_wrap(p));
                    assert forall|a: int, b: int|
                        0 <= a < self.eph@.len() && 0 <= b < self.eph@.len() && a != b implies (
                    self.eph@[a]).0 != (self.eph@[b]).0 by {
                        assert((self.eph@[a]).0 == (old(self).eph@[a]).0);
                        assert((self.eph@[b]).0 == (old(self).eph@[b]).0);
                    }
                    assert forall|a: int| 0 <= a < self.eph@.len() implies EPHEMERAL_LO <= (
                    #[trigger] self.eph@[a]).1 by {
                        if a != i {
                            assert(self.eph@[a] == old(self).eph@[a]);
                        }
                    }
                }
                return p;
            }
            i = i + 1;
        }
        self.eph.push((ip, EPHEMERAL_LO + 1));
        proof {
            let n = old(self).eph@.len() as int;
            assert forall|a: int, b: int|
                0 <= a < self.eph@.len() && 0 <= b < self.eph@.len() && a != b implies (
            self.eph@[a]).0 != (self.eph@[b]).0 by {
                if a != n && b != n {
                    assert(self.eph@[a] == old(self).eph@[a]);
                    assert(self.eph@[b] == old(self).eph@[b]);
                } else if a == n {
                    assert(self.eph@[b] == old(self).eph@[b]);
                    assert((old(self).eph@[b]).0 != ip);
                } else {
                    assert(self.eph@[a] == old(self).eph@[a]);
                    assert((old(self).eph@[a]).0 != ip);
                }
            }
            assert forall|a: int| 0 <= a < self.eph@.len() implies EPHEMERAL_LO <= (
            #[trigger] self.eph@[a]).1 by {
                if a != n {
                    assert(self.eph@[a] == old(self).eph@[a]);
                }
            }
            assert(eph_wrap(EPHEMERAL_LO) == EPHEMERAL_LO + 1);
        }
        EPHEMERAL_LO
    }

    /// Connects from an ephemeral port on `src_ip` to the listener
    /// registered at `dst`: a fresh, empty, mirrored socket pair is
    /// created, its peer half is queued at the listener in arrival
    /// order, and the caller's half is returned. Fails with
    /// `ConnectionRefused`, changing nothing, exactly when no open
    /// listener is registered at `dst`.
    pub fn connect(&mut self, src_ip: u32, dst: Addr) -> (r: Result<SocketHandle, ErrorKind>)
        requires
            old(self).wf(),
        ensures
            final(self).wf(),
            final(self).capacity == old(self).capacity,
            final(self).endpoints@ == old(self).endpoints@,
            match r {
                Ok(h) => {
                    let li = old(self).listener_at(dst);
                    let p = final(self).pairs@[h.pair as int];
                    &&& old(self).registered(dst)
                    &&& h.pair == old(self).pairs@.len()
                    &&& h.side is A
                    &&& final(self).handle_ok(h)
                    &&& final(self).pairs@.len() == old(self).pairs@.len() + 1
                    &&& (forall|j: int|
                        0 <= j < old(self).pairs@.len() ==> final(self).pairs@[j] == old(self).pairs@[j])
                    &&& p.a_addr.ip == src_ip
                    &&& p.a_addr.port >= EPHEMERAL_LO
                    &&& p.b_addr == dst
                    &&& p.a_open && p.b_open && !p.a_read_shut && !p.b_read_shut
                    &&& p.a_to_b.buf@.len() == 0 && p.a_to_b.hist@.len() == 0 && !p.a_to_b.closed
                        && p.a_to_b.capacity == old(self).capacity
                    &&& p.b_to_a.buf@.len() == 0 && p.b_to_a.hist@.len() == 0 && !p.b_to_a.closed
                        && p.b_to_a.capacity == old(self).capacity
                    &&& final(self).peer_addr_spec(h) == dst
                    &&& final(self).local_addr_spec(h) == final(self).peer_addr_spec(
                        (SocketHandle { pair: h.pair, side: Side::B }),
                    )
                    &&& 0 <= li < old(self).listeners@.len()
                    &&& old(self).listeners@[li].open
                    &&& final(self).listeners@.len() == old(self).listeners@.len()
                    &&& (forall|j: int|
                        0 <= j < old(self).listeners@.len() && j != li ==> final(self).listeners@[j] == old(self).listeners@[j])
                    &&& final(self).listeners@[li].addr == old(self).listeners@[li].addr
                    &&& final(self).listeners@[li].open == old(self).listeners@[li].open
                    &&& final(self).listeners@[li].inbound@ == old(self).listeners@[li].inbound@.push((SocketHandle { pair: h.pair, side: Side::B }))
                },
                Err(e) => {
                    &&& e == ErrorKind::ConnectionRefused
                    &&& *final(self) == *old(self)
                    &&& (!old(self).registered(dst) || !old(self).listeners@[old(self).listener_at(dst)].open)
                },
            },
    {
        let li = match self.lookup(dst) {
            Option::None => {
                return Err(ErrorKind::ConnectionRefused);
            },
            Option::Some(li) => li,
        };
        proof {
            let i = choose|i: int|
                0 <= i < self.endpoints@.len() && #[trigger] self.endpoints@[i] == (dst, li);
            let i2 = self.endpoint_index(dst);
            assert(self.endpoints@[i2].0 == dst);
            assert(i == i2);
            assert(self.listener_at(dst) == li as int);
        }
        if !self.listeners[li].open {
            return Err(ErrorKind::ConnectionRefused);
        }
        let lport = self.alloc_eph(src_ip);
        let pair_idx = self.pairs.len();
        let cap = self.capacity;
        let pair = PairState {
            a_to_b: DirState::new(cap),
            b_to_a: DirState::new(cap),
            a_addr: Addr { ip: src_ip, port: lport },
            b_addr: dst,
            a_open: true,
            b_open: true,
            a_read_shut: false,
            b_read_shut: false,
        };
        self.pairs.push(pair);
        let bh = SocketHandle { pair: pair_idx, side: Side::B };
        let mut slot = self.listeners.remove(li);
        slot.inbound.push(bh);
        self.listeners.insert(li, slot);
        proof {
            assert forall|j: int|
                0 <= j < old(self).listeners@.len() && j != li implies self.listeners@[j] == old(self).listeners@[j] by {
                if j < li {
                    assert(self.listeners@[j] == old(self).listeners@.remove(li as int).insert(
                        li as int,
                        self.listeners@[li as int],
                    )[j]);
                }
            }
            assert(self.listeners@[li as int].inbound@ == old(self).listeners@[li
                as int].inbound@.push(bh));
        }
        Ok(SocketHandle { pair: pair_idx, side: Side::A })
    }

    /// Takes the next queued connection, in the FIFO order the connects
    /// arrived. An open listener with nothing queued reports "nothing
    /// yet" (the awaiting accept suspends); a closed one fails with
    /// `NotConnected`.
    pub fn accept(&mut self, lid: usize) -> (r: Result<Option<(SocketHandle, Addr)>, ErrorKind>)
        requires
            old(self).wf(),
            (lid as int) < old(self).listeners@.len(),
        ensures
            final(self).wf(),
            final(self).pairs@ == old(self).pairs@,
            final(self).endpoints@ == old(self).endpoints@,
            final(self).eph@ == old(self).eph@,
            final(self).capacity == old(self).capacity,
            final(self).listeners@.len() == old(self).listeners@.len(),
            forall|j: int|
                0 <= j < old(self).listeners@.len() && j != lid ==> final(self).listeners@[j]
                    == old(self).listeners@[j],
            match r {
                Ok(ro) => match ro {
                    Option::Some(hp) => {
                        let h = hp.0;
                        let peer = hp.1;
                        let slot0 = old(self).listeners@[lid as int];
                        &&& slot0.inbound@.len() > 0
                        &&& h == slot0.inbound@[0]
                        &&& final(self).listeners@[lid as int].inbound@ == slot0.inbound@.skip(1)
                        &&& final(self).listeners@[lid as int].addr == slot0.addr
                        &&& final(self).listeners@[lid as int].open == slot0.open
                        &&& final(self).handle_ok(h)
                        &&& h.side is B
                        &&& peer == final(self).peer_addr_spec(h)
                    },
                    Option::None => old(self).listeners@[lid as int].inbound@.len() == 0 && old(self).listeners@[lid as int].open && final(self).listeners@ == old(self).listeners@,
                },
                Err(e) => e == ErrorKind::NotConnected && old(self).listeners@[lid
                    as int].inbound@.len() == 0 && !old(self).listeners@[lid as int].open && final(self).listeners@ == old(self).listeners@,
            },
    {
        if self.listeners[lid].inbound.len() > 0 {
            let mut slot = self.listeners.remove(lid);
            let h = slot.inbound.remove(0);
            self.listeners.insert(lid, slot);
            proof {
                assert forall|j: int|
                    0 <= j < old(self).listeners@.len() && j != lid implies self.listeners@[j]
                        == old(self).listeners@[j] by {}
                assert(self.listeners@[lid as int].inbound@ =~= old(self).listeners@[lid
                    as int].inbound@.skip(1));
            }
            let peer = self.peer_addr(h);
            return Ok(Some((h, peer)));
        }
        if self.listeners[lid].open {
            Ok(None)
        } else {
            Err(ErrorKind::NotConnected)
        }
    }
}

/// The two halves of one pair mirror each other: each half's peer
/// address is the other half's local address — so a bind followed by a
/// connect yields sockets whose `local_addr`/`peer_addr` mirror.
pub proof fn lemma_addr_mirror(f: Fabric, h: SocketHandle)
    requires
        f.handle_ok(h),
    ensures
        f.peer_addr_spec(h) == f.local_addr_spec(
            (SocketHandle { pair: h.pair, side: opposite(h.side) }),
        ),
        f.local_addr_spec(h) == f.peer_addr_spec(
            (SocketHandle { pair: h.pair, side: opposite(h.side) }),
        ),
{
}

} // verus!

verus! {

/// What a read found: bytes, end of stream, or nothing yet (the
/// awaiting reader suspends).
#[derive(Debug)]
pub enum ReadStep {
    Data(Vec<u8>),
    Eof,
    NotReady,
}

/// Which directions of a socket to shut down.
#[derive(Clone, Copy, PartialEq, Eq, Structural, Debug)]
pub enum ShutdownMode {
    Read,
    Write,
    Both,
}

/// Enqueues as much of `data` as fits, preserving submission order and
/// extending the history in step with the queue.
fn dir_write(d: &mut DirState, data: &Vec<u8>) -> (n: usize)
    requires
        old(d).wf(),
    ensures
        final(d).wf(),
        n as int == if data@.len() <= old(d).capacity - old(d).buf@.len() {
            data@.len() as int
        } else {
            old(d).capacity - old(d).buf@.len()
        },
        final(d).buf@ == old(d).buf@ + data@.take(n as int),
        final(d).hist@ == old(d).hist@ + data@.take(n as int),
        final(d).capacity == old(d).capacity,
        final(d).closed == old(d).closed,
        final(d).delivered() == old(d).delivered(),
{
    let space = d.capacity - d.buf.len();
    let n = if data.len() < space {
        data.len()
    } else {
        space
    };
    let mut i: usize = 0;
    while i < n
        invariant
            i <= n,
            n <= data@.len(),
            old(d).buf@.len() + n <= old(d).capacity,
            d.buf@ == old(d).buf@ + data@.take(i as int),
            d.capacity == old(d).capacity,
            d.closed == old(d).closed,
            d.hist@ == old(d).hist@,
        decreases n - i,
    {
        d.buf.push(data[i]);
        proof {
            assert(d.buf@ =~= old(d).buf@ + data@.take(i + 1));
        }
        i = i + 1;
    }
    d.hist = Ghost(d.hist@ + data@.take(n as int));
    proof {
        let k = old(d).hist@.len() - old(d).buf@.len();
        assert(old(d).buf@ == old(d).hist@.skip(k));
        assert(d.buf@ =~= d.hist@.skip(d.hist@.len() - d.buf@.len()));
        assert(d.delivered() =~= old(d).delivered());
    }
    n
}

/// Dequeues up to `max` bytes from the front of the queue, in the order
/// they were written.
fn dir_read(d: &mut DirState, max: usize) -> (out: Vec<u8>)
    requires
        old(d).wf(),
    ensures
        final(d).wf(),
        out@.len() == if max <= old(d).buf@.len() {
            max as int
        } else {
            old(d).buf@.len() as int
        },
        out@ == old(d).buf@.take(out@.len() as int),
        final(d).buf@ == old(d).buf@.skip(out@.len() as int),
        final(d).hist@ == old(d).hist@,
        final(d).capacity == old(d).capacity,
        final(d).closed == old(d).closed,
        final(d).delivered() == old(d).delivered() + out@,
{
    let k = if max < d.buf.len() {
        max
    } else {
        d.buf.len()
    };
    let mut out: Vec<u8> = Vec::new();
    let mut i: usize = 0;
    while i < k
        invariant
            i <= k,
            k <= old(d).buf@.len(),
            out@ == old(d).buf@.take(i as int),
            d.buf@ == old(d).buf@.skip(i as int),
            d.hist@ == old(d).hist@,
            d.capacity == old(d).capacity,
            d.closed == old(d).closed,
        decreases k - i,
    {
        let b = d.buf.remove(0);
        proof {
            assert(old(d).buf@.skip(i as int)[0] == old(d).buf@[i as int]);
            assert(d.buf@ =~= old(d).buf@.skip(i + 1));
        }
        out.push(b);
        proof {
            assert(out@ =~= old(d).buf@.take(i + 1));
        }
        i = i + 1;
    }
    proof {
        let k0 = old(d).hist@.len() - old(d).buf@.len();
        assert(old(d).buf@ == old(d).hist@.skip(k0));
        assert(d.buf@ =~= d.hist@.skip(d.hist@.len() - d.buf@.len()));
        assert(d.delivered() =~= old(d).delivered() + out@);
    }
    out
}

impl Fabric {
    /// Submits bytes on a half-socket. Delivery is in submission order;
    /// a full direction makes the writer suspend; writing after a write
    /// shutdown is `NotConnected`; writing to a dropped peer is
    /// `ConnectionReset`.
    pub fn write(&mut self, h: SocketHandle, data: &Vec<u8>) -> (r: Result<
        Option<usize>,
        ErrorKind,
    >)
        requires
            old(self).wf(),
            old(self).handle_ok(h),
        ensures
            final(self).wf(),
            final(self).handle_ok(h),
            final(self).listeners@ == old(self).listeners@,
            final(self).endpoints@ == old(self).endpoints@,
            final(self).eph@ == old(self).eph@,
            final(self).capacity == old(self).capacity,
            final(self).pairs@.len() == old(self).pairs@.len(),
            forall|j: int|
                0 <= j < old(self).pairs@.len() && j != h.pair ==> final(self).pairs@[j] == old(self).pairs@[j],
            ({
                let p0 = old(self).pairs@[h.pair as int];
                let out0 = out_dir(p0, h.side);
                let peer_open = open_of(p0, opposite(h.side));
                &&& (out0.closed ==> r == Err::<Option<usize>, ErrorKind>(ErrorKind::NotConnected)
                    && *final(self) == *old(self))
                &&& (!out0.closed && !peer_open ==> r == Err::<Option<usize>, ErrorKind>(
                    ErrorKind::ConnectionReset,
                ) && *final(self) == *old(self))
                &&& (!out0.closed && peer_open && out0.buf@.len() == out0.capacity && data@.len()
                    > 0 ==> r == Ok::<Option<usize>, ErrorKind>(None) && *final(self) == *old(self))
                &&& (!out0.closed && peer_open && !(out0.buf@.len() == out0.capacity && data@.len()
                    > 0) ==> ({
                    let n = if data@.len() <= out0.capacity - out0.buf@.len() {
                        data@.len() as int
                    } else {
                        out0.capacity - out0.buf@.len()
                    };
                    let p1 = final(self).pairs@[h.pair as int];
                    let out1 = out_dir(p1, h.side);
                    &&& r matches Ok(some_n) && some_n matches Some(nn) && nn as int == n
                    &&& out1.buf@ == out0.buf@ + data@.take(n)
                    &&& out1.hist@ == out0.hist@ + data@.take(n)
                    &&& out1.closed == out0.closed
                    &&& out1.capacity == out0.capacity
                    &&& in_dir(p1, h.side) == in_dir(p0, h.side)
                    &&& p1.a_addr == p0.a_addr && p1.b_addr == p0.b_addr
                    &&& p1.a_open == p0.a_open && p1.b_open == p0.b_open
                    &&& p1.a_read_shut == p0.a_read_shut && p1.b_read_shut == p0.b_read_shut
                }))
            }),
    {
        let closed: bool;
        let peer_open: bool;
        let full: bool;
        match h.side {
            Side::A => {
                closed = self.pairs[h.pair].a_to_b.closed;
                peer_open = self.pairs[h.pair].b_open;
                full = self.pairs[h.pair].a_to_b.buf.len() == self.pairs[h.pair].a_to_b.capacity;
            },
            Side::B => {
                closed = self.pairs[h.pair].b_to_a.closed;
                peer_open = self.pairs[h.pair].a_open;
                full = self.pairs[h.pair].b_to_a.buf.len() == self.pairs[h.pair].b_to_a.capacity;
            },
        }
        if closed {
            return Err(ErrorKind::NotConnected);
        }
        if !peer_open {
            return Err(ErrorKind::ConnectionReset);
        }
        if full && data.len() > 0 {
            return Ok(None);
        }
        let mut pair = self.pairs.remove(h.pair);
        let n = match h.side {
            Side::A => dir_write(&mut pair.a_to_b, data),
            Side::B => dir_write(&mut pair.b_to_a, data),
        };
        self.pairs.insert(h.pair, pair);
        proof {
            assert forall|j: int|
                0 <= j < old(self).pairs@.len() && j != h.pair implies self.pairs@[j] == old(self).pairs@[j] by {}
            assert(self.pairs@[h.pair as int].wf());
        }
        Ok(Some(n))
    }

    /// Takes bytes from a half-socket in the order the peer wrote them.
    /// An empty direction with a live peer makes the reader suspend;
    /// one whose writer is gone or shut down is end of stream; reading
    /// after a read shutdown is `NotConnected`.
    pub fn read(&mut self, h: SocketHandle, max: usize) -> (r: Result<ReadStep, ErrorKind>)
        requires
            old(self).wf(),
            old(self).handle_ok(h),
        ensures
            final(self).wf(),
            final(self).handle_ok(h),
            final(self).listeners@ == old(self).listeners@,
            final(self).endpoints@ == old(self).endpoints@,
            final(self).eph@ == old(self).eph@,
            final(self).capacity == old(self).capacity,
            final(self).pairs@.len() == old(self).pairs@.len(),
            forall|j: int|
                0 <= j < old(self).pairs@.len() && j != h.pair ==> final(self).pairs@[j] == old(self).pairs@[j],
            ({
                let p0 = old(self).pairs@[h.pair as int];
                let in0 = in_dir(p0, h.side);
                let rs = read_shut_of(p0, h.side);
                &&& (rs ==> r == Err::<ReadStep, ErrorKind>(ErrorKind::NotConnected) && *final(self) == *old(self))
                &&& (!rs && in0.buf@.len() > 0 ==> ({
                    let k = if max <= in0.buf@.len() {
                        max as int
                    } else {
                        in0.buf@.len() as int
                    };
                    let p1 = final(self).pairs@[h.pair as int];
                    let in1 = in_dir(p1, h.side);
                    &&& r matches Ok(step) && step matches ReadStep::Data(bytes) && bytes@
                        == in0.buf@.take(k)
                    &&& in1.buf@ == in0.buf@.skip(k)
                    &&& in1.hist@ == in0.hist@
                    &&& in1.closed == in0.closed
                    &&& in1.capacity == in0.capacity
                    &&& out_dir(p1, h.side) == out_dir(p0, h.side)
                    &&& p1.a_addr == p0.a_addr && p1.b_addr == p0.b_addr
                    &&& p1.a_open == p0.a_open && p1.b_open == p0.b_open
                    &&& p1.a_read_shut == p0.a_read_shut && p1.b_read_shut == p0.b_read_shut
                }))
                &&& (!rs && in0.buf@.len() == 0 && in0.closed ==> r == Ok::<ReadStep, ErrorKind>(
                    ReadStep::Eof,
                ) && *final(self) == *old(self))
                &&& (!rs && in0.buf@.len() == 0 && !in0.closed ==> r == Ok::<ReadStep, ErrorKind>(
                    ReadStep::NotReady,
                ) && *final(self) == *old(self))
            }),
    {
        let rs: bool;
        let have: usize;
        let in_closed: bool;
        match h.side {
            Side::A => {
                rs = self.pairs[h.pair].a_read_shut;
                have = self.pairs[h.pair].b_to_a.buf.len();
                in_closed = self.pairs[h.pair].b_to_a.closed;
            },
            Side::B => {
                rs = self.pairs[h.pair].b_read_shut;
                have = self.pairs[h.pair].a_to_b.buf.len();
                in_closed = self.pairs[h.pair].a_to_b.closed;
            },
        }
        if rs {
            return Err(ErrorKind::NotConnected);
        }
        if have == 0 {
            if in_closed {
                return Ok(ReadStep::Eof);
            }
            return Ok(ReadStep::NotReady);
        }
        let mut pair = self.pairs.remove(h.pair);
        let bytes = match h.side {
            Side::A => dir_read(&mut pair.b_to_a, max),
            Side::B => dir_read(&mut pair.a_to_b, max),
        };
        self.pairs.insert(h.pair, pair);
        proof {
            assert forall|j: int|
                0 <= j < old(self).pairs@.len() && j != h.pair implies self.pairs@[j] == old(self).pairs@[j] by {}
            assert(self.pairs@[h.pair as int].wf());
        }
        Ok(ReadStep::Data(bytes))
    }

    /// Present for interface compatibility: delivery into the peer's
    /// queue is immediate, so there is nothing below it to flush.
    pub fn flush(&self, h: SocketHandle)
        requires
            self.handle_ok(h),
    {
    }

    /// Shuts down one or both directions of a half-socket: a write
    /// shutdown closes the outgoing queue (the peer drains it and then
    /// sees end of stream); a read shutdown makes further reads fail.
    pub fn shutdown(&mut self, h: SocketHandle, how: ShutdownMode)
        requires
            old(self).wf(),
            old(self).handle_ok(h),
        ensures
            final(self).wf(),
            final(self).listeners@ == old(self).listeners@,
            final(self).endpoints@ == old(self).endpoints@,
            final(self).eph@ == old(self).eph@,
            final(self).capacity == old(self).capacity,
            final(self).pairs@.len() == old(self).pairs@.len(),
            forall|j: int|
                0 <= j < old(self).pairs@.len() && j != h.pair ==> final(self).pairs@[j] == old(self).pairs@[j],
            ({
                let p0 = old(self).pairs@[h.pair as int];
                let p1 = final(self).pairs@[h.pair as int];
                &&& read_shut_of(p1, h.side) == (read_shut_of(p0, h.side) || how is Read || how
                    is Both)
                &&& read_shut_of(p1, opposite(h.side)) == read_shut_of(p0, opposite(h.side))
                &&& out_dir(p1, h.side).closed == (out_dir(p0, h.side).closed || how is Write
                    || how is Both)
                &&& out_dir(p1, h.side).buf@ == out_dir(p0, h.side).buf@
                &&& out_dir(p1, h.side).hist@ == out_dir(p0, h.side).hist@
                &&& out_dir(p1, h.side).capacity == out_dir(p0, h.side).capacity
                &&& in_dir(p1, h.side) == in_dir(p0, h.side)
                &&& p1.a_addr == p0.a_addr && p1.b_addr == p0.b_addr
                &&& p1.a_open == p0.a_open && p1.b_open == p0.b_open
            }),
    {
        let mut pair = self.pairs.remove(h.pair);
        let shut_read = match how {
            ShutdownMode::Read => true,
            ShutdownMode::Write => false,
            ShutdownMode::Both => true,
        };
        let shut_write = match how {
            ShutdownMode::Read => false,
            ShutdownMode::Write => true,
            ShutdownMode::Both => true,
        };
        match h.side {
            Side::A => {
                if shut_read {
                    pair.a_read_shut = true;
                }
                if shut_write {
                    pair.a_to_b.closed = true;
                }
            },
            Side::B => {
                if shut_read {
                    pair.b_read_shut = true;
                }
                if shut_write {
                    pair.b_to_a.closed = true;
                }
            },
        }
        self.pairs.insert(h.pair, pair);
        proof {
            assert forall|j: int|
                0 <= j < old(self).pairs@.len() && j != h.pair implies self.pairs@[j] == old(self).pairs@[j] by {}
            assert(self.pairs@[h.pair as int].wf());
        }
    }

    /// Drops a half-socket: the half goes dead and its outgoing queue
    /// closes, so the peer drains what was already written and then
    /// observes end of stream; the peer's further writes are reset.
    pub fn drop_socket(&mut self, h: SocketHandle)
        requires
            old(self).wf(),
            old(self).handle_ok(h),
        ensures
            final(self).wf(),
            final(self).listeners@ == old(self).listeners@,
            final(self).endpoints@ == old(self).endpoints@,
            final(self).eph@ == old(self).eph@,
            final(self).capacity == old(self).capacity,
            final(self).pairs@.len() == old(self).pairs@.len(),
            forall|j: int|
                0 <= j < old(self).pairs@.len() && j != h.pair ==> final(self).pairs@[j] == old(self).pairs@[j],
            ({
                let p0 = old(self).pairs@[h.pair as int];
                let p1 = final(self).pairs@[h.pair as int];
                &&& !open_of(p1, h.side)
                &&& open_of(p1, opposite(h.side)) == open_of(p0, opposite(h.side))
                &&& out_dir(p1, h.side).closed
                &&& out_dir(p1, h.side).buf@ == out_dir(p0, h.side).buf@
                &&& out_dir(p1, h.side).hist@ == out_dir(p0, h.side).hist@
                &&& in_dir(p1, h.side) == in_dir(p0, h.side)
                &&& p1.a_addr == p0.a_addr && p1.b_addr == p0.b_addr
                &&& read_shut_of(p1, h.side) == read_shut_of(p0, h.side)
                &&& read_shut_of(p1, opposite(h.side)) == read_shut_of(p0, opposite(h.side))
            }),
    {
        let mut pair = self.pairs.remove(h.pair);
        match h.side {
            Side::A => {
                pair.a_open = false;
                pair.a_to_b.closed = true;
            },
            Side::B => {
                pair.b_open = false;
                pair.b_to_a.closed = true;
            },
        }
        self.pairs.insert(h.pair, pair);
        proof {
            assert forall|j: int|
                0 <= j < old(self).pairs@.len() && j != h.pair implies self.pairs@[j] == old(self).pairs@[j] by {}
            assert(self.pairs@[h.pair as int].wf());
        }
    }

    /// Drops a listener: it is unregistered (later connects are
    /// refused) and closed; connections already queued stay acceptable
    /// until drained.
    pub fn drop_listener(&mut self, lid: usize)
        requires
            old(self).wf(),
            (lid as int) < old(self).listeners@.len(),
        ensures
            final(self).wf(),
            final(self).pairs@ == old(self).pairs@,
            final(self).eph@ == old(self).eph@,
            final(self).capacity == old(self).capacity,
            final(self).listeners@.len() == old(self).listeners@.len(),
            forall|j: int|
                0 <= j < old(self).listeners@.len() && j != lid ==> final(self).listeners@[j]
                    == old(self).listeners@[j],
            !final(self).listeners@[lid as int].open,
            final(self).listeners@[lid as int].addr == old(self).listeners@[lid as int].addr,
            final(self).listeners@[lid as int].inbound@ == old(self).listeners@[lid
                as int].inbound@,
            (exists|i: int|
                0 <= i < old(self).endpoints@.len() && (#[trigger] old(self).endpoints@[i]).1
                    == lid && final(self).endpoints@ == old(self).endpoints@.remove(i)) || ((
            forall|i: int|
                0 <= i < old(self).endpoints@.len() ==> (#[trigger] old(self).endpoints@[i]).1
                    != lid) && final(self).endpoints@ == old(self).endpoints@),
    {
        let mut slot = self.listeners.remove(lid);
        slot.open = false;
        self.listeners.insert(lid, slot);
        proof {
            assert forall|j: int|
                0 <= j < old(self).listeners@.len() && j != lid implies self.listeners@[j] == old(self).listeners@[j] by {}
            assert forall|li: int, k: int|
                0 <= li < self.listeners@.len() && 0 <= k < self.listeners@[li].inbound@.len()
                    implies ((#[trigger] self.listeners@[li].inbound@[k]).pair as int)
                    < self.pairs@.len() && self.listeners@[li].inbound@[k].side is B by {
                assert(self.listeners@[li].inbound@ == old(self).listeners@[li].inbound@);
            }
        }
        let mut i: usize = 0;
        while i < self.endpoints.len()
            invariant
                0 <= i <= self.endpoints@.len(),
                forall|j: int| 0 <= j < i ==> (#[trigger] self.endpoints@[j]).1 != lid,
                self.endpoints@ == old(self).endpoints@,
                self.pairs@ == old(self).pairs@,
                self.eph@ == old(self).eph@,
                self.capacity == old(self).capacity,
                (lid as int) < self.listeners@.len(),
                self.listeners@.len() == old(self).listeners@.len(),
                forall|j: int|
                    0 <= j < old(self).listeners@.len() && j != lid ==> self.listeners@[j] == old(self).listeners@[j],
                !self.listeners@[lid as int].open,
                self.listeners@[lid as int].addr == old(self).listeners@[lid as int].addr,
                self.listeners@[lid as int].inbound@ == old(self).listeners@[lid as int].inbound@,
                old(self).wf(),
                self.wf(),
            decreases self.endpoints@.len() - i,
        {
            if self.endpoints[i].1 == lid {
                let ghost pre = self.endpoints@;
                self.endpoints.remove(i);
                proof {
                    assert forall|a: int, b: int|
                        0 <= a < self.endpoints@.len() && 0 <= b < self.endpoints@.len() && a != b
                            implies (#[trigger] self.endpoints@[a]).0 != (
                        #[trigger] self.endpoints@[b]).0 by {
                        let a0 = if a < i {
                            a
                        } else {
                            a + 1
                        };
                        let b0 = if b < i {
                            b
                        } else {
                            b + 1
                        };
                        assert(self.endpoints@[a] == pre[a0]);
                        assert(self.endpoints@[b] == pre[b0]);
                    }
                    assert forall|a: int|
                        0 <= a < self.endpoints@.len() implies (#[trigger] self.endpoints@[a]).1
                            < self.listeners@.len() by {
                        let a0 = if a < i {
                            a
                        } else {
                            a + 1
                        };
                        assert(self.endpoints@[a] == pre[a0]);
                    }
                }
                return ;
            }
            i = i + 1;
        }
    }
}

} // verus!
