//! The datagram transport abstraction and its in-memory variants.
//!
//! The trait carries a model of the transport's visible state — the
//! datagrams handed over for sending, the datagrams pending receipt, and
//! the last requested timeouts — and contracts over that model.  The two
//! in-memory variants prove those contracts; an implementation outside the
//! library (a live socket) is taken on its word, as any user-supplied
//! transport must be.

use std::collections::VecDeque;
use vstd::prelude::*;

verus! {

broadcast use vstd::std_specs::vec::group_vec_axioms, vstd::seq::group_seq_axioms,
    vstd::std_specs::vecdeque::group_vec_dequeue_axioms;

/// An IP address, version 4 or 6.
#[derive(Debug, Clone, Copy, PartialEq, Eq, Structural)]
pub enum IpAddress {
    V4(u8, u8, u8, u8),
    V6(u16, u16, u16, u16, u16, u16, u16, u16),
}

/// A socket address: an IP address and a port.
#[derive(Debug, Clone, Copy, PartialEq, Eq, Structural)]
pub struct Address {
    pub ip: IpAddress,
    pub port: u16,
}

impl Address {
    /// The unspecified IPv4 address with an ephemeral port.
    pub fn any_v4() -> (r: Address)
        ensures
            r == (Address { ip: IpAddress::V4(0, 0, 0, 0), port: 0u16 }),
    {
        Address { ip: IpAddress::V4(0, 0, 0, 0), port: 0 }
    }

    /// The unspecified IPv6 address with an ephemeral port.
    pub fn any_v6() -> (r: Address)
        ensures
            r == (Address { ip: IpAddress::V6(0, 0, 0, 0, 0, 0, 0, 0), port: 0u16 }),
    {
        Address { ip: IpAddress::V6(0, 0, 0, 0, 0, 0, 0, 0), port: 0 }
    }
}

/// A byte-for-byte copy of a datagram.
fn clone_bytes(buf: &Vec<u8>) -> (r: Vec<u8>)
    ensures
        r@ == buf@,
{
    let mut out: Vec<u8> = Vec::new();
    let mut i: usize = 0;
    while i < buf.len()
        invariant
            i <= buf.len(),
            out@ == buf@.take(i as int),
        decreases buf.len() - i,
    {
        out.push(buf[i]);
        proof {
            assert(buf@.take(i + 1) =~= buf@.take(i as int).push(buf@[i as int]));
        }
        i += 1;
    }
    proof {
        assert(buf@.take(buf@.len() as int) =~= buf@);
    }
    out
}

/// What the engine asks of a datagram transport: bind an endpoint, send one
/// datagram, hand over one received datagram if any is pending, and accept
/// best-effort timeouts.  `recv` must never block indefinitely: having no
/// pending datagram is an ordinary outcome, reported as `None`, not a
/// failure.
///
/// The model functions describe the transport's visible state: the
/// datagrams handed over so far, the datagrams pending receipt, and the
/// last requested timeouts.  The in-memory transports of this crate define
/// their models and prove the contracts; an implementation outside the
/// library inherits the vacuous default models, and what is proved through
/// the trait holds of it only as far as the implementation keeps its word.
pub trait SocketTrait: Sized {
    /// The datagrams this transport has accepted for sending, in order.
    open spec fn sent_model(&self) -> Seq<Seq<u8>> {
        Seq::empty()
    }

    /// The datagrams waiting to be received, front first.
    open spec fn inbound_model(&self) -> Seq<Seq<u8>> {
        Seq::empty()
    }

    /// The read timeout last applied, in milliseconds.
    open spec fn read_timeout_model(&self) -> Option<u64> {
        None
    }

    /// The write timeout last applied, in milliseconds.
    open spec fn write_timeout_model(&self) -> Option<u64> {
        None
    }

    /// Acquires an endpoint, trying the given local addresses in order.
    /// A fresh endpoint has sent nothing, has nothing pending, and has no
    /// timeout applied.
    fn bind(addrs: &[Address]) -> (r: Result<Self, String>)
        ensures
            match r {
                Ok(s) => s.sent_model() == Seq::<Seq<u8>>::empty() && s.inbound_model()
                    == Seq::<Seq<u8>>::empty() && s.read_timeout_model() is None
                    && s.write_timeout_model() is None,
                Err(_) => true,
            },
    ;

    /// Sends one datagram to the address.  On success the whole buffer was
    /// accepted and joins the send record; a failure sends nothing.
    fn send_to(&mut self, buf: &Vec<u8>, addr: &Address) -> (r: Result<usize, String>)
        ensures
            final(self).inbound_model() == old(self).inbound_model(),
            final(self).read_timeout_model() == old(self).read_timeout_model(),
            final(self).write_timeout_model() == old(self).write_timeout_model(),
            match r {
                Ok(n) => n == buf@.len() && final(self).sent_model() == old(
                    self,
                ).sent_model().push(buf@),
                Err(_) => final(self).sent_model() == old(self).sent_model(),
            },
    ;

    /// Hands over the oldest pending inbound datagram, or `None` exactly
    /// when none is currently pending.
    fn recv(&mut self) -> (r: Option<Vec<u8>>)
        ensures
            final(self).sent_model() == old(self).sent_model(),
            final(self).read_timeout_model() == old(self).read_timeout_model(),
            final(self).write_timeout_model() == old(self).write_timeout_model(),
            match r {
                Some(b) => old(self).inbound_model().len() > 0 && b@ == old(
                    self,
                ).inbound_model().first() && final(self).inbound_model() == old(
                    self,
                ).inbound_model().drop_first(),
                None => old(self).inbound_model().len() == 0 && final(self).inbound_model() == old(
                    self,
                ).inbound_model(),
            },
    ;

    /// Requests a read timeout in milliseconds; best effort, a no-op for
    /// transports with no notion of blocking.  On success the request took
    /// effect.
    fn set_read_timeout(&mut self, timeout_ms: Option<u64>) -> (r: Result<(), String>)
        ensures
            final(self).sent_model() == old(self).sent_model(),
            final(self).inbound_model() == old(self).inbound_model(),
            final(self).write_timeout_model() == old(self).write_timeout_model(),
            match r {
                Ok(u) => final(self).read_timeout_model() == timeout_ms,
                Err(_) => final(self).read_timeout_model() == old(self).read_timeout_model(),
            },
    ;

    /// Requests a write timeout in milliseconds; best effort.
    fn set_write_timeout(&mut self, timeout_ms: Option<u64>) -> (r: Result<(), String>)
        ensures
            final(self).sent_model() == old(self).sent_model(),
            final(self).inbound_model() == old(self).inbound_model(),
            final(self).read_timeout_model() == old(self).read_timeout_model(),
            match r {
                Ok(u) => final(self).write_timeout_model() == timeout_ms,
                Err(_) => final(self).write_timeout_model() == old(self).write_timeout_model(),
            },
    ;
}

/// An in-memory transport for deterministic runs: pre-seeded with inbound
/// datagrams, capturing every outbound send.
#[derive(Debug)]
pub struct MockSocket {
    /// Datagrams waiting to be received, front first.
    pub inbound: VecDeque<Vec<u8>>,
    /// Every datagram sent so far, in order.
    pub sent: Vec<Vec<u8>>,
    /// The read timeout last requested.
    pub read_timeout: Option<u64>,
    /// The write timeout last requested.
    pub write_timeout: Option<u64>,
}

impl MockSocket {
    /// An empty mock: nothing seeded, nothing sent, no timeouts.
    pub fn new() -> (r: MockSocket)
        ensures
            r.inbound@.len() == 0,
            r.sent@.len() == 0,
            r.read_timeout is None,
            r.write_timeout is None,
    {
        MockSocket {
            inbound: VecDeque::new(),
            sent: Vec::new(),
            read_timeout: None,
            write_timeout: None,
        }
    }

    /// Seeds one inbound datagram, behind those already pending.
    pub fn seed(&mut self, datagram: Vec<u8>)
        ensures
            final(self).inbound@ == old(self).inbound@.push(datagram),
            final(self).sent == old(self).sent,
            final(self).read_timeout == old(self).read_timeout,
            final(self).write_timeout == old(self).write_timeout,
    {
        self.inbound.push_back(datagram);
    }
}

impl SocketTrait for MockSocket {
    open spec fn sent_model(&self) -> Seq<Seq<u8>> {
        self.sent@.map_values(|v: Vec<u8>| v@)
    }

    open spec fn inbound_model(&self) -> Seq<Seq<u8>> {
        self.inbound@.map_values(|v: Vec<u8>| v@)
    }

    open spec fn read_timeout_model(&self) -> Option<u64> {
        self.read_timeout
    }

    open spec fn write_timeout_model(&self) -> Option<u64> {
        self.write_timeout
    }

    fn bind(_addrs: &[Address]) -> (r: Result<Self, String>) {
        let s = MockSocket::new();
        proof {
            assert(s.sent_model() =~= Seq::<Seq<u8>>::empty());
            assert(s.inbound_model() =~= Seq::<Seq<u8>>::empty());
        }
        Ok(s)
    }

    fn send_to(&mut self, buf: &Vec<u8>, _addr: &Address) -> (r: Result<usize, String>) {
        let n = buf.len();
        let ghost sent0 = self.sent@;
        self.sent.push(clone_bytes(buf));
        proof {
            assert(self.sent_model() =~= sent0.map_values(|v: Vec<u8>| v@).push(buf@));
        }
        Ok(n)
    }

    fn recv(&mut self) -> (r: Option<Vec<u8>>) {
        let ghost inbound0 = self.inbound@;
        let r = self.inbound.pop_front();
        proof {
            if r is Some {
                assert(r->Some_0@ == inbound0.map_values(|v: Vec<u8>| v@).first());
                assert(self.inbound_model() =~= inbound0.map_values(
                    |v: Vec<u8>| v@,
                ).drop_first());
            }
        }
        r
    }

    fn set_read_timeout(&mut self, timeout_ms: Option<u64>) -> (r: Result<(), String>) {
        self.read_timeout = timeout_ms;
        Ok(())
    }

    fn set_write_timeout(&mut self, timeout_ms: Option<u64>) -> (r: Result<(), String>) {
        self.write_timeout = timeout_ms;
        Ok(())
    }
}

/// A transport that accepts every send and never reports inbound data, for
/// running with networking disabled.  The record of accepted sends and
/// requested timeouts is kept in ghost state only: nothing is transmitted
/// or stored.
pub struct NullSocket {
    accepted: Ghost<Seq<Seq<u8>>>,
    read_timeout: Ghost<Option<u64>>,
    write_timeout: Ghost<Option<u64>>,
}

impl SocketTrait for NullSocket {
    closed spec fn sent_model(&self) -> Seq<Seq<u8>> {
        self.accepted@
    }

    closed spec fn inbound_model(&self) -> Seq<Seq<u8>> {
        Seq::empty()
    }

    closed spec fn read_timeout_model(&self) -> Option<u64> {
        self.read_timeout@
    }

    closed spec fn write_timeout_model(&self) -> Option<u64> {
        self.write_timeout@
    }

    fn bind(_addrs: &[Address]) -> (r: Result<Self, String>) {
        Ok(
            NullSocket {
                accepted: Ghost(Seq::empty()),
                read_timeout: Ghost(None),
                write_timeout: Ghost(None),
            },
        )
    }

    fn send_to(&mut self, buf: &Vec<u8>, _addr: &Address) -> (r: Result<usize, String>) {
        proof {
            self.accepted@ = self.accepted@.push(buf@);
        }
        Ok(buf.len())
    }

    fn recv(&mut self) -> (r: Option<Vec<u8>>) {
        None
    }

    fn set_read_timeout(&mut self, timeout_ms: Option<u64>) -> (r: Result<(), String>) {
        proof {
            self.read_timeout@ = timeout_ms;
        }
        Ok(())
    }

    fn set_write_timeout(&mut self, timeout_ms: Option<u64>) -> (r: Result<(), String>) {
        proof {
            self.write_timeout@ = timeout_ms;
        }
        Ok(())
    }
}

} // verus!