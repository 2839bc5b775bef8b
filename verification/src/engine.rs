//! The synchronous protocol engine: announce, poll-driven drain and
//! dispatch, immediate replies and events.

use crate::json::Json;
use crate::protocol::Request;
use crate::protocol::RequestV;
use crate::protocol::Response;
use crate::protocol::ServiceDefinition;
use crate::protocol::ResponseBodyV;
use crate::protocol::ResponseV;
use crate::protocol::EventResponseV;
use crate::protocol::announce_text;
use crate::protocol::datagram_request;
use crate::protocol::InboundAction;
use crate::protocol::classify_datagram;
use crate::protocol::heartbeat_reply_v;
use crate::protocol::is_heartbeat;
use crate::json::json_seq_view;
use crate::protocol::pairs_view;
use crate::protocol::response_datagram;
use crate::transport::Address;
use crate::transport::SocketTrait;
use std::collections::VecDeque;
use vstd::string::StringExecFns;
use vstd::prelude::*;

verus! {

broadcast use vstd::std_specs::vec::group_vec_axioms, vstd::seq::group_seq_axioms,
    vstd::std_specs::vecdeque::group_vec_dequeue_axioms;

/// How many receive attempts one poll call will make at most, so that a
/// call always returns even against a transport that always has data.
pub const MAX_POLL_RECV: usize = 65536;

/// What one datagram contributes to the inbound queue: its request, unless
/// it is malformed (dropped) or a heartbeat (answered inline, never queued).
pub open spec fn inbound_one(bytes: Seq<u8>) -> Seq<RequestV> {
    match datagram_request(bytes) {
        Some(r) => if is_heartbeat(r) {
            Seq::empty()
        } else {
            seq![r]
        },
        None => Seq::empty(),
    }
}

/// What a sequence of datagrams contributes to the inbound queue, in
/// arrival order.
pub open spec fn inbound_of(ds: Seq<Seq<u8>>) -> Seq<RequestV>
    decreases ds.len(),
{
    if ds.len() == 0 {
        Seq::empty()
    } else {
        inbound_one(ds.first()) + inbound_of(ds.drop_first())
    }
}

/// Extending a drain by one datagram appends that datagram's contribution.
pub proof fn lemma_inbound_of_push(ds: Seq<Seq<u8>>, b: Seq<u8>)
    ensures
        inbound_of(ds.push(b)) == inbound_of(ds) + inbound_one(b),
    decreases ds.len(),
{
    if ds.len() == 0 {
        assert(ds.push(b).first() == b);
        assert(ds.push(b).drop_first() =~= Seq::<Seq<u8>>::empty());
        assert(inbound_of(Seq::<Seq<u8>>::empty()) == Seq::<RequestV>::empty());
        assert(inbound_of(ds.push(b)) =~= inbound_of(ds) + inbound_one(b));
    } else {
        assert(ds.push(b).first() == ds.first());
        assert(ds.push(b).drop_first() =~= ds.drop_first().push(b));
        lemma_inbound_of_push(ds.drop_first(), b);
        assert(inbound_of(ds.push(b)) =~= inbound_of(ds) + inbound_one(b));
    }
}

/// How many of the datagrams are heartbeats.
pub open spec fn heartbeat_count(ds: Seq<Seq<u8>>) -> int
    decreases ds.len(),
{
    if ds.len() == 0 {
        0
    } else {
        (match datagram_request(ds.first()) {
            Some(r) => if is_heartbeat(r) {
                1int
            } else {
                0int
            },
            None => 0int,
        }) + heartbeat_count(ds.drop_first())
    }
}

proof fn lemma_heartbeat_count_push(ds: Seq<Seq<u8>>, b: Seq<u8>)
    ensures
        heartbeat_count(ds.push(b)) == heartbeat_count(ds) + (
        match datagram_request(b) {
            Some(r) => if is_heartbeat(r) {
                1int
            } else {
                0int
            },
            None => 0int,
        }),
    decreases ds.len(),
{
    if ds.len() == 0 {
        assert(ds.push(b).first() == b);
        assert(ds.push(b).drop_first() =~= Seq::<Seq<u8>>::empty());
        assert(heartbeat_count(Seq::<Seq<u8>>::empty()) == 0);
    } else {
        assert(ds.push(b).first() == ds.first());
        assert(ds.push(b).drop_first() =~= ds.drop_first().push(b));
        lemma_heartbeat_count_push(ds.drop_first(), b);
    }
}

/// For a sequence of datagrams that all decode as requests, one poll's
/// receive drain adds to the inbound queue exactly the non-heartbeat
/// requests, in arrival order, and their number is the datagram count less
/// the heartbeat count.
#[verifier::rlimit(100)]
pub proof fn lemma_inbound_drain(ds: Seq<Seq<u8>>)
    requires
        forall|i: int| 0 <= i < ds.len() ==> (#[trigger] datagram_request(ds[i])) is Some,
    ensures
        inbound_of(ds) == ds.map_values(|b: Seq<u8>| datagram_request(b)->Some_0).filter(
            |r: RequestV| !is_heartbeat(r),
        ),
        0 <= heartbeat_count(ds) <= ds.len(),
        inbound_of(ds).len() == ds.len() - heartbeat_count(ds),
    decreases ds.len(),
{
    reveal(Seq::filter);
    let dec = |b: Seq<u8>| datagram_request(b)->Some_0;
    let keep = |r: RequestV| !is_heartbeat(r);
    if ds.len() == 0 {
        assert(inbound_of(ds) =~= ds.map_values(dec).filter(keep));
    } else {
        let d0 = ds.drop_last();
        let b = ds.last();
        assert forall|i: int| 0 <= i < d0.len() implies (#[trigger] datagram_request(
            d0[i],
        )) is Some by {
            assert(d0[i] == ds[i]);
        }
        lemma_inbound_drain(d0);
        assert(d0.push(b) =~= ds);
        lemma_inbound_of_push(d0, b);
        lemma_heartbeat_count_push(d0, b);
        assert(inbound_of(ds) == inbound_of(d0) + inbound_one(b));
        let m = ds.map_values(dec);
        let m0 = d0.map_values(dec);
        assert(m.drop_last() =~= m0);
        assert(m.last() == dec(b));
        assert(datagram_request(b) is Some);
        let r = datagram_request(b)->Some_0;
        if is_heartbeat(r) {
            assert(inbound_one(b) =~= Seq::<RequestV>::empty());
            assert(inbound_of(d0) + inbound_one(b) =~= inbound_of(d0));
            assert(m.filter(keep) == m0.filter(keep));
        } else {
            assert(inbound_one(b) =~= seq![r]);
            assert(m.filter(keep) == m0.filter(keep).push(r));
            assert(inbound_of(d0) + inbound_one(b) =~= m0.filter(keep).push(r));
        }
    }
}

/// The sequence numbers a run of send attempts issues: a successful send
/// takes the current counter and advances it by one; a failed send leaves
/// it unchanged.
pub open spec fn ids_issued(outcomes: Seq<bool>, start: int) -> Seq<int>
    decreases outcomes.len(),
{
    if outcomes.len() == 0 {
        Seq::empty()
    } else if outcomes.first() {
        seq![start] + ids_issued(outcomes.drop_first(), start + 1)
    } else {
        ids_issued(outcomes.drop_first(), start)
    }
}

/// How many of the send attempts succeeded.
pub open spec fn success_count(outcomes: Seq<bool>) -> int
    decreases outcomes.len(),
{
    if outcomes.len() == 0 {
        0
    } else {
        (if outcomes.first() {
            1int
        } else {
            0int
        }) + success_count(outcomes.drop_first())
    }
}

proof fn lemma_ids_issued(outcomes: Seq<bool>, start: int)
    ensures
        0 <= success_count(outcomes),
        ids_issued(outcomes, start).len() == success_count(outcomes),
        forall|i: int|
            0 <= i < ids_issued(outcomes, start).len() ==> #[trigger] ids_issued(outcomes, start)[i]
                == start + i,
    decreases outcomes.len(),
{
    if outcomes.len() > 0 {
        if outcomes.first() {
            lemma_ids_issued(outcomes.drop_first(), start + 1);
            let rest = ids_issued(outcomes.drop_first(), start + 1);
            assert forall|i: int|
                0 <= i < ids_issued(outcomes, start).len() implies #[trigger] ids_issued(
                outcomes,
                start,
            )[i] == start + i by {
                if i > 0 {
                    assert(ids_issued(outcomes, start)[i] == rest[i - 1]);
                }
            }
        } else {
            lemma_ids_issued(outcomes.drop_first(), start);
        }
    }
}

/// For any run of send attempts on a fresh engine, whose counter starts at
/// zero, the issued sequence numbers are exactly 0, 1, .., M-1 for M
/// successful sends: one number per success, no repeats, no gaps.
pub proof fn lemma_sequence_ids(outcomes: Seq<bool>)
    ensures
        ids_issued(outcomes, 0) == Seq::new(success_count(outcomes) as nat, |i: int| i),
{
    lemma_ids_issued(outcomes, 0);
    assert(ids_issued(outcomes, 0) =~= Seq::new(success_count(outcomes) as nat, |i: int| i));
}

/// The datagrams a drain of queued responses hands the transport: one per
/// response whose send the transport accepted, in queue order.
pub open spec fn tx_sends(rs: Seq<ResponseV>, okm: Seq<bool>) -> Seq<Seq<u8>>
    decreases rs.len(),
{
    if rs.len() == 0 {
        Seq::empty()
    } else {
        (if okm.len() > 0 && okm.first() {
            seq![response_datagram(rs.first())]
        } else {
            Seq::empty()
        }) + tx_sends(rs.drop_first(), okm.drop_first())
    }
}

proof fn lemma_tx_sends_push(rs: Seq<ResponseV>, okm: Seq<bool>, r: ResponseV, ok: bool)
    requires
        okm.len() == rs.len(),
    ensures
        tx_sends(rs.push(r), okm.push(ok)) == tx_sends(rs, okm) + (if ok {
            seq![response_datagram(r)]
        } else {
            Seq::<Seq<u8>>::empty()
        }),
    decreases rs.len(),
{
    if rs.len() == 0 {
        assert(rs.push(r).first() == r);
        assert(okm.push(ok).first() == ok);
        assert(rs.push(r).drop_first() =~= Seq::<ResponseV>::empty());
        assert(okm.push(ok).drop_first() =~= Seq::<bool>::empty());
        assert(tx_sends(Seq::<ResponseV>::empty(), Seq::<bool>::empty())
            == Seq::<Seq<u8>>::empty());
        assert(tx_sends(rs.push(r), okm.push(ok)) =~= tx_sends(rs, okm) + (if ok {
            seq![response_datagram(r)]
        } else {
            Seq::<Seq<u8>>::empty()
        }));
    } else {
        assert(rs.push(r).first() == rs.first());
        assert(okm.push(ok).first() == okm.first());
        assert(rs.push(r).drop_first() =~= rs.drop_first().push(r));
        assert(okm.push(ok).drop_first() =~= okm.drop_first().push(ok));
        lemma_tx_sends_push(rs.drop_first(), okm.drop_first(), r, ok);
        assert(tx_sends(rs.push(r), okm.push(ok)) =~= tx_sends(rs, okm) + (if ok {
            seq![response_datagram(r)]
        } else {
            Seq::<Seq<u8>>::empty()
        }));
    }
}

/// Whether a datagram is the engine's reply to some heartbeat.
pub open spec fn is_heartbeat_reply(d: Seq<u8>, def_id: Seq<char>) -> bool {
    exists|rv: RequestV|
        is_heartbeat(rv) && d == #[trigger] response_datagram(heartbeat_reply_v(def_id, rv))
}

/// Every datagram in the list is a heartbeat reply.
pub open spec fn all_heartbeat_replies(sends: Seq<Seq<u8>>, def_id: Seq<char>) -> bool {
    forall|i: int| 0 <= i < sends.len() ==> is_heartbeat_reply(#[trigger] sends[i], def_id)
}

/// A service engine bound to a transport: the definition it announces, the
/// fixed server destination, a monotonic sequence counter, and the inbound
/// and outbound queues that poll drains.
pub struct IoTScapeService<SocketType: SocketTrait> {
    pub definition: ServiceDefinition,
    pub cached_definition: Option<String>,
    pub name: String,
    pub server: Address,
    pub socket: SocketType,
    pub next_msg_id: u64,
    pub rx_queue: VecDeque<Request>,
    pub tx_queue: VecDeque<Response>,
}

impl<SocketType: SocketTrait> IoTScapeService<SocketType> {
    /// The cached announce payload, if one has been computed.
    pub open spec fn cache_model(&self) -> Option<Seq<char>> {
        match self.cached_definition {
            Some(s) => Some(s@),
            None => None,
        }
    }

    /// The fixed server destination.
    pub open spec fn server_model(&self) -> Address {
        self.server
    }

    /// The inbound queue, front first.
    pub open spec fn rx_model(&self) -> Seq<RequestV> {
        self.rx_queue@.map_values(|r: Request| r@)
    }

    /// The outbound queue, front first.
    pub open spec fn tx_model(&self) -> Seq<ResponseV> {
        self.tx_queue@.map_values(|r: Response| r@)
    }

    /// Builds an engine around an already-bound transport: queues empty,
    /// counter at zero, nothing cached or announced yet.
    pub fn with_socket(name: &str, definition: ServiceDefinition, server: Address, socket: SocketType) -> (r: Self)
        ensures
            r.name@ == name@,
            r.definition == definition,
            r.server_model() == server,
            r.next_msg_id == 0,
            r.rx_queue@.len() == 0,
            r.tx_queue@.len() == 0,
            r.cache_model() is None,
            r.socket == socket,
    {
        IoTScapeService {
            definition,
            cached_definition: None,
            name: String::from_str(name),
            server,
            socket,
            next_msg_id: 0,
            rx_queue: VecDeque::new(),
            tx_queue: VecDeque::new(),
        }
    }

    /// Builds an engine by binding a fresh ephemeral transport endpoint.
    /// Failing to bind is the one startup-fatal condition, returned to the
    /// caller.
    pub fn new(name: &str, definition: ServiceDefinition, server: Address) -> (r: Result<
        Self,
        String,
    >)
        ensures
            match r {
                Ok(e) => e.name@ == name@ && e.definition == definition && e.server_model()
                    == server && e.next_msg_id == 0 && e.rx_queue@.len() == 0 && e.tx_queue@.len()
                    == 0 && e.cache_model() is None && e.socket.sent_model()
                    == Seq::<Seq<u8>>::empty() && e.socket.inbound_model()
                    == Seq::<Seq<u8>>::empty(),
                Err(_) => true,
            },
    {
        let mut addrs: Vec<Address> = Vec::new();
        addrs.push(Address::any_v4());
        addrs.push(Address::any_v6());
        match SocketType::bind(addrs.as_slice()) {
            Ok(socket) => Ok(Self::with_socket(name, definition, server, socket)),
            Err(e) => Err(e),
        }
    }

    /// Publishes the service definition: serializes `{name: definition}`
    /// once, caches the text, and sends the cached bytes as one datagram on
    /// this and every later call.  Returns the transport's answer.
    pub fn announce(&mut self) -> (r: Result<usize, String>)
        ensures
            final(self).cache_model() == (if old(self).cache_model() is None {
                Some(announce_text(old(self).name@, old(self).definition@))
            } else {
                old(self).cache_model()
            }),
            final(self).definition == old(self).definition,
            final(self).name == old(self).name,
            final(self).server_model() == old(self).server_model(),
            final(self).next_msg_id == old(self).next_msg_id,
            final(self).rx_queue == old(self).rx_queue,
            final(self).tx_queue == old(self).tx_queue,
            final(self).socket.inbound_model() == old(self).socket.inbound_model(),
            final(self).socket.read_timeout_model() == old(self).socket.read_timeout_model(),
            final(self).socket.write_timeout_model() == old(self).socket.write_timeout_model(),
            match r {
                Ok(n) => final(self).socket.sent_model() == old(self).socket.sent_model().push(
                    vstd::utf8::encode_utf8(final(self).cache_model()->Some_0),
                ),
                Err(_) => final(self).socket.sent_model() == old(self).socket.sent_model(),
            },
    {
        if self.cached_definition.is_none() {
            let payload = crate::protocol::announce_payload(self.name.as_str(), &self.definition);
            self.cached_definition = Some(payload);
        }
        let bytes = match &self.cached_definition {
            Some(s) => s.as_str().as_bytes_vec(),
            // the cache was filled just above; nothing is ever sent from here
            None => Vec::new(),
        };
        let server = self.server;
        self.socket.send_to(&bytes, &server)
    }

    /// Sends one response to the server, leaving every queue and the
    /// counter as they were.
    fn send_response(&mut self, response: Response) -> (r: Result<usize, String>)
        ensures
            final(self).definition == old(self).definition,
            final(self).name == old(self).name,
            final(self).server_model() == old(self).server_model(),
            final(self).cache_model() == old(self).cache_model(),
            final(self).next_msg_id == old(self).next_msg_id,
            final(self).rx_queue == old(self).rx_queue,
            final(self).tx_queue == old(self).tx_queue,
            final(self).socket.inbound_model() == old(self).socket.inbound_model(),
            final(self).socket.read_timeout_model() == old(self).socket.read_timeout_model(),
            final(self).socket.write_timeout_model() == old(self).socket.write_timeout_model(),
            match r {
                Ok(n) => final(self).socket.sent_model() == old(self).socket.sent_model().push(
                    response_datagram(response@),
                ),
                Err(_) => final(self).socket.sent_model() == old(self).socket.sent_model(),
            },
    {
        let bytes = response.into_datagram();
        let server = self.server;
        self.socket.send_to(&bytes, &server)
    }

    /// Handles one received datagram: a malformed one is dropped, a
    /// heartbeat is answered immediately and never queued, and any other
    /// request joins the inbound queue.  The counter advances only for a
    /// heartbeat reply the transport accepted.
    fn handle_inbound(&mut self, bytes: Vec<u8>)
        ensures
            final(self).rx_model() == old(self).rx_model() + inbound_one(bytes@),
            final(self).tx_queue == old(self).tx_queue,
            final(self).definition == old(self).definition,
            final(self).name == old(self).name,
            final(self).server_model() == old(self).server_model(),
            final(self).cache_model() == old(self).cache_model(),
            final(self).socket.inbound_model() == old(self).socket.inbound_model(),
            final(self).socket.read_timeout_model() == old(self).socket.read_timeout_model(),
            final(self).socket.write_timeout_model() == old(self).socket.write_timeout_model(),
            (match datagram_request(bytes@) {
                Some(r) => if is_heartbeat(r) {
                    (final(self).socket.sent_model() == old(self).socket.sent_model().push(
                        response_datagram(heartbeat_reply_v(old(self).definition@.id, r)),
                    ) && final(self).next_msg_id == (if old(self).next_msg_id < u64::MAX {
                        old(self).next_msg_id + 1
                    } else {
                        old(self).next_msg_id as int
                    })) || (final(self).socket.sent_model() == old(self).socket.sent_model()
                        && final(self).next_msg_id == old(self).next_msg_id)
                } else {
                    final(self).socket.sent_model() == old(self).socket.sent_model()
                        && final(self).next_msg_id == old(self).next_msg_id
                },
                None => final(self).socket.sent_model() == old(self).socket.sent_model()
                    && final(self).next_msg_id == old(self).next_msg_id,
            }),
    {
        let ghost b = bytes@;
        match classify_datagram(self.definition.id.as_str(), bytes) {
            InboundAction::Reply(reply) => {
                proof {
                    assert(is_heartbeat(datagram_request(b)->Some_0));
                    assert(old(self).rx_model() + inbound_one(b) =~= old(self).rx_model());
                    assert(reply@ == heartbeat_reply_v(
                        old(self).definition@.id,
                        datagram_request(b)->Some_0,
                    ));
                }
                let sent = self.send_response(reply);
                if sent.is_ok() {
                    if self.next_msg_id < u64::MAX {
                        self.next_msg_id = self.next_msg_id + 1;
                    }
                }
            },
            InboundAction::Queue(msg) => {
                let ghost rq0 = self.rx_queue@;
                self.rx_queue.push_back(msg);
                proof {
                    assert(self.rx_queue@ =~= rq0.push(msg));
                    assert(self.rx_model() =~= rq0.map_values(|r: Request| r@).push(msg@));
                    assert(inbound_one(b) =~= seq![msg@]);
                    assert(old(self).rx_model() + inbound_one(b) =~= self.rx_model());
                }
            },
            InboundAction::Drop => {
                proof {
                    assert(old(self).rx_model() + inbound_one(b) =~= old(self).rx_model());
                }
            },
        }
    }

    /// One poll cycle: applies the timeout (15 milliseconds unless given),
    /// drains every currently available inbound datagram (up to
    /// `MAX_POLL_RECV` in one call), answering heartbeats inline and
    /// queueing the rest in arrival order, then attempts one send per
    /// queued response, in queue order, best effort per item.
    ///
    /// The contract: the drained datagrams `ds` are exactly a prefix of
    /// what the transport had pending (the whole of it, unless the budget
    /// ran out); the inbound queue gains their non-heartbeat requests in
    /// order; and what reaches the transport is some heartbeat replies
    /// followed by one datagram per queued response whose send was
    /// accepted, in queue order.
    #[verifier::rlimit(100)]
    pub fn poll(&mut self, timeout_ms: Option<u64>)
        ensures
            exists|ds: Seq<Seq<u8>>, rx_sends: Seq<Seq<u8>>, okm: Seq<bool>|
                {
                    &&& ds == old(self).socket.inbound_model().take(ds.len() as int)
                    &&& final(self).socket.inbound_model() == old(
                        self,
                    ).socket.inbound_model().skip(ds.len() as int)
                    &&& (final(self).socket.inbound_model().len() == 0 || ds.len()
                        == MAX_POLL_RECV as int)
                    &&& final(self).rx_model() == old(self).rx_model() + inbound_of(ds)
                    &&& all_heartbeat_replies(rx_sends, old(self).definition@.id)
                    &&& okm.len() == old(self).tx_model().len()
                    &&& final(self).socket.sent_model() == old(self).socket.sent_model()
                        + rx_sends + tx_sends(old(self).tx_model(), okm)
                },
            final(self).tx_queue@.len() == 0,
            final(self).next_msg_id >= old(self).next_msg_id,
            final(self).definition == old(self).definition,
            final(self).name == old(self).name,
            final(self).server_model() == old(self).server_model(),
            final(self).cache_model() == old(self).cache_model(),
            final(self).socket.read_timeout_model() == (match timeout_ms {
                Some(v) => Some(v),
                None => Some(15u64),
            }) || final(self).socket.read_timeout_model() == old(
                self,
            ).socket.read_timeout_model(),
            final(self).socket.write_timeout_model() == (match timeout_ms {
                Some(v) => Some(v),
                None => Some(15u64),
            }) || final(self).socket.write_timeout_model() == old(
                self,
            ).socket.write_timeout_model(),
    {
        let t = match timeout_ms {
            Some(v) => Some(v),
            None => Some(15u64),
        };
        let _rt = self.socket.set_read_timeout(t);
        let _wt = self.socket.set_write_timeout(t);
        let ghost rx0 = self.rx_model();
        let ghost id0 = self.next_msg_id;
        let ghost inbound0 = self.socket.inbound_model();
        let ghost sent0 = self.socket.sent_model();
        let ghost rto1 = self.socket.read_timeout_model();
        let ghost wto1 = self.socket.write_timeout_model();
        let ghost mut ds: Seq<Seq<u8>> = Seq::empty();
        let ghost mut rx_sends: Seq<Seq<u8>> = Seq::empty();
        proof {
            assert(rx0 + inbound_of(ds) =~= rx0);
            assert(ds =~= inbound0.take(0));
            assert(self.socket.inbound_model() =~= inbound0.skip(0));
            assert(sent0 + rx_sends =~= sent0);
        }
        let mut budget: usize = MAX_POLL_RECV;
        loop
            invariant
                ds.len() + budget == MAX_POLL_RECV,
                ds.len() <= inbound0.len(),
                ds == inbound0.take(ds.len() as int),
                self.socket.inbound_model() == inbound0.skip(ds.len() as int),
                self.rx_model() == rx0 + inbound_of(ds),
                all_heartbeat_replies(rx_sends, old(self).definition@.id),
                self.socket.sent_model() == sent0 + rx_sends,
                self.socket.read_timeout_model() == rto1,
                self.socket.write_timeout_model() == wto1,
                self.next_msg_id >= id0,
                self.definition == old(self).definition,
                self.name == old(self).name,
                self.server_model() == old(self).server_model(),
                self.cache_model() == old(self).cache_model(),
                self.tx_queue == old(self).tx_queue,
            ensures
                ds.len() <= inbound0.len(),
                ds == inbound0.take(ds.len() as int),
                self.socket.inbound_model() == inbound0.skip(ds.len() as int),
                self.socket.inbound_model().len() == 0 || ds.len() == MAX_POLL_RECV as int,
                self.rx_model() == rx0 + inbound_of(ds),
                all_heartbeat_replies(rx_sends, old(self).definition@.id),
                self.socket.sent_model() == sent0 + rx_sends,
                self.socket.read_timeout_model() == rto1,
                self.socket.write_timeout_model() == wto1,
                self.next_msg_id >= id0,
                self.definition == old(self).definition,
                self.name == old(self).name,
                self.server_model() == old(self).server_model(),
                self.cache_model() == old(self).cache_model(),
                self.tx_queue == old(self).tx_queue,
            decreases budget,
        {
            if budget == 0 {
                break;
            }
            let ghost pre_sent = self.socket.sent_model();
            let ghost k = ds.len() as int;
            match self.socket.recv() {
                Some(bytes) => {
                    let ghost b = bytes@;
                    proof {
                        assert(b == inbound0.skip(k).first());
                        assert(b == inbound0[k]);
                        assert(inbound0.skip(k).drop_first() =~= inbound0.skip(k + 1));
                    }
                    self.handle_inbound(bytes);
                    proof {
                        let ghost ds0 = ds;
                        lemma_inbound_of_push(ds0, b);
                        ds = ds0.push(b);
                        assert(ds =~= inbound0.take(k + 1));
                        assert((rx0 + inbound_of(ds0)) + inbound_one(b) =~= rx0 + inbound_of(
                            ds,
                        ));
                        if self.socket.sent_model() != pre_sent {
                            let ghost rv = datagram_request(b)->Some_0;
                            let ghost reply = response_datagram(
                                heartbeat_reply_v(old(self).definition@.id, rv),
                            );
                            assert(is_heartbeat(rv));
                            assert(self.socket.sent_model() == pre_sent.push(reply));
                            let ghost rxs0 = rx_sends;
                            rx_sends = rx_sends.push(reply);
                            assert(is_heartbeat_reply(reply, old(self).definition@.id));
                            assert forall|i: int|
                                0 <= i < rx_sends.len() implies is_heartbeat_reply(
                                #[trigger] rx_sends[i],
                                old(self).definition@.id,
                            ) by {
                                if i < rxs0.len() {
                                    assert(rx_sends[i] == rxs0[i]);
                                } else {
                                    assert(rx_sends[i] == reply);
                                }
                            }
                            assert((sent0 + rxs0).push(reply) =~= sent0 + rx_sends);
                        }
                    }
                },
                None => {
                    break;
                },
            }
            budget = budget - 1;
        }
        let ghost tx0 = self.tx_model();
        let ghost sent_mid = self.socket.sent_model();
        let ghost mut okm: Seq<bool> = Seq::empty();
        proof {
            assert(tx0.skip(0) =~= tx0);
            assert(tx0.take(0) =~= Seq::<ResponseV>::empty());
            assert(tx_sends(Seq::<ResponseV>::empty(), Seq::<bool>::empty())
                == Seq::<Seq<u8>>::empty());
            assert(sent_mid + tx_sends(tx0.take(0), okm) =~= sent_mid);
        }
        while self.tx_queue.len() > 0
            invariant
                okm.len() <= tx0.len(),
                okm.len() + self.tx_queue@.len() == tx0.len(),
                self.tx_model() == tx0.skip(okm.len() as int),
                self.socket.sent_model() == sent_mid + tx_sends(
                    tx0.take(okm.len() as int),
                    okm,
                ),
                self.socket.inbound_model() == inbound0.skip(ds.len() as int),
                self.socket.read_timeout_model() == rto1,
                self.socket.write_timeout_model() == wto1,
                self.rx_model() == rx0 + inbound_of(ds),
                self.next_msg_id >= id0,
                self.definition == old(self).definition,
                self.name == old(self).name,
                self.server_model() == old(self).server_model(),
                self.cache_model() == old(self).cache_model(),
            decreases self.tx_queue@.len(),
        {
            let ghost k = okm.len() as int;
            proof {
                assert(self.tx_model().first() == self.tx_queue@[0]@);
                assert(self.tx_model().first() == tx0[k]);
            }
            let msg = self.tx_queue.pop_front().unwrap();
            proof {
                assert(msg@ == tx0[k]);
                assert(self.tx_model() =~= tx0.skip(k).drop_first());
                assert(tx0.skip(k).drop_first() =~= tx0.skip(k + 1));
            }
            let ghost pre_sent2 = self.socket.sent_model();
            let _sent = self.send_response(msg);
            proof {
                let ghost ok = _sent is Ok;
                let ghost okm0 = okm;
                okm = okm.push(ok);
                lemma_tx_sends_push(tx0.take(k), okm0, tx0[k], ok);
                assert(tx0.take(k + 1) =~= tx0.take(k).push(tx0[k]));
                if ok {
                    assert(self.socket.sent_model() == pre_sent2.push(
                        response_datagram(msg@),
                    ));
                    assert((sent_mid + tx_sends(tx0.take(k), okm0)).push(
                        response_datagram(tx0[k]),
                    ) =~= sent_mid + tx_sends(tx0.take(k + 1), okm));
                } else {
                    assert(sent_mid + tx_sends(tx0.take(k + 1), okm) =~= sent_mid + tx_sends(
                        tx0.take(k),
                        okm0,
                    ));
                }
            }
        }
        proof {
            assert(tx0.take(tx0.len() as int) =~= tx0);
            assert(tx0 == old(self).tx_model());
            assert(self.socket.sent_model() =~= old(self).socket.sent_model() + rx_sends
                + tx_sends(old(self).tx_model(), okm));
            assert({
                &&& ds == old(self).socket.inbound_model().take(ds.len() as int)
                &&& self.socket.inbound_model() == old(self).socket.inbound_model().skip(
                    ds.len() as int,
                )
                &&& (self.socket.inbound_model().len() == 0 || ds.len() == MAX_POLL_RECV as int)
                &&& self.rx_model() == old(self).rx_model() + inbound_of(ds)
                &&& all_heartbeat_replies(rx_sends, old(self).definition@.id)
                &&& okm.len() == old(self).tx_model().len()
                &&& self.socket.sent_model() == old(self).socket.sent_model() + rx_sends
                    + tx_sends(old(self).tx_model(), okm)
            });
        }
    }

    /// Builds the reply to a request and sends it at once: result values on
    /// success, the error message on failure, never both.  The counter
    /// advances exactly when the transport accepted the send.
    pub fn enqueue_response_to(
        &mut self,
        request: Request,
        params: Result<Vec<Json>, String>,
    ) -> (r: Result<usize, String>)
        ensures
            r is Ok ==> final(self).next_msg_id == old(self).next_msg_id + 1 || (old(
                self,
            ).next_msg_id == u64::MAX && final(self).next_msg_id == u64::MAX),
            r is Err ==> final(self).next_msg_id == old(self).next_msg_id,
            final(self).definition == old(self).definition,
            final(self).name == old(self).name,
            final(self).server_model() == old(self).server_model(),
            final(self).cache_model() == old(self).cache_model(),
            final(self).rx_queue == old(self).rx_queue,
            final(self).tx_queue == old(self).tx_queue,
            final(self).socket.inbound_model() == old(self).socket.inbound_model(),
            final(self).socket.read_timeout_model() == old(self).socket.read_timeout_model(),
            final(self).socket.write_timeout_model() == old(self).socket.write_timeout_model(),
            r is Ok ==> final(self).socket.sent_model() == old(self).socket.sent_model().push(
                response_datagram(
                    (ResponseV {
                        id: old(self).definition@.id,
                        request: request@.id,
                        service: request@.service,
                        body: (match params {
                            Ok(vs) => ResponseBodyV::Values(json_seq_view(vs@)),
                            Err(m) => ResponseBodyV::Error(m@),
                        }),
                    }),
                ),
            ),
            r is Err ==> final(self).socket.sent_model() == old(self).socket.sent_model(),
    {
        let ghost reqv = request@;
        let response = Response::reply_to(self.definition.id.as_str(), request, params);
        proof {
            assert(response@ == (ResponseV {
                id: old(self).definition@.id,
                request: reqv.id,
                service: reqv.service,
                body: (match params {
                    Ok(vs) => ResponseBodyV::Values(json_seq_view(vs@)),
                    Err(m) => ResponseBodyV::Error(m@),
                }),
            }));
        }
        let r = self.send_response(response);
        if r.is_ok() {
            if self.next_msg_id < u64::MAX {
                self.next_msg_id = self.next_msg_id + 1;
            }
        }
        r
    }

    /// Builds an event notification and sends it at once: only the event
    /// field of the response is populated, whatever requests are pending.
    /// The counter advances exactly when the transport accepted the send.
    pub fn send_event(
        &mut self,
        call_id: &str,
        event_type: &str,
        args: Vec<(String, String)>,
    ) -> (r: Result<usize, String>)
        ensures
            r is Ok ==> final(self).next_msg_id == old(self).next_msg_id + 1 || (old(
                self,
            ).next_msg_id == u64::MAX && final(self).next_msg_id == u64::MAX),
            r is Err ==> final(self).next_msg_id == old(self).next_msg_id,
            final(self).definition == old(self).definition,
            final(self).name == old(self).name,
            final(self).server_model() == old(self).server_model(),
            final(self).cache_model() == old(self).cache_model(),
            final(self).rx_queue == old(self).rx_queue,
            final(self).tx_queue == old(self).tx_queue,
            final(self).socket.inbound_model() == old(self).socket.inbound_model(),
            final(self).socket.read_timeout_model() == old(self).socket.read_timeout_model(),
            final(self).socket.write_timeout_model() == old(self).socket.write_timeout_model(),
            r is Ok ==> final(self).socket.sent_model() == old(self).socket.sent_model().push(
                response_datagram(
                    (ResponseV {
                        id: old(self).definition@.id,
                        request: call_id@,
                        service: old(self).name@,
                        body: ResponseBodyV::Event(
                            (EventResponseV {
                                event_type: Some(event_type@),
                                args: Some(pairs_view(args@)),
                            }),
                        ),
                    }),
                ),
            ),
            r is Err ==> final(self).socket.sent_model() == old(self).socket.sent_model(),
    {
        let response = Response::event(
            self.definition.id.as_str(),
            self.name.as_str(),
            call_id,
            event_type,
            args,
        );
        proof {
            assert(response@ == (ResponseV {
                id: old(self).definition@.id,
                request: call_id@,
                service: old(self).name@,
                body: ResponseBodyV::Event(
                    (EventResponseV {
                        event_type: Some(event_type@),
                        args: Some(pairs_view(args@)),
                    }),
                ),
            }));
        }
        let r = self.send_response(response);
        if r.is_ok() {
            if self.next_msg_id < u64::MAX {
                self.next_msg_id = self.next_msg_id + 1;
            }
        }
        r
    }
}

} // verus!
