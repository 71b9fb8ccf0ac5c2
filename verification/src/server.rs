//! The responder: a queue of clients that wait for an answer, filled from the
//! datagrams that were read and emptied one send at a time.
//!
//! The responder owns no socket. Its caller reads the datagrams that are
//! there and hands them over; it then performs each action that the responder
//! asks for and reports how it went.

use vstd::prelude::*;
use crate::address::SocketAddress;
use crate::wire::{encode_msg, encode_response, parse_msg, DiscoveryMsg, Message, PublicEncryptKey};

verus! {

/// A client that asked and has not been answered yet.
#[derive(Clone, Copy, Debug, PartialEq, Eq)]
pub struct PendingClient {
    /// Where the request came from.
    pub addr: SocketAddress,
    /// The key that the answer is to be sealed with.
    pub key: PublicEncryptKey,
}

/// A datagram as it was read from the socket.
#[derive(Debug, PartialEq, Eq)]
pub struct Datagram {
    pub payload: Vec<u8>,
    pub sender: SocketAddress,
}

/// What the caller reports to the responder when it asks for the next action.
#[derive(Clone, Copy, Debug, PartialEq, Eq)]
pub enum FlushEvent {
    /// A wakeup begins; no action is under way.
    Begin,
    /// The last response was handed to the socket.
    Sent,
    /// The last response could not be sealed; its client is given up.
    SealFailed,
    /// The socket would have blocked on the last response.
    WouldBlock,
}

/// What the responder asks its caller to do next.
#[derive(Debug, PartialEq, Eq)]
pub enum FlushAction {
    /// Nothing more can be done in this wakeup.
    Idle,
    /// Seal `plaintext` with the client's key and send it to the client's
    /// address.
    Respond { client: PendingClient, plaintext: Vec<u8> },
}

/// Peer discovery server: answers requests with the addresses that this peer
/// listens on, so that other peers can connect to it.
pub struct DiscoveryServer {
    /// Addresses that responses carry.
    our_addrs: Vec<SocketAddress>,
    port: u16,
    /// Clients still waiting for a response; the last one is served first.
    clients: Vec<PendingClient>,
    /// The client whose response the caller is sending.
    in_flight: Option<PendingClient>,
}

/// The responder as a mathematical value.
pub struct ServerState {
    pub our_addrs: Seq<SocketAddress>,
    pub port: u16,
    pub pending: Seq<PendingClient>,
    pub in_flight: Option<PendingClient>,
}

impl View for DiscoveryServer {
    type V = ServerState;

    closed spec fn view(&self) -> ServerState {
        ServerState {
            our_addrs: self.our_addrs@,
            port: self.port,
            pending: self.clients@,
            in_flight: self.in_flight,
        }
    }
}

/// The key of the request that `payload` starts with, if it starts with one.
/// Bytes after the request do not matter.
pub open spec fn request_key(payload: Seq<u8>) -> Option<PublicEncryptKey> {
    match parse_msg(payload) {
        Some((Message::Request(key), _)) => Some(key),
        _ => None,
    }
}

/// The state after one datagram: a request puts its sender at the end of the
/// queue, anything else changes nothing.
pub open spec fn receive(state: ServerState, payload: Seq<u8>, sender: SocketAddress) -> ServerState {
    match request_key(payload) {
        Some(key) => ServerState {
            pending: state.pending.push(PendingClient { addr: sender, key }),
            ..state
        },
        None => state,
    }
}

/// The state after `datagrams`, taken in the order they arrived in.
pub open spec fn receive_all(state: ServerState, datagrams: Seq<Datagram>) -> ServerState
    decreases datagrams.len(),
{
    if datagrams.len() == 0 {
        state
    } else {
        receive(
            receive_all(state, datagrams.drop_last()),
            datagrams.last().payload@,
            datagrams.last().sender,
        )
    }
}

/// One step of a flush: the state after `event`, and the client to answer
/// next, if any.
///
/// After `WouldBlock` the client whose send was under way goes back to the end
/// of the queue and the flush stops. After any other event that client is
/// forgotten and the last client of the queue is taken out to be answered; an
/// empty queue stops the flush.
pub open spec fn flush_step(state: ServerState, event: FlushEvent) -> (
    ServerState,
    Option<PendingClient>,
) {
    if event is WouldBlock {
        let pending = match state.in_flight {
            Some(client) => state.pending.push(client),
            None => state.pending,
        };
        (ServerState { pending, in_flight: None, ..state }, None)
    } else if state.pending.len() == 0 {
        (ServerState { in_flight: None, ..state }, None)
    } else {
        let client = state.pending.last();
        (
            ServerState { pending: state.pending.drop_last(), in_flight: Some(client), ..state },
            Some(client),
        )
    }
}

/// The clients that a flush answers, in order, when every send goes through,
/// and the state it ends in.
pub open spec fn uninterrupted_flush(state: ServerState) -> (Seq<PendingClient>, ServerState)
    decreases state.pending.len(),
{
    let (next, client) = flush_step(state, FlushEvent::Sent);
    match client {
        None => (Seq::empty(), next),
        Some(c) => {
            let (later, end) = uninterrupted_flush(next);
            (seq![c] + later, end)
        },
    }
}

impl DiscoveryServer {
    /// Makes the responder for a socket that is bound to `port`, to answer
    /// with `our_addrs`.
    pub fn new(port: u16, our_addrs: Vec<SocketAddress>) -> (server: Self)
        ensures
            server@ == (ServerState {
                our_addrs: our_addrs@,
                port,
                pending: Seq::empty(),
                in_flight: None,
            }),
    {
        DiscoveryServer { our_addrs, port, clients: Vec::new(), in_flight: None }
    }

    /// Returns server port.
    pub fn port(&self) -> (port: u16)
        ensures
            port == self@.port,
    {
        self.port
    }

    /// The addresses that responses carry.
    pub fn our_addrs(&self) -> (addrs: &Vec<SocketAddress>)
        ensures
            addrs@ == self@.our_addrs,
    {
        &self.our_addrs
    }

    /// The number of clients that wait for a response.
    pub fn pending_count(&self) -> (n: usize)
        ensures
            n == self@.pending.len(),
    {
        self.clients.len()
    }

    /// Takes one datagram in. Returns true where it was a request, whose
    /// sender then waits at the end of the queue; false where it was dropped.
    pub fn on_packet_recv(&mut self, buf: &[u8], sender_addr: SocketAddress) -> (accepted: bool)
        ensures
            final(self)@ == receive(old(self)@, buf@, sender_addr),
            accepted == request_key(buf@).is_some(),
    {
        match DiscoveryMsg::decode(buf) {
            Some((DiscoveryMsg::Request(their_pk), _)) => {
                self.clients.push(PendingClient { addr: sender_addr, key: their_pk });
                true
            },
            _ => false,
        }
    }

    /// Takes in the datagrams that were read in this wakeup, in the order
    /// they arrived in. Returns how many of them were dropped.
    pub fn poll_requests(&mut self, datagrams: &Vec<Datagram>) -> (dropped: usize)
        ensures
            final(self)@ == receive_all(old(self)@, datagrams@),
            dropped + final(self)@.pending.len() == datagrams@.len() + old(self)@.pending.len(),
    {
        let n = datagrams.len();
        let mut dropped: usize = 0;
        let mut i: usize = 0;
        while i < n
            invariant
                i <= n,
                n == datagrams@.len(),
                self@ == receive_all(old(self)@, datagrams@.take(i as int)),
                dropped + self@.pending.len() == i + old(self)@.pending.len(),
                dropped <= i,
            decreases n - i,
        {
            proof {
                let upto = datagrams@.take(i + 1);
                assert(upto.drop_last() =~= datagrams@.take(i as int));
                assert(upto.last() == datagrams@[i as int]);
            }
            let accepted = self.on_packet_recv(datagrams[i].payload.as_slice(), datagrams[i].sender);
            if !accepted {
                dropped += 1;
            }
            i += 1;
        }
        assert(datagrams@.take(n as int) =~= datagrams@);
        dropped
    }

    /// The response of this responder before it is sealed.
    pub fn make_response(&self) -> (plaintext: Vec<u8>)
        ensures
            plaintext@ == encode_msg(Message::Response(self@.our_addrs)),
    {
        encode_response(&self.our_addrs)
    }

    /// One step of a flush. The caller reports how the last action went and
    /// is told what to do next.
    pub fn poll_send_responses(&mut self, event: FlushEvent) -> (action: FlushAction)
        ensures
            final(self)@ == flush_step(old(self)@, event).0,
            match action {
                FlushAction::Idle => flush_step(old(self)@, event).1 is None,
                FlushAction::Respond { client, plaintext } => {
                    &&& flush_step(old(self)@, event).1 == Some(client)
                    &&& plaintext@ == encode_msg(Message::Response(old(self)@.our_addrs))
                },
            },
    {
        let held = self.in_flight;
        self.in_flight = None;
        match event {
            FlushEvent::WouldBlock => {
                match held {
                    Some(client) => {
                        self.clients.push(client);
                    },
                    None => {},
                }
                FlushAction::Idle
            },
            _ => {
                match self.clients.pop() {
                    None => FlushAction::Idle,
                    Some(client) => {
                        self.in_flight = Some(client);
                        FlushAction::Respond { client, plaintext: self.make_response() }
                    },
                }
            },
        }
    }

    /// One wakeup: takes in the datagrams that were read, then starts a
    /// flush.
    pub fn poll(&mut self, datagrams: &Vec<Datagram>) -> (action: FlushAction)
        ensures
            final(self)@ == flush_step(receive_all(old(self)@, datagrams@), FlushEvent::Begin).0,
            match action {
                FlushAction::Idle => flush_step(
                    receive_all(old(self)@, datagrams@),
                    FlushEvent::Begin,
                ).1 is None,
                FlushAction::Respond { client, plaintext } => {
                    &&& flush_step(receive_all(old(self)@, datagrams@), FlushEvent::Begin).1
                        == Some(client)
                    &&& plaintext@ == encode_msg(Message::Response(old(self)@.our_addrs))
                },
            },
    {
        let _ = self.poll_requests(datagrams);
        proof {
            lemma_receive_all_keeps(old(self)@, datagrams@);
        }
        self.poll_send_responses(FlushEvent::Begin)
    }
}

/// Taking datagrams in changes nothing but the queue, which only grows at its
/// end.
pub proof fn lemma_receive_all_keeps(state: ServerState, datagrams: Seq<Datagram>)
    ensures
        receive_all(state, datagrams).our_addrs == state.our_addrs,
        receive_all(state, datagrams).port == state.port,
        receive_all(state, datagrams).in_flight == state.in_flight,
        state.pending.is_prefix_of(receive_all(state, datagrams).pending),
    decreases datagrams.len(),
{
    if datagrams.len() > 0 {
        lemma_receive_all_keeps(state, datagrams.drop_last());
    }
}

/// A flush goes on in the same way after `Begin`, `Sent` and `SealFailed`.
pub proof fn lemma_flush_step_goes_on(state: ServerState)
    ensures
        flush_step(state, FlushEvent::Begin) == flush_step(state, FlushEvent::Sent),
        flush_step(state, FlushEvent::SealFailed) == flush_step(state, FlushEvent::Sent),
{
}

/// A request, whatever bytes follow it, puts exactly one client at the end of
/// the queue: its sender, with the key it carries. A flush that starts then
/// answers that client first.
pub proof fn lemma_request_is_queued_once(
    state: ServerState,
    key: PublicEncryptKey,
    trailing: Seq<u8>,
    sender: SocketAddress,
)
    ensures
        receive(state, encode_msg(Message::Request(key)) + trailing, sender).pending
            == state.pending.push(PendingClient { addr: sender, key }),
        flush_step(
            receive(state, encode_msg(Message::Request(key)) + trailing, sender),
            FlushEvent::Begin,
        ).1 == Some(PendingClient { addr: sender, key }),
{
    crate::wire::lemma_parse_msg_complete(Message::Request(key), trailing);
}

/// Datagrams that are no requests leave the responder as it was: none of them
/// is answered, and none stops the others from being read.
pub proof fn lemma_malformed_are_dropped(state: ServerState, datagrams: Seq<Datagram>)
    requires
        forall|i: int|
            0 <= i < datagrams.len() ==> request_key((#[trigger] datagrams[i]).payload@) is None,
    ensures
        receive_all(state, datagrams) == state,
    decreases datagrams.len(),
{
    if datagrams.len() > 0 {
        lemma_malformed_are_dropped(state, datagrams.drop_last());
    }
}

/// A flush in which every send goes through answers every client of the
/// queue once, the most recent first, and leaves the queue empty.
pub proof fn lemma_uninterrupted_flush_order(state: ServerState)
    ensures
        uninterrupted_flush(state).0 == state.pending.reverse(),
        uninterrupted_flush(state).1 == (ServerState {
            pending: Seq::empty(),
            in_flight: None,
            ..state
        }),
    decreases state.pending.len(),
{
    let (next, client) = flush_step(state, FlushEvent::Sent);
    if state.pending.len() > 0 {
        lemma_uninterrupted_flush_order(next);
        assert(seq![state.pending.last()] + state.pending.drop_last().reverse()
            =~= state.pending.reverse());
    } else {
        assert(next.pending =~= Seq::<PendingClient>::empty());
    }
}

/// Of two clients in the queue, the one that came later is answered earlier
/// by a flush in which every send goes through.
pub proof fn lemma_later_client_first(state: ServerState, earlier: int, later: int)
    requires
        0 <= earlier < later < state.pending.len(),
    ensures
        ({
            let answered = uninterrupted_flush(state).0;
            let n = state.pending.len();
            &&& answered.len() == n
            &&& answered[n - 1 - later] == state.pending[later]
            &&& answered[n - 1 - earlier] == state.pending[earlier]
            &&& n - 1 - later < n - 1 - earlier
        }),
{
    lemma_uninterrupted_flush_order(state);
}

/// A send that would block undoes the step that asked for it: the client
/// goes back to the end of the queue, which is then as it was before.
pub proof fn lemma_would_block_restores(state: ServerState, event: FlushEvent)
    requires
        !(event is WouldBlock),
        state.pending.len() > 0,
    ensures
        flush_step(flush_step(state, event).0, FlushEvent::WouldBlock) == (
            ServerState { in_flight: None, ..state },
            None::<PendingClient>,
        ),
{
    assert(state.pending.drop_last().push(state.pending.last()) =~= state.pending);
}

} // verus!
