//! The initiator: one discovery round, from the request that is broadcast to
//! the reading of what comes back.
//!
//! A round has one key pair, made by the caller, and one request, sent to
//! every broadcast target. Each target then yields one outcome: the addresses
//! of the peer that answered, or an error of its own.

use vstd::prelude::*;
use crate::address::{IfAddr, SocketAddress};
use crate::error::DiscoveryError;
use crate::interfaces::{all_broadcast_on, broadcast_addrs, broadcast_targets_of};
use crate::server::{flush_step, receive_all, Datagram, FlushEvent, ServerState};
use crate::wire::{encode_msg, encode_request, parse_msg, DiscoveryMsg, Message, PublicEncryptKey};

verus! {

/// One discovery round: what to send, and where to.
#[derive(Debug)]
pub struct DiscoveryRound {
    public_key: PublicEncryptKey,
    request: Vec<u8>,
    targets: Vec<SocketAddress>,
}

/// A discovery round as a mathematical value.
pub struct RoundPlan {
    /// The public key of the round; answers are sealed with it.
    pub public_key: PublicEncryptKey,
    /// The datagram that every target is sent.
    pub request: Seq<u8>,
    /// Where the request goes, one branch for each.
    pub targets: Seq<SocketAddress>,
}

impl View for DiscoveryRound {
    type V = RoundPlan;

    closed spec fn view(&self) -> RoundPlan {
        RoundPlan { public_key: self.public_key, request: self.request@, targets: self.targets@ }
    }
}

/// The round that goes to `targets` with the key `public_key`.
pub open spec fn plan_round(public_key: PublicEncryptKey, targets: Seq<SocketAddress>) -> RoundPlan {
    RoundPlan { public_key, request: encode_msg(Message::Request(public_key)), targets }
}

/// The addresses of the response that `plaintext` is, from its first byte to
/// its last; `None` where it is anything else.
pub open spec fn response_addrs(plaintext: Seq<u8>) -> Option<Seq<SocketAddress>> {
    match parse_msg(plaintext) {
        Some((Message::Response(addrs), used)) => if used == plaintext.len() {
            Some(addrs)
        } else {
            None
        },
        _ => None,
    }
}

/// The addresses that a branch yields for what came back and was opened, or
/// `None` where the branch fails: nothing could be opened, or what was opened
/// is no response.
pub open spec fn branch_outcome(opened: Option<Seq<u8>>) -> Option<Seq<SocketAddress>> {
    match opened {
        Some(plaintext) => response_addrs(plaintext),
        None => None,
    }
}

/// What was opened, as plain bytes.
pub open spec fn opened_bytes(opened: Option<&[u8]>) -> Option<Seq<u8>> {
    match opened {
        Some(plaintext) => Some(plaintext@),
        None => None,
    }
}

impl DiscoveryMsg {
    /// Returns serialized but not encrypted peer discovery request.
    pub fn serialized_request(pk: PublicEncryptKey) -> (r: Result<Vec<u8>, DiscoveryError>)
        ensures
            r matches Ok(bytes) && bytes@ == encode_msg(Message::Request(pk)),
    {
        Ok(encode_request(&pk))
    }
}

impl DiscoveryRound {
    /// The request of a round is the wire form of a request with the round's
    /// public key.
    #[verifier::type_invariant]
    spec fn well_formed(self) -> bool {
        self.request@ == encode_msg(Message::Request(self.public_key))
    }

    /// Plans a round from the outcome of listing the broadcast targets. Where
    /// the listing failed the round fails with that error, and nothing is
    /// sent.
    pub fn start(
        targets: Result<Vec<SocketAddress>, std::io::Error>,
        our_pk: PublicEncryptKey,
    ) -> (r: Result<DiscoveryRound, DiscoveryError>)
        ensures
            match targets {
                Ok(list) => r matches Ok(round) && round@ == plan_round(our_pk, list@),
                Err(e) => r matches Err(DiscoveryError::Io(cause)) && cause == e,
            },
    {
        let broadcast_to = match targets {
            Ok(list) => list,
            Err(e) => {
                return Err(DiscoveryError::Io(e));
            },
        };
        let request = match DiscoveryMsg::serialized_request(our_pk) {
            Ok(bytes) => bytes,
            Err(e) => {
                return Err(e);
            },
        };
        Ok(DiscoveryRound { public_key: our_pk, request, targets: broadcast_to })
    }

    /// The public key of this round.
    pub fn public_key(&self) -> (key: PublicEncryptKey)
        ensures
            key == self@.public_key,
    {
        self.public_key
    }

    /// The datagram to send to every target: the request that carries the
    /// public key of this round.
    pub fn request(&self) -> (bytes: &Vec<u8>)
        ensures
            bytes@ == self@.request,
            bytes@ == encode_msg(Message::Request(self@.public_key)),
    {
        proof {
            use_type_invariant(self);
        }
        &self.request
    }

    /// The targets of this round; each gets a branch of its own.
    pub fn targets(&self) -> (targets: &Vec<SocketAddress>)
        ensures
            targets@ == self@.targets,
    {
        &self.targets
    }

    /// The outcome of one branch. `opened` is the datagram that came back,
    /// opened with the secret key of the round, or `None` where it could not
    /// be opened.
    pub fn read_response(opened: Option<&[u8]>) -> (r: Result<Vec<SocketAddress>, DiscoveryError>)
        ensures
            match r {
                Ok(addrs) => branch_outcome(opened_bytes(opened)) == Some(addrs@),
                Err(e) => e is InvalidResponse && branch_outcome(opened_bytes(opened)) is None,
            },
    {
        match opened {
            None => Err(DiscoveryError::InvalidResponse),
            Some(plaintext) => match DiscoveryMsg::decode(plaintext) {
                Some((DiscoveryMsg::Response(their_addrs), used)) => {
                    if used == plaintext.len() {
                        Ok(their_addrs)
                    } else {
                        Err(DiscoveryError::InvalidResponse)
                    }
                },
                _ => Err(DiscoveryError::InvalidResponse),
            },
        }
    }
}

/// Starts a search for peers on the local network: lists the broadcast
/// targets for `port` and plans the round that asks each of them, with
/// `our_pk` as the key that answers are sealed with.
pub fn discover_peers(port: u16, our_pk: PublicEncryptKey) -> (r: Result<
    DiscoveryRound,
    DiscoveryError,
>)
    ensures
        match r {
            Ok(round) => {
                &&& round@ == plan_round(our_pk, round@.targets)
                &&& all_broadcast_on(round@.targets, port)
                &&& exists|interfaces: Seq<IfAddr>|
                    round@.targets == #[trigger] broadcast_targets_of(port, interfaces)
            },
            Err(e) => e is Io,
        },
{
    DiscoveryRound::start(broadcast_addrs(port), our_pk)
}

/// What a responder answers with, once opened, reads back as the very
/// addresses the responder was made with, in their order; an empty list
/// too.
pub proof fn lemma_response_round_trip(addrs: Seq<SocketAddress>)
    requires
        addrs.len() <= u64::MAX,
    ensures
        branch_outcome(Some(encode_msg(Message::Response(addrs)))) == Some(addrs),
{
    let plaintext = encode_msg(Message::Response(addrs));
    crate::wire::lemma_parse_msg_complete(Message::Response(addrs), Seq::empty());
    assert(plaintext + Seq::<u8>::empty() =~= plaintext);
}

/// A branch yields addresses only for the wire form of a response that
/// carries them: bytes that follow a response, a request and anything else
/// make the branch fail.
pub proof fn lemma_branch_outcome_exact(plaintext: Seq<u8>, addrs: Seq<SocketAddress>)
    ensures
        branch_outcome(Some(plaintext)) == Some(addrs) <==> (addrs.len() <= u64::MAX && plaintext
            == encode_msg(Message::Response(addrs))),
{
    crate::wire::lemma_parse_msg_sound(plaintext);
    if addrs.len() <= u64::MAX && plaintext == encode_msg(Message::Response(addrs)) {
        lemma_response_round_trip(addrs);
    }
    if branch_outcome(Some(plaintext)) == Some(addrs) {
        assert(plaintext.subrange(0, plaintext.len() as int) =~= plaintext);
    }
}

/// Whatever a responder has read and sent, it goes on answering with the
/// addresses it was made with, and an initiator that opens such an answer
/// reads exactly those addresses.
pub proof fn lemma_answer_reads_back(
    state: ServerState,
    datagrams: Seq<Datagram>,
    event: FlushEvent,
)
    requires
        state.our_addrs.len() <= u64::MAX,
    ensures
        receive_all(state, datagrams).our_addrs == state.our_addrs,
        flush_step(state, event).0.our_addrs == state.our_addrs,
        branch_outcome(Some(encode_msg(Message::Response(state.our_addrs)))) == Some(
            state.our_addrs,
        ),
{
    crate::server::lemma_receive_all_keeps(state, datagrams);
    lemma_response_round_trip(state.our_addrs);
}

} // verus!
