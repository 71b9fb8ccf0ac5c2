use libredrop_net::wire::{encode_request, encode_response};
use libredrop_net::{
    Datagram, DiscoveryMsg, DiscoveryServer, FlushAction, FlushEvent, PendingClient,
    PublicEncryptKey, SocketAddress,
};

fn key(seed: u8) -> PublicEncryptKey {
    PublicEncryptKey::from_bytes([seed; 32])
}

fn request_from(sender: SocketAddress, seed: u8) -> Datagram {
    Datagram { payload: encode_request(&key(seed)), sender }
}

fn client_a() -> SocketAddress {
    SocketAddress::v4(127, 0, 0, 1, 40001)
}

fn client_b() -> SocketAddress {
    SocketAddress::v4(127, 0, 0, 1, 40002)
}

fn client_c() -> SocketAddress {
    SocketAddress::v4(10, 1, 2, 3, 40003)
}

/// Runs a flush in which every send goes through; returns the clients that
/// were answered, in order.
fn flush_all(server: &mut DiscoveryServer, first: FlushEvent) -> Vec<PendingClient> {
    let mut answered = Vec::new();
    let mut event = first;
    loop {
        match server.poll_send_responses(event) {
            FlushAction::Idle => return answered,
            FlushAction::Respond { client, .. } => answered.push(client),
        }
        event = FlushEvent::Sent;
    }
}

#[test]
fn server_responds() {
    let mut server = DiscoveryServer::new(0, vec![SocketAddress::v4(192, 168, 1, 100, 1234)]);
    let our_pk = key(7);
    let request = match DiscoveryMsg::serialized_request(our_pk) {
        Ok(bytes) => bytes,
        Err(e) => panic!("Failed to send peer discovery request: {:?}", e),
    };
    assert!(request.len() <= 65000);
    let sender = SocketAddress::v4(127, 0, 0, 1, 50000);

    let action = server.poll(&vec![Datagram { payload: request, sender }]);
    match action {
        FlushAction::Respond { client, plaintext } => {
            assert_eq!(client, PendingClient { addr: sender, key: our_pk });
            match DiscoveryMsg::decode(&plaintext) {
                Some((DiscoveryMsg::Response(addrs), used)) => {
                    assert_eq!(addrs, vec![SocketAddress::v4(192, 168, 1, 100, 1234)]);
                    assert_eq!(used, plaintext.len());
                }
                _ => panic!("Failed to send peer discovery request"),
            }
        }
        FlushAction::Idle => panic!("Failed to send peer discovery request"),
    }
    assert_eq!(server.poll_send_responses(FlushEvent::Sent), FlushAction::Idle);
    assert_eq!(server.pending_count(), 0);
}

#[test]
fn new_server_is_idle() {
    let addrs = vec![SocketAddress::v4(192, 168, 1, 100, 1234)];
    let mut server = DiscoveryServer::new(4321, addrs.clone());
    assert_eq!(server.port(), 4321);
    assert_eq!(server.our_addrs(), &addrs);
    assert_eq!(server.pending_count(), 0);
    assert_eq!(server.poll_send_responses(FlushEvent::Begin), FlushAction::Idle);
    assert_eq!(server.poll(&Vec::new()), FlushAction::Idle);
}

#[test]
fn a_request_queues_exactly_one_client() {
    let mut server = DiscoveryServer::new(1, Vec::new());
    let request = encode_request(&key(9));
    assert!(server.on_packet_recv(&request, client_a()));
    assert_eq!(server.pending_count(), 1);
    assert_eq!(
        flush_all(&mut server, FlushEvent::Begin),
        vec![PendingClient { addr: client_a(), key: key(9) }]
    );
    assert_eq!(server.pending_count(), 0);
}

#[test]
fn the_same_request_twice_queues_two_clients() {
    let mut server = DiscoveryServer::new(1, Vec::new());
    let request = encode_request(&key(9));
    assert!(server.on_packet_recv(&request, client_a()));
    assert!(server.on_packet_recv(&request, client_a()));
    assert_eq!(server.pending_count(), 2);
}

#[test]
fn a_request_may_be_followed_by_other_bytes() {
    let mut server = DiscoveryServer::new(1, Vec::new());
    let mut request = encode_request(&key(3));
    request.extend_from_slice(&[0xde, 0xad]);
    assert!(server.on_packet_recv(&request, client_b()));
    assert_eq!(
        flush_all(&mut server, FlushEvent::Begin),
        vec![PendingClient { addr: client_b(), key: key(3) }]
    );
}

#[test]
fn what_is_no_request_is_dropped() {
    let mut server = DiscoveryServer::new(1, vec![SocketAddress::v4(1, 1, 1, 1, 1)]);
    assert!(!server.on_packet_recv(&[], client_a()));
    assert!(!server.on_packet_recv(&[0, 0, 0, 0], client_a()));
    assert!(!server.on_packet_recv(&[0xff; 64], client_a()));
    assert!(!server.on_packet_recv(&encode_request(&key(1))[..35], client_a()));
    let response = encode_response(&vec![SocketAddress::v4(1, 1, 1, 1, 1)]);
    assert!(!server.on_packet_recv(&response, client_a()));
    assert_eq!(server.pending_count(), 0);
    assert_eq!(server.poll_send_responses(FlushEvent::Begin), FlushAction::Idle);
}

#[test]
fn poll_requests_goes_on_after_what_it_drops() {
    let mut server = DiscoveryServer::new(1, Vec::new());
    let datagrams = vec![
        Datagram { payload: vec![1, 2, 3], sender: client_a() },
        request_from(client_a(), 1),
        Datagram { payload: Vec::new(), sender: client_b() },
        Datagram { payload: vec![0xff; 100], sender: client_b() },
        request_from(client_b(), 2),
    ];
    assert_eq!(server.poll_requests(&datagrams), 3);
    assert_eq!(server.pending_count(), 2);
    assert_eq!(
        flush_all(&mut server, FlushEvent::Begin),
        vec![
            PendingClient { addr: client_b(), key: key(2) },
            PendingClient { addr: client_a(), key: key(1) },
        ]
    );
}

#[test]
fn a_flush_answers_the_most_recent_client_first() {
    let mut server = DiscoveryServer::new(1, Vec::new());
    let dropped = server.poll_requests(&vec![request_from(client_a(), 1), request_from(client_b(), 2)]);
    assert_eq!(dropped, 0);
    let answered = flush_all(&mut server, FlushEvent::Begin);
    assert_eq!(answered.len(), 2);
    assert_eq!(answered[0].addr, client_b());
    assert_eq!(answered[1].addr, client_a());
    assert_eq!(server.pending_count(), 0);
}

#[test]
fn every_response_carries_the_configured_addresses() {
    let addrs = vec![SocketAddress::v4(192, 168, 1, 100, 1234), SocketAddress::v4(127, 0, 0, 1, 1234)];
    let mut server = DiscoveryServer::new(1, addrs.clone());
    assert_eq!(server.make_response(), encode_response(&addrs));
    server.poll_requests(&vec![request_from(client_a(), 1), request_from(client_b(), 2)]);
    let mut event = FlushEvent::Begin;
    let mut seen = 0;
    loop {
        match server.poll_send_responses(event) {
            FlushAction::Idle => break,
            FlushAction::Respond { plaintext, .. } => {
                assert_eq!(plaintext, encode_response(&addrs));
                seen += 1;
            }
        }
        event = FlushEvent::Sent;
    }
    assert_eq!(seen, 2);
}

#[test]
fn a_send_that_would_block_puts_the_client_back() {
    let mut server = DiscoveryServer::new(1, Vec::new());
    server.poll_requests(&vec![
        request_from(client_a(), 1),
        request_from(client_b(), 2),
        request_from(client_c(), 3),
    ]);
    match server.poll_send_responses(FlushEvent::Begin) {
        FlushAction::Respond { client, .. } => assert_eq!(client.addr, client_c()),
        FlushAction::Idle => panic!("three clients wait"),
    }
    match server.poll_send_responses(FlushEvent::Sent) {
        FlushAction::Respond { client, .. } => assert_eq!(client.addr, client_b()),
        FlushAction::Idle => panic!("two clients wait"),
    }
    assert_eq!(server.pending_count(), 1);
    assert_eq!(server.poll_send_responses(FlushEvent::WouldBlock), FlushAction::Idle);
    assert_eq!(server.pending_count(), 2);

    // The next wakeup takes the flush up where it stopped.
    let answered = flush_all(&mut server, FlushEvent::Begin);
    assert_eq!(
        answered,
        vec![
            PendingClient { addr: client_b(), key: key(2) },
            PendingClient { addr: client_a(), key: key(1) },
        ]
    );
}

#[test]
fn a_client_that_arrives_while_another_is_blocked_is_served_first() {
    let mut server = DiscoveryServer::new(1, Vec::new());
    server.poll_requests(&vec![request_from(client_a(), 1), request_from(client_b(), 2)]);
    match server.poll_send_responses(FlushEvent::Begin) {
        FlushAction::Respond { client, .. } => assert_eq!(client.addr, client_b()),
        FlushAction::Idle => panic!("two clients wait"),
    }
    assert_eq!(server.poll_send_responses(FlushEvent::WouldBlock), FlushAction::Idle);
    match server.poll(&vec![request_from(client_c(), 3)]) {
        FlushAction::Respond { client, .. } => assert_eq!(client.addr, client_c()),
        FlushAction::Idle => panic!("three clients wait"),
    }
    let rest = flush_all(&mut server, FlushEvent::Sent);
    assert_eq!(rest.len(), 2);
    assert_eq!(rest[0].addr, client_b());
    assert_eq!(rest[1].addr, client_a());
}

#[test]
fn a_client_whose_response_cannot_be_sealed_is_given_up() {
    let mut server = DiscoveryServer::new(1, Vec::new());
    server.poll_requests(&vec![request_from(client_a(), 1), request_from(client_b(), 2)]);
    match server.poll_send_responses(FlushEvent::Begin) {
        FlushAction::Respond { client, .. } => assert_eq!(client.addr, client_b()),
        FlushAction::Idle => panic!("two clients wait"),
    }
    match server.poll_send_responses(FlushEvent::SealFailed) {
        FlushAction::Respond { client, .. } => assert_eq!(client.addr, client_a()),
        FlushAction::Idle => panic!("one client waits"),
    }
    assert_eq!(server.poll_send_responses(FlushEvent::Sent), FlushAction::Idle);
    assert_eq!(server.pending_count(), 0);
}

#[test]
fn would_block_with_nothing_under_way_changes_nothing() {
    let mut server = DiscoveryServer::new(1, Vec::new());
    server.poll_requests(&vec![request_from(client_a(), 1)]);
    assert_eq!(server.poll_send_responses(FlushEvent::WouldBlock), FlushAction::Idle);
    assert_eq!(server.pending_count(), 1);
    assert_eq!(
        flush_all(&mut server, FlushEvent::Begin),
        vec![PendingClient { addr: client_a(), key: key(1) }]
    );
}
