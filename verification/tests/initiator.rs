use libredrop_net::interfaces::{broadcast_addrs, broadcast_targets, targets_of_listing};
use libredrop_net::wire::{encode_request, encode_response};
use libredrop_net::{
    discover_peers, Datagram, DiscoveryError, DiscoveryRound, DiscoveryServer, FlushAction,
    FlushEvent, IfAddr, Ifv4Addr, Ifv6Addr, IpAddress, PublicEncryptKey, SocketAddress,
};

fn round_key() -> PublicEncryptKey {
    PublicEncryptKey::from_bytes([0x42; 32])
}

/// Carries one round out against `server`, with one branch for each target;
/// the sealing is left out, so what a branch opens is what the server made.
fn run_round(
    round: &DiscoveryRound,
    server: &mut DiscoveryServer,
) -> Vec<Result<Vec<SocketAddress>, DiscoveryError>> {
    let mut outcomes = Vec::new();
    for (i, _target) in round.targets().iter().enumerate() {
        let branch_socket = SocketAddress::v4(127, 0, 0, 1, 50000 + i as u16);
        let datagram = Datagram { payload: round.request().clone(), sender: branch_socket };
        match server.poll(&vec![datagram]) {
            FlushAction::Respond { client, plaintext } => {
                assert_eq!(client.addr, branch_socket);
                assert_eq!(client.key, round.public_key());
                outcomes.push(DiscoveryRound::read_response(Some(&plaintext)));
                assert_eq!(server.poll_send_responses(FlushEvent::Sent), FlushAction::Idle);
            }
            FlushAction::Idle => panic!("Peer discovery failed"),
        }
    }
    outcomes
}

#[test]
fn discover_peers_broadcasts_requests_on_lan_and_collects_peer_addresses() {
    let mut server = DiscoveryServer::new(
        0,
        vec![SocketAddress::v4(192, 168, 1, 100, 1234), SocketAddress::v4(127, 0, 0, 1, 1234)],
    );
    let server_port = server.port();

    let lan = vec![SocketAddress::v4(192, 168, 1, 255, server_port)];
    let round = match DiscoveryRound::start(Ok(lan), round_key()) {
        Ok(round) => round,
        Err(_) => panic!("Peer discovery failed"),
    };
    let mut their_addrs = Vec::new();
    for outcome in run_round(&round, &mut server) {
        match outcome {
            Ok(addrs) => their_addrs.push(addrs),
            Err(_) => panic!("Peer discovery failed"),
        }
    }
    assert_eq!(
        their_addrs,
        vec![vec![SocketAddress::v4(192, 168, 1, 100, 1234), SocketAddress::v4(127, 0, 0, 1, 1234)]]
    );
}

#[test]
fn a_round_yields_one_outcome_for_each_target() {
    let mut server = DiscoveryServer::new(9, vec![SocketAddress::v4(10, 0, 0, 1, 9)]);
    let lan = vec![
        SocketAddress::v4(10, 0, 0, 255, 9),
        SocketAddress::v4(192, 168, 1, 255, 9),
        SocketAddress::v4(172, 16, 255, 255, 9),
    ];
    let round = DiscoveryRound::start(Ok(lan.clone()), round_key()).unwrap();
    assert_eq!(round.targets(), &lan);
    assert_eq!(round.request(), &encode_request(&round_key()));
    assert_eq!(round.public_key(), round_key());
    let outcomes = run_round(&round, &mut server);
    assert_eq!(outcomes.len(), 3);
    for outcome in outcomes {
        assert_eq!(outcome.unwrap(), vec![SocketAddress::v4(10, 0, 0, 1, 9)]);
    }
}

#[test]
fn an_empty_advertisement_is_a_success() {
    let mut server = DiscoveryServer::new(9, Vec::new());
    let round = DiscoveryRound::start(Ok(vec![SocketAddress::v4(10, 0, 0, 255, 9)]), round_key()).unwrap();
    let outcomes = run_round(&round, &mut server);
    assert_eq!(outcomes.len(), 1);
    match &outcomes[0] {
        Ok(addrs) => assert!(addrs.is_empty()),
        Err(e) => panic!("an empty list is no error: {:?}", e),
    }
    assert_eq!(DiscoveryRound::read_response(Some(&encode_response(&Vec::new()))).unwrap(), Vec::new());
}

#[test]
fn a_round_without_targets_sends_nothing() {
    let mut server = DiscoveryServer::new(9, vec![SocketAddress::v4(10, 0, 0, 1, 9)]);
    let round = DiscoveryRound::start(Ok(Vec::new()), round_key()).unwrap();
    assert!(round.targets().is_empty());
    assert!(run_round(&round, &mut server).is_empty());
}

#[test]
fn a_failed_listing_fails_the_round() {
    let cause = std::io::Error::new(std::io::ErrorKind::PermissionDenied, "no interfaces for you");
    match DiscoveryRound::start(Err(cause), round_key()) {
        Err(DiscoveryError::Io(e)) => {
            assert_eq!(e.kind(), std::io::ErrorKind::PermissionDenied);
            assert_eq!(e.to_string(), "no interfaces for you");
        }
        other => panic!("expected the listing's error, got {:?}", other),
    }
}

#[test]
fn what_cannot_be_opened_is_an_invalid_response() {
    assert!(matches!(DiscoveryRound::read_response(None), Err(DiscoveryError::InvalidResponse)));
}

#[test]
fn what_is_no_response_is_an_invalid_response() {
    let request = encode_request(&round_key());
    assert!(matches!(
        DiscoveryRound::read_response(Some(&request)),
        Err(DiscoveryError::InvalidResponse)
    ));
    assert!(matches!(DiscoveryRound::read_response(Some(&[])), Err(DiscoveryError::InvalidResponse)));
    assert!(matches!(
        DiscoveryRound::read_response(Some(&[0xff; 30])),
        Err(DiscoveryError::InvalidResponse)
    ));
    let response = encode_response(&vec![SocketAddress::v4(1, 2, 3, 4, 5)]);
    assert!(matches!(
        DiscoveryRound::read_response(Some(&response[..21])),
        Err(DiscoveryError::InvalidResponse)
    ));
}

#[test]
fn bytes_after_a_response_make_it_invalid() {
    let mut response = encode_response(&vec![SocketAddress::v4(1, 2, 3, 4, 5)]);
    assert_eq!(
        DiscoveryRound::read_response(Some(&response)).unwrap(),
        vec![SocketAddress::v4(1, 2, 3, 4, 5)]
    );
    response.push(0);
    assert!(matches!(
        DiscoveryRound::read_response(Some(&response)),
        Err(DiscoveryError::InvalidResponse)
    ));
}

#[test]
fn broadcast_targets_are_the_ipv4_broadcast_addresses() {
    let interfaces = vec![
        IfAddr::V4(Ifv4Addr { ip: [127, 0, 0, 1], broadcast: None }),
        IfAddr::V4(Ifv4Addr {
            ip: [192, 168, 1, 17],
            broadcast: Some([192, 168, 1, 255]),
        }),
        IfAddr::V6(Ifv6Addr { ip: [0; 16], broadcast: Some([0xff; 16]) }),
        IfAddr::V6(Ifv6Addr { ip: [1; 16], broadcast: None }),
        IfAddr::V4(Ifv4Addr {
            ip: [10, 1, 2, 3],
            broadcast: Some([10, 255, 255, 255]),
        }),
        IfAddr::V4(Ifv4Addr {
            ip: [192, 168, 1, 18],
            broadcast: Some([192, 168, 1, 255]),
        }),
    ];
    assert_eq!(
        broadcast_targets(6000, &interfaces),
        vec![
            SocketAddress { ip: IpAddress::V4([192, 168, 1, 255]), port: 6000 },
            SocketAddress { ip: IpAddress::V4([10, 255, 255, 255]), port: 6000 },
            SocketAddress { ip: IpAddress::V4([192, 168, 1, 255]), port: 6000 },
        ]
    );
    assert_eq!(broadcast_targets(6000, &Vec::new()), Vec::new());
}

#[test]
fn broadcast_addrs_of_this_machine_carry_the_port() {
    match broadcast_addrs(6001) {
        Ok(targets) => {
            for target in targets {
                assert_eq!(target.port, 6001);
                assert!(target.is_ipv4());
            }
        }
        Err(e) => println!("the interfaces of this machine cannot be listed: {}", e),
    }
}

#[test]
fn discover_peers_plans_a_round_for_this_machine() {
    match discover_peers(6002, round_key()) {
        Ok(round) => {
            assert_eq!(round.public_key(), round_key());
            assert_eq!(round.request(), &encode_request(&round_key()));
            for target in round.targets() {
                assert_eq!(target.port, 6002);
                assert!(target.is_ipv4());
            }
        }
        Err(e) => assert!(matches!(e, DiscoveryError::Io(_))),
    }
}

#[test]
fn two_rounds_are_independent() {
    let lan = vec![SocketAddress::v4(10, 0, 0, 255, 9)];
    let first = DiscoveryRound::start(Ok(lan.clone()), PublicEncryptKey::from_bytes([1; 32])).unwrap();
    let second = DiscoveryRound::start(Ok(lan), PublicEncryptKey::from_bytes([2; 32])).unwrap();
    assert_ne!(first.public_key(), second.public_key());
    assert_ne!(first.request(), second.request());
    assert_eq!(first.targets(), second.targets());
}

#[test]
fn a_listing_gives_its_targets_or_its_error() {
    let interfaces = vec![
        IfAddr::V4(Ifv4Addr { ip: [10, 1, 2, 3], broadcast: Some([10, 255, 255, 255]) }),
        IfAddr::V6(Ifv6Addr { ip: [1; 16], broadcast: None }),
    ];
    match targets_of_listing(7000, Ok(interfaces)) {
        Ok(targets) => assert_eq!(targets, vec![SocketAddress::v4(10, 255, 255, 255, 7000)]),
        Err(e) => panic!("the listing went well: {}", e),
    }
    let cause = std::io::Error::new(std::io::ErrorKind::Other, "getifaddrs failed");
    match targets_of_listing(7000, Err(cause)) {
        Err(e) => {
            assert_eq!(e.kind(), std::io::ErrorKind::Other);
            assert_eq!(e.to_string(), "getifaddrs failed");
        }
        Ok(targets) => panic!("the listing failed, yet gave {:?}", targets),
    }
}
