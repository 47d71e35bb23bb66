use simulation::errors::ErrorKind;
use simulation::net::{Addr, ReadStep, ShutdownMode, EPHEMERAL_LO};
use simulation::runtime::Runtime;

/// Bind, accept, echo one byte: the client reads back `0x41` and the
/// clock never moves — cooperative polling needs no suspensions.
#[test]
fn bind_connect_echo() {
    let mut rt = Runtime::new_with_seed(0).unwrap();
    let t0 = rt.now();
    let handle = rt.localhost_handle();
    let addr = handle.scoped(8080);
    let (lid, bound) = rt.fabric.bind(handle.ip, 8080).unwrap();
    assert_eq!(bound, addr);
    let client = rt.fabric.connect(handle.ip, addr).unwrap();
    let (server, peer) = rt.fabric.accept(lid).unwrap().unwrap();
    assert_eq!(peer, rt.fabric.local_addr(client));
    let n = rt.fabric.write(client, &vec![0x41]).unwrap().unwrap();
    assert_eq!(n, 1);
    match rt.fabric.read(server, 1).unwrap() {
        ReadStep::Data(bytes) => {
            assert_eq!(bytes, vec![0x41]);
            rt.fabric.write(server, &bytes).unwrap().unwrap();
        }
        _ => panic!("expected the client's byte"),
    }
    match rt.fabric.read(client, 1).unwrap() {
        ReadStep::Data(bytes) => assert_eq!(bytes, vec![0x41]),
        _ => panic!("expected the echoed byte"),
    }
    assert_eq!(rt.now(), t0);
}

/// Connecting where nothing is bound is refused and changes nothing.
#[test]
fn refused_connect() {
    let mut rt = Runtime::new_with_seed(0).unwrap();
    let t0 = rt.now();
    let handle = rt.localhost_handle();
    let r = rt.fabric.connect(handle.ip, handle.scoped(9999));
    assert_eq!(r.unwrap_err(), ErrorKind::ConnectionRefused);
    assert_eq!(rt.now(), t0);
}

/// The two halves of a connected pair mirror each other's addresses.
#[test]
fn connected_addresses_mirror() {
    let mut rt = Runtime::new_with_seed(0).unwrap();
    let handle = rt.localhost_handle();
    let (lid, bound) = rt.fabric.bind(handle.ip, 8080).unwrap();
    let client = rt.fabric.connect(handle.ip, bound).unwrap();
    let (server, _) = rt.fabric.accept(lid).unwrap().unwrap();
    assert_eq!(rt.fabric.peer_addr(client), rt.fabric.local_addr(server));
    assert_eq!(rt.fabric.local_addr(client), rt.fabric.peer_addr(server));
    assert_eq!(rt.fabric.local_addr(server), bound);
    assert!(rt.fabric.local_addr(client).port >= EPHEMERAL_LO);
}

/// Binding an already-registered address fails with `AddressInUse`.
#[test]
fn bind_twice_fails() {
    let mut rt = Runtime::new_with_seed(0).unwrap();
    let handle = rt.localhost_handle();
    rt.fabric.bind(handle.ip, 8080).unwrap();
    let r = rt.fabric.bind(handle.ip, 8080);
    assert_eq!(r.unwrap_err(), ErrorKind::AddressInUse);
}

/// Port zero asks for the lowest free ephemeral port.
#[test]
fn bind_port_zero_assigns_lowest_free_ephemeral() {
    let mut rt = Runtime::new_with_seed(0).unwrap();
    let handle = rt.localhost_handle();
    let (_, first) = rt.fabric.bind(handle.ip, 0).unwrap();
    assert_eq!(first.port, EPHEMERAL_LO);
    let (_, second) = rt.fabric.bind(handle.ip, 0).unwrap();
    assert_eq!(second.port, EPHEMERAL_LO + 1);
}

/// Accept hands out connections in the order the connects arrived.
#[test]
fn accept_is_fifo() {
    let mut rt = Runtime::new_with_seed(0).unwrap();
    let handle = rt.localhost_handle();
    let (lid, bound) = rt.fabric.bind(handle.ip, 8080).unwrap();
    let c1 = rt.fabric.connect(handle.ip, bound).unwrap();
    let c2 = rt.fabric.connect(handle.ip, bound).unwrap();
    let (s1, p1) = rt.fabric.accept(lid).unwrap().unwrap();
    let (s2, p2) = rt.fabric.accept(lid).unwrap().unwrap();
    assert_eq!(p1, rt.fabric.local_addr(c1));
    assert_eq!(p2, rt.fabric.local_addr(c2));
    assert!(rt.fabric.local_addr(s1).port == bound.port);
    assert!(rt.fabric.local_addr(s2).port == bound.port);
    assert!(rt.fabric.accept(lid).unwrap().is_none());
}

/// Writing then reading the same number of bytes across a quiet pair
/// yields the buffer byte-identically.
#[test]
fn write_then_read_round_trips() {
    let mut rt = Runtime::new_with_seed(0).unwrap();
    let handle = rt.localhost_handle();
    let (lid, bound) = rt.fabric.bind(handle.ip, 8080).unwrap();
    let client = rt.fabric.connect(handle.ip, bound).unwrap();
    let (server, _) = rt.fabric.accept(lid).unwrap().unwrap();
    let payload = vec![1u8, 2, 3, 5, 8, 13];
    let n = rt.fabric.write(client, &payload).unwrap().unwrap();
    assert_eq!(n, payload.len());
    match rt.fabric.read(server, payload.len()).unwrap() {
        ReadStep::Data(bytes) => assert_eq!(bytes, payload),
        _ => panic!("expected the payload"),
    }
}

/// Once the writer is dropped, the reader drains every byte written and
/// then observes end of stream: total read equals total written.
#[test]
fn eof_after_drop_accounts_all_bytes() {
    let mut rt = Runtime::new_with_seed(0).unwrap();
    let handle = rt.localhost_handle();
    let (lid, bound) = rt.fabric.bind(handle.ip, 8080).unwrap();
    let client = rt.fabric.connect(handle.ip, bound).unwrap();
    let (server, _) = rt.fabric.accept(lid).unwrap().unwrap();
    rt.fabric.write(client, &vec![9, 8, 7]).unwrap().unwrap();
    rt.fabric.drop_socket(client);
    let mut total = Vec::new();
    loop {
        match rt.fabric.read(server, 2).unwrap() {
            ReadStep::Data(mut bytes) => total.append(&mut bytes),
            ReadStep::Eof => break,
            ReadStep::NotReady => panic!("a closed direction never blocks"),
        }
    }
    assert_eq!(total, vec![9, 8, 7]);
}

/// An empty direction with a live peer reports "not ready" rather than
/// end of stream.
#[test]
fn read_on_live_empty_socket_blocks() {
    let mut rt = Runtime::new_with_seed(0).unwrap();
    let handle = rt.localhost_handle();
    let (lid, bound) = rt.fabric.bind(handle.ip, 8080).unwrap();
    let client = rt.fabric.connect(handle.ip, bound).unwrap();
    let (_server, _) = rt.fabric.accept(lid).unwrap().unwrap();
    assert!(matches!(
        rt.fabric.read(client, 1).unwrap(),
        ReadStep::NotReady
    ));
}

/// Writing after shutting down the write direction is `NotConnected`;
/// the peer still drains what was written, then sees end of stream.
#[test]
fn shutdown_write_closes_direction() {
    let mut rt = Runtime::new_with_seed(0).unwrap();
    let handle = rt.localhost_handle();
    let (lid, bound) = rt.fabric.bind(handle.ip, 8080).unwrap();
    let client = rt.fabric.connect(handle.ip, bound).unwrap();
    let (server, _) = rt.fabric.accept(lid).unwrap().unwrap();
    rt.fabric.write(client, &vec![42]).unwrap().unwrap();
    rt.fabric.shutdown(client, ShutdownMode::Write);
    let r = rt.fabric.write(client, &vec![43]);
    assert_eq!(r.unwrap_err(), ErrorKind::NotConnected);
    match rt.fabric.read(server, 4).unwrap() {
        ReadStep::Data(bytes) => assert_eq!(bytes, vec![42]),
        _ => panic!("expected the byte written before shutdown"),
    }
    assert!(matches!(rt.fabric.read(server, 1).unwrap(), ReadStep::Eof));
}

/// Reading after a read shutdown is `NotConnected`.
#[test]
fn shutdown_read_refuses_reads() {
    let mut rt = Runtime::new_with_seed(0).unwrap();
    let handle = rt.localhost_handle();
    let (lid, bound) = rt.fabric.bind(handle.ip, 8080).unwrap();
    let client = rt.fabric.connect(handle.ip, bound).unwrap();
    let (_server, _) = rt.fabric.accept(lid).unwrap().unwrap();
    rt.fabric.shutdown(client, ShutdownMode::Read);
    let r = rt.fabric.read(client, 1);
    assert_eq!(r.unwrap_err(), ErrorKind::NotConnected);
}

/// Writing to a peer that was dropped is a reset.
#[test]
fn write_to_dropped_peer_is_reset() {
    let mut rt = Runtime::new_with_seed(0).unwrap();
    let handle = rt.localhost_handle();
    let (lid, bound) = rt.fabric.bind(handle.ip, 8080).unwrap();
    let client = rt.fabric.connect(handle.ip, bound).unwrap();
    let (server, _) = rt.fabric.accept(lid).unwrap().unwrap();
    rt.fabric.drop_socket(server);
    let r = rt.fabric.write(client, &vec![1]);
    assert_eq!(r.unwrap_err(), ErrorKind::ConnectionReset);
}

/// Dropping a listener unregisters it: accepts on the drained queue are
/// `NotConnected` and later connects are refused.
#[test]
fn dropped_listener_refuses() {
    let mut rt = Runtime::new_with_seed(0).unwrap();
    let handle = rt.localhost_handle();
    let (lid, bound) = rt.fabric.bind(handle.ip, 8080).unwrap();
    rt.fabric.drop_listener(lid);
    let r = rt.fabric.accept(lid);
    assert_eq!(r.unwrap_err(), ErrorKind::NotConnected);
    let c = rt.fabric.connect(handle.ip, bound);
    assert_eq!(c.unwrap_err(), ErrorKind::ConnectionRefused);
}

/// Connections queued before the listener is dropped stay acceptable.
#[test]
fn queued_connects_survive_listener_drop() {
    let mut rt = Runtime::new_with_seed(0).unwrap();
    let handle = rt.localhost_handle();
    let (lid, bound) = rt.fabric.bind(handle.ip, 8080).unwrap();
    let client = rt.fabric.connect(handle.ip, bound).unwrap();
    rt.fabric.drop_listener(lid);
    let (server, peer) = rt.fabric.accept(lid).unwrap().unwrap();
    assert_eq!(peer, rt.fabric.local_addr(client));
    assert_eq!(rt.fabric.local_addr(server), bound);
}

/// A full direction makes further writes suspend until drained.
#[test]
fn full_buffer_blocks_writer() {
    let mut rt = Runtime::new_with_seed(0).unwrap();
    let handle = rt.localhost_handle();
    let (lid, bound) = rt.fabric.bind(handle.ip, 8080).unwrap();
    let client = rt.fabric.connect(handle.ip, bound).unwrap();
    let (server, _) = rt.fabric.accept(lid).unwrap().unwrap();
    let big = vec![0u8; 70000];
    let n = rt.fabric.write(client, &big).unwrap().unwrap();
    assert_eq!(n, 65536);
    assert!(rt.fabric.write(client, &vec![1]).unwrap().is_none());
    match rt.fabric.read(server, 70000).unwrap() {
        ReadStep::Data(bytes) => assert_eq!(bytes.len(), 65536),
        _ => panic!("expected the drained bytes"),
    }
    assert_eq!(rt.fabric.write(client, &vec![1]).unwrap(), Some(1));
}

/// The fabric keeps per-IP namespaces: two hosts may bind the same
/// port, and connects between hosts work.
#[test]
fn per_ip_namespaces() {
    let mut rt = Runtime::new_with_seed(0).unwrap();
    let host_a = rt.handle(Addr::v4(10, 0, 0, 1, 0).ip);
    let host_b = rt.handle(Addr::v4(10, 0, 0, 2, 0).ip);
    let (lid_a, bound_a) = rt.fabric.bind(host_a.ip, 8080).unwrap();
    let (_lid_b, bound_b) = rt.fabric.bind(host_b.ip, 8080).unwrap();
    assert_ne!(bound_a, bound_b);
    let client = rt.fabric.connect(host_b.ip, bound_a).unwrap();
    let (server, peer) = rt.fabric.accept(lid_a).unwrap().unwrap();
    assert_eq!(peer.ip, host_b.ip);
    assert_eq!(rt.fabric.local_addr(server), bound_a);
    assert_eq!(rt.fabric.peer_addr(client), bound_a);
}

/// Dotted-quad construction matches the localhost shorthand.
#[test]
fn dotted_quad_addresses() {
    assert_eq!(Addr::v4(127, 0, 0, 1, 8080), Addr::localhost(8080));
    assert_eq!(Addr::v4(10, 1, 2, 3, 80).ip, 0x0A010203);
}
