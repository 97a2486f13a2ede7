use entrotunnel::config::TransportKind;
use entrotunnel::crypto::noise::{
    initiator_handshake, noise_err, read_hs, responder_handshake, write_hs,
};
use entrotunnel::protocol::codec::decode_frame;
use entrotunnel::protocol::{frames, Frame};
use entrotunnel::transport::framing::{LdSink, LdStream};
use entrotunnel::transport::tcp::{opened, sealed_into, NoiseChannel};
use entrotunnel::transport::ws::{ws_err, ws_url, WsEvent, WsRx, WsSink};
use entrotunnel::transport::{connect_over, Endpoint, Listener, MessageSink, MessageStream};
use entrotunnel::MAX_MESSAGE_LEN;

fn endpoint(kind: TransportKind) -> Endpoint {
    Endpoint {
        host: "1.2.3.4".to_string(),
        port: 443,
        kind,
        ws_path: "/et".to_string(),
        server_name: "vpn.example".to_string(),
    }
}

#[test]
fn messages_carry_their_length() {
    let mut s = LdSink::new(Vec::new());
    s.send(b"abc").unwrap();
    s.send(b"").unwrap();
    assert_eq!(s.take(), vec![0, 0, 0, 3, b'a', b'b', b'c', 0, 0, 0, 0]);
    assert_eq!(s.take(), Vec::<u8>::new());
}

#[test]
fn what_was_framed_arrives_in_any_chunking() {
    let messages: Vec<Vec<u8>> = vec![vec![], vec![1], vec![2; 300], vec![3; 70000]];
    let mut s = LdSink::new(Vec::new());
    for m in &messages {
        s.send(m).unwrap();
    }
    let bytes = s.take();
    for size in [1usize, 3, 4096, 1 << 20] {
        let mut r = LdStream::new(Vec::new());
        let mut got = Vec::new();
        for chunk in bytes.chunks(size) {
            r.feed(chunk);
            while let Some(m) = r.recv().unwrap() {
                got.push(m);
            }
        }
        assert_eq!(got, messages);
        r.end();
        assert_eq!(r.recv().unwrap_err().to_text(), "connection closed");
    }
}

#[test]
fn message_limits() {
    let mut s = LdSink::new(Vec::new());
    s.send(&vec![0; MAX_MESSAGE_LEN]).unwrap();
    assert_eq!(
        s.send(&vec![0; MAX_MESSAGE_LEN + 1]).unwrap_err().to_text(),
        "protocol: message too large: 262145"
    );
    let mut r = LdStream::new(Vec::new());
    r.feed(&[0, 4, 0, 1]);
    assert_eq!(
        r.recv().unwrap_err().to_text(),
        "protocol: frame too large: 262145"
    );
}

#[test]
fn a_stream_that_ends_early() {
    let mut r = LdStream::new(Vec::new());
    r.feed(&[0, 0, 0, 9, 1]);
    r.end();
    assert_eq!(r.recv().unwrap_err().to_text(), "io: early eof");
    let mut r = LdStream::new(Vec::new());
    r.feed(&[0, 0]);
    r.end();
    assert_eq!(r.recv().unwrap_err().to_text(), "connection closed");
}

#[test]
fn handshake_messages_carry_their_length() {
    assert_eq!(write_hs(b"hi"), vec![0, 2, b'h', b'i']);
    assert_eq!(read_hs(&[0, 2, b'h']), None);
    assert_eq!(
        read_hs(&[0, 2, b'h', b'i', 9]),
        Some((b"hi".to_vec(), vec![9]))
    );
}

fn noise_pair(a: [u8; 32], b: [u8; 32]) -> Result<(NoiseChannel, NoiseChannel), String> {
    let (hs, first) = initiator_handshake(&a).map_err(|e| e.to_text())?;
    let (m1, _) = read_hs(&first).unwrap();
    let (server, second) = responder_handshake(&b, &m1).map_err(|e| e.to_text())?;
    let (m2, rest) = read_hs(&second).unwrap();
    assert!(rest.is_empty());
    let client = hs.finish(&m2).map_err(|e| e.to_text())?;
    Ok((
        NoiseChannel::wrap(client, Vec::new()),
        NoiseChannel::wrap(server, Vec::new()),
    ))
}

#[test]
fn a_noise_channel_gives_back_what_was_sent() {
    let (mut a, mut b) = noise_pair([7; 32], [7; 32]).unwrap();
    for m in [b"hello".to_vec(), Vec::new(), vec![1], vec![0xff; 4], vec![0xaa; 65519]] {
        a.send(&m).unwrap();
        let wire = a.take();
        assert!(wire.len() == m.len() + 18);
        if m.len() > 3 {
            assert!(wire[2..2 + m.len()] != m[..]);
        }
        for chunk in wire.chunks(1000) {
            b.feed(chunk);
        }
        assert_eq!(b.recv().unwrap(), Some(m));
        assert_eq!(b.recv().unwrap(), None);
    }
    b.send(b"back").unwrap();
    a.feed(&b.take());
    assert_eq!(a.recv().unwrap(), Some(b"back".to_vec()));
    a.close().unwrap();
    b.end();
    assert_eq!(b.recv().unwrap_err().to_text(), "connection closed");
}

#[test]
fn a_message_too_long_for_noise_is_refused() {
    let (mut a, mut b) = noise_pair([7; 32], [7; 32]).unwrap();
    assert_eq!(
        a.send(&vec![0; 65520]).unwrap_err().to_text(),
        "protocol: noise message too large: 65520 (max 65519)"
    );
    assert!(a.take().is_empty());
    a.send(b"next").unwrap();
    b.feed(&a.take());
    assert_eq!(b.recv().unwrap(), Some(b"next".to_vec()));
    b.feed(&[0, 9, 1]);
    assert_eq!(b.recv().unwrap(), None);
    b.end();
    assert_eq!(b.recv().unwrap_err().to_text(), "io: early eof");
}

#[test]
fn an_empty_message_is_one_record() {
    let (mut a, mut b) = noise_pair([5; 32], [5; 32]).unwrap();
    a.send(&[]).unwrap();
    let wire = a.take();
    assert_eq!(wire.len(), 18);
    assert_eq!(wire[..2], [0, 16]);
    b.feed(&wire);
    assert_eq!(b.gather().unwrap(), Some(Vec::new()));
    a.carry(&[]).unwrap();
    let wire = a.take();
    assert_eq!(wire.len(), 18);
    b.feed(&wire);
    assert_eq!(b.recv().unwrap(), Some(Vec::new()));
}

#[test]
fn long_frames_are_split_and_joined() {
    let (mut a, mut b) = noise_pair([7; 32], [7; 32]).unwrap();
    for (n, extra) in [
        (0, 18),
        (4, 18),
        (65519, 18),
        (65520, 22 + 2 * 18),
        (100_012, 22 + 2 * 18),
        (131_038, 22 + 3 * 18),
        (262_144, 22 + 5 * 18),
    ] {
        let m: Vec<u8> = (0..n).map(|i: usize| (i * 7 + i / 251) as u8).collect();
        a.carry(&m).unwrap();
        let wire = a.take();
        assert_eq!(wire.len(), n + extra);
        for chunk in wire.chunks(40_000) {
            assert_eq!(b.gather().unwrap(), None);
            b.feed(chunk);
        }
        b.feed(&[0]);
        assert_eq!(b.gather().unwrap(), Some(m));
        assert_eq!(b.gather().unwrap(), None);
        a.carry(b"after").unwrap();
        let next = a.take();
        b.feed(&next[1..]);
        assert_eq!(b.gather().unwrap(), Some(b"after".to_vec()));
    }
    a.carry(&vec![3; 70_000]).unwrap();
    let wire = a.take();
    b.feed(&wire[..22 + 65537]);
    b.end();
    assert_eq!(b.gather().unwrap_err().to_text(), "io: early eof");
    assert!(decode_frame(&[255; 4]).is_err());
}

#[test]
fn a_frame_has_a_greatest_length() {
    let (mut a, mut b) = noise_pair([4; 32], [4; 32]).unwrap();
    a.carry(&vec![1; MAX_MESSAGE_LEN]).unwrap();
    b.feed(&a.take());
    assert_eq!(b.gather().unwrap(), Some(vec![1; MAX_MESSAGE_LEN]));
    assert_eq!(
        a.carry(&vec![1; MAX_MESSAGE_LEN + 1]).unwrap_err().to_text(),
        "protocol: message too large: 262145"
    );
    assert!(a.take().is_empty());
    a.send(&[255; 4]).unwrap();
    for _ in 0..4 {
        a.send(&vec![2; 65519]).unwrap();
    }
    b.feed(&a.take());
    assert_eq!(b.gather().unwrap(), None);
    a.send(&vec![2; 69]).unwrap();
    a.send(b"next").unwrap();
    b.feed(&a.take());
    assert_eq!(
        b.gather().unwrap_err().to_text(),
        "protocol: frame too large: over 262144"
    );
    assert_eq!(b.gather().unwrap(), Some(b"next".to_vec()));
}

#[test]
fn answers_suit_their_own_handshake_only() {
    let (one, first) = initiator_handshake(&[3; 32]).ok().unwrap();
    let (two, other) = initiator_handshake(&[3; 32]).ok().unwrap();
    assert!(first != other);
    let (m, _) = read_hs(&first).unwrap();
    let (server, second) = responder_handshake(&[3; 32], &m).ok().unwrap();
    let (answer, _) = read_hs(&second).unwrap();
    assert!(two.finish(&answer).is_err());
    let client = one.finish(&answer).ok().unwrap();
    let mut a = NoiseChannel::wrap(client, Vec::new());
    let mut b = NoiseChannel::wrap(server, Vec::new());
    a.send(b"up").unwrap();
    b.feed(&a.take());
    assert_eq!(b.recv().unwrap(), Some(b"up".to_vec()));
    b.send(b"down").unwrap();
    a.feed(&b.take());
    assert_eq!(a.recv().unwrap(), Some(b"down".to_vec()));
}

#[test]
fn a_large_frame_crosses_a_noise_channel() {
    let (a, b) = noise_pair([9; 32], [9; 32]).unwrap();
    let (mut w, _) = frames(a, WsRx::new());
    let (_, mut r) = frames(WsSink::new(), b);
    w.send(&Frame::Packet(vec![5; 100_000])).unwrap();
    r.stream.feed(&w.sink.take());
    match r.recv().unwrap() {
        Some(Frame::Packet(p)) => assert_eq!(p, vec![5; 100_000]),
        _ => panic!("frame"),
    }
}

#[test]
fn another_key_is_refused() {
    let e = noise_pair([7; 32], [8; 32]).err().unwrap();
    assert!(e.starts_with("crypto: noise: "));
}

#[test]
fn tampering_is_noticed() {
    let (mut a, mut b) = noise_pair([1; 32], [1; 32]).unwrap();
    a.send(b"secret").unwrap();
    let mut wire = a.take();
    let n = wire.len();
    wire[n - 1] ^= 1;
    b.feed(&wire);
    assert!(b
        .recv()
        .unwrap_err()
        .to_text()
        .starts_with("crypto: noise decrypt: "));
}

#[test]
fn results_of_the_cipher() {
    assert_eq!(opened(Ok(vec![1])).unwrap(), vec![1]);
    assert_eq!(
        opened(Err("bad".to_string())).unwrap_err().to_text(),
        "crypto: noise decrypt: bad"
    );
    let mut out = vec![9];
    sealed_into(&mut out, Ok(vec![1, 2, 3])).unwrap();
    assert_eq!(out, vec![9, 0, 3, 1, 2, 3]);
    assert_eq!(
        sealed_into(&mut out, Err("bad".to_string()))
            .unwrap_err()
            .to_text(),
        "crypto: noise encrypt: bad"
    );
    assert_eq!(noise_err("x").to_text(), "crypto: noise: x");
}

#[test]
fn websocket_addresses_and_errors() {
    assert_eq!(
        ws_url(&endpoint(TransportKind::Ws)),
        "wss://vpn.example:443/et"
    );
    assert_eq!(ws_err(true, "x").to_text(), "connection closed");
    assert_eq!(ws_err(false, "x").to_text(), "transport: ws: x");
}

#[test]
fn websocket_messages() {
    let mut rx = WsRx::new();
    assert_eq!(rx.recv().unwrap(), None);
    rx.feed(WsEvent::Other);
    rx.feed(WsEvent::Binary(vec![1, 2]));
    rx.feed(WsEvent::Failed("boom".to_string()));
    assert_eq!(rx.recv().unwrap(), Some(vec![1, 2]));
    assert_eq!(rx.recv().unwrap_err().to_text(), "transport: ws: boom");
    rx.feed(WsEvent::Close);
    assert_eq!(rx.recv().unwrap_err().to_text(), "connection closed");
    let mut tx = WsSink::new();
    tx.send(b"m").unwrap();
    tx.send(b"").unwrap();
    assert_eq!(tx.frames, vec![b"m".to_vec(), vec![]]);
    tx.close().unwrap();
    assert!(tx.shut);
}

#[test]
fn quic_is_a_first_hop_only() {
    assert_eq!(connect_over(&endpoint(TransportKind::Tcp)).unwrap(), TransportKind::Tcp);
    assert_eq!(connect_over(&endpoint(TransportKind::Ws)).unwrap(), TransportKind::Ws);
    assert_eq!(
        connect_over(&endpoint(TransportKind::Quic)).unwrap_err().to_text(),
        "not implemented: QUIC can only be the first hop of a proxy chain (UDP can't tunnel over a relayed stream)"
    );
}

#[test]
fn listeners() {
    assert_eq!(Listener::bind(TransportKind::Tcp, true), Listener::Tcp);
    assert_eq!(
        Listener::bind(TransportKind::Ws, false),
        Listener::Ws { tls: false }
    );
    assert!(!Listener::Ws { tls: false }.needs_certificate());
    assert!(Listener::Ws { tls: true }.needs_certificate());
    assert!(Listener::Quic.needs_certificate());
    assert!(!Listener::Tcp.needs_certificate());
}
