use entrotunnel::addr::{IpAddr, Ipv4Addr, Ipv6Addr, SocketAddr};
use entrotunnel::config::SessionMode;
use entrotunnel::protocol::codec::{decode_frame, encode_frame};
use entrotunnel::protocol::control::{Hello, PeerInfo, TargetAddr, Welcome};
use entrotunnel::protocol::frame::Frame;
use entrotunnel::protocol::frames;
use entrotunnel::transport::framing::{LdSink, LdStream};

fn hello() -> Hello {
    Hello {
        version: 2,
        token: "t-1".to_string(),
        mode: SessionMode::Vpn,
        requested_ip: Some(Ipv4Addr::new(10, 7, 0, 2)),
        client_name: None,
        join_vpn: true,
    }
}

fn welcome() -> Welcome {
    Welcome {
        session_id: 0x0102_0304_0506_0708_090a_0b0c_0d0e_0f10,
        assigned_ip: Ipv4Addr::new(10, 7, 0, 2),
        prefix_len: 24,
        gateway: Ipv4Addr::new(10, 7, 0, 1),
        mtu: 1380,
        dns: vec![Ipv4Addr::new(1, 1, 1, 1), Ipv4Addr::new(8, 8, 8, 8)],
        assigned_ip6: Some(Ipv6Addr { bits: 0xfd00 << 112 }),
        prefix6: 64,
        gateway6: None,
        dns6: vec![Ipv6Addr { bits: 1 }],
    }
}

fn all_frames() -> Vec<Frame> {
    vec![
        Frame::Hello(hello()),
        Frame::Welcome(welcome()),
        Frame::Reject {
            reason: "no — not you".to_string(),
        },
        Frame::Ping,
        Frame::Pong,
        Frame::Packet(vec![1, 2, 3]),
        Frame::StreamOpen {
            id: 7,
            target: TargetAddr::Domain("example.com".to_string(), 443),
        },
        Frame::StreamData {
            id: 9,
            data: vec![0xff; 300],
        },
        Frame::StreamClose {
            id: 9,
            error: Some("gone".to_string()),
        },
        Frame::GetPeers,
        Frame::PeerList {
            peers: vec![PeerInfo {
                ip: Ipv4Addr::new(10, 7, 0, 3),
                name: "b".to_string(),
                ip6: Some(Ipv6Addr { bits: 3 }),
            }],
        },
    ]
}

#[test]
fn frames_round_trip() {
    for f in all_frames() {
        let bytes = encode_frame(&f);
        let back = decode_frame(&bytes).unwrap();
        assert_eq!(format!("{:?}", back), format!("{:?}", f));
    }
}

#[test]
fn different_frames_have_different_bytes() {
    let all: Vec<Vec<u8>> = all_frames().iter().map(encode_frame).collect();
    for i in 0..all.len() {
        for j in 0..all.len() {
            assert_eq!(all[i] == all[j], i == j);
        }
    }
}

#[test]
fn the_bytes_are_those_of_bincode() {
    let h = hello();
    assert_eq!(
        encode_frame(&Frame::Hello(hello())),
        bincode::serialize(&(
            0u32,
            h.version,
            h.token.as_str(),
            3u32,
            Some([10u8, 7, 0, 2]),
            None::<String>,
            true
        ))
        .unwrap()
    );
    let w = welcome();
    let id = w.session_id.to_be_bytes().to_vec();
    assert_eq!(
        encode_frame(&Frame::Welcome(welcome())),
        bincode::serialize(&(
            (1u32, id.as_slice(), [10u8, 7, 0, 2], 24u8, [10u8, 7, 0, 1], 1380u16),
            vec![[1u8, 1, 1, 1], [8u8, 8, 8, 8]],
            Some(w.assigned_ip6.unwrap().bits.to_be_bytes()),
            64u8,
            None::<[u8; 16]>,
            vec![1u128.to_be_bytes()],
        ))
        .unwrap()
    );
    assert_eq!(encode_frame(&Frame::Ping), bincode::serialize(&3u32).unwrap());
    assert_eq!(encode_frame(&Frame::GetPeers), bincode::serialize(&9u32).unwrap());
    assert_eq!(
        encode_frame(&Frame::Packet(vec![5, 6])),
        bincode::serialize(&(5u32, vec![5u8, 6])).unwrap()
    );
    assert_eq!(
        encode_frame(&Frame::StreamOpen {
            id: 7,
            target: TargetAddr::Ip(SocketAddr {
                ip: IpAddr::V4(Ipv4Addr::new(1, 2, 3, 4)),
                port: 80,
            }),
        }),
        bincode::serialize(&(
            6u32,
            7u32,
            0u32,
            0u32,
            [1u8, 2, 3, 4],
            80u16
        ))
        .unwrap()
    );
    assert_eq!(
        encode_frame(&Frame::StreamClose {
            id: 1,
            error: Some("e".to_string()),
        }),
        bincode::serialize(&(8u32, 1u32, Some("e"))).unwrap()
    );
}

fn refusal(bytes: &[u8]) -> String {
    decode_frame(bytes).unwrap_err().to_text()
}

fn codec_error<T>(r: Result<T, bincode::Error>) -> String {
    format!("codec: {}", r.err().unwrap())
}

#[test]
fn ill_formed_frames_are_refused() {
    let short = codec_error(bincode::deserialize::<u32>(&[]));
    assert_eq!(refusal(&[]), short);
    assert_eq!(refusal(&[3, 0, 0]), short);
    assert_eq!(
        refusal(&[99, 0, 0, 0]),
        "codec: invalid value: integer `99`, expected variant index 0 <= i < 11"
    );
    let packet = [5, 0, 0, 0, 9, 0, 0, 0, 0, 0, 0, 0, 1];
    assert_eq!(
        refusal(&packet),
        codec_error(bincode::deserialize::<(u32, Vec<u8>)>(&packet))
    );
    for reason in [
        vec![2, 0, 0, 0, 1, 0, 0, 0, 0, 0, 0, 0, 0xff],
        vec![2, 0, 0, 0, 5, 0, 0, 0, 0, 0, 0, 0, b'a'],
    ] {
        assert_eq!(
            refusal(&reason),
            codec_error(bincode::deserialize::<(u32, String)>(&reason))
        );
    }
    let tag = [8, 0, 0, 0, 1, 0, 0, 0, 7];
    assert_eq!(
        refusal(&tag),
        codec_error(bincode::deserialize::<(u32, u32, Option<String>)>(&tag))
    );
    let target = [6, 0, 0, 0, 1, 0, 0, 0, 2, 0, 0, 0];
    assert_eq!(
        refusal(&target),
        "codec: invalid value: integer `2`, expected variant index 0 <= i < 2"
    );
    assert_eq!(
        refusal(&[6, 0, 0, 0, 1, 0, 0, 0, 0, 0, 0, 0, 3, 0, 0, 0]),
        "codec: invalid value: integer `3`, expected `V4` or `V6`"
    );
    let address = [6, 0, 0, 0, 1, 0, 0, 0, 0, 0, 0, 0, 0, 0, 0, 0, 1, 2, 3];
    assert_eq!(
        refusal(&address),
        codec_error(bincode::deserialize::<(u32, u32, u32, u32, [u8; 4])>(&address))
    );
    for id in [vec![1, 0, 0, 0, 3, 0, 0, 0, 0, 0, 0, 0, 1, 2, 3], vec![1, 0, 0, 0, 16, 0]] {
        assert_eq!(
            refusal(&id),
            codec_error(bincode::deserialize::<(u32, uuid::Uuid)>(&id))
        );
    }
}

#[test]
fn frames_travel_over_a_channel() {
    let (mut w, mut r) = frames(LdSink::new(Vec::new()), LdStream::new(Vec::new()));
    assert!(r.recv().unwrap().is_none());
    w.send(&Frame::Ping).unwrap();
    w.send(&Frame::Packet(vec![1; 10])).unwrap();
    let sent = w.sink.take();
    for b in &sent[..6] {
        r.stream.feed(&[*b]);
    }
    assert!(r.recv().unwrap().is_none());
    r.stream.feed(&sent[6..]);
    assert!(matches!(r.recv().unwrap(), Some(Frame::Ping)));
    match r.recv().unwrap() {
        Some(Frame::Packet(p)) => assert_eq!(p, vec![1; 10]),
        other => panic!("{:?}", other),
    }
    w.close().unwrap();
    assert!(w.sink.shut);
    r.stream.end();
    assert_eq!(r.recv().unwrap_err().to_text(), "connection closed");
    let mut big = LdStream::new(Vec::new());
    big.feed(&[0, 0, 0, 4, 0xff, 0, 0, 0]);
    let (_, mut r) = frames(LdSink::new(Vec::new()), big);
    assert_eq!(
        r.recv().unwrap_err().to_text(),
        "codec: invalid value: integer `255`, expected variant index 0 <= i < 11"
    );
}

#[test]
fn payload_counts_data_only() {
    assert_eq!(Frame::Packet(vec![0; 5]).payload(), 5);
    assert_eq!(
        Frame::StreamData {
            id: 1,
            data: vec![0; 6]
        }
        .payload(),
        6
    );
    assert_eq!(Frame::Ping.payload(), 0);
}
