use entrotunnel::addr::{IpAddr, Ipv4Addr, Ipv6Addr, SocketAddr};
use entrotunnel::client::proxy::HttpMode;
use entrotunnel::client::socks::{
    greets_in_socks, parse_socks_request, socks_answer, SocksReader, SocksStep, GRANTED,
};
use entrotunnel::protocol::control::TargetAddr;
use entrotunnel::protocol::frame::Frame;

fn name_request(name: &[u8], port: u16) -> Vec<u8> {
    let mut r = vec![5, 1, 0, 3, name.len() as u8];
    r.extend_from_slice(name);
    r.extend_from_slice(&port.to_be_bytes());
    r
}

#[test]
fn a_socks_client_connects_to_a_name() {
    let mut s = SocksReader::new();
    let mut said = vec![5, 2, 2, 0];
    said.extend_from_slice(&name_request(b"example.org", 443));
    said.extend_from_slice(b"hi");
    let mut answers = Vec::new();
    let mut opened = None;
    for b in &said[..said.len() - 2] {
        s.feed(&[*b]).unwrap();
        match s.next() {
            SocksStep::More => {}
            SocksStep::Answer(a) => answers.push(a),
            SocksStep::Refuse(_) => panic!("refused"),
            SocksStep::Open { target, rest } => opened = Some((target, rest)),
        }
    }
    assert_eq!(answers, vec![vec![5, 0]]);
    match opened {
        Some((TargetAddr::Domain(h, 443), rest)) => {
            assert_eq!(h, "example.org");
            assert!(rest.is_empty());
        }
        _ => panic!("target"),
    }

    let mut s = SocksReader::new();
    s.feed(&said).unwrap();
    match s.next() {
        SocksStep::Answer(a) => assert_eq!(a, vec![5, 0]),
        _ => panic!("answer"),
    }
    let (target, rest) = match s.next() {
        SocksStep::Open { target, rest } => (target, rest),
        _ => panic!("open"),
    };
    assert_eq!(rest, b"hi".to_vec());
    let mut h = HttpMode::run_http_mode(false);
    let id = h.accept();
    let opened = h.handle_socks(id, target, rest);
    assert!(opened.tell);
    assert_eq!(opened.frames.len(), 2);
    match &opened.frames[0] {
        Frame::StreamOpen { id: 1, target: TargetAddr::Domain(h, 443) } => {
            assert_eq!(h, "example.org")
        }
        _ => panic!("frame"),
    }
    match &opened.frames[1] {
        Frame::StreamData { id: 1, data } => assert_eq!(data, &b"hi".to_vec()),
        _ => panic!("frame"),
    }
    assert_eq!(socks_answer(GRANTED), vec![5, 0, 0, 1, 0, 0, 0, 0, 0, 0]);
}

#[test]
fn socks_addresses() {
    match parse_socks_request(&[5, 1, 0, 1, 10, 66, 0, 2, 0x1f, 0x90, 7]) {
        Some(Ok((TargetAddr::Ip(a), 10))) => assert_eq!(
            a,
            SocketAddr {
                ip: IpAddr::V4(Ipv4Addr { bits: 0x0a42_0002 }),
                port: 8080,
            }
        ),
        _ => panic!("v4"),
    }
    let mut v6 = vec![5, 1, 0, 4];
    v6.extend_from_slice(&0x2001_0db8_0000_0000_0000_0000_0000_0001u128.to_be_bytes());
    assert!(parse_socks_request(&v6).is_none());
    v6.extend_from_slice(&[0, 80]);
    match parse_socks_request(&v6) {
        Some(Ok((TargetAddr::Ip(a), 22))) => assert_eq!(
            a,
            SocketAddr {
                ip: IpAddr::V6(Ipv6Addr {
                    bits: 0x2001_0db8_0000_0000_0000_0000_0000_0001
                }),
                port: 80,
            }
        ),
        _ => panic!("v6"),
    }
    let whole = name_request(b"a.b", 1);
    for n in 0..whole.len() {
        assert!(parse_socks_request(&whole[..n]).is_none());
    }
}

#[test]
fn socks_refusals() {
    assert!(greets_in_socks(&[5]));
    assert!(!greets_in_socks(b"GET"));
    assert!(!greets_in_socks(b""));
    let mut s = SocksReader::new();
    s.feed(&[5, 1, 2]).unwrap();
    match s.next() {
        SocksStep::Refuse(a) => assert_eq!(a, vec![5, 255]),
        _ => panic!("method"),
    }
    assert_eq!(
        s.feed(&[]).unwrap_err().to_text(),
        "protocol: eof before request head"
    );
    for (request, code) in [
        ([5, 2, 0, 1], 7),
        ([5, 1, 0, 2], 8),
        ([4, 1, 0, 1], 1),
    ] {
        let mut s = SocksReader::new();
        s.feed(&[5, 1, 0]).unwrap();
        assert!(matches!(s.next(), SocksStep::Answer(_)));
        s.feed(&request).unwrap();
        match s.next() {
            SocksStep::Refuse(a) => {
                assert_eq!(a, vec![5, code, 0, 1, 0, 0, 0, 0, 0, 0])
            }
            _ => panic!("request"),
        }
    }
}
