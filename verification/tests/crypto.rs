use entrotunnel::config::{generate_psk, generate_token, key_from_decoded, parse_psk, psk_text};
use entrotunnel::crypto::tls::{
    alpn, chain_from, client_config, client_roots, generate_self_signed, parse_cert_chain,
    parse_private_key, pin_failure, pinned_roots, private_key_from, quic_client_config,
    quic_server_config, server_config, server_from, server_tls_from, ClientTls, PrivateKey,
};

fn pair() -> (String, String) {
    generate_self_signed(vec!["entrotunnel".to_string(), "localhost".to_string()]).unwrap()
}

#[test]
fn a_generated_pair_is_usable() {
    let (cert, key) = pair();
    assert!(cert.starts_with("-----BEGIN CERTIFICATE-----"));
    assert_eq!(parse_cert_chain(&cert).unwrap().len(), 1);
    let der = match parse_private_key(&key).unwrap() {
        PrivateKey::Pkcs8(k) => k,
        _ => panic!("form"),
    };
    assert!(!der.is_empty());
    let chain = parse_cert_chain(&cert).unwrap();
    let t = server_tls_from(Ok(chain.clone()), Ok(Some(PrivateKey::Sec1(vec![7]))), true).unwrap();
    assert_eq!(t.certs, chain);
    assert!(matches!(t.key, PrivateKey::Sec1(k) if k == vec![7]));
    assert_eq!(t.alpn, b"et1".to_vec());
    assert!(t.tls13_only);
    let c = server_config(&cert, &key).unwrap();
    assert_eq!(c.alpn_protocols, vec![b"et1".to_vec()]);
    let q = quic_server_config(&cert, &key).unwrap();
    assert_eq!(q.alpn_protocols, vec![b"et1".to_vec()]);
    let (other, _) = pair();
    assert!(other != cert);
}

#[test]
fn a_generated_certificate_names_its_hosts() {
    let (cert, _) = pair();
    let der = parse_cert_chain(&cert).unwrap().remove(0);
    for name in ["entrotunnel", "localhost"] {
        assert!(der.windows(name.len()).any(|w| w == name.as_bytes()));
    }
    let e = generate_self_signed(vec!["n\u{f6}".to_string()]).unwrap_err();
    assert!(e.to_text().starts_with("crypto: rcgen self-signed: "));
}

#[test]
fn pem_without_what_is_needed() {
    let (cert, key) = pair();
    assert_eq!(
        parse_cert_chain("").unwrap_err().to_text(),
        "crypto: no certificates in PEM"
    );
    assert_eq!(
        parse_private_key(&cert).err().unwrap().to_text(),
        "crypto: no private key in PEM"
    );
    assert_eq!(
        server_config(&key, &key).err().unwrap().to_text(),
        "crypto: no certificates in PEM"
    );
    assert_eq!(
        chain_from(Err("x".to_string())).unwrap_err().to_text(),
        "crypto: parse cert pem: x"
    );
    assert_eq!(
        private_key_from(Err("x".to_string())).err().unwrap().to_text(),
        "crypto: parse key pem: x"
    );
    assert_eq!(
        private_key_from(Ok(None)).err().unwrap().to_text(),
        "crypto: no private key in PEM"
    );
}

#[test]
fn a_key_of_another_certificate_is_refused() {
    let (cert, _) = pair();
    let (_, other) = pair();
    let e = server_config(&cert, &other).err().unwrap().to_text();
    assert!(e.starts_with("crypto: server tls config: "), "{}", e);
    let e = quic_server_config(&cert, &other).err().unwrap().to_text();
    assert!(e.starts_with("crypto: quic server tls config: "), "{}", e);
    assert_eq!(
        server_from("what: ", Err("why".to_string())).err().unwrap().to_text(),
        "crypto: what: why"
    );
}

#[test]
fn whom_a_client_trusts() {
    let (cert, _) = pair();
    let pinned = client_roots(Some(&cert)).unwrap();
    assert_eq!(pinned.roots.len(), 1);
    let chain = parse_cert_chain(&cert).unwrap();
    let twice = pinned_roots(vec![chain[0].clone(), chain[0].clone()]).unwrap();
    assert_eq!(twice.roots.len(), 2);
    assert_eq!(twice.roots[0], pinned.roots[0]);
    assert!(client_roots(None).unwrap().roots.len() > 50);
    assert_eq!(
        client_roots(Some("")).err().unwrap().to_text(),
        "crypto: no certificates in PEM"
    );
    let e = pinned_roots(vec![chain[0].clone(), vec![1, 2, 3]]).err().unwrap().to_text();
    assert!(e.starts_with("crypto: add pinned cert: "), "{}", e);
    assert_eq!(
        pin_failure("why".to_string()).to_text(),
        "crypto: add pinned cert: why"
    );
}

#[test]
fn clients_that_check_and_clients_that_do_not() {
    let (cert, _) = pair();
    match client_config(true, Some("")).unwrap() {
        ClientTls::Unchecked { alpn: name, tls13_only } => {
            assert_eq!(name, alpn());
            assert!(!tls13_only);
        }
        ClientTls::Checked(_) => panic!("checked"),
    }
    assert!(matches!(
        quic_client_config(true, None).unwrap(),
        ClientTls::Unchecked { tls13_only: true, .. }
    ));
    for made in [client_config(false, Some(&cert)), quic_client_config(false, None)] {
        match made.unwrap() {
            ClientTls::Checked(c) => assert_eq!(c.alpn_protocols, vec![b"et1".to_vec()]),
            ClientTls::Unchecked { .. } => panic!("unchecked"),
        }
    }
    assert_eq!(
        client_config(false, Some("")).err().unwrap().to_text(),
        "crypto: no certificates in PEM"
    );
}

#[test]
fn generated_keys_are_accepted() {
    let a = generate_psk();
    let b = generate_psk();
    assert!(a != b);
    let key = parse_psk(&a).unwrap();
    assert_eq!(parse_psk(&format!("  {}\n", a)).unwrap(), key);
    assert!(parse_psk(&b).unwrap() != key);
    assert_eq!(psk_text(&key), a);
    assert_eq!(psk_text(&[1; 32]), "AQEBAQEBAQEBAQEBAQEBAQEBAQEBAQEBAQEBAQEBAQE=");
    assert_eq!(parse_psk(&psk_text(&[9; 32])).unwrap(), [9; 32]);
}

#[test]
fn keys_that_are_refused() {
    assert_eq!(
        parse_psk("AAAA").unwrap_err().to_text(),
        "config: psk must be 32 bytes, got 3"
    );
    assert!(parse_psk("!").unwrap_err().to_text().starts_with("config: invalid psk base64: "));
    assert_eq!(
        key_from_decoded(Err("why".to_string())).unwrap_err().to_text(),
        "config: invalid psk base64: why"
    );
    assert_eq!(key_from_decoded(Ok(vec![5; 32])).unwrap(), [5; 32]);
}

#[test]
fn tokens_are_random_uuids() {
    let t = generate_token();
    assert_eq!(t.len(), 36);
    assert_eq!(t.as_bytes()[14], b'4');
    assert_eq!(uuid::Uuid::parse_str(&t).unwrap().to_string(), t);
    assert!(generate_token() != t);
}
