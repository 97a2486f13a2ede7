use entrotunnel::text::{
    after_word, contains, decimal_text, eq_ignore_ascii_case, find_word_after, lines, parse_number,
    replace, rsplit_once, split, split_whitespace, strip_prefix, trim, trim_end, trim_start,
};

fn owned(v: &[&str]) -> Vec<String> {
    v.iter().map(|s| s.to_string()).collect()
}

#[test]
fn numbers_are_written_in_decimal() {
    for n in [0u64, 7, 10, 99, 1380, 65535, u64::MAX] {
        assert_eq!(decimal_text(n), n.to_string());
    }
}

#[test]
fn numbers_are_read_up_to_their_limit() {
    assert_eq!(parse_number("65535", 65535), Some(65535));
    assert_eq!(parse_number("65536", 65535), None);
    assert_eq!(parse_number("+80", 65535), Some(80));
    assert_eq!(parse_number("007", 65535), Some(7));
    assert_eq!(parse_number("4294967295", u32::MAX), Some(u32::MAX));
    assert_eq!(parse_number("4294967296", u32::MAX), None);
    for bad in ["", "+", "-1", "1a", " 1", "\u{661}"] {
        assert_eq!(parse_number(bad, 65535), None);
        assert!(bad.parse::<u16>().is_err());
    }
}

#[test]
fn trimming_follows_unicode_white_space() {
    for s in ["", "  ", " a ", "\t\u{3000}x y\u{a0}\n", "\u{200b}z", "plain"] {
        assert_eq!(trim(s), s.trim());
        assert_eq!(trim_start(s), s.trim_start());
        assert_eq!(trim_end(s), s.trim_end());
    }
}

#[test]
fn lines_words_and_parts() {
    for s in ["", "a", "a\n", "a\nb", "a\r\nb\r", "\n\n", "x\r\n\r\ny"] {
        let expected: Vec<&str> = s.lines().collect();
        assert_eq!(lines(s), owned(&expected));
        let expected: Vec<&str> = s.split('\n').collect();
        assert_eq!(split(s, '\n'), owned(&expected));
    }
    for s in ["", "   ", "a b", "  a\tb \n c ", "one"] {
        let expected: Vec<&str> = s.split_whitespace().collect();
        assert_eq!(split_whitespace(s), owned(&expected));
    }
}

#[test]
fn searching_and_replacing() {
    assert!(contains("permission denied", "denied"));
    assert!(!contains("denie", "denied"));
    assert!(contains("", ""));
    assert_eq!(strip_prefix("gateway: 1", "gateway:"), Some(" 1".to_string()));
    assert_eq!(strip_prefix("gate", "gateway:"), None);
    assert_eq!(
        rsplit_once("[::1]:80", ':'),
        Some(("[::1]".to_string(), "80".to_string()))
    );
    assert_eq!(rsplit_once("none", ':'), None);
    assert!(eq_ignore_ascii_case("Connect", "CONNECT"));
    assert!(!eq_ignore_ascii_case("K", "\u{212a}"));
    assert_eq!(replace("it's 'q'", '\'', "'\\''"), "it'\\''s '\\''q'\\''");
}

#[test]
fn the_word_after_a_key() {
    let s = "default via 192.168.1.1 dev eth0 proto dhcp";
    assert_eq!(find_word_after(s, "dev"), Some("eth0".to_string()));
    assert_eq!(find_word_after(s, "via"), Some("192.168.1.1".to_string()));
    assert_eq!(find_word_after(s, "dhcp"), None);
    assert_eq!(find_word_after("", "dev"), None);
    assert_eq!(
        after_word(&owned(&["x", "dev", "dev", "y"]), "dev"),
        Some("dev".to_string())
    );
}
