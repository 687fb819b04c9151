use base64::Engine;
use uggo::base64::{encode_bytes, encode_str};
use uggo::lcc::{LeagueClientConnector, LeagueConnectorError, RiotLockFile};
use uggo::text::{
    chars_of, parse_u32, push_decimal, push_signed_decimal, split_fields, starts_with,
};

fn line(process: &str, pid: u32, port: u32, password: &str, protocol: &str) -> String {
    format!("{}:{}:{}:{}:{}", process, pid, port, password, protocol)
}

#[test]
fn parse_lockfile_reads_the_five_fields() {
    let parsed = LeagueClientConnector::parse_lockfile("LeagueClient:1234:54321:secretXYZ:https");
    assert_eq!(
        parsed,
        Ok(RiotLockFile {
            process: "LeagueClient".to_string(),
            pid: 1234,
            port: 54321,
            password: "secretXYZ".to_string(),
            protocol: "https".to_string(),
            b64_auth: "cmlvdDpzZWNyZXRYWVo=".to_string(),
        })
    );
}

#[test]
fn parse_lockfile_reads_back_what_was_written() {
    let cases = [
        ("LeagueClient", 0u32, 0u32, "", "https"),
        ("LeagueClientUx", 1, 65535, "aB3_-xyz", "https"),
        ("", u32::MAX, u32::MAX, "pässwörd", ""),
        ("a b", 10, 100, "with space and =/+", "http"),
        ("L", 4294967295, 1000000000, "x", "y"),
    ];
    for (process, pid, port, password, protocol) in cases {
        let parsed =
            LeagueClientConnector::parse_lockfile(&line(process, pid, port, password, protocol))
                .unwrap();
        assert_eq!(parsed.process, process);
        assert_eq!(parsed.pid, pid);
        assert_eq!(parsed.port, port);
        assert_eq!(parsed.password, password);
        assert_eq!(parsed.protocol, protocol);
        assert_eq!(
            parsed.b64_auth,
            base64::engine::general_purpose::STANDARD.encode(format!("riot:{}", password))
        );
    }
}

#[test]
fn parse_lockfile_refuses_other_field_counts() {
    for contents in [
        "",
        "LeagueClient",
        "LeagueClient:1234",
        "LeagueClient:1234:54321",
        "LeagueClient:1234:54321:secretXYZ",
        "LeagueClient:1234:54321:secretXYZ:https:",
        "LeagueClient:1234:54321:secretXYZ:https:extra",
        ":::::",
        "not:a:number:but:six:fields",
    ] {
        assert_eq!(
            LeagueClientConnector::parse_lockfile(contents),
            Err(LeagueConnectorError::FieldCount),
            "{:?}",
            contents
        );
    }
}

#[test]
fn parse_lockfile_accepts_empty_text_fields() {
    let parsed = LeagueClientConnector::parse_lockfile(":1:2::").unwrap();
    assert_eq!(parsed.process, "");
    assert_eq!(parsed.pid, 1);
    assert_eq!(parsed.port, 2);
    assert_eq!(parsed.password, "");
    assert_eq!(parsed.protocol, "");
    assert_eq!(parsed.b64_auth, "cmlvdDo=");
}

#[test]
fn parse_lockfile_refuses_a_bad_pid() {
    for pid in ["", "abc", "12a", "-1", "+1", " 1", "1 ", "4294967296", "99999999999999999999999"] {
        let contents = format!("LeagueClient:{}:54321:secretXYZ:https", pid);
        assert_eq!(
            LeagueClientConnector::parse_lockfile(&contents),
            Err(LeagueConnectorError::InvalidPid),
            "{:?}",
            pid
        );
    }
}

#[test]
fn parse_lockfile_refuses_a_bad_port() {
    for port in ["", "https", "5432x", "-54321", "+54321", "4294967296", "54321\n"] {
        let contents = format!("LeagueClient:1234:{}:secretXYZ:https", port);
        assert_eq!(
            LeagueClientConnector::parse_lockfile(&contents),
            Err(LeagueConnectorError::InvalidPort),
            "{:?}",
            port
        );
    }
}

#[test]
fn parse_lockfile_names_the_pid_before_the_port() {
    assert_eq!(
        LeagueClientConnector::parse_lockfile("LeagueClient:x:y:secretXYZ:https"),
        Err(LeagueConnectorError::InvalidPid)
    );
}

#[test]
fn parse_lockfile_keeps_leading_zeros_out_of_the_number() {
    let parsed = LeagueClientConnector::parse_lockfile("c:0001234:00054321:s:https").unwrap();
    assert_eq!(parsed.pid, 1234);
    assert_eq!(parsed.port, 54321);
}

#[test]
fn encode_auth_puts_the_user_name_first() {
    assert_eq!(LeagueClientConnector::encode_auth("secretXYZ"), "cmlvdDpzZWNyZXRYWVo=");
    assert_eq!(LeagueClientConnector::encode_auth(""), "cmlvdDo=");
    assert_eq!(LeagueClientConnector::encode_auth("a"), "cmlvdDph");
    assert_eq!(LeagueClientConnector::encode_auth("ab"), "cmlvdDphYg==");
    assert_eq!(LeagueClientConnector::encode_auth("abc"), "cmlvdDphYmM=");
    assert_eq!(LeagueClientConnector::encode_auth("pässwörd"), "cmlvdDpww6Rzc3fDtnJk");
}

#[test]
fn base64_known_vectors() {
    assert_eq!(encode_bytes(b""), "");
    assert_eq!(encode_bytes(b"f"), "Zg==");
    assert_eq!(encode_bytes(b"fo"), "Zm8=");
    assert_eq!(encode_bytes(b"foo"), "Zm9v");
    assert_eq!(encode_bytes(b"foob"), "Zm9vYg==");
    assert_eq!(encode_bytes(b"fooba"), "Zm9vYmE=");
    assert_eq!(encode_bytes(b"foobar"), "Zm9vYmFy");
    assert_eq!(encode_bytes(&[0xfb, 0xff, 0xbf]), "+/+/");
    assert_eq!(encode_bytes(&[0, 0, 0]), "AAAA");
    assert_eq!(encode_bytes(&[255]), "/w==");
    assert_eq!(encode_str("foobar"), "Zm9vYmFy");
    assert_eq!(encode_str("ä"), "w6Q=");
}

#[test]
fn base64_agrees_with_the_standard_engine() {
    let engine = base64::engine::general_purpose::STANDARD;
    let mut state: u32 = 0x2545_f491;
    for len in 0..200usize {
        let mut bytes = Vec::new();
        for _ in 0..len {
            state = state.wrapping_mul(1664525).wrapping_add(1013904223);
            bytes.push((state >> 24) as u8);
        }
        assert_eq!(encode_bytes(&bytes), engine.encode(&bytes));
    }
    for byte in 0..=255u8 {
        assert_eq!(encode_bytes(&[byte]), engine.encode([byte]));
        assert_eq!(encode_bytes(&[byte, byte]), engine.encode([byte, byte]));
        assert_eq!(encode_bytes(&[1, 2, byte]), engine.encode([1, 2, byte]));
    }
}

#[test]
fn base64_length_is_four_per_started_group() {
    for len in 0..50usize {
        let bytes = vec![7u8; len];
        assert_eq!(encode_bytes(&bytes).len(), 4 * ((len + 2) / 3));
    }
}

#[test]
fn split_fields_cuts_at_every_separator() {
    assert_eq!(split_fields("", ':'), vec![""]);
    assert_eq!(split_fields("abc", ':'), vec!["abc"]);
    assert_eq!(split_fields(":", ':'), vec!["", ""]);
    assert_eq!(split_fields("a:b", ':'), vec!["a", "b"]);
    assert_eq!(split_fields("a::b:", ':'), vec!["a", "", "b", ""]);
    assert_eq!(split_fields(":a", ':'), vec!["", "a"]);
    assert_eq!(split_fields("ä,ö", ','), vec!["ä", "ö"]);
    assert_eq!(split_fields("a:b", ','), vec!["a:b"]);
}

#[test]
fn split_fields_and_join_are_inverse() {
    for text in ["", ":", "a:b:c", "::x::", "LeagueClient:1234:54321:secretXYZ:https"] {
        let fields = split_fields(text, ':');
        assert_eq!(fields.join(":"), text);
        assert_eq!(fields.len(), text.matches(':').count() + 1);
        assert!(fields.iter().all(|f| !f.contains(':')));
    }
}

#[test]
fn push_decimal_writes_the_shortest_numeral() {
    for n in [0u64, 1, 9, 10, 11, 99, 100, 12345, 54321, 4294967295, u64::MAX] {
        let mut out = String::from("x");
        push_decimal(&mut out, n);
        assert_eq!(out, format!("x{}", n));
    }
}

#[test]
fn push_signed_decimal_writes_the_sign() {
    for n in [0i64, 1, -1, 9, -9, 10, -10, 1234567, -1234567, i64::MAX, i64::MIN, i64::MIN + 1] {
        let mut out = String::from("/");
        push_signed_decimal(&mut out, n);
        assert_eq!(out, format!("/{}", n));
    }
}

#[test]
fn parse_u32_reads_digits_only() {
    let parse = |s: &str| parse_u32(&chars_of(s));
    assert_eq!(parse("0"), Some(0));
    assert_eq!(parse("7"), Some(7));
    assert_eq!(parse("007"), Some(7));
    assert_eq!(parse("54321"), Some(54321));
    assert_eq!(parse("4294967295"), Some(u32::MAX));
    assert_eq!(parse("4294967296"), None);
    assert_eq!(parse("42949672950"), None);
    assert_eq!(parse("00000000004294967295"), Some(u32::MAX));
    assert_eq!(parse("999999999999999999999999999999"), None);
    assert_eq!(parse(""), None);
    assert_eq!(parse("+1"), None);
    assert_eq!(parse("-1"), None);
    assert_eq!(parse("1.0"), None);
    assert_eq!(parse("12 "), None);
    assert_eq!(parse("٣"), None);
    assert_eq!(parse("99999999999x"), None);
}

#[test]
fn parse_u32_undoes_push_decimal() {
    for n in [0u32, 1, 10, 99, 1234, 54321, 65535, 65536, u32::MAX - 1, u32::MAX] {
        let mut out = String::new();
        push_decimal(&mut out, n as u64);
        assert_eq!(parse_u32(&chars_of(&out)), Some(n));
    }
}

#[test]
fn chars_of_lists_the_characters() {
    assert_eq!(chars_of(""), Vec::<char>::new());
    assert_eq!(chars_of("aä€"), vec!['a', 'ä', '€']);
    assert_eq!(chars_of("a:b"), vec!['a', ':', 'b']);
}

#[test]
fn starts_with_compares_characters() {
    assert!(starts_with("uggo: Ahri, Normal", "uggo:"));
    assert!(starts_with("uggo:", "uggo:"));
    assert!(starts_with("anything", ""));
    assert!(starts_with("", ""));
    assert!(!starts_with("uggo", "uggo:"));
    assert!(!starts_with("Uggo: x", "uggo:"));
    assert!(!starts_with(" uggo:", "uggo:"));
    assert!(!starts_with("", "uggo:"));
    assert!(starts_with("äö", "ä"));
    assert!(!starts_with("äö", "a"));
}
