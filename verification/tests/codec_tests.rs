use chatbot::codec::{decode_history, encode_history};
use chatbot::session::{Message, Role};
use chatbot::text::{push_dec, str_eq, trim};

fn msg(role: Role, content: &str) -> Message {
    Message {
        role,
        content: content.to_string(),
    }
}

#[test]
fn encoding_is_the_documented_format() {
    let h = vec![msg(Role::System, "hi"), msg(Role::User, "yo!")];
    assert_eq!(encode_history(&h), "S2:hiU3:yo!");
}

#[test]
fn empty_history_encodes_empty() {
    let h: Vec<Message> = Vec::new();
    assert_eq!(encode_history(&h), "");
    let back = decode_history("").expect("empty record decodes");
    assert_eq!(back.len(), 0);
}

#[test]
fn decoding_inverts_encoding() {
    let h = vec![
        msg(Role::System, "You are terse."),
        msg(Role::User, "U0: tricky 12:34 \n content"),
        msg(Role::System, ""),
        msg(Role::User, "héllo wörld"),
    ];
    let encoded = encode_history(&h);
    let back = decode_history(&encoded).expect("a written record decodes");
    assert_eq!(back.len(), h.len());
    for (a, b) in h.iter().zip(back.iter()) {
        assert!(matches!(
            (&a.role, &b.role),
            (Role::User, Role::User) | (Role::System, Role::System)
        ));
        assert_eq!(a.content, b.content);
    }
}

#[test]
fn malformed_records_are_rejected() {
    assert!(decode_history("X2:hi").is_none()); // no such role
    assert!(decode_history("U:hi").is_none()); // missing length
    assert!(decode_history("U2hi").is_none()); // missing colon
    assert!(decode_history("U5:hi").is_none()); // content shorter than claimed
    assert!(decode_history("U2:hiS").is_none()); // truncated second entry
    assert!(decode_history("U99999999999999999999999:hi").is_none()); // length overflows
}

#[test]
fn decimal_rendering_is_exact() {
    let cases: [(u64, &str); 5] = [
        (0, "0"),
        (7, "7"),
        (10, "10"),
        (12345, "12345"),
        (u64::MAX, "18446744073709551615"),
    ];
    for (n, expect) in cases {
        let mut out = String::new();
        push_dec(&mut out, n);
        assert_eq!(out, expect);
    }
}

#[test]
fn trimming_removes_edges_only() {
    assert_eq!(trim("  !help \n"), "!help");
    assert_eq!(trim("no edges"), "no edges");
    assert_eq!(trim(" \t\r\n "), "");
    assert_eq!(trim(""), "");
    assert_eq!(trim(" a b "), "a b");
}

#[test]
fn string_equality_is_character_exact() {
    assert!(str_eq("!stats", "!stats"));
    assert!(!str_eq("!stats", "!stat"));
    assert!(!str_eq("!stats", "!statz"));
    assert!(!str_eq("", "x"));
    assert!(str_eq("", ""));
}
