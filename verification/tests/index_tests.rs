use server_wrapper::index::encode_index;
use server_wrapper::index::parse_index;
use server_wrapper::index::IndexEntry;
use server_wrapper::token::Token;

fn mk_entry(key: &str, token: Token, name: &str) -> IndexEntry {
    IndexEntry { key: key.to_string(), token, file_name: name.to_string() }
}

fn tokens_equivalent(a: &Token, b: &Token) -> bool {
    match (a, b) {
        (Token::Unknown, Token::Unknown) => true,
        _ => a == b,
    }
}

#[test]
fn index_round_trip_reproduces_entries_including_unknown() {
    let entries = vec![
        mk_entry("a", Token::Etag("W/\"xyz\"".to_string()), "a.jar"),
        mk_entry("b", Token::ArtifactId(42), "b.zip"),
        mk_entry("c", Token::Sha1([7u8; 20]), "c.bin"),
        mk_entry("d", Token::Sha512("deadbeef".to_string()), "d.jar"),
        mk_entry("e", Token::Unknown, "e.txt"),
    ];
    let text = encode_index(&entries);
    let back = parse_index(text.as_str()).expect("a fresh encoding parses");
    assert_eq!(back.len(), entries.len());
    for (x, y) in entries.iter().zip(back.iter()) {
        assert_eq!(x.key, y.key);
        assert_eq!(x.file_name, y.file_name);
        assert!(tokens_equivalent(&x.token, &y.token));
    }
}

#[test]
fn empty_index_encodes_to_sixteen_zero_digits() {
    let text = encode_index(&Vec::new());
    assert_eq!(text, "0000000000000000");
}

#[test]
fn single_entry_encoding_is_exact() {
    let entries = vec![mk_entry("k", Token::Unknown, "n")];
    assert_eq!(
        encode_index(&entries),
        "00000000000000010000000000000001ku0000000000000001n"
    );
}

#[test]
fn artifact_id_encodes_as_fixed_width_hex() {
    let entries = vec![mk_entry("k", Token::ArtifactId(0x2a), "n")];
    assert_eq!(
        encode_index(&entries),
        "00000000000000010000000000000001ka000000000000002a0000000000000001n"
    );
}

#[test]
fn malformed_index_is_rejected() {
    assert!(parse_index("zz").is_none());
    assert!(parse_index("0000000000000001").is_none());
    assert!(parse_index("0000000000000000extra").is_none());
    assert!(parse_index("").is_none());
}

#[test]
fn keys_with_separator_characters_round_trip() {
    let entries = vec![mk_entry("we/ird\nkey", Token::Unknown, "a u b")];
    let text = encode_index(&entries);
    let back = parse_index(text.as_str()).expect("parses");
    assert_eq!(back[0].key, "we/ird\nkey");
    assert_eq!(back[0].file_name, "a u b");
}
