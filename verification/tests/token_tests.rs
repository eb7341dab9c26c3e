use server_wrapper::token::Token;

#[test]
fn tokens_of_different_variants_differ() {
    let etag = Token::Etag("abc".to_string());
    let id = Token::ArtifactId(7);
    let sha = Token::Sha1([0u8; 20]);
    let sha512 = Token::Sha512("abc".to_string());
    assert!(etag != id);
    assert!(etag != sha);
    assert!(etag != sha512);
    assert!(id != sha);
    assert!(id != sha512);
    assert!(sha != sha512);
}

#[test]
fn unknown_equals_nothing_not_even_unknown() {
    assert!(Token::Unknown != Token::Unknown);
    assert!(Token::Unknown != Token::Etag("".to_string()));
    assert!(Token::Unknown != Token::ArtifactId(0));
    assert!(Token::Unknown != Token::Sha1([0u8; 20]));
    assert!(Token::Unknown != Token::Sha512("".to_string()));
    assert!(Token::Etag("x".to_string()) != Token::Unknown);
}

#[test]
fn equal_payloads_within_variant_compare_equal() {
    assert!(Token::Etag("abc".to_string()) == Token::Etag("abc".to_string()));
    assert!(Token::ArtifactId(42) == Token::ArtifactId(42));
    assert!(Token::Sha1([5u8; 20]) == Token::Sha1([5u8; 20]));
    assert!(Token::Sha512("deadbeef".to_string()) == Token::Sha512("deadbeef".to_string()));
}

#[test]
fn different_payloads_within_variant_differ() {
    assert!(Token::Etag("abc".to_string()) != Token::Etag("abd".to_string()));
    assert!(Token::ArtifactId(42) != Token::ArtifactId(43));
    let mut d = [5u8; 20];
    d[19] = 6;
    assert!(Token::Sha1([5u8; 20]) != Token::Sha1(d));
    assert!(Token::Sha512("a".to_string()) != Token::Sha512("b".to_string()));
}

#[test]
fn duplicated_token_compares_like_the_original() {
    let t = Token::Etag("abc".to_string());
    assert!(t.dup() == t);
    let u = Token::Unknown;
    assert!(matches!(u.dup(), Token::Unknown));
}
