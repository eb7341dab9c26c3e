use server_wrapper::cache::Loader;
use server_wrapper::cache::UpdateResult;
use server_wrapper::index::parse_index;
use server_wrapper::index::Index;
use server_wrapper::index::IndexEntry;
use server_wrapper::source::complete_fetch;
use server_wrapper::source::decide_fetch;
use server_wrapper::source::Error;
use server_wrapper::source::FetchDecision;
use server_wrapper::source::File;
use server_wrapper::token::Token;

fn seeded(key: &str, token: Token, name: &str) -> IndexEntry {
    IndexEntry { key: key.to_string(), token, file_name: name.to_string() }
}

#[test]
fn eviction_returns_exactly_the_untouched_keys() {
    let index = Index {
        entries: vec![
            seeded("a", Token::ArtifactId(1), "a.jar"),
            seeded("b", Token::ArtifactId(2), "b.jar"),
            seeded("c", Token::ArtifactId(3), "c.jar"),
        ],
    };
    let mut loader = Loader::open("root".to_string(), index);
    let _ = loader.entry("a".to_string());
    let _ = loader.entry("b".to_string());
    let stale = loader.drop_stale();
    assert_eq!(stale.len(), 1);
    assert_eq!(stale[0].name, "c.jar");
    assert_eq!(stale[0].path, "root/c");
    assert!(!stale[0].changed());
    let text = loader.close();
    let back = parse_index(text.as_str()).expect("persisted index parses");
    assert_eq!(back.len(), 2);
    assert_eq!(back[0].key, "a");
    assert_eq!(back[1].key, "b");
}

#[test]
fn matching_token_serves_cached_reference() {
    let index = Index { entries: vec![seeded("k", Token::ArtifactId(42), "k.zip")] };
    let mut loader = Loader::open("root".to_string(), index);
    let entry = loader.entry("k".to_string());
    match entry.try_update(&loader, Token::ArtifactId(42)) {
        UpdateResult::Match(reference) => {
            assert!(!reference.changed());
            assert_eq!(reference.name, "k.zip");
            assert_eq!(reference.path, "root/k");
        },
        UpdateResult::Mismatch(_) => panic!("equal tokens must match"),
    }
}

#[test]
fn mismatching_token_commits_through_the_updater() {
    let index = Index { entries: vec![seeded("k", Token::ArtifactId(1), "old.zip")] };
    let mut loader = Loader::open("root".to_string(), index);
    let entry = loader.entry("k".to_string());
    let updater = match entry.try_update(&loader, Token::ArtifactId(2)) {
        UpdateResult::Mismatch(u) => u,
        UpdateResult::Match(_) => panic!("changed tokens must mismatch"),
    };
    let file = File { name: "new.zip".to_string(), bytes: vec![1, 2, 3] };
    let (reference, bytes) = updater.update(&mut loader, file);
    assert!(reference.changed());
    assert_eq!(reference.name, "new.zip");
    assert_eq!(reference.path, "root/k");
    assert_eq!(bytes, vec![1, 2, 3]);
    let back = parse_index(loader.close().as_str()).expect("parses");
    assert_eq!(back.len(), 1);
    assert_eq!(back[0].file_name, "new.zip");
    assert!(back[0].token == Token::ArtifactId(2));
}

#[test]
fn end_to_end_first_run_fetches_second_run_matches() {
    let mut loader = Loader::open("cache_root".to_string(), Index { entries: Vec::new() });
    let entry = loader.entry("api".to_string());
    assert!(matches!(entry.token(), Token::Unknown));
    let decision = decide_fetch(entry, &loader, Some(Token::ArtifactId(42)))
        .expect("a resolved version never fails the decision step");
    let updater = match decision {
        FetchDecision::Fetch(u) => u,
        FetchDecision::Serve(_) => panic!("an empty cache cannot serve"),
    };
    let file = File { name: "api-build.zip".to_string(), bytes: vec![9, 9, 9] };
    let (reference, bytes) = complete_fetch(updater, &mut loader, Some(file))
        .expect("a transformed payload commits");
    assert!(reference.changed());
    assert_eq!(reference.name, "api-build.zip");
    assert_eq!(bytes, vec![9, 9, 9]);

    let entry2 = loader.entry("api".to_string());
    match decide_fetch(entry2, &loader, Some(Token::ArtifactId(42))).expect("decides") {
        FetchDecision::Serve(reference2) => {
            assert!(!reference2.changed());
            assert_eq!(reference2.name, "api-build.zip");
            assert_eq!(reference2.path, "cache_root/api");
        },
        FetchDecision::Fetch(_) => panic!("the second run must not fetch the payload again"),
    }
}

#[test]
fn unknown_tokens_mismatch_every_run() {
    let index = Index { entries: vec![seeded("k", Token::Unknown, "k.bin")] };
    let mut loader = Loader::open("root".to_string(), index);
    let entry = loader.entry("k".to_string());
    assert!(matches!(
        entry.try_update(&loader, Token::Unknown),
        UpdateResult::Mismatch(_)
    ));
}

#[test]
fn nothing_resolved_and_nothing_cached_is_a_missing_artifact() {
    let mut loader = Loader::open("root".to_string(), Index { entries: Vec::new() });
    let entry = loader.entry("k".to_string());
    assert!(matches!(
        decide_fetch(entry, &loader, None),
        Err(Error::MissingArtifact)
    ));
}

#[test]
fn nothing_resolved_serves_a_previously_cached_artifact() {
    let index = Index { entries: vec![seeded("k", Token::Etag("v1".to_string()), "k.jar")] };
    let mut loader = Loader::open("root".to_string(), index);
    let entry = loader.entry("k".to_string());
    match decide_fetch(entry, &loader, None).expect("cached artifact still serves") {
        FetchDecision::Serve(reference) => {
            assert!(!reference.changed());
            assert_eq!(reference.name, "k.jar");
        },
        FetchDecision::Fetch(_) => panic!("nothing resolved, nothing to fetch"),
    }
}

#[test]
fn no_usable_transform_output_fails_and_keeps_the_store() {
    let mut loader = Loader::open("root".to_string(), Index { entries: Vec::new() });
    let entry = loader.entry("k".to_string());
    let updater = match decide_fetch(entry, &loader, Some(Token::ArtifactId(7))).unwrap() {
        FetchDecision::Fetch(u) => u,
        FetchDecision::Serve(_) => panic!("an empty cache cannot serve"),
    };
    assert!(matches!(
        complete_fetch(updater, &mut loader, None),
        Err(Error::MissingArtifact)
    ));
    let back = parse_index(loader.close().as_str()).expect("parses");
    assert_eq!(back.len(), 0);
}

#[test]
fn duplicate_keys_in_a_loaded_index_resolve_to_the_last() {
    let index = Index {
        entries: vec![
            seeded("k", Token::ArtifactId(1), "first.jar"),
            seeded("k", Token::ArtifactId(2), "second.jar"),
        ],
    };
    let loader = Loader::open("root".to_string(), index);
    let back = parse_index(loader.close().as_str()).expect("parses");
    assert_eq!(back.len(), 1);
    assert_eq!(back[0].file_name, "second.jar");
    assert!(back[0].token == Token::ArtifactId(2));
}

#[test]
fn blob_paths_join_root_and_key() {
    let loader = Loader::open("some/root".to_string(), Index { entries: Vec::new() });
    assert_eq!(loader.path_for(&"key".to_string()), "some/root/key");
}
