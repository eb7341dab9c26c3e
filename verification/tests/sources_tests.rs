use server_wrapper::github::select_artifact;
use server_wrapper::github::ArtifactChoice;
use server_wrapper::github::sort_runs_desc;
use server_wrapper::github::split_repo;
use server_wrapper::github::Artifact;
use server_wrapper::github::Filter;
use server_wrapper::github::WorkflowRun;
use server_wrapper::http::file_name;
use server_wrapper::http::token_from_etag;
use server_wrapper::modrinth::resolve_version;
use server_wrapper::modrinth::FileHashes;
use server_wrapper::modrinth::ProjectFile;
use server_wrapper::modrinth::ProjectVersion;
use server_wrapper::path::token_for_bytes;
use server_wrapper::source::zip_file_name;
use server_wrapper::source::Error;
use server_wrapper::token::Token;

#[test]
fn repo_reference_splits_at_its_single_slash() {
    let (owner, name) = split_repo("octo/repo").expect("well-formed");
    assert_eq!(owner, "octo");
    assert_eq!(name, "repo");
}

#[test]
fn repo_references_without_exactly_one_slash_are_malformed() {
    assert!(matches!(split_repo("octorepo"), Err(Error::MalformedGitHubReference(_))));
    assert!(matches!(split_repo("a/b/c"), Err(Error::MalformedGitHubReference(_))));
}

fn run(id: usize, name: &str, branch: &str, updated_at: i64) -> WorkflowRun {
    WorkflowRun {
        id,
        name: name.to_string(),
        head_branch: branch.to_string(),
        updated_at,
        has_artifacts_url: true,
    }
}

#[test]
fn filters_accept_when_unset_and_compare_when_set() {
    let unset = Filter { workflow: None, branch: None, artifact: None };
    assert!(unset.test_workflow("anything"));
    assert!(unset.test_branch("main"));
    assert!(unset.test_artifact("a"));
    let set = Filter {
        workflow: Some("build".to_string()),
        branch: Some("main".to_string()),
        artifact: Some("server".to_string()),
    };
    assert!(set.test_workflow("build"));
    assert!(!set.test_workflow("deploy"));
    assert!(set.test_branch("main"));
    assert!(!set.test_branch("dev"));
    assert!(set.test_artifact("server"));
    assert!(!set.test_artifact("client"));
}

#[test]
fn runs_sort_newest_first() {
    let runs = vec![run(1, "b", "main", 10), run(2, "b", "main", 30), run(3, "b", "main", 20)];
    let sorted = sort_runs_desc(runs);
    let ids: Vec<usize> = sorted.iter().map(|r| r.id).collect();
    assert_eq!(ids, vec![2, 3, 1]);
}

fn artifact(id: usize, name: &str, expired: bool, url: Option<&str>) -> Artifact {
    Artifact {
        id,
        name: name.to_string(),
        updated_at: 0,
        expired,
        archive_download_url: url.map(|u| u.to_string()),
    }
}

#[test]
fn artifact_selection_skips_rejected_names_and_takes_the_first_link() {
    let filter = Filter { workflow: None, branch: None, artifact: Some("server".to_string()) };
    let artifacts = vec![
        artifact(1, "client", false, Some("u1")),
        artifact(2, "server", false, None),
        artifact(3, "server", false, Some("u3")),
    ];
    match select_artifact(&artifacts, &filter) {
        ArtifactChoice::Download(id, url, name) => {
            assert_eq!(id, 3);
            assert_eq!(url, "u3");
            assert_eq!(name, "server");
        },
        _ => panic!("one artifact qualifies"),
    }
}

#[test]
fn an_expired_accepted_artifact_ends_the_search() {
    let filter = Filter { workflow: None, branch: None, artifact: None };
    let artifacts = vec![artifact(1, "server", true, Some("u1")), artifact(2, "server", false, Some("u2"))];
    assert!(matches!(select_artifact(&artifacts, &filter), ArtifactChoice::Expired));
}

#[test]
fn artifacts_without_links_leave_the_run_exhausted() {
    let filter = Filter { workflow: None, branch: None, artifact: None };
    let artifacts = vec![artifact(1, "server", false, None)];
    assert!(matches!(select_artifact(&artifacts, &filter), ArtifactChoice::Exhausted));
}

fn version(date: i64, sha512: Option<&str>, url: &str, filename: &str) -> ProjectVersion {
    ProjectVersion {
        date_published: date,
        files: vec![ProjectFile {
            url: url.to_string(),
            filename: filename.to_string(),
            primary: true,
            hashes: FileHashes { sha512: sha512.map(|s| s.to_string()) },
        }],
    }
}

#[test]
fn the_latest_usable_version_is_resolved() {
    let versions = vec![
        version(5, Some("h5"), "u5", "f5"),
        version(10, Some("h10"), "u10", "f10"),
        version(20, None, "u20", "f20"),
    ];
    let (hash, url, name) = resolve_version(&versions).expect("a usable version exists");
    assert_eq!(hash, "h10");
    assert_eq!(url, "u10");
    assert_eq!(name, "f10");
}

#[test]
fn equally_dated_usable_versions_resolve_to_the_first_listed() {
    let versions = vec![version(7, Some("ha"), "ua", "fa"), version(7, Some("hb"), "ub", "fb")];
    let (hash, _, _) = resolve_version(&versions).expect("a usable version exists");
    assert_eq!(hash, "ha");
}

#[test]
fn versions_without_usable_digests_resolve_to_nothing() {
    let versions = vec![version(1, None, "u", "f")];
    assert!(resolve_version(&versions).is_none());
    assert!(resolve_version(&Vec::new()).is_none());
}

#[test]
fn non_primary_files_are_ignored() {
    let v = ProjectVersion {
        date_published: 1,
        files: vec![
            ProjectFile {
                url: "u-extra".to_string(),
                filename: "f-extra".to_string(),
                primary: false,
                hashes: FileHashes { sha512: Some("h-extra".to_string()) },
            },
            ProjectFile {
                url: "u-main".to_string(),
                filename: "f-main".to_string(),
                primary: true,
                hashes: FileHashes { sha512: Some("h-main".to_string()) },
            },
        ],
    };
    let (hash, url, name) = resolve_version(&vec![v]).expect("primary file is usable");
    assert_eq!(hash, "h-main");
    assert_eq!(url, "u-main");
    assert_eq!(name, "f-main");
}

#[test]
fn url_file_names_take_the_last_segment() {
    assert_eq!(file_name("https://host/dir/z.jar"), "z.jar");
    assert_eq!(file_name("plain"), "plain");
    assert_eq!(file_name("dir/"), "");
}

#[test]
fn etag_tokens_strip_the_surrounding_quotes() {
    match token_from_etag(Some("\"abc\"".to_string())) {
        Token::Etag(s) => assert_eq!(s, "abc"),
        _ => panic!("an entity tag yields an etag token"),
    }
    assert!(matches!(token_from_etag(None), Token::Unknown));
    match token_from_etag(Some("x".to_string())) {
        Token::Etag(s) => assert_eq!(s, "x"),
        _ => panic!("a short entity tag is kept whole"),
    }
}

#[test]
fn local_bytes_get_their_sha1_digest_as_token() {
    match token_for_bytes(&Vec::new()) {
        Token::Sha1(d) => assert_eq!(
            d,
            [
                0xda, 0x39, 0xa3, 0xee, 0x5e, 0x6b, 0x4b, 0x0d, 0x32, 0x55, 0xbf, 0xef, 0x95,
                0x60, 0x18, 0x90, 0xaf, 0xd8, 0x07, 0x09,
            ]
        ),
        _ => panic!("local files are fingerprinted by sha1"),
    }
}

#[test]
fn archive_artifact_names_get_the_zip_suffix() {
    assert_eq!(zip_file_name("api-build"), "api-build.zip");
    assert_eq!(zip_file_name(""), ".zip");
}

#[test]
fn error_messages_name_their_failure() {
    assert_eq!(Error::MissingArtifact.message(), "missing artifact");
    assert_eq!(
        Error::MalformedGitHubReference("x".to_string()).message(),
        "malformed github reference"
    );
    assert_eq!(Error::Extraction.message(), "archive extraction failed");
}

#[test]
fn equal_bytes_get_equal_tokens_and_different_bytes_differ() {
    let a = token_for_bytes(&vec![1, 2, 3]);
    let b = token_for_bytes(&vec![1, 2, 3]);
    let c = token_for_bytes(&vec![1, 2, 4]);
    assert!(a == b);
    assert!(a != c);
}
