use crate::cache::lookup;
use crate::cache::path_join;
use crate::cache::store;
use crate::cache::stored_token;
use crate::cache::Entry;
use crate::cache::EntryUpdater;
use crate::cache::Loader;
use crate::cache::Reference;
use crate::cache::UpdateResult;
use crate::index::EntryView;
use crate::token::lemma_token_eq_within_variant;
use crate::token::token_eq;
use crate::token::Token;
use crate::token::TokenView;
use vstd::prelude::*;
use vstd::string::StringExecFns;

verus! {

/// A fetched (or transformed) artifact payload: the output file name it
/// should carry and its raw bytes.
pub struct File {
    pub name: String,
    pub bytes: Vec<u8>,
}

/// Failures scoped to one key's pipeline run. I/O and transport failures
/// live with the callers that perform the I/O; these are the decisions the
/// library itself takes.
#[derive(Debug)]
pub enum Error {
    /// The provider or the extractor reported that no usable artifact exists.
    MissingArtifact,
    /// A repository reference did not have the `owner/name` shape.
    MalformedGitHubReference(String),
    /// The fetched payload could not be read as an archive.
    Extraction,
}

impl Error {
    /// A short human-readable description of the failure.
    pub fn message(&self) -> (r: &'static str)
        ensures
            (r@ == "missing artifact"@) == (self is MissingArtifact),
            (r@ == "malformed github reference"@) == (self is MalformedGitHubReference),
            (r@ == "archive extraction failed"@) == (self is Extraction),
    {
        proof {
            reveal_strlit("missing artifact");
            reveal_strlit("malformed github reference");
            reveal_strlit("archive extraction failed");
            assert("missing artifact"@.len() == 16);
            assert("malformed github reference"@.len() == 26);
            assert("archive extraction failed"@.len() == 25);
        }
        match self {
            Error::MissingArtifact => "missing artifact",
            Error::MalformedGitHubReference(_) => "malformed github reference",
            Error::Extraction => "archive extraction failed",
        }
    }
}

/// The output file name for a downloaded archive artifact: the artifact's
/// name with a `.zip` suffix.
pub fn zip_file_name(name: &str) -> (r: String)
    ensures
        r@ == name@ + ".zip"@,
{
    let mut out = name.to_owned();
    out.append(".zip");
    out
}

/// What the pipeline decided for one key after the provider resolved (or
/// failed to resolve) the latest available version.
pub enum FetchDecision {
    /// The cached blob serves as-is: no payload fetch happens.
    Serve(Reference),
    /// The identity changed: the payload must be fetched, transformed, and
    /// committed through the updater.
    Fetch(EntryUpdater),
}

/// Step one of the per-key pipeline. `resolved` is what the provider
/// reported as the latest available identity (`None` when it could not
/// resolve any version). A resolved token is compared against the store:
/// a match serves the cached blob with no payload fetch; a mismatch hands
/// out the one-shot update capability. With nothing resolved, a previously
/// cached artifact is served if one exists, and the key fails with
/// `MissingArtifact` if and only if the store has no entry for it.
pub fn decide_fetch(entry: Entry, loader: &Loader, resolved: Option<Token>) -> (r: Result<
    FetchDecision,
    Error,
>)
    ensures
        match r {
            Ok(FetchDecision::Serve(reference)) => {
                &&& lookup(loader.model(), entry.key_spec()) is Some
                &&& reference.path@ == path_join(loader.root_spec(), entry.key_spec())
                &&& reference.name@ == lookup(loader.model(), entry.key_spec()).unwrap().file_name
                &&& reference.changed == false
                &&& (resolved matches Some(t) ==> token_eq(
                    stored_token(loader.model(), entry.key_spec()),
                    t@,
                ))
            },
            Ok(FetchDecision::Fetch(updater)) => {
                &&& resolved is Some
                &&& !token_eq(stored_token(loader.model(), entry.key_spec()), resolved.unwrap()@)
                &&& updater.key_spec() == entry.key_spec()
                &&& updater.token_spec() == resolved.unwrap()@
            },
            Err(e) => {
                &&& e is MissingArtifact
                &&& resolved is None
                &&& lookup(loader.model(), entry.key_spec()) is None
            },
        },
{
    match resolved {
        Some(token) => match entry.try_update(loader, token) {
            UpdateResult::Match(reference) => Ok(FetchDecision::Serve(reference)),
            UpdateResult::Mismatch(updater) => Ok(FetchDecision::Fetch(updater)),
        },
        None => match entry.get_existing(loader) {
            Some(reference) => Ok(FetchDecision::Serve(reference)),
            None => Err(Error::MissingArtifact),
        },
    }
}

/// Step two of the per-key pipeline, reached only on a mismatch. The
/// caller fetched the payload and ran the transform; `None` from the
/// transform means no usable artifact, which fails the key and leaves the
/// store untouched. Otherwise the entry is committed and the caller gets
/// the reference together with the bytes to write at its path.
pub fn complete_fetch(updater: EntryUpdater, loader: &mut Loader, transformed: Option<File>) -> (r:
    Result<(Reference, Vec<u8>), Error>)
    requires
        old(loader).wf(),
    ensures
        match r {
            Ok(rb) => {
                &&& transformed is Some
                &&& final(loader).wf()
                &&& final(loader).model() == store(
                    old(loader).model(),
                    EntryView {
                        key: updater.key_spec(),
                        token: updater.token_spec(),
                        file_name: transformed.unwrap().name@,
                    },
                )
                &&& final(loader).touched() == old(loader).touched()
                &&& final(loader).root_spec() == old(loader).root_spec()
                &&& rb.0.path@ == path_join(old(loader).root_spec(), updater.key_spec())
                &&& rb.0.name@ == transformed.unwrap().name@
                &&& rb.0.changed == true
                &&& rb.1@ == transformed.unwrap().bytes@
            },
            Err(e) => {
                &&& e is MissingArtifact
                &&& transformed is None
                &&& *final(loader) == *old(loader)
            },
        },
{
    match transformed {
        Some(file) => Ok(updater.update(loader, file)),
        None => Err(Error::MissingArtifact),
    }
}

/// Fetch-pipeline idempotence. After an update committed token `t` for a
/// key, a second run whose provider resolves `t` — or any token comparing
/// equal to it — finds the store already carrying `t`, so by
/// `decide_fetch`'s contract the `Fetch` arm (which requires a mismatch)
/// is impossible: no update capability is issued, hence no payload
/// download, and no blob or entry is rewritten — `decide_fetch` does not
/// even take the store mutably. `Unknown` is the one exception: it equals
/// nothing, so a key whose identity could not be established is refetched
/// every run.
pub proof fn lemma_second_run_matches(es: Seq<EntryView>, e: EntryView)
    requires
        !e.token.is_unknown(),
    ensures
        lookup(store(es, e), e.key) == Some(e),
        token_eq(stored_token(store(es, e), e.key), e.token),
        forall|t2: TokenView|
            #[trigger] token_eq(e.token, t2) ==> token_eq(stored_token(store(es, e), e.key), t2),
{
    crate::cache::lemma_lookup_store(es, e, e.key);
    lemma_token_eq_within_variant(e.token);
}

} // verus!
