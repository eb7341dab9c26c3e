use crate::source::Error;
use crate::text::find_char;
use crate::text::str_eq;
use vstd::prelude::*;

verus! {

/// Splits an `owner/name` repository reference at its only slash; any
/// reference without exactly one slash is malformed.
pub fn split_repo(reference: &str) -> (r: Result<(String, String), Error>)
    ensures
        match r {
            Ok(parts) => {
                &&& parts.0@ + seq!['/'] + parts.1@ == reference@
                &&& !parts.0@.contains('/')
                &&& !parts.1@.contains('/')
            },
            Err(e) => {
                &&& e matches Error::MalformedGitHubReference(s) && s@ == reference@
                &&& forall|a: Seq<char>, b: Seq<char>|
                    a + seq!['/'] + b == reference@ ==> a.contains('/') || b.contains('/')
            },
        },
{
    let n = reference.unicode_len();
    match find_char(reference, 0, '/') {
        None => {
            proof {
                assert forall|a: Seq<char>, b: Seq<char>|
                    a + seq!['/'] + b == reference@ implies a.contains('/') || b.contains(
                    '/',
                ) by {
                    if a + seq!['/'] + b == reference@ {
                        assert(reference@[a.len() as int] == '/');
                    }
                }
            }
            Err(Error::MalformedGitHubReference(reference.to_owned()))
        },
        Some(i) => {
            match find_char(reference, i + 1, '/') {
                Some(i2) => {
                    proof {
                        assert forall|a: Seq<char>, b: Seq<char>|
                            a + seq!['/'] + b == reference@ implies a.contains('/')
                            || b.contains('/') by {
                            if a + seq!['/'] + b == reference@ {
                                let p = a.len() as int;
                                assert(reference@[p] == '/');
                                if p > i {
                                    assert(a[i as int] == reference@[i as int]);
                                    assert(a.contains(a[i as int]));
                                } else {
                                    assert(p == i);
                                    assert(b[i2 - i - 1] == reference@[i2 as int]);
                                    assert(b.contains(b[i2 - i - 1]));
                                }
                            }
                        }
                    }
                    Err(Error::MalformedGitHubReference(reference.to_owned()))
                },
                None => {
                    let owner = reference.substring_char(0, i).to_owned();
                    let name = reference.substring_char(i + 1, n).to_owned();
                    proof {
                        assert(reference@.subrange(0, i as int) + seq!['/'] + reference@.subrange(
                            i + 1,
                            n as int,
                        ) =~= reference@);
                        assert forall|j: int|
                            0 <= j < reference@.subrange(0, i as int).len() implies (
                        #[trigger] reference@.subrange(0, i as int)[j]) != '/' by {
                            assert(reference@.subrange(0, i as int)[j] == reference@[j]);
                        }
                        assert forall|j: int|
                            0 <= j < reference@.subrange(i + 1, n as int).len() implies (
                        #[trigger] reference@.subrange(i + 1, n as int)[j]) != '/' by {
                            assert(reference@.subrange(i + 1, n as int)[j] == reference@[j + i
                                + 1]);
                        }
                    }
                    Ok((owner, name))
                },
            }
        },
    }
}

/// Whether an optional required value accepts a candidate: absent means
/// everything is accepted, present means the values must be equal.
pub open spec fn opt_accepts(required: Option<String>, candidate: Seq<char>) -> bool {
    match required {
        Some(s) => s@ == candidate,
        None => true,
    }
}

/// The user's constraints on which workflow run and artifact to take.
pub struct Filter {
    pub workflow: Option<String>,
    pub branch: Option<String>,
    pub artifact: Option<String>,
}

impl Filter {
    pub fn test_workflow(&self, workflow: &str) -> (r: bool)
        ensures
            r == opt_accepts(self.workflow, workflow@),
    {
        match &self.workflow {
            Some(required) => str_eq(required.as_str(), workflow),
            None => true,
        }
    }

    pub fn test_branch(&self, branch: &str) -> (r: bool)
        ensures
            r == opt_accepts(self.branch, branch@),
    {
        match &self.branch {
            Some(required) => str_eq(required.as_str(), branch),
            None => true,
        }
    }

    pub fn test_artifact(&self, artifact: &str) -> (r: bool)
        ensures
            r == opt_accepts(self.artifact, artifact@),
    {
        match &self.artifact {
            Some(required) => str_eq(required.as_str(), artifact),
            None => true,
        }
    }
}

/// One CI workflow run, as plain values: the timestamp is epoch seconds.
pub struct WorkflowRun {
    pub id: usize,
    pub name: String,
    pub head_branch: String,
    pub updated_at: i64,
    pub has_artifacts_url: bool,
}

/// One build artifact of a run, as plain values.
pub struct Artifact {
    pub id: usize,
    pub name: String,
    pub updated_at: i64,
    pub expired: bool,
    pub archive_download_url: Option<String>,
}

/// Whether a run passes the workflow and branch constraints.
pub fn run_matches(filter: &Filter, run: &WorkflowRun) -> (r: bool)
    ensures
        r == (opt_accepts(filter.workflow, run.name@) && opt_accepts(
            filter.branch,
            run.head_branch@,
        )),
{
    filter.test_workflow(run.name.as_str()) && filter.test_branch(run.head_branch.as_str())
}

/// Reorders runs by `updated_at`, newest first; the same elements.
pub fn sort_runs_desc(runs: Vec<WorkflowRun>) -> (r: Vec<WorkflowRun>)
    ensures
        r@.len() == runs@.len(),
        r@.to_multiset() == runs@.to_multiset(),
        forall|i: int, j: int|
            0 <= i < j < r@.len() ==> (#[trigger] r@[i]).updated_at >= (#[trigger] r@[j]).updated_at,
{
    broadcast use vstd::seq_lib::group_to_multiset_ensures;

    let mut src = runs;
    let mut out: Vec<WorkflowRun> = Vec::new();
    while src.len() > 0
        invariant
            out@.to_multiset().add(src@.to_multiset()) =~= runs@.to_multiset(),
            out@.len() + src@.len() == runs@.len(),
            forall|i: int, j: int|
                0 <= i < j < out@.len() ==> (#[trigger] out@[i]).updated_at >= (
                #[trigger] out@[j]).updated_at,
            forall|i: int, j: int|
                0 <= i < out@.len() && 0 <= j < src@.len() ==> (#[trigger] out@[i]).updated_at >= (
                #[trigger] src@[j]).updated_at,
        decreases src@.len(),
    {
        let mut best: usize = 0;
        let mut k: usize = 1;
        while k < src.len()
            invariant
                best < k <= src@.len(),
                forall|j: int|
                    0 <= j < k ==> (#[trigger] src@[j]).updated_at <= src@[best as int].updated_at,
            decreases src@.len() - k,
        {
            if src[k].updated_at > src[best].updated_at {
                best = k;
            }
            k += 1;
        }
        let ghost pre_src = src@;
        let ghost pre_out = out@;
        let x = src.remove(best);
        out.push(x);
        proof {
            broadcast use vstd::multiset::group_multiset_axioms;

            pre_out.to_multiset_ensures();
            pre_src.to_multiset_ensures();
            assert(pre_src[best as int] == x);
            assert(pre_src.contains(x));
            assert(out@.to_multiset() =~= pre_out.to_multiset().insert(x));
            assert(src@.to_multiset() =~= pre_src.to_multiset().remove(x));
            assert(out@.to_multiset().add(src@.to_multiset()) =~= runs@.to_multiset());
            assert forall|i: int, j: int|
                0 <= i < out@.len() && 0 <= j < src@.len() implies (#[trigger] out@[i]).updated_at
                >= (#[trigger] src@[j]).updated_at by {
                if j < best {
                    assert(src@[j] == pre_src[j]);
                } else {
                    assert(src@[j] == pre_src[j + 1]);
                }
                if i < pre_out.len() {
                    assert(out@[i] == pre_out[i]);
                    assert(pre_src[best as int] == x);
                } else {
                    assert(out@[i] == x);
                }
            }
        }
    }
    out
}

/// Reorders artifacts by `updated_at`, newest first; same elements.
pub fn sort_artifacts_desc(artifacts: Vec<Artifact>) -> (r: Vec<Artifact>)
    ensures
        r@.len() == artifacts@.len(),
        r@.to_multiset() == artifacts@.to_multiset(),
        forall|i: int, j: int|
            0 <= i < j < r@.len() ==> (#[trigger] r@[i]).updated_at >= (#[trigger] r@[j]).updated_at,
{
    broadcast use vstd::seq_lib::group_to_multiset_ensures;

    let mut src = artifacts;
    let mut out: Vec<Artifact> = Vec::new();
    while src.len() > 0
        invariant
            out@.to_multiset().add(src@.to_multiset()) =~= artifacts@.to_multiset(),
            out@.len() + src@.len() == artifacts@.len(),
            forall|i: int, j: int|
                0 <= i < j < out@.len() ==> (#[trigger] out@[i]).updated_at >= (
                #[trigger] out@[j]).updated_at,
            forall|i: int, j: int|
                0 <= i < out@.len() && 0 <= j < src@.len() ==> (#[trigger] out@[i]).updated_at >= (
                #[trigger] src@[j]).updated_at,
        decreases src@.len(),
    {
        let mut best: usize = 0;
        let mut k: usize = 1;
        while k < src.len()
            invariant
                best < k <= src@.len(),
                forall|j: int|
                    0 <= j < k ==> (#[trigger] src@[j]).updated_at <= src@[best as int].updated_at,
            decreases src@.len() - k,
        {
            if src[k].updated_at > src[best].updated_at {
                best = k;
            }
            k += 1;
        }
        let ghost pre_src = src@;
        let ghost pre_out = out@;
        let x = src.remove(best);
        out.push(x);
        proof {
            broadcast use vstd::multiset::group_multiset_axioms;

            pre_out.to_multiset_ensures();
            pre_src.to_multiset_ensures();
            assert(pre_src[best as int] == x);
            assert(pre_src.contains(x));
            assert(out@.to_multiset() =~= pre_out.to_multiset().insert(x));
            assert(src@.to_multiset() =~= pre_src.to_multiset().remove(x));
            assert(out@.to_multiset().add(src@.to_multiset()) =~= artifacts@.to_multiset());
            assert forall|i: int, j: int|
                0 <= i < out@.len() && 0 <= j < src@.len() implies (#[trigger] out@[i]).updated_at
                >= (#[trigger] src@[j]).updated_at by {
                if j < best {
                    assert(src@[j] == pre_src[j]);
                } else {
                    assert(src@[j] == pre_src[j + 1]);
                }
                if i < pre_out.len() {
                    assert(out@[i] == pre_out[i]);
                    assert(pre_src[best as int] == x);
                } else {
                    assert(out@[i] == x);
                }
            }
        }
    }
    out
}

/// What scanning artifacts in the given order decides: skip artifacts the
/// filter rejects; the first accepted one that is expired ends the search
/// (nothing older will still be around); the first accepted, unexpired one
/// with a download link is the result.
pub open spec fn select_artifact_spec(s: Seq<Artifact>, f: Filter) -> Option<
    (usize, Seq<char>, Seq<char>),
>
    decreases s.len(),
{
    if s.len() == 0 {
        None
    } else if !opt_accepts(f.artifact, s[0].name@) {
        select_artifact_spec(s.drop_first(), f)
    } else if s[0].expired {
        None
    } else {
        match s[0].archive_download_url {
            Some(u) => Some((s[0].id, u@, s[0].name@)),
            None => select_artifact_spec(s.drop_first(), f),
        }
    }
}

/// Whether the scan ends because the first accepted artifact has expired:
/// nothing older will still be around, so the whole search stops.
pub open spec fn search_expired(s: Seq<Artifact>, f: Filter) -> bool
    decreases s.len(),
{
    if s.len() == 0 {
        false
    } else if !opt_accepts(f.artifact, s[0].name@) {
        search_expired(s.drop_first(), f)
    } else if s[0].expired {
        true
    } else {
        match s[0].archive_download_url {
            Some(u) => false,
            None => search_expired(s.drop_first(), f),
        }
    }
}

/// How scanning one run's artifacts ended.
pub enum ArtifactChoice {
    /// The first accepted, unexpired artifact with a download link.
    Download(usize, String, String),
    /// The first accepted artifact had expired: stop searching older runs.
    Expired,
    /// No accepted artifact had a download link: try the next run.
    Exhausted,
}

/// The artifact to download out of one run's artifact list, scanned in the
/// given order (newest first after `sort_artifacts_desc`).
pub fn select_artifact(artifacts: &Vec<Artifact>, filter: &Filter) -> (r: ArtifactChoice)
    ensures
        match r {
            ArtifactChoice::Download(id, url, name) => select_artifact_spec(artifacts@, *filter)
                matches Some(st) && id == st.0 && url@ == st.1 && name@ == st.2,
            ArtifactChoice::Expired => select_artifact_spec(artifacts@, *filter) is None
                && search_expired(artifacts@, *filter),
            ArtifactChoice::Exhausted => select_artifact_spec(artifacts@, *filter) is None
                && !search_expired(artifacts@, *filter),
        },
{
    let n = artifacts.len();
    let mut i: usize = 0;
    proof {
        assert(artifacts@.skip(0) =~= artifacts@);
    }
    while i < n
        invariant
            i <= n,
            n == artifacts@.len(),
            select_artifact_spec(artifacts@, *filter) == select_artifact_spec(
                artifacts@.skip(i as int),
                *filter,
            ),
            search_expired(artifacts@, *filter) == search_expired(
                artifacts@.skip(i as int),
                *filter,
            ),
        decreases n - i,
    {
        proof {
            assert(artifacts@.skip(i as int)[0] == artifacts@[i as int]);
            assert(artifacts@.skip(i as int).drop_first() =~= artifacts@.skip(i + 1));
        }
        let a = &artifacts[i];
        if filter.test_artifact(a.name.as_str()) {
            if a.expired {
                return ArtifactChoice::Expired;
            }
            match &a.archive_download_url {
                Some(url) => {
                    return ArtifactChoice::Download(a.id, url.clone(), a.name.clone());
                },
                None => {},
            }
        }
        i += 1;
    }
    proof {
        assert(artifacts@.skip(n as int).len() == 0);
    }
    ArtifactChoice::Exhausted
}

} // verus!
