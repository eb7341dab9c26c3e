use vstd::prelude::*;

verus! {

/// The digests a registry lists for one downloadable file.
pub struct FileHashes {
    pub sha512: Option<String>,
}

/// One downloadable file of a published version.
pub struct ProjectFile {
    pub url: String,
    pub filename: String,
    pub primary: bool,
    pub hashes: FileHashes,
}

/// One published version of a project, as plain values: the publish date
/// is epoch seconds.
pub struct ProjectVersion {
    pub date_published: i64,
    pub files: Vec<ProjectFile>,
}

/// The first file marked primary.
pub open spec fn primary_file(files: Seq<ProjectFile>) -> Option<ProjectFile>
    decreases files.len(),
{
    if files.len() == 0 {
        None
    } else if files[0].primary {
        Some(files[0])
    } else {
        primary_file(files.drop_first())
    }
}

/// What one version offers: digest, download URL and file name of its
/// first primary file, provided that file carries a sha512 digest;
/// nothing otherwise (a version without a usable digest is skipped).
pub open spec fn version_hash(v: ProjectVersion) -> Option<(Seq<char>, Seq<char>, Seq<char>)> {
    match primary_file(v.files@) {
        Some(f) => match f.hashes.sha512 {
            Some(h) => Some((h@, f.url@, f.filename@)),
            None => None,
        },
        None => None,
    }
}

proof fn lemma_primary_at(files: Seq<ProjectFile>, i: int)
    requires
        0 <= i < files.len(),
        files[i].primary,
        forall|j: int| 0 <= j < i ==> !(#[trigger] files[j]).primary,
    ensures
        primary_file(files) == Some(files[i]),
    decreases files.len(),
{
    if i > 0 {
        assert(files.drop_first()[i - 1] == files[i]);
        assert forall|j: int| 0 <= j < i - 1 implies !(#[trigger] files.drop_first()[j]).primary by {
            assert(files.drop_first()[j] == files[j + 1]);
        }
        lemma_primary_at(files.drop_first(), i - 1);
    }
}

proof fn lemma_primary_none(files: Seq<ProjectFile>)
    requires
        forall|j: int| 0 <= j < files.len() ==> !(#[trigger] files[j]).primary,
    ensures
        primary_file(files) is None,
    decreases files.len(),
{
    if files.len() > 0 {
        assert forall|j: int|
            0 <= j < files.drop_first().len() implies !(#[trigger] files.drop_first()[j]).primary by {
            assert(files.drop_first()[j] == files[j + 1]);
        }
        lemma_primary_none(files.drop_first());
    }
}

fn find_primary(files: &Vec<ProjectFile>) -> (r: Option<usize>)
    ensures
        match r {
            Some(i) => i < files@.len() && primary_file(files@) == Some(files@[i as int]),
            None => primary_file(files@) is None,
        },
{
    let n = files.len();
    let mut i: usize = 0;
    while i < n
        invariant
            i <= n,
            n == files@.len(),
            forall|j: int| 0 <= j < i ==> !(#[trigger] files@[j]).primary,
        decreases n - i,
    {
        if files[i].primary {
            proof {
                lemma_primary_at(files@, i as int);
            }
            return Some(i);
        }
        i += 1;
    }
    proof {
        lemma_primary_none(files@);
    }
    None
}

fn version_hash_exec(v: &ProjectVersion) -> (r: Option<(String, String, String)>)
    ensures
        match (r, version_hash(*v)) {
            (Some(t), Some(s)) => t.0@ == s.0 && t.1@ == s.1 && t.2@ == s.2,
            (None, None) => true,
            _ => false,
        },
{
    match find_primary(&v.files) {
        Some(i) => match &v.files[i].hashes.sha512 {
            Some(h) => Some((h.clone(), v.files[i].url.clone(), v.files[i].filename.clone())),
            None => None,
        },
        None => None,
    }
}

/// The latest available version: among the versions carrying a usable
/// primary file, the one with the greatest publish date, the earliest
/// listed on a tie. `None` when no version carries a usable primary file.
pub fn resolve_version(versions: &Vec<ProjectVersion>) -> (r: Option<(String, String, String)>)
    ensures
        match r {
            Some(t) => exists|i: int|
                {
                    &&& 0 <= i < versions@.len()
                    &&& (#[trigger] version_hash(versions@[i])) is Some
                    &&& t.0@ == version_hash(versions@[i]).unwrap().0
                    &&& t.1@ == version_hash(versions@[i]).unwrap().1
                    &&& t.2@ == version_hash(versions@[i]).unwrap().2
                    &&& forall|j: int|
                        0 <= j < versions@.len() && (#[trigger] version_hash(versions@[j])) is Some
                            ==> (versions@[i].date_published > versions@[j].date_published || (
                        versions@[i].date_published == versions@[j].date_published && i <= j))
                },
            None => forall|i: int|
                0 <= i < versions@.len() ==> (#[trigger] version_hash(versions@[i])) is None,
        },
{
    let n = versions.len();
    let mut best: Option<(usize, (String, String, String))> = None;
    let mut k: usize = 0;
    while k < n
        invariant
            k <= n,
            n == versions@.len(),
            match best {
                None => forall|j: int|
                    0 <= j < k ==> (#[trigger] version_hash(versions@[j])) is None,
                Some(b) => {
                    &&& b.0 < k
                    &&& version_hash(versions@[b.0 as int]) is Some
                    &&& b.1.0@ == version_hash(versions@[b.0 as int]).unwrap().0
                    &&& b.1.1@ == version_hash(versions@[b.0 as int]).unwrap().1
                    &&& b.1.2@ == version_hash(versions@[b.0 as int]).unwrap().2
                    &&& forall|j: int|
                        0 <= j < k && (#[trigger] version_hash(versions@[j])) is Some ==> (
                        versions@[b.0 as int].date_published > versions@[j].date_published || (
                        versions@[b.0 as int].date_published == versions@[j].date_published && b.0
                            <= j))
                },
            },
        decreases n - k,
    {
        match version_hash_exec(&versions[k]) {
            Some(t) => {
                let replace = match &best {
                    None => true,
                    Some(b) => versions[k].date_published > versions[b.0].date_published,
                };
                if replace {
                    best = Some((k, t));
                }
            },
            None => {},
        }
        k += 1;
    }
    match best {
        Some(b) => Some(b.1),
        None => None,
    }
}

} // verus!
