use crate::source::Error;
use crate::source::File;
use glob::Pattern as GlobPattern;
use glob::PatternError as GlobPatternError;
use vstd::prelude::*;

use std::io::Read;

verus! {

// ---------------------------------------------------------------------------
// Declared outside types.
// ---------------------------------------------------------------------------
#[verifier::external_type_specification]
#[verifier::external_body]
pub struct ExGlobPattern(GlobPattern);

#[verifier::external_type_specification]
#[verifier::external_body]
pub struct ExPatternError(GlobPatternError);

#[verifier::external_type_specification]
#[verifier::external_body]
#[verifier::reject_recursive_types(R)]
pub struct ExZipArchive<R>(zip::ZipArchive<R>);

#[verifier::external_type_specification]
#[verifier::external_body]
pub struct ExZipError(zip::result::ZipError);

#[verifier::external_type_specification]
#[verifier::external_body]
#[verifier::reject_recursive_types(T)]
pub struct ExCursor<T>(std::io::Cursor<T>);

// ---------------------------------------------------------------------------
// Names for what the outside calls return.
// ---------------------------------------------------------------------------
/// What a compiled glob pattern holds: the source text it was built from.
pub uninterp spec fn pattern_source(p: GlobPattern) -> Seq<char>;

/// What glob matching returns: a function of the pattern's source text and
/// the candidate path alone.
pub uninterp spec fn glob_match(pattern: Seq<char>, path: Seq<char>) -> bool;

/// Whether glob accepts a text as a pattern: compilation is deterministic
/// in the text alone.
pub uninterp spec fn glob_compiles(text: Seq<char>) -> bool;

/// One archive entry as the library models it: its stored name, whether it
/// is a regular file (not a directory), and its uncompressed bytes.
pub struct ZipEntry {
    pub name: Seq<char>,
    pub is_file: bool,
    pub data: Seq<u8>,
}

/// What an opened archive holds: its entries in directory order.
pub uninterp spec fn zip_entries(z: zip::ZipArchive<std::io::Cursor<Vec<u8>>>) -> Seq<ZipEntry>;

/// What parsing bytes as an archive yields: a function of the bytes alone,
/// `None` when they are not a readable archive.
pub uninterp spec fn zip_parse(data: Seq<u8>) -> Option<Seq<ZipEntry>>;

/// Whether every entry of the archive the bytes describe can actually be
/// read back: its local metadata and, for a regular file, its decompressed
/// contents. A function of the bytes alone — reading an in-memory archive
/// is deterministic.
pub uninterp spec fn zip_sound(data: Seq<u8>) -> bool;

/// The same readability, carried by the opened archive value.
pub uninterp spec fn zip_readable(z: zip::ZipArchive<std::io::Cursor<Vec<u8>>>) -> bool;

// ---------------------------------------------------------------------------
// Trusted wrappers around glob and zip.
// ---------------------------------------------------------------------------
/// Relies on glob's derived Clone for Pattern: a clone carries the same
/// compiled pattern, hence the same source text.
pub assume_specification[ <GlobPattern as Clone>::clone ](p: &GlobPattern) -> (r: GlobPattern)
    ensures
        pattern_source(r) == pattern_source(*p),
;

/// Relies on glob's Pattern::new: compilation succeeds or fails
/// deterministically in the text, and a compiled pattern carries exactly
/// the source text it was built from.
#[verifier::external_body]
fn compile_glob(text: &str) -> (r: Result<GlobPattern, GlobPatternError>)
    ensures
        r is Ok <==> glob_compiles(text@),
        r matches Ok(p) ==> pattern_source(p) == text@,
{
    GlobPattern::new(text)
}

/// Relies on glob's Pattern::matches: deterministic in the pattern's
/// source text and the candidate path alone.
#[verifier::external_body]
fn glob_matches(p: &GlobPattern, path: &str) -> (r: bool)
    ensures
        r == glob_match(pattern_source(*p), path@),
{
    p.matches(path)
}

/// Relies on zip's ZipArchive::new: reading the central directory is a
/// function of the bytes alone; failure means the bytes are no archive.
#[verifier::external_body]
fn zip_open(bytes: Vec<u8>) -> (r: Result<
    zip::ZipArchive<std::io::Cursor<Vec<u8>>>,
    zip::result::ZipError,
>)
    ensures
        match r {
            Ok(z) => zip_parse(bytes@) == Some(zip_entries(z)) && zip_readable(z) == zip_sound(
                bytes@,
            ),
            Err(_) => zip_parse(bytes@) is None,
        },
{
    zip::ZipArchive::new(std::io::Cursor::new(bytes))
}

/// Relies on zip's ZipArchive::len: the number of entries in the archive.
#[verifier::external_body]
fn zip_len(z: &zip::ZipArchive<std::io::Cursor<Vec<u8>>>) -> (r: usize)
    ensures
        r == zip_entries(*z).len(),
{
    z.len()
}

/// Relies on zip's by_index_raw, ZipFile::name and ZipFile::is_file: the
/// stored name and kind of the entry at position `i`; on a fully readable
/// archive the call succeeds; reading moves only the cursor, the archive's
/// contents and readability are unchanged.
#[verifier::external_body]
fn zip_entry_meta(z: &mut zip::ZipArchive<std::io::Cursor<Vec<u8>>>, i: usize) -> (r: Result<
    (String, bool),
    zip::result::ZipError,
>)
    requires
        i < zip_entries(*old(z)).len(),
    ensures
        zip_entries(*final(z)) == zip_entries(*old(z)),
        zip_readable(*final(z)) == zip_readable(*old(z)),
        zip_readable(*old(z)) ==> r is Ok,
        r matches Ok(m) ==> m.0@ == zip_entries(*old(z))[i as int].name && m.1 == zip_entries(
            *old(z),
        )[i as int].is_file,
{
    let f = z.by_index_raw(i)?;
    Ok((f.name().to_owned(), f.is_file()))
}

/// Relies on zip's by_index_decrypt and Read::read_to_end: the
/// uncompressed bytes of the regular file at position `i`; on a fully
/// readable archive the call succeeds; reading moves only the cursor, the
/// archive's contents and readability are unchanged. An entry that wants a
/// password (including one whose headers only pretend to) maps to an error
/// here — unlike by_index, which would unwrap it.
#[verifier::external_body]
fn zip_entry_data(z: &mut zip::ZipArchive<std::io::Cursor<Vec<u8>>>, i: usize) -> (r: Result<
    Vec<u8>,
    zip::result::ZipError,
>)
    requires
        i < zip_entries(*old(z)).len(),
        zip_entries(*old(z))[i as int].is_file,
    ensures
        zip_entries(*final(z)) == zip_entries(*old(z)),
        zip_readable(*final(z)) == zip_readable(*old(z)),
        zip_readable(*old(z)) ==> r is Ok,
        r matches Ok(b) ==> b@ == zip_entries(*old(z))[i as int].data,
{
    let mut f = match z.by_index_decrypt(i, &[])? {
        Ok(f) => f,
        Err(_) => {
            return Err(zip::result::ZipError::UnsupportedArchive(
                "archive entry requires a password",
            ));
        },
    };
    let mut out = Vec::new();
    f.read_to_end(&mut out).map_err(zip::result::ZipError::Io)?;
    Ok(out)
}

// ---------------------------------------------------------------------------
// Extraction rules.
// ---------------------------------------------------------------------------
/// One extraction rule: a glob over archive entry names, marked include or
/// exclude.
#[derive(Debug, Clone)]
pub struct Pattern {
    pub glob: GlobPattern,
    pub exclude: bool,
}

impl Pattern {
    /// The glob text this rule was compiled from.
    pub open spec fn source(&self) -> Seq<char> {
        pattern_source(self.glob)
    }

    pub open spec fn matches_spec(&self, path: Seq<char>) -> bool {
        glob_match(self.source(), path)
    }

    /// Compiles `text` into a rule; a leading `!` marks it excluding.
    /// `None` exactly when the glob (after any `!`) does not compile.
    pub fn new(text: &str) -> (r: Option<Pattern>)
        ensures
            ({
                let excl = text@.len() > 0 && text@[0] == '!';
                let body = if excl {
                    text@.drop_first()
                } else {
                    text@
                };
                &&& (r is Some <==> glob_compiles(body))
                &&& (r matches Some(p) ==> p.exclude == excl && p.source() == body)
            }),
    {
        let len = text.unicode_len();
        let exclude = len > 0 && text.get_char(0) == '!';
        let body = if exclude {
            text.substring_char(1, len)
        } else {
            text
        };
        proof {
            if exclude {
                assert(text@.subrange(1, len as int) =~= text@.drop_first());
            }
        }
        match compile_glob(body) {
            Ok(glob) => Some(Pattern { glob, exclude }),
            Err(_) => None,
        }
    }

    /// Whether this rule's glob matches the path.
    pub fn test(&self, path: &str) -> (r: bool)
        ensures
            r == self.matches_spec(path@),
    {
        glob_matches(&self.glob, path)
    }
}

/// A candidate path is accepted iff it matches every include pattern
/// (vacuously, with no includes) and matches no exclude pattern.
pub open spec fn matches_all_spec(path: Seq<char>, patterns: Seq<Pattern>) -> bool {
    &&& forall|i: int|
        0 <= i < patterns.len() && !(#[trigger] patterns[i]).exclude ==> glob_match(
            patterns[i].source(),
            path,
        )
    &&& forall|i: int|
        0 <= i < patterns.len() && (#[trigger] patterns[i]).exclude ==> !glob_match(
            patterns[i].source(),
            path,
        )
}

pub fn matches_all(path: &str, patterns: &Vec<Pattern>) -> (r: bool)
    ensures
        r == matches_all_spec(path@, patterns@),
{
    let n = patterns.len();
    let mut i: usize = 0;
    while i < n
        invariant
            i <= n,
            n == patterns@.len(),
            forall|j: int|
                0 <= j < i && !(#[trigger] patterns@[j]).exclude ==> glob_match(
                    patterns@[j].source(),
                    path@,
                ),
            forall|j: int|
                0 <= j < i && (#[trigger] patterns@[j]).exclude ==> !glob_match(
                    patterns@[j].source(),
                    path@,
                ),
        decreases n - i,
    {
        let hit = patterns[i].test(path);
        if patterns[i].exclude {
            if hit {
                return false;
            }
        } else {
            if !hit {
                return false;
            }
        }
        i += 1;
    }
    true
}

// ---------------------------------------------------------------------------
// The transform itself.
// ---------------------------------------------------------------------------
/// The first archive entry that is a regular file and passes the rules.
pub open spec fn select_entry(entries: Seq<ZipEntry>, patterns: Seq<Pattern>) -> Option<ZipEntry>
    decreases entries.len(),
{
    if entries.len() == 0 {
        None
    } else if entries[0].is_file && matches_all_spec(entries[0].name, patterns) {
        Some(entries[0])
    } else {
        select_entry(entries.drop_first(), patterns)
    }
}

proof fn lemma_select_at(entries: Seq<ZipEntry>, patterns: Seq<Pattern>, i: int)
    requires
        0 <= i < entries.len(),
        entries[i].is_file && matches_all_spec(entries[i].name, patterns),
        forall|j: int|
            0 <= j < i ==> !((#[trigger] entries[j]).is_file && matches_all_spec(
                entries[j].name,
                patterns,
            )),
    ensures
        select_entry(entries, patterns) == Some(entries[i]),
    decreases entries.len(),
{
    if i > 0 {
        assert(entries.drop_first()[i - 1] == entries[i]);
        assert forall|j: int| 0 <= j < i - 1 implies !((#[trigger] entries.drop_first()[j]).is_file
            && matches_all_spec(entries.drop_first()[j].name, patterns)) by {
            assert(entries.drop_first()[j] == entries[j + 1]);
        }
        lemma_select_at(entries.drop_first(), patterns, i - 1);
    }
}

proof fn lemma_select_none(entries: Seq<ZipEntry>, patterns: Seq<Pattern>)
    requires
        forall|j: int|
            0 <= j < entries.len() ==> !((#[trigger] entries[j]).is_file && matches_all_spec(
                entries[j].name,
                patterns,
            )),
    ensures
        select_entry(entries, patterns) is None,
    decreases entries.len(),
{
    if entries.len() > 0 {
        assert forall|j: int|
            0 <= j < entries.drop_first().len() implies !((#[trigger] entries.drop_first()[j]).is_file
            && matches_all_spec(entries.drop_first()[j].name, patterns)) by {
            assert(entries.drop_first()[j] == entries[j + 1]);
        }
        lemma_select_none(entries.drop_first(), patterns);
    }
}

/// The post-fetch step applied to raw fetched bytes before caching:
/// identity, or extraction of one file out of an archive.
#[derive(Debug, Clone)]
pub enum Transform {
    Direct,
    Unzip { unzip: Vec<Pattern> },
}

impl Transform {
    /// `Direct` passes the file through unchanged. `Unzip` reads the bytes
    /// as an archive and returns the first regular file accepted by the
    /// rules, under its stored name; `Ok(None)` when no entry is accepted
    /// (the pipeline treats that as "artifact unavailable"); `Extraction`
    /// only when the bytes cannot be read as an archive — on readable
    /// archive bytes, success is owed.
    pub fn apply(&self, file: File) -> (r: Result<Option<File>, Error>)
        ensures
            match self {
                Transform::Direct => r == Ok::<Option<File>, Error>(Some(file)),
                Transform::Unzip { unzip } => match r {
                    Ok(out) => {
                        &&& zip_parse(file.bytes@) is Some
                        &&& match out {
                            Some(f) => {
                                &&& select_entry(zip_parse(file.bytes@).unwrap(), unzip@) is Some
                                &&& f.name@ == select_entry(
                                    zip_parse(file.bytes@).unwrap(),
                                    unzip@,
                                ).unwrap().name
                                &&& f.bytes@ == select_entry(
                                    zip_parse(file.bytes@).unwrap(),
                                    unzip@,
                                ).unwrap().data
                            },
                            None => select_entry(zip_parse(file.bytes@).unwrap(), unzip@) is None,
                        }
                    },
                    Err(e) => e is Extraction && (zip_parse(file.bytes@) is None || !zip_sound(
                        file.bytes@,
                    )),
                },
            },
    {
        match self {
            Transform::Direct => Ok(Some(file)),
            Transform::Unzip { unzip } => apply_unzip(file, unzip),
        }
    }
}

/// Scans the archive's entries in directory order for the first regular
/// file accepted by the rules and extracts its bytes. It fails only when
/// the bytes are no archive or an entry cannot be read back: on readable
/// archive bytes, success is owed.
fn apply_unzip(file: File, patterns: &Vec<Pattern>) -> (r: Result<Option<File>, Error>)
    ensures
        match r {
            Ok(out) => {
                &&& zip_parse(file.bytes@) is Some
                &&& match out {
                    Some(f) => {
                        &&& select_entry(zip_parse(file.bytes@).unwrap(), patterns@) is Some
                        &&& f.name@ == select_entry(
                            zip_parse(file.bytes@).unwrap(),
                            patterns@,
                        ).unwrap().name
                        &&& f.bytes@ == select_entry(
                            zip_parse(file.bytes@).unwrap(),
                            patterns@,
                        ).unwrap().data
                    },
                    None => select_entry(zip_parse(file.bytes@).unwrap(), patterns@) is None,
                }
            },
            Err(e) => e is Extraction && (zip_parse(file.bytes@) is None || !zip_sound(
                file.bytes@,
            )),
        },
{
    let mut z = match zip_open(file.bytes) {
        Ok(z) => z,
        Err(_) => {
            return Err(Error::Extraction);
        },
    };
    let ghost entries = zip_entries(z);
    let n = zip_len(&z);
    let mut i: usize = 0;
    while i < n
        invariant
            i <= n,
            n == entries.len(),
            zip_entries(z) == entries,
            zip_parse(file.bytes@) == Some(entries),
            zip_readable(z) == zip_sound(file.bytes@),
            forall|j: int|
                0 <= j < i ==> !((#[trigger] entries[j]).is_file && matches_all_spec(
                    entries[j].name,
                    patterns@,
                )),
        decreases n - i,
    {
        let meta = match zip_entry_meta(&mut z, i) {
            Ok(m) => m,
            Err(_) => {
                return Err(Error::Extraction);
            },
        };
        let (name, is_file) = meta;
        if is_file && matches_all(name.as_str(), patterns) {
            let data = match zip_entry_data(&mut z, i) {
                Ok(d) => d,
                Err(_) => {
                    return Err(Error::Extraction);
                },
            };
            proof {
                lemma_select_at(entries, patterns@, i as int);
            }
            return Ok(Some(File { name, bytes: data }));
        }
        i += 1;
    }
    proof {
        lemma_select_none(entries, patterns@);
    }
    Ok(None)
}

} // verus!
