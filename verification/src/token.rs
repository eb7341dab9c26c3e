use vstd::prelude::*;

verus! {

/// Spec-level shape of a [`Token`]: payloads as mathematical values.
pub enum TokenView {
    Etag(Seq<char>),
    ArtifactId(usize),
    Sha1(Seq<u8>),
    Sha512(Seq<char>),
    Unknown,
}

impl TokenView {
    /// True for the `Unknown` variant, which carries no identity.
    pub open spec fn is_unknown(self) -> bool {
        self is Unknown
    }
}

/// Content-identity fingerprint for a cached artifact: an HTTP entity tag,
/// a build artifact id, one of two digest forms, or `Unknown` when no
/// identity could be established.
#[derive(Debug, Clone)]
pub enum Token {
    Etag(String),
    ArtifactId(usize),
    Sha1([u8; 20]),
    Sha512(String),
    Unknown,
}

impl View for Token {
    type V = TokenView;

    open spec fn view(&self) -> TokenView {
        match self {
            Token::Etag(s) => TokenView::Etag(s@),
            Token::ArtifactId(id) => TokenView::ArtifactId(*id),
            Token::Sha1(d) => TokenView::Sha1(d@),
            Token::Sha512(s) => TokenView::Sha512(s@),
            Token::Unknown => TokenView::Unknown,
        }
    }
}

/// The comparison protocol deciding "has the artifact changed": two tokens
/// are equal iff they are the same variant with equal payloads; `Unknown`
/// is equal to nothing, not even another `Unknown`, so a missing identity
/// always reads as a mismatch and forces a fetch.
pub open spec fn token_eq(a: TokenView, b: TokenView) -> bool {
    match (a, b) {
        (TokenView::Etag(x), TokenView::Etag(y)) => x == y,
        (TokenView::ArtifactId(x), TokenView::ArtifactId(y)) => x == y,
        (TokenView::Sha1(x), TokenView::Sha1(y)) => x == y,
        (TokenView::Sha512(x), TokenView::Sha512(y)) => x == y,
        _ => false,
    }
}

fn digest_eq(a: &[u8; 20], b: &[u8; 20]) -> (r: bool)
    ensures
        r == (a@ == b@),
{
    let mut i: usize = 0;
    while i < 20
        invariant
            i <= 20,
            a@.len() == 20,
            b@.len() == 20,
            forall|j: int| 0 <= j < i ==> a@[j] == b@[j],
        decreases 20 - i,
    {
        if a[i] != b[i] {
            assert(a@ != b@);
            return false;
        }
        i += 1;
    }
    proof {
        assert(a@ =~= b@);
    }
    true
}

impl Token {
    /// An explicit deep copy whose view is known to match.
    pub fn dup(&self) -> (r: Token)
        ensures
            r@ == self@,
    {
        match self {
            Token::Etag(s) => Token::Etag(s.clone()),
            Token::ArtifactId(id) => Token::ArtifactId(*id),
            Token::Sha1(d) => Token::Sha1(*d),
            Token::Sha512(s) => Token::Sha512(s.clone()),
            Token::Unknown => Token::Unknown,
        }
    }
}

impl PartialEq for Token {
    fn eq(&self, other: &Token) -> (r: bool) {
        match (self, other) {
            (Token::Etag(x), Token::Etag(y)) => *x == *y,
            (Token::ArtifactId(x), Token::ArtifactId(y)) => *x == *y,
            (Token::Sha1(x), Token::Sha1(y)) => digest_eq(x, y),
            (Token::Sha512(x), Token::Sha512(y)) => *x == *y,
            _ => false,
        }
    }
}

impl vstd::std_specs::cmp::PartialEqSpecImpl for Token {
    open spec fn obeys_eq_spec() -> bool {
        true
    }

    open spec fn eq_spec(&self, other: &Token) -> bool {
        token_eq(self@, other@)
    }
}

/// Tokens of different variants never compare equal, and `Unknown` is
/// equal to nothing, not even another `Unknown`.
pub proof fn lemma_token_eq_separates_variants(a: TokenView, b: TokenView)
    ensures
        !(a is Etag && b is Etag) && !(a is ArtifactId && b is ArtifactId)
            && !(a is Sha1 && b is Sha1) && !(a is Sha512 && b is Sha512) ==> !token_eq(a, b),
        a is Unknown ==> !token_eq(a, b),
        b is Unknown ==> !token_eq(a, b),
{
}

/// Within a variant other than `Unknown`, token equality is exactly
/// payload equality, and in particular reflexive.
pub proof fn lemma_token_eq_within_variant(a: TokenView)
    ensures
        !a.is_unknown() ==> token_eq(a, a),
{
}

} // verus!
