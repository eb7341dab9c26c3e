use crate::text::dec_hex;
use crate::text::decode_hex;
use crate::text::enc_hex;
use crate::text::encode_hex;
use crate::text::lemma_dec_hex_bound;
use crate::text::lemma_pow16_vals;
use crate::text::lemma_hex_round_trip;
use crate::text::lemma_pow16_sixteen;
use crate::text::pow16;
use crate::text::push_char;
use crate::token::Token;
use crate::token::TokenView;
use vstd::arithmetic::div_mod::lemma_small_mod;
use vstd::prelude::*;
use vstd::string::StringExecFns;

verus! {

/// One persisted record: the logical key, the identity token of the blob
/// currently materialized for it, and the output file name it should carry.
pub struct IndexEntry {
    pub key: String,
    pub token: Token,
    pub file_name: String,
}

/// Spec-level shape of an [`IndexEntry`].
pub struct EntryView {
    pub key: Seq<char>,
    pub token: TokenView,
    pub file_name: Seq<char>,
}

impl View for IndexEntry {
    type V = EntryView;

    open spec fn view(&self) -> EntryView {
        EntryView { key: self.key@, token: self.token@, file_name: self.file_name@ }
    }
}

impl IndexEntry {
    /// An explicit deep copy whose view is known to match.
    pub fn dup(&self) -> (r: IndexEntry)
        ensures
            r@ == self@,
    {
        IndexEntry {
            key: self.key.clone(),
            token: self.token.dup(),
            file_name: self.file_name.clone(),
        }
    }
}

/// The persisted index of one cache root: an ordered list of entries.
pub struct Index {
    pub entries: Vec<IndexEntry>,
}

pub open spec fn views_of(s: Seq<IndexEntry>) -> Seq<EntryView> {
    s.map_values(|e: IndexEntry| e@)
}

// ---------------------------------------------------------------------------
// The index file format. Every number is fixed-width big-endian hexadecimal;
// a string is its character count over 16 digits followed by the characters;
// a token is a tag character followed by its payload; the file is the entry
// count followed by the entries, each `key token file_name`.
// ---------------------------------------------------------------------------
pub open spec fn enc_str(s: Seq<char>) -> Seq<char> {
    enc_hex(s.len(), 16) + s
}

pub open spec fn enc_bytes(b: Seq<u8>) -> Seq<char>
    decreases b.len(),
{
    if b.len() == 0 {
        Seq::empty()
    } else {
        enc_hex(b[0] as nat, 2) + enc_bytes(b.drop_first())
    }
}

pub open spec fn enc_token(t: TokenView) -> Seq<char> {
    match t {
        TokenView::Etag(s) => seq!['e'] + enc_str(s),
        TokenView::ArtifactId(n) => seq!['a'] + enc_hex(n as nat, 16),
        TokenView::Sha1(d) => seq!['s'] + enc_bytes(d),
        TokenView::Sha512(s) => seq!['h'] + enc_str(s),
        TokenView::Unknown => seq!['u'],
    }
}

pub open spec fn enc_entry(e: EntryView) -> Seq<char> {
    enc_str(e.key) + enc_token(e.token) + enc_str(e.file_name)
}

pub open spec fn enc_entries(es: Seq<EntryView>) -> Seq<char>
    decreases es.len(),
{
    if es.len() == 0 {
        Seq::empty()
    } else {
        enc_entry(es[0]) + enc_entries(es.drop_first())
    }
}

pub open spec fn enc_index(es: Seq<EntryView>) -> Seq<char> {
    enc_hex(es.len(), 16) + enc_entries(es)
}

// ---------------------------------------------------------------------------
// Decoding, each step returning the parsed value and the remaining input.
// ---------------------------------------------------------------------------
pub open spec fn dec_str(s: Seq<char>) -> Option<(Seq<char>, Seq<char>)> {
    match dec_hex(s, 16, 0) {
        Some((n, rest)) => if n <= rest.len() {
            Some((rest.take(n as int), rest.skip(n as int)))
        } else {
            None
        },
        None => None,
    }
}

pub open spec fn dec_bytes(s: Seq<char>, count: nat) -> Option<(Seq<u8>, Seq<char>)>
    decreases count,
{
    if count == 0 {
        Some((Seq::empty(), s))
    } else {
        match dec_hex(s, 2, 0) {
            Some((v, rest)) => match dec_bytes(rest, (count - 1) as nat) {
                Some((b, rest2)) => Some((seq![v as u8] + b, rest2)),
                None => None,
            },
            None => None,
        }
    }
}

pub open spec fn dec_token(s: Seq<char>) -> Option<(TokenView, Seq<char>)> {
    if s.len() == 0 {
        None
    } else if s[0] == 'e' {
        match dec_str(s.drop_first()) {
            Some((v, r)) => Some((TokenView::Etag(v), r)),
            None => None,
        }
    } else if s[0] == 'a' {
        match dec_hex(s.drop_first(), 16, 0) {
            Some((n, r)) => if n <= usize::MAX {
                Some((TokenView::ArtifactId(n as usize), r))
            } else {
                None
            },
            None => None,
        }
    } else if s[0] == 's' {
        match dec_bytes(s.drop_first(), 20) {
            Some((b, r)) => Some((TokenView::Sha1(b), r)),
            None => None,
        }
    } else if s[0] == 'h' {
        match dec_str(s.drop_first()) {
            Some((v, r)) => Some((TokenView::Sha512(v), r)),
            None => None,
        }
    } else if s[0] == 'u' {
        Some((TokenView::Unknown, s.drop_first()))
    } else {
        None
    }
}

pub open spec fn dec_entry(s: Seq<char>) -> Option<(EntryView, Seq<char>)> {
    match dec_str(s) {
        Some((key, r1)) => match dec_token(r1) {
            Some((token, r2)) => match dec_str(r2) {
                Some((file_name, r3)) => Some((EntryView { key, token, file_name }, r3)),
                None => None,
            },
            None => None,
        },
        None => None,
    }
}

pub open spec fn dec_entries(s: Seq<char>, count: nat) -> Option<(Seq<EntryView>, Seq<char>)>
    decreases count,
{
    if count == 0 {
        Some((Seq::empty(), s))
    } else {
        match dec_entry(s) {
            Some((e, rest)) => match dec_entries(rest, (count - 1) as nat) {
                Some((es, rest2)) => Some((seq![e] + es, rest2)),
                None => None,
            },
            None => None,
        }
    }
}

pub open spec fn dec_index(s: Seq<char>) -> Option<Seq<EntryView>> {
    match dec_hex(s, 16, 0) {
        Some((n, rest)) => match dec_entries(rest, n) {
            Some((es, rest2)) => if rest2.len() == 0 {
                Some(es)
            } else {
                None
            },
            None => None,
        },
        None => None,
    }
}

// ---------------------------------------------------------------------------
// What can be encoded at all: lengths must fit the fixed 16-digit fields,
// and a Sha1 digest is exactly 20 bytes. Every value built from the
// executable types satisfies this by construction.
// ---------------------------------------------------------------------------
pub open spec fn token_wf(t: TokenView) -> bool {
    match t {
        TokenView::Etag(s) => s.len() < pow16(16),
        TokenView::ArtifactId(n) => true,
        TokenView::Sha1(d) => d.len() == 20,
        TokenView::Sha512(s) => s.len() < pow16(16),
        TokenView::Unknown => true,
    }
}

pub open spec fn entry_wf(e: EntryView) -> bool {
    &&& e.key.len() < pow16(16)
    &&& e.file_name.len() < pow16(16)
    &&& token_wf(e.token)
}

pub open spec fn index_wf(es: Seq<EntryView>) -> bool {
    &&& es.len() < pow16(16)
    &&& forall|i: int| 0 <= i < es.len() ==> entry_wf(#[trigger] es[i])
}

// ---------------------------------------------------------------------------
// Round trip: decoding an encoding gives back exactly what was encoded.
// ---------------------------------------------------------------------------
pub proof fn lemma_str_round_trip(s: Seq<char>, tail: Seq<char>)
    requires
        s.len() < pow16(16),
    ensures
        dec_str(enc_str(s) + tail) == Some((s, tail)),
{
    lemma_hex_round_trip(s.len(), 16, s + tail, 0);
    lemma_small_mod(s.len(), pow16(16));
    assert(enc_str(s) + tail =~= enc_hex(s.len(), 16) + (s + tail));
    assert((s + tail).take(s.len() as int) =~= s);
    assert((s + tail).skip(s.len() as int) =~= tail);
}

pub proof fn lemma_bytes_round_trip(b: Seq<u8>, tail: Seq<char>)
    ensures
        dec_bytes(enc_bytes(b) + tail, b.len()) == Some((b, tail)),
    decreases b.len(),
{
    lemma_pow16_vals();
    if b.len() == 0 {
        assert(enc_bytes(b) + tail =~= tail);
    } else {
        let b0 = b[0];
        let rest = b.drop_first();
        lemma_hex_round_trip(b0 as nat, 2, enc_bytes(rest) + tail, 0);
        lemma_small_mod(b0 as nat, pow16(2));
        assert(enc_bytes(b) + tail =~= enc_hex(b0 as nat, 2) + (enc_bytes(rest) + tail));
        lemma_bytes_round_trip(rest, tail);
        assert(seq![b0] + rest =~= b);
    }
}

pub proof fn lemma_token_round_trip(t: TokenView, tail: Seq<char>)
    requires
        token_wf(t),
    ensures
        dec_token(enc_token(t) + tail) == Some((t, tail)),
{
    match t {
        TokenView::Etag(s) => {
            assert((enc_token(t) + tail)[0] == 'e');
            assert((enc_token(t) + tail).drop_first() =~= enc_str(s) + tail);
            lemma_str_round_trip(s, tail);
        },
        TokenView::ArtifactId(n) => {
            assert((enc_token(t) + tail)[0] == 'a');
            assert((enc_token(t) + tail).drop_first() =~= enc_hex(n as nat, 16) + tail);
            lemma_hex_round_trip(n as nat, 16, tail, 0);
            lemma_pow16_sixteen();
            lemma_small_mod(n as nat, pow16(16));
        },
        TokenView::Sha1(d) => {
            assert((enc_token(t) + tail)[0] == 's');
            assert((enc_token(t) + tail).drop_first() =~= enc_bytes(d) + tail);
            lemma_bytes_round_trip(d, tail);
        },
        TokenView::Sha512(s) => {
            assert((enc_token(t) + tail)[0] == 'h');
            assert((enc_token(t) + tail).drop_first() =~= enc_str(s) + tail);
            lemma_str_round_trip(s, tail);
        },
        TokenView::Unknown => {
            assert((enc_token(t) + tail)[0] == 'u');
            assert((enc_token(t) + tail).drop_first() =~= tail);
        },
    }
}

pub proof fn lemma_entry_round_trip(e: EntryView, tail: Seq<char>)
    requires
        entry_wf(e),
    ensures
        dec_entry(enc_entry(e) + tail) == Some((e, tail)),
{
    let after_key = enc_token(e.token) + (enc_str(e.file_name) + tail);
    assert(enc_entry(e) + tail =~= enc_str(e.key) + after_key);
    lemma_str_round_trip(e.key, after_key);
    lemma_token_round_trip(e.token, enc_str(e.file_name) + tail);
    lemma_str_round_trip(e.file_name, tail);
}

pub proof fn lemma_entries_round_trip(es: Seq<EntryView>, tail: Seq<char>)
    requires
        forall|i: int| 0 <= i < es.len() ==> entry_wf(#[trigger] es[i]),
    ensures
        dec_entries(enc_entries(es) + tail, es.len()) == Some((es, tail)),
    decreases es.len(),
{
    if es.len() == 0 {
        assert(enc_entries(es) + tail =~= tail);
    } else {
        let e = es[0];
        let rest = es.drop_first();
        assert(enc_entries(es) + tail =~= enc_entry(e) + (enc_entries(rest) + tail));
        lemma_entry_round_trip(e, enc_entries(rest) + tail);
        lemma_entries_round_trip(rest, tail);
        assert(seq![e] + rest =~= es);
    }
}

/// Round-trip law: decoding an encoded index reproduces exactly the entries
/// that were persisted, every token variant (`Unknown` included) intact.
pub proof fn lemma_index_round_trip(es: Seq<EntryView>)
    requires
        index_wf(es),
    ensures
        dec_index(enc_index(es)) == Some(es),
{
    lemma_hex_round_trip(es.len(), 16, enc_entries(es), 0);
    lemma_pow16_sixteen();
    lemma_small_mod(es.len(), pow16(16));
    assert(enc_index(es) =~= enc_hex(es.len(), 16) + enc_entries(es));
    lemma_entries_round_trip(es, Seq::empty());
    assert(enc_entries(es) + Seq::<char>::empty() =~= enc_entries(es));
}

// ---------------------------------------------------------------------------
// Executable encoder.
// ---------------------------------------------------------------------------
proof fn lemma_enc_bytes_snoc(b: Seq<u8>, x: u8)
    ensures
        enc_bytes(b.push(x)) == enc_bytes(b) + enc_hex(x as nat, 2),
    decreases b.len(),
{
    if b.len() == 0 {
        assert(b.push(x).drop_first() =~= Seq::<u8>::empty());
        assert(enc_bytes(b.push(x)) == enc_hex(x as nat, 2) + enc_bytes(Seq::<u8>::empty()));
        assert(enc_hex(x as nat, 2) + Seq::<char>::empty() =~= enc_hex(x as nat, 2));
        assert(Seq::<char>::empty() + enc_hex(x as nat, 2) =~= enc_hex(x as nat, 2));
    } else {
        assert(b.push(x)[0] == b[0]);
        assert(b.push(x).drop_first() =~= b.drop_first().push(x));
        lemma_enc_bytes_snoc(b.drop_first(), x);
        assert(enc_hex(b[0] as nat, 2) + (enc_bytes(b.drop_first()) + enc_hex(x as nat, 2)) =~= (
        enc_hex(b[0] as nat, 2) + enc_bytes(b.drop_first())) + enc_hex(x as nat, 2));
    }
}

proof fn lemma_enc_entries_snoc(es: Seq<EntryView>, e: EntryView)
    ensures
        enc_entries(es.push(e)) == enc_entries(es) + enc_entry(e),
    decreases es.len(),
{
    if es.len() == 0 {
        assert(es.push(e).drop_first() =~= Seq::<EntryView>::empty());
        assert(enc_entries(es.push(e)) == enc_entry(e) + enc_entries(Seq::<EntryView>::empty()));
        assert(enc_entry(e) + Seq::<char>::empty() =~= enc_entry(e));
        assert(Seq::<char>::empty() + enc_entry(e) =~= enc_entry(e));
    } else {
        assert(es.push(e)[0] == es[0]);
        assert(es.push(e).drop_first() =~= es.drop_first().push(e));
        lemma_enc_entries_snoc(es.drop_first(), e);
        assert(enc_entry(es[0]) + (enc_entries(es.drop_first()) + enc_entry(e)) =~= (enc_entry(
            es[0],
        ) + enc_entries(es.drop_first())) + enc_entry(e));
    }
}

fn encode_str(s: &String, out: &mut String)
    ensures
        final(out)@ == old(out)@ + enc_str(s@),
        s@.len() < pow16(16),
{
    let n = s.as_str().unicode_len();
    proof {
        lemma_pow16_sixteen();
    }
    encode_hex(n as u64, 16, out);
    out.append(s.as_str());
    proof {
        assert(out@ =~= old(out)@ + enc_str(s@));
    }
}

fn encode_token(t: &Token, out: &mut String)
    ensures
        final(out)@ == old(out)@ + enc_token(t@),
        token_wf(t@),
{
    match t {
        Token::Etag(s) => {
            push_char(out, 'e');
            encode_str(s, out);
            proof {
                assert(out@ =~= old(out)@ + enc_token(t@));
            }
        },
        Token::ArtifactId(n) => {
            push_char(out, 'a');
            encode_hex(*n as u64, 16, out);
            proof {
                assert(out@ =~= old(out)@ + enc_token(t@));
            }
        },
        Token::Sha1(d) => {
            push_char(out, 's');
            let ghost mid = out@;
            let mut i: usize = 0;
            while i < 20
                invariant
                    i <= 20,
                    d@.len() == 20,
                    out@ == mid + enc_bytes(d@.take(i as int)),
                decreases 20 - i,
            {
                proof {
                    assert(enc_bytes(Seq::<u8>::empty()) =~= Seq::<char>::empty());
                }
                encode_hex(d[i] as u64, 2, out);
                proof {
                    lemma_enc_bytes_snoc(d@.take(i as int), d@[i as int]);
                    assert(d@.take(i as int).push(d@[i as int]) =~= d@.take(i + 1));
                    assert(out@ =~= mid + enc_bytes(d@.take(i + 1)));
                }
                i += 1;
            }
            proof {
                assert(d@.take(20) =~= d@);
                assert(out@ =~= old(out)@ + enc_token(t@));
            }
        },
        Token::Sha512(s) => {
            push_char(out, 'h');
            encode_str(s, out);
            proof {
                assert(out@ =~= old(out)@ + enc_token(t@));
            }
        },
        Token::Unknown => {
            push_char(out, 'u');
            proof {
                assert(out@ =~= old(out)@ + enc_token(t@));
            }
        },
    }
}

fn encode_entry(e: &IndexEntry, out: &mut String)
    ensures
        final(out)@ == old(out)@ + enc_entry(e@),
        entry_wf(e@),
{
    encode_str(&e.key, out);
    encode_token(&e.token, out);
    encode_str(&e.file_name, out);
    proof {
        assert(out@ =~= old(out)@ + enc_entry(e@));
    }
}

/// Serializes the entries in order, exactly as `enc_index` describes; in
/// passing it establishes that the entries fit the format's fixed-width
/// fields, which every value of the executable types does.
pub fn encode_index(entries: &Vec<IndexEntry>) -> (r: String)
    ensures
        r@ == enc_index(views_of(entries@)),
        index_wf(views_of(entries@)),
{
    let mut out = String::new();
    let n = entries.len();
    encode_hex(n as u64, 16, &mut out);
    proof {
        lemma_pow16_sixteen();
        assert(views_of(entries@).len() == entries@.len());
    }
    let mut i: usize = 0;
    while i < n
        invariant
            i <= n,
            n == entries@.len(),
            out@ == enc_hex(n as nat, 16) + enc_entries(views_of(entries@).take(i as int)),
            forall|j: int| 0 <= j < i ==> entry_wf(#[trigger] views_of(entries@)[j]),
        decreases n - i,
    {
        encode_entry(&entries[i], &mut out);
        proof {
            assert(views_of(entries@)[i as int] == entries@[i as int]@);
            lemma_enc_entries_snoc(views_of(entries@).take(i as int), entries@[i as int]@);
            assert(views_of(entries@).take(i as int).push(entries@[i as int]@) =~= views_of(
                entries@,
            ).take(i + 1));
            assert(out@ =~= enc_hex(n as nat, 16) + enc_entries(views_of(entries@).take(i + 1)));
        }
        i += 1;
    }
    proof {
        lemma_pow16_sixteen();
        assert(views_of(entries@).take(n as int) =~= views_of(entries@));
        assert(enc_entries(Seq::<EntryView>::empty()) =~= Seq::<char>::empty());
        assert(out@ =~= enc_index(views_of(entries@)));
    }
    out
}

// ---------------------------------------------------------------------------
// Executable parser, a cursor over the characters of the input.
// ---------------------------------------------------------------------------
fn parse_str(s: &str, pos: usize) -> (r: Option<(String, usize)>)
    requires
        pos <= s@.len(),
    ensures
        match r {
            Some((v, p)) => {
                &&& pos <= p <= s@.len()
                &&& dec_str(s@.skip(pos as int)) == Some((v@, s@.skip(p as int)))
            },
            None => dec_str(s@.skip(pos as int)) is None,
        },
{
    let len = s.unicode_len();
    match decode_hex(s, pos, 16) {
        None => None,
        Some((n, p)) => {
            if n <= (len - p) as u64 {
                let n = n as usize;
                let sub = s.substring_char(p, p + n);
                proof {
                    assert(s@.skip(p as int).take(n as int) =~= s@.subrange(
                        p as int,
                        (p + n) as int,
                    ));
                    assert(s@.skip(p as int).skip(n as int) =~= s@.skip((p + n) as int));
                }
                Some((sub.to_owned(), p + n))
            } else {
                None
            }
        },
    }
}

fn parse_sha(s: &str, pos: usize) -> (r: Option<([u8; 20], usize)>)
    requires
        pos <= s@.len(),
    ensures
        match r {
            Some((d, p)) => {
                &&& pos <= p <= s@.len()
                &&& dec_bytes(s@.skip(pos as int), 20) == Some((d@, s@.skip(p as int)))
            },
            None => dec_bytes(s@.skip(pos as int), 20) is None,
        },
{
    let mut d = [0u8; 20];
    let mut i: usize = 0;
    let mut cur = pos;
    proof {
        match dec_bytes(s@.skip(pos as int), 20) {
            Some((b, r)) => {
                assert(d@.take(0) + b =~= b);
            },
            None => {},
        }
    }
    while i < 20
        invariant
            i <= 20,
            pos <= cur <= s@.len(),
            d@.len() == 20,
            match dec_bytes(s@.skip(cur as int), (20 - i) as nat) {
                Some(br) => dec_bytes(s@.skip(pos as int), 20) == Some(
                    (d@.take(i as int) + br.0, br.1),
                ),
                None => dec_bytes(s@.skip(pos as int), 20) is None,
            },
        decreases 20 - i,
    {
        match decode_hex(s, cur, 2) {
            None => {
                return None;
            },
            Some((v, p)) => {
                proof {
                    lemma_dec_hex_bound(s@.skip(cur as int), 2, 0);
                    lemma_pow16_vals();
                }
                let vb = v as u8;
                let ghost dpre = d@;
                d[i] = vb;
                proof {
                    assert(d@.take(i as int) =~= dpre.take(i as int));
                    assert(d@.take(i + 1) =~= dpre.take(i as int).push(vb));
                    match dec_bytes(s@.skip(p as int), (20 - i - 1) as nat) {
                        Some(br2) => {
                            assert(d@.take(i + 1) + br2.0 =~= dpre.take(i as int) + (seq![vb]
                                + br2.0));
                        },
                        None => {},
                    }
                }
                cur = p;
                i += 1;
            },
        }
    }
    proof {
        assert(d@.take(20) + Seq::<u8>::empty() =~= d@);
    }
    Some((d, cur))
}

fn parse_token(s: &str, pos: usize) -> (r: Option<(Token, usize)>)
    requires
        pos <= s@.len(),
    ensures
        match r {
            Some((t, p)) => {
                &&& pos <= p <= s@.len()
                &&& dec_token(s@.skip(pos as int)) == Some((t@, s@.skip(p as int)))
            },
            None => dec_token(s@.skip(pos as int)) is None,
        },
{
    let len = s.unicode_len();
    if pos >= len {
        return None;
    }
    let c = s.get_char(pos);
    proof {
        assert(s@.skip(pos as int)[0] == s@[pos as int]);
        assert(s@.skip(pos as int).drop_first() =~= s@.skip((pos + 1) as int));
    }
    if c == 'e' {
        match parse_str(s, pos + 1) {
            Some((v, p)) => Some((Token::Etag(v), p)),
            None => None,
        }
    } else if c == 'a' {
        match decode_hex(s, pos + 1, 16) {
            Some((n, p)) => {
                if n <= usize::MAX as u64 {
                    Some((Token::ArtifactId(n as usize), p))
                } else {
                    None
                }
            },
            None => None,
        }
    } else if c == 's' {
        match parse_sha(s, pos + 1) {
            Some((d, p)) => Some((Token::Sha1(d), p)),
            None => None,
        }
    } else if c == 'h' {
        match parse_str(s, pos + 1) {
            Some((v, p)) => Some((Token::Sha512(v), p)),
            None => None,
        }
    } else if c == 'u' {
        Some((Token::Unknown, pos + 1))
    } else {
        None
    }
}

fn parse_entry(s: &str, pos: usize) -> (r: Option<(IndexEntry, usize)>)
    requires
        pos <= s@.len(),
    ensures
        match r {
            Some((e, p)) => {
                &&& pos <= p <= s@.len()
                &&& dec_entry(s@.skip(pos as int)) == Some((e@, s@.skip(p as int)))
            },
            None => dec_entry(s@.skip(pos as int)) is None,
        },
{
    match parse_str(s, pos) {
        None => None,
        Some((key, p1)) => match parse_token(s, p1) {
            None => None,
            Some((token, p2)) => match parse_str(s, p2) {
                None => None,
                Some((file_name, p3)) => Some((IndexEntry { key, token, file_name }, p3)),
            },
        },
    }
}

/// Parses a serialized index back into its entries; `None` on any
/// malformed input, exactly as `dec_index` describes.
pub fn parse_index(s: &str) -> (r: Option<Vec<IndexEntry>>)
    ensures
        match r {
            Some(v) => dec_index(s@) == Some(views_of(v@)),
            None => dec_index(s@) is None,
        },
{
    let len = s.unicode_len();
    proof {
        assert(s@.skip(0) =~= s@);
    }
    match decode_hex(s, 0, 16) {
        None => None,
        Some((n, p0)) => {
            let mut out: Vec<IndexEntry> = Vec::new();
            let mut cur = p0;
            let mut i: u64 = 0;
            proof {
                match dec_entries(s@.skip(p0 as int), n as nat) {
                    Some((es, r)) => {
                        assert(views_of(out@) + es =~= es);
                    },
                    None => {},
                }
            }
            while i < n
                invariant
                    i <= n,
                    p0 <= cur <= s@.len(),
                    len == s@.len(),
                    dec_hex(s@, 16, 0) == Some((n as nat, s@.skip(p0 as int))),
                    match dec_entries(s@.skip(cur as int), (n - i) as nat) {
                        Some(esr) => dec_entries(s@.skip(p0 as int), n as nat) == Some(
                            (views_of(out@) + esr.0, esr.1),
                        ),
                        None => dec_entries(s@.skip(p0 as int), n as nat) is None,
                    },
                decreases n - i,
            {
                match parse_entry(s, cur) {
                    None => {
                        proof {
                            assert(dec_entries(s@.skip(cur as int), (n - i) as nat) is None);
                            assert(dec_entries(s@.skip(p0 as int), n as nat) is None);
                            assert(dec_index(s@) is None);
                        }
                        return None;
                    },
                    Some((e, p)) => {
                        proof {
                            let ghost pre = out@;
                            match dec_entries(s@.skip(p as int), (n - i - 1) as nat) {
                                Some(esr2) => {
                                    assert(views_of(pre.push(e)) =~= views_of(pre).push(e@));
                                    assert(views_of(pre).push(e@) + esr2.0 =~= views_of(pre) + (
                                    seq![e@] + esr2.0));
                                },
                                None => {},
                            }
                        }
                        out.push(e);
                        cur = p;
                        i += 1;
                    },
                }
            }
            if cur == len {
                proof {
                    assert(s@.skip(cur as int) =~= Seq::<char>::empty());
                    assert(views_of(out@) + Seq::<EntryView>::empty() =~= views_of(out@));
                }
                Some(out)
            } else {
                None
            }
        },
    }
}

} // verus!
