use crate::token::Token;
use crate::token::TokenView;
use vstd::prelude::*;

verus! {

/// The output file name a URL implies: what follows its last slash, or
/// the whole URL when it has no slash.
pub fn file_name(url: &str) -> (r: String)
    ensures
        !url@.contains('/') ==> r@ == url@,
        url@.contains('/') ==> exists|i: int|
            {
                &&& 0 <= i < url@.len()
                &&& (#[trigger] url@[i]) == '/'
                &&& (forall|j: int| i < j < url@.len() ==> url@[j] != '/')
                &&& r@ == url@.skip(i + 1)
            },
{
    let n = url.unicode_len();
    let mut i: usize = n;
    while i > 0
        invariant
            i <= n,
            n == url@.len(),
            forall|j: int| i <= j < n ==> url@[j] != '/',
        decreases i,
    {
        i -= 1;
        if url.get_char(i) == '/' {
            let name = url.substring_char(i + 1, n).to_owned();
            proof {
                assert(url@.contains(url@[i as int]));
                assert(url@.subrange(i + 1, n as int) =~= url@.skip(i + 1));
            }
            return name;
        }
    }
    proof {
        assert(!url@.contains('/')) by {
            if url@.contains('/') {
                let w = choose|w: int| 0 <= w < url@.len() && url@[w] == '/';
                assert(url@[w] != '/');
            }
        }
    }
    url.to_owned()
}

/// The identity token an HTTP response implies: the entity tag with its
/// surrounding quote characters stripped (when it is long enough to carry
/// them), or `Unknown` when the response carries no entity tag.
pub fn token_from_etag(etag: Option<String>) -> (r: Token)
    ensures
        match etag {
            Some(e) => if e@.len() >= 2 {
                r@ == TokenView::Etag(e@.subrange(1, e@.len() - 1))
            } else {
                r@ == TokenView::Etag(e@)
            },
            None => r@ == TokenView::Unknown,
        },
{
    match etag {
        Some(e) => {
            let n = e.as_str().unicode_len();
            if n >= 2 {
                Token::Etag(e.as_str().substring_char(1, n - 1).to_owned())
            } else {
                Token::Etag(e)
            }
        },
        None => Token::Unknown,
    }
}

} // verus!
