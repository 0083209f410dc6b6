//! The harness URL the shell navigates to, and the session token it carries
//! in its query.

use vstd::prelude::*;
use vstd::string::*;
use crate::text::{pair_texts, str_equals};

verus! {

/// A URL, parsed by the `url` crate.
#[verifier::external_type_specification]
#[verifier::external_body]
pub struct ExUrl(url::Url);

/// Why the `url` crate refused a URL.
#[verifier::external_type_specification]
#[verifier::external_body]
pub struct ExUrlParseError(url::ParseError);

/// What `url::Url::parse` returns for a text.
pub uninterp spec fn url_parse_result(text: Seq<char>) -> Result<url::Url, url::ParseError>;

/// `url::Url::parse`: the result is `url_parse_result` of the text. The URL
/// standard's parsing is not stated here.
#[verifier::external_body]
fn parse_url(text: &str) -> (r: Result<url::Url, url::ParseError>)
    ensures
        r == url_parse_result(text@),
{
    url::Url::parse(text)
}

/// The decoded name and value pairs of a URL's query, in order.
pub uninterp spec fn url_query_pairs(u: url::Url) -> Seq<(Seq<char>, Seq<char>)>;

/// `url::Url::query_pairs`, each decoded pair turned into owned text: the
/// pairs are `url_query_pairs` of the URL. The `application/x-www-form-urlencoded`
/// decoding is not stated here.
#[verifier::external_body]
fn query_pairs(u: &url::Url) -> (pairs: Vec<(String, String)>)
    ensures
        pair_texts(pairs@) == url_query_pairs(*u),
{
    u.query_pairs().map(|(k, v)| (k.into_owned(), v.into_owned())).collect()
}

/// The name of the query pair that carries the session token.
pub const TOKEN_KEY: &'static str = "token";

/// The value of the first pair named `token`, empty when there is none.
pub open spec fn token_spec(pairs: Seq<(Seq<char>, Seq<char>)>) -> Seq<char>
    decreases pairs.len(),
{
    if pairs.len() == 0 {
        Seq::empty()
    } else if pairs[0].0 == TOKEN_KEY@ {
        pairs[0].1
    } else {
        token_spec(pairs.drop_first())
    }
}

/// The session token among the decoded query pairs of the harness URL.
pub fn token_of_pairs(pairs: &Vec<(String, String)>) -> (t: String)
    ensures
        t@ == token_spec(pair_texts(pairs@)),
{
    let ghost ps = pair_texts(pairs@);
    let mut i: usize = 0;
    assert(ps.skip(0) =~= ps);
    while i < pairs.len()
        invariant
            ps == pair_texts(pairs@),
            i <= pairs.len(),
            token_spec(ps.skip(i as int)) == token_spec(ps),
        decreases pairs.len() - i,
    {
        assert(ps.skip(i as int)[0] == ps[i as int]);
        assert(ps.skip(i as int).drop_first() =~= ps.skip(i + 1));
        if str_equals(pairs[i].0.as_str(), TOKEN_KEY) {
            return String::from_str(pairs[i].1.as_str());
        }
        i += 1;
    }
    assert(ps.skip(i as int) =~= Seq::<(Seq<char>, Seq<char>)>::empty());
    String::new()
}

/// The harness URL to navigate to, and the session token of its query.
pub struct HarnessTarget {
    pub url: url::Url,
    pub token: String,
}

/// Parses the harness URL and takes the session token out of its query
/// (empty when it has none).
pub fn harness_target(url_text: &str) -> (r: Result<HarnessTarget, url::ParseError>)
    ensures
        match url_parse_result(url_text@) {
            Ok(u) => r matches Ok(t) && t.url == u && t.token@ == token_spec(url_query_pairs(u)),
            Err(e) => r == Err::<HarnessTarget, url::ParseError>(e),
        },
{
    match parse_url(url_text) {
        Ok(url) => {
            let pairs = query_pairs(&url);
            let token = token_of_pairs(&pairs);
            Ok(HarnessTarget { url, token })
        },
        Err(e) => Err(e),
    }
}


/// The token is the whole value of the first pair named `token`, and empty
/// when no pair has that name.
pub proof fn law_token_is_the_first_token_value(pairs: Seq<(Seq<char>, Seq<char>)>, i: int)
    ensures
        0 <= i < pairs.len() && pairs[i].0 == "token"@ && (forall|j: int|
            0 <= j < i ==> pairs[j].0 != "token"@) ==> token_spec(pairs) == pairs[i].1,
        (forall|j: int| 0 <= j < pairs.len() ==> pairs[j].0 != "token"@) ==> token_spec(pairs)
            == Seq::<char>::empty(),
    decreases pairs.len(),
{
    assert(TOKEN_KEY@ == "token"@);
    if pairs.len() > 0 {
        let rest = pairs.drop_first();
        law_token_is_the_first_token_value(rest, i - 1);
        if 0 <= i < pairs.len() && pairs[i].0 == TOKEN_KEY@ && (forall|j: int|
            0 <= j < i ==> pairs[j].0 != TOKEN_KEY@) {
            if i > 0 {
                assert(pairs[0].0 != TOKEN_KEY@);
                assert(rest[i - 1] == pairs[i]);
                assert forall|j: int| 0 <= j < i - 1 implies rest[j].0 != TOKEN_KEY@ by {
                    assert(rest[j] == pairs[j + 1]);
                }
            }
        }
        if forall|j: int| 0 <= j < pairs.len() ==> pairs[j].0 != TOKEN_KEY@ {
            assert(pairs[0].0 != TOKEN_KEY@);
            assert forall|j: int| 0 <= j < rest.len() implies rest[j].0 != TOKEN_KEY@ by {
                assert(rest[j] == pairs[j + 1]);
            }
        }
    }
}
} // verus!
