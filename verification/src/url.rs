//! The calls into the URL parser (`reqwest::Url`, that is the `url` crate):
//! parsing and serialising URLs is that crate's work, so its results are
//! named, not restated.
use vstd::prelude::*;

verus! {

/// For a URL text that parses: the URL serialised without its query, its
/// query pairs (percent-decoded), and its path.  For one that does not:
/// the parser's error message.
pub uninterp spec fn url_parts(
    text: Seq<char>,
) -> Result<(Seq<char>, Seq<(Seq<char>, Seq<char>)>, Seq<char>), Seq<char>>;

/// For a URL text that parses: the URL serialised after the pairs are
/// appended to its query (form-urlencoded), and its query afterwards.
pub uninterp spec fn url_with_pairs(
    text: Seq<char>,
    pairs: Seq<(Seq<char>, Seq<char>)>,
) -> Option<(Seq<char>, Option<Seq<char>>)>;

/// Parses `text` with `reqwest::Url::parse`; on success reads
/// `query_pairs`, `path`, then `set_query(None)` and serialises it; on
/// failure returns the error's `Display` text.  The contract names the
/// result and claims nothing more.
#[verifier::external_body]
pub(crate) fn split_url(text: &str) -> (r: Result<(String, Vec<(String, String)>, String), String>)
    ensures
        match r {
            Ok((u, q, p)) => url_parts(text@) == Ok::<_, Seq<char>>((u@, q.deep_view(), p@)),
            Err(e) => url_parts(text@) == Err::<(Seq<char>, Seq<(Seq<char>, Seq<char>)>, Seq<char>), _>(e@),
        },
{
    match reqwest::Url::parse(text) {
        Ok(mut u) => {
            let q = u.query_pairs().map(|(k, v)| (k.into_owned(), v.into_owned())).collect();
            let p = u.path().to_string();
            u.set_query(None);
            Ok((u.to_string(), q, p))
        },
        Err(e) => Err(e.to_string()),
    }
}

/// Parses `text` with `reqwest::Url::parse`, appends `pairs` with
/// `query_pairs_mut().extend_pairs`, and returns the serialised URL and its
/// `query()`.  The contract names the result and claims nothing more.
#[verifier::external_body]
pub(crate) fn append_query_pairs(text: &str, pairs: &Vec<(String, String)>) -> (r: Option<
    (String, Option<String>),
>)
    ensures
        match r {
            Some((u, q)) => url_with_pairs(text@, pairs.deep_view()) == Some(
                (
                    u@,
                    match q {
                        Some(q) => Some(q@),
                        None => None::<Seq<char>>,
                    },
                ),
            ),
            None => url_with_pairs(text@, pairs.deep_view()) is None,
        },
{
    let mut u = reqwest::Url::parse(text).ok()?;
    u.query_pairs_mut().extend_pairs(pairs.iter());
    let q = u.query().map(|q| q.to_string());
    Some((u.to_string(), q))
}

} // verus!
