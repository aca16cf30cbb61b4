//! Checks made on the URL a batch list is submitted to.

use hyper::Uri;
use vstd::prelude::*;

verus! {

/// What hyper's `Uri::from_str` makes of `url`: the scheme of the parsed URI,
/// if it has one, or the text of the `UriError` it fails with.
pub uninterp spec fn parsed_scheme(url: Seq<char>) -> Result<Option<Seq<char>>, Seq<char>>;

/// View of a parse outcome.
pub open spec fn parse_outcome_view(parsed: Result<Option<String>, String>) -> Result<
    Option<Seq<char>>,
    Seq<char>,
> {
    match parsed {
        Ok(Some(scheme)) => Ok(Some(scheme@)),
        Ok(None) => Ok(None),
        Err(e) => Err(e@),
    }
}

/// A URI parsed without a scheme.
pub open spec fn parsed_without_scheme() -> Result<Option<Seq<char>>, Seq<char>> {
    Ok(None)
}

/// A URI parsed with the scheme `scheme`.
pub open spec fn parsed_with_scheme(scheme: Seq<char>) -> Result<Option<Seq<char>>, Seq<char>> {
    Ok(Some(scheme))
}

/// Whether `url` is a plain absolute-form URI: a scheme of `k` characters
/// without `:` or `/`, then `://`, then a nonempty authority ending at `e`
/// without `/`, `?`, `#`, `[` or `]`, then nothing or a part starting with
/// `/`, `?` or `#`.
pub open spec fn plain_absolute_form(url: Seq<char>, k: int, e: int) -> bool {
    &&& 0 < k
    &&& k + 3 < e <= url.len()
    &&& forall|i: int| 0 <= i < k ==> #[trigger] url[i] != ':' && url[i] != '/'
    &&& url[k] == ':' && url[k + 1] == '/' && url[k + 2] == '/'
    &&& forall|i: int|
        k + 3 <= i < e ==> {
            let c = #[trigger] url[i];
            c != '/' && c != '?' && c != '#' && c != '[' && c != ']'
        }
    &&& e == url.len() || url[e] == '/' || url[e] == '?' || url[e] == '#'
}

/// hyper `Uri::from_str` followed by `Uri::scheme`: the scheme of `url` once
/// parsed, or the displayed `UriError`. As hyper's `Uri::new` shows, an empty
/// `url` is an error, one starting with `/` (origin form) has no scheme, and a
/// plain absolute-form one has the scheme before its first `:`. What else it
/// accepts or refuses is left to the name `parsed_scheme`.
#[verifier::external_body]
fn parse_uri_scheme(url: &str) -> (parsed: Result<Option<String>, String>)
    ensures
        parse_outcome_view(parsed) == parsed_scheme(url@),
        url@.len() == 0 ==> parsed is Err,
        url@.len() > 0 && url@[0] == '/' ==> parse_outcome_view(parsed) == parsed_without_scheme(),
        forall|k: int, e: int|
            #[trigger] plain_absolute_form(url@, k, e) ==> parse_outcome_view(parsed) == parsed_with_scheme(
                url@.subrange(0, k),
            ),
{
    match url.parse::<Uri>() {
        Ok(uri) => Ok(uri.scheme().map(String::from)),
        Err(e) => Err(e.to_string()),
    }
}

/// The message of the user error that a batch submission to `url` is refused
/// with, given what parsing `url` gave; none when the URL is usable.
pub open spec fn url_rejection(url: Seq<char>, parsed: Result<Option<Seq<char>>, Seq<char>>) -> Option<
    Seq<char>,
> {
    match parsed {
        Err(e) => Some("Invalid URL: "@ + e + ": "@ + url),
        Ok(None) => Some("No scheme in URL: "@ + url),
        Ok(Some(scheme)) => if scheme == "http"@ {
            None
        } else {
            Some("Unsupported scheme ("@ + scheme + ") in URL: "@ + url)
        },
    }
}

/// Relates a check's result to the rejection it stands for.
pub open spec fn check_matches(res: Result<(), String>, rejection: Option<Seq<char>>) -> bool {
    match rejection {
        None => res is Ok,
        Some(msg) => res matches Err(m) && m@ == msg,
    }
}

/// Accepts a batch submission URL only when it parsed to a URI with the
/// `http` scheme; otherwise gives the user error's message.
pub fn check_parsed_url(url: &str, parsed: Result<Option<String>, String>) -> (res: Result<
    (),
    String,
>)
    ensures
        check_matches(res, url_rejection(url@, parse_outcome_view(parsed))),
        res is Ok <==> (parsed matches Ok(Some(scheme)) && scheme@ == "http"@),
{
    match parsed {
        Err(e) => {
            let mut msg = String::from_str("Invalid URL: ");
            msg.append(e.as_str());
            msg.append(": ");
            msg.append(url);
            Err(msg)
        },
        Ok(None) => {
            let mut msg = String::from_str("No scheme in URL: ");
            msg.append(url);
            Err(msg)
        },
        Ok(Some(scheme)) => {
            let http = String::from_str("http");
            if scheme != http {
                let mut msg = String::from_str("Unsupported scheme (");
                msg.append(scheme.as_str());
                msg.append(") in URL: ");
                msg.append(url);
                Err(msg)
            } else {
                Ok(())
            }
        },
    }
}

/// Parses the URL a batch list is to be submitted to and accepts it only
/// with the `http` scheme.
pub fn check_batch_url(url: &str) -> (res: Result<(), String>)
    ensures
        check_matches(res, url_rejection(url@, parsed_scheme(url@))),
        url@.len() == 0 ==> res is Err,
        url@.len() > 0 && url@[0] == '/' ==> check_matches(
            res,
            Some("No scheme in URL: "@ + url@),
        ),
        forall|k: int, e: int|
            #[trigger] plain_absolute_form(url@, k, e) ==> check_matches(
                res,
                url_rejection(url@, Ok(Some(url@.subrange(0, k)))),
            ),
{
    let parsed = parse_uri_scheme(url);
    check_parsed_url(url, parsed)
}

/// Only `http` is accepted: a URL that parsed with a scheme is refused
/// exactly when that scheme is not `http`, whatever the URL; one without a
/// scheme or that did not parse is always refused; and the message of a
/// refusal ends with the URL.
pub proof fn lemma_only_http_is_accepted(url: Seq<char>, scheme: Seq<char>, error: Seq<char>)
    ensures
        url_rejection(url, Ok(Some(scheme))) is None <==> scheme == "http"@,
        url_rejection(url, Ok(None)) is Some,
        url_rejection(url, Err(error)) is Some,
        url_rejection(url, Ok(Some(scheme))) matches Some(msg) ==> msg.len() >= url.len()
            && msg.subrange(msg.len() - url.len(), msg.len() as int) == url,
        url_rejection(url, Ok(None)) matches Some(msg) ==> msg.subrange(
            msg.len() - url.len(),
            msg.len() as int,
        ) == url,
        url_rejection(url, Err(error)) matches Some(msg) ==> msg.subrange(
            msg.len() - url.len(),
            msg.len() as int,
        ) == url,
{
    if let Some(msg) = url_rejection(url, Ok(Some(scheme))) {
        assert(msg.subrange(msg.len() - url.len(), msg.len() as int) =~= url);
    }
    if let Some(msg) = url_rejection(url, Ok(None)) {
        assert(msg.subrange(msg.len() - url.len(), msg.len() as int) =~= url);
    }
    if let Some(msg) = url_rejection(url, Err(error)) {
        assert(msg.subrange(msg.len() - url.len(), msg.len() as int) =~= url);
    }
}

} // verus!
