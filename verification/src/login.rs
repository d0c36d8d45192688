//! What the client reads from the address that Spotify's login sends it back
//! to: the access token, and for how many seconds it lasts.
//!
//! Spotify puts both in the fragment of that address. The client reads them
//! as a query: it turns each `#` of the address into `?`, parses the address
//! as a URL, decodes its query as form data, and takes the first value of
//! `access_token` and of `expires_in`.
use vstd::prelude::*;

verus! {

/// What `url::Url::parse` makes of `href`, taken at its query: `None` when
/// `href` is no URL, `Some(None)` when it is one without a query.
pub uninterp spec fn url_query_of(href: Seq<char>) -> Option<Option<Seq<char>>>;

/// The name and value pairs that `url::form_urlencoded::parse` decodes from
/// the form data `query`, in order.
pub uninterp spec fn form_pairs_of(query: Seq<char>) -> Seq<(Seq<char>, Seq<char>)>;

/// Parses `href` with `url::Url::parse` and gives the query of the URL.
/// Claimed: the result is `url_query_of(href)`, which depends on the text
/// alone; an error of the parser gives `None`.
#[verifier::external_body]
fn url_query(href: &str) -> (query: Option<Option<String>>)
    ensures
        query.deep_view() == url_query_of(href@),
{
    match url::Url::parse(href) {
        Ok(u) => Some(u.query().map(|q| q.to_string())),
        Err(_) => None,
    }
}

/// Decodes the form data `query` with `url::form_urlencoded::parse`, into
/// owned pairs. Claimed: the pairs are `form_pairs_of(query)`, which depends
/// on the text alone.
#[verifier::external_body]
fn form_pairs(query: &str) -> (pairs: Vec<(String, String)>)
    ensures
        pairs.deep_view() == form_pairs_of(query@),
{
    url::form_urlencoded::parse(query.as_bytes()).into_owned().collect()
}

/// The characters are all decimal digits, and there is at least one.
pub open spec fn is_digits(s: Seq<char>) -> bool {
    &&& s.len() > 0
    &&& forall|i: int| 0 <= i < s.len() ==> ('0' as int) <= (#[trigger] s[i] as int) <= ('9' as int)
}

/// The number that the decimal digits `s` write.
pub open spec fn digits_value(s: Seq<char>) -> nat
    decreases s.len(),
{
    if s.len() == 0 {
        0
    } else {
        digits_value(s.drop_last()) * 10 + ((s.last() as int) - ('0' as int)) as nat
    }
}

/// The `u64` that the text `s` writes: an optional `+`, then decimal
/// digits whose value fits in a `u64`; `None` for any other text.
pub open spec fn u64_of_text(s: Seq<char>) -> Option<u64> {
    let digits = if s.len() > 0 && s[0] == '+' {
        s.drop_first()
    } else {
        s
    };
    if is_digits(digits) && digits_value(digits) <= u64::MAX {
        Some(digits_value(digits) as u64)
    } else {
        None
    }
}

/// Reads a `u64` with `str::parse`. Claimed, from its documentation: the
/// text is an optional `+` followed by decimal digits only, whose value fits
/// in a `u64`; anything else (an empty text, a sign alone, another
/// character, a value too large) is an error, here `None`.
#[verifier::external_body]
fn parse_u64(text: &str) -> (n: Option<u64>)
    ensures
        n == u64_of_text(text@),
{
    text.parse::<u64>().ok()
}

/// The text `href` with each `#` turned into `?`.
pub open spec fn hash_as_query(href: Seq<char>) -> Seq<char> {
    href.map_values(|c: char| if c == '#' { '?' } else { c })
}

/// Turns each `#` of `href` into `?`.
fn hash_to_query(href: &str) -> (text: String)
    ensures
        text@ == hash_as_query(href@),
{
    let n = href.unicode_len();
    let mut text = String::new();
    let mut i: usize = 0;
    proof {
        reveal_strlit("?");
    }
    while i < n
        invariant
            i <= n,
            n == href@.len(),
            text@ == hash_as_query(href@.take(i as int)),
            "?"@ == seq!['?'],
        decreases n - i,
    {
        if href.get_char(i) == '#' {
            text.append("?");
        } else {
            text.append(href.substring_char(i, i + 1));
        }
        proof {
            assert(hash_as_query(href@.take(i + 1)) =~= hash_as_query(href@.take(i as int)).push(
                if href@[i as int] == '#' { '?' } else { href@[i as int] },
            ));
        }
        i = i + 1;
    }
    proof {
        assert(href@.take(n as int) =~= href@);
    }
    text
}

/// The value of the first pair of `pairs` whose name is `name`, if any.
pub open spec fn first_value(pairs: Seq<(Seq<char>, Seq<char>)>, name: Seq<char>) -> Option<Seq<char>>
    decreases pairs.len(),
{
    if pairs.len() == 0 {
        None
    } else if pairs[0].0 == name {
        Some(pairs[0].1)
    } else {
        first_value(pairs.drop_first(), name)
    }
}

/// A copy of the value of the first pair named `name`.
fn find_value(pairs: &Vec<(String, String)>, name: &str) -> (value: Option<String>)
    ensures
        value.deep_view() == first_value(pairs.deep_view(), name@),
{
    let key = String::from_str(name);
    let ghost all = pairs.deep_view();
    let n = pairs.len();
    let mut i: usize = 0;
    assert(all.subrange(0, n as int) =~= all);
    while i < n
        invariant
            i <= n,
            n == pairs@.len(),
            all == pairs.deep_view(),
            all.len() == n,
            key@ == name@,
            first_value(all, name@) == first_value(all.subrange(i as int, n as int), name@),
        decreases n - i,
    {
        let ghost rest = all.subrange(i as int, n as int);
        assert(rest[0] == all[i as int]);
        assert(all[i as int] == (pairs@[i as int].0@, pairs@[i as int].1@));
        if pairs[i].0 == key {
            return Some(pairs[i].1.clone());
        }
        assert(rest.drop_first() =~= all.subrange(i + 1, n as int));
        i = i + 1;
    }
    None
}

/// The Spotify login that the pairs of the address hold: the first
/// `access_token` and the first `expires_in`, read as a number of seconds;
/// `None` when one of them is missing or the seconds are no `u64`.
pub open spec fn login_of_pairs(pairs: Seq<(Seq<char>, Seq<char>)>) -> Option<(Seq<char>, u64)> {
    match (first_value(pairs, "access_token"@), first_value(pairs, "expires_in"@)) {
        (Some(token), Some(seconds)) => match u64_of_text(seconds) {
            Some(n) => Some((token, n)),
            None => None,
        },
        _ => None,
    }
}

/// The access token and the seconds it lasts, from the name and value
/// pairs of the address (see `login_of_pairs`).
pub fn login_from_pairs(pairs: &Vec<(String, String)>) -> (login: Option<(String, u64)>)
    ensures
        login.deep_view() == login_of_pairs(pairs.deep_view()),
{
    let token = find_value(pairs, "access_token");
    let seconds = find_value(pairs, "expires_in");
    match (token, seconds) {
        (Some(t), Some(s)) => match parse_u64(s.as_str()) {
            Some(n) => Some((t, n)),
            None => None,
        },
        _ => None,
    }
}

/// The Spotify login that the address `href` holds: `None` when, with each
/// `#` turned into `?`, it is no URL, or its query lacks the token or the
/// seconds, or the seconds are no `u64`. A URL without a query has no pairs.
pub open spec fn login_of_href(href: Seq<char>) -> Option<(Seq<char>, u64)> {
    match url_query_of(hash_as_query(href)) {
        None => None,
        Some(query) => login_of_pairs(
            form_pairs_of(
                match query {
                    Some(q) => q,
                    None => Seq::empty(),
                },
            ),
        ),
    }
}

/// Reads the access token and the seconds it lasts from the address that
/// Spotify's login sent the client back to (see `login_of_href`).
pub fn login_redirect(href: &str) -> (login: Option<(String, u64)>)
    ensures
        login.deep_view() == login_of_href(href@),
{
    let text = hash_to_query(href);
    let query = match url_query(text.as_str()) {
        Some(Some(q)) => q,
        Some(None) => String::new(),
        None => return None,
    };
    let pairs = form_pairs(query.as_str());
    login_from_pairs(&pairs)
}

} // verus!
