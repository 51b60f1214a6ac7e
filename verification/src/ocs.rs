//! The theme catalogue request: the query of the KDE-Look (opendesktop OCS)
//! content listing for one category, page, search and sort order.
use vstd::prelude::*;
use crate::num::decimal_exec;
use crate::profiles::text_result;
use crate::text::{chars_of, decimal, owned, string_of, trim, trim_chars};

verus! {

/// The OCS content listing the catalogue is fetched from.
pub open spec fn ocs_base() -> Seq<char> {
    "https://api.kde-look.org/ocs/v1/content/data"@
}

pub open spec fn pair_views(v: Seq<(String, String)>) -> Seq<(Seq<char>, Seq<char>)> {
    v.map_values(|p: (String, String)| (p.0@, p.1@))
}

/// The query of one catalogue page: category, page number, thirty items a
/// page, sort order, JSON, and the trimmed search text unless it is blank.
pub open spec fn ocs_query(category: Seq<char>, page: u32, search: Seq<char>, sortmode: Seq<char>) -> Seq<
    (Seq<char>, Seq<char>),
> {
    let pairs = seq![
        ("categories"@, category),
        ("page"@, decimal(page as nat)),
        ("pagesize"@, "30"@),
        ("sortmode"@, sortmode),
        ("format"@, "json"@),
    ];
    if trim(search).len() == 0 {
        pairs
    } else {
        pairs.push(("search"@, trim(search)))
    }
}

/// What `reqwest::Url::parse_with_params` gives for `base` and the query
/// pairs, as text (the message of the parse error when it fails).
pub uninterp spec fn url_with_params(base: Seq<char>, pairs: Seq<(Seq<char>, Seq<char>)>) -> Result<
    Seq<char>,
    Seq<char>,
>;

/// `reqwest::Url::parse_with_params`: parses `base` and appends the pairs
/// to its query, form-urlencoded. Its result is named `url_with_params`; URL
/// parsing and encoding are not written out.
#[verifier::external_body]
fn parse_with_params(base: &str, pairs: &Vec<(String, String)>) -> (r: Result<String, String>)
    ensures
        text_result(r) == url_with_params(base@, pair_views(pairs@)),
{
    reqwest::Url::parse_with_params(base, pairs.iter()).map(|u| u.as_str().to_owned()).map_err(|e| e.to_string())
}

fn pair(k: &str, v: String) -> (r: (String, String))
    ensures
        (r.0@, r.1@) == (k@, v@),
{
    (owned(k), v)
}

/// The query pairs of one catalogue page (see `ocs_query`).
pub fn ocs_query_pairs(category: &str, page: u32, search: &str, sortmode: &str) -> (r: Vec<(String, String)>)
    ensures
        pair_views(r@) == ocs_query(category@, page, search@, sortmode@),
{
    let mut r: Vec<(String, String)> = Vec::new();
    r.push(pair("categories", owned(category)));
    r.push(pair("page", string_of(&decimal_exec(page))));
    r.push(pair("pagesize", owned("30")));
    r.push(pair("sortmode", owned(sortmode)));
    r.push(pair("format", owned("json")));
    let s = trim_chars(&chars_of(search));
    if s.len() > 0 {
        r.push(pair("search", string_of(&s)));
    }
    assert(pair_views(r@) =~= ocs_query(category@, page, search@, sortmode@));
    r
}

/// The URL of one catalogue page: the OCS listing with the page's query.
pub fn themes_url(category: &str, page: u32, search: &str, sortmode: &str) -> (r: Result<String, String>)
    ensures
        text_result(r) == url_with_params(ocs_base(), ocs_query(category@, page, search@, sortmode@)),
{
    let pairs = ocs_query_pairs(category, page, search, sortmode);
    parse_with_params("https://api.kde-look.org/ocs/v1/content/data", &pairs)
}

} // verus!
