//! Addresses of the remote repository service's API, and the clone URL that
//! carries an access token.

use vstd::prelude::*;
use vstd::utf8::encode_utf8;
use vstd::string::StrSliceExecFns;
use vstd::string::StringExecFns;
use crate::text::{
    decimal, decimal_text, ends_with, has_prefix, has_suffix, join2, join3, starts_with,
    strip_trailing, trim, trim_end_char, trimmed,
};

verus! {

/// A project listed by the service.
pub struct GitLabProject {
    pub id: u64,
    pub name: String,
    pub path_with_namespace: String,
    pub web_url: String,
    pub http_url_to_repo: String,
    pub default_branch: Option<String>,
}

/// A branch of a project listed by the service.
pub struct GitLabBranch {
    pub name: String,
}

/// Why a request to the service failed.
pub enum GitLabError {
    /// The request could not be made or its answer read.
    Http(String),
    /// The service answered with an error status; its status and body.
    Api(String),
}

/// Suffix of a base URL that already names the API.
pub open spec fn api_suffix() -> Seq<char> {
    "/api/v4"@
}

/// A base URL once trimmed: trailing `/` removed, then a trailing `/api/v4`.
pub open spec fn normalized_base(t: Seq<char>) -> Seq<char> {
    let s = strip_trailing(t, '/');
    if has_suffix(s, api_suffix()) {
        s.subrange(0, s.len() - api_suffix().len())
    } else {
        s
    }
}

/// Normalises a base URL that has already been trimmed.
pub fn normalize_trimmed_base_url(t: &str) -> (r: String)
    ensures
        r@ == normalized_base(t@),
{
    let s = trim_end_char(t, '/');
    let suffix = "/api/v4";
    if ends_with(s, suffix) {
        let n = s.unicode_len();
        proof {
            reveal_strlit("/api/v4");
        }
        String::from_str(s.substring_char(0, n - 7))
    } else {
        String::from_str(s)
    }
}

/// The base URL of the service: trimmed, without trailing `/`, and without
/// a trailing `/api/v4`.
pub fn normalize_base_url(url: &str) -> (r: String)
    ensures
        r@ == normalized_base(trimmed(url@)),
{
    normalize_trimmed_base_url(trim(url))
}

/// The clone URL for a token that has already been trimmed: the token goes
/// in as `oauth2:<token>@` after an `https://` or `http://` scheme; an empty
/// token, or any other scheme, leaves the URL as it is.
pub open spec fn clone_url_for(url: Seq<char>, token: Seq<char>) -> Seq<char> {
    if token.len() == 0 {
        url
    } else if has_prefix(url, "https://"@) {
        "https://oauth2:"@ + token + "@"@ + url.subrange("https://"@.len() as int, url.len() as int)
    } else if has_prefix(url, "http://"@) {
        "http://oauth2:"@ + token + "@"@ + url.subrange("http://"@.len() as int, url.len() as int)
    } else {
        url
    }
}

/// The clone URL for `http_url` with a token that has already been trimmed.
pub fn clone_url_with_trimmed_token(http_url: &str, token: &str) -> (r: String)
    ensures
        r@ == clone_url_for(http_url@, token@),
{
    if token.unicode_len() == 0 {
        return String::from_str(http_url);
    }
    let n = http_url.unicode_len();
    if starts_with(http_url, "https://") {
        proof {
            reveal_strlit("https://");
        }
        let rest = http_url.substring_char(8, n);
        let head = join3("https://oauth2:", token, "@");
        return join2(head.as_str(), rest);
    }
    if starts_with(http_url, "http://") {
        proof {
            reveal_strlit("http://");
        }
        let rest = http_url.substring_char(7, n);
        let head = join3("http://oauth2:", token, "@");
        return join2(head.as_str(), rest);
    }
    String::from_str(http_url)
}

/// The clone URL that carries `token` (trimmed) for `http_url`.
pub fn clone_url_with_token(http_url: &str, token: &str) -> (r: String)
    ensures
        r@ == clone_url_for(http_url@, trimmed(token@)),
{
    clone_url_with_trimmed_token(http_url, trim(token))
}

/// A byte that percent-encoding leaves as it is: an ASCII letter or digit,
/// or one of `-`, `.`, `_`, `~`.
pub open spec fn is_unreserved(b: u8) -> bool {
    (48 <= b <= 57) || (65 <= b <= 90) || (97 <= b <= 122) || b == 45 || b == 46 || b == 95 || b == 126
}

/// Upper-case hexadecimal digit `d`.
pub open spec fn hex_digit(d: u8) -> char {
    "0123456789ABCDEF"@[d as int]
}

/// Percent-encoding of `bytes`: each unreserved byte stands for itself, and
/// every other byte is written `%` and two upper-case hexadecimal digits.
pub open spec fn percent_encoded(bytes: Seq<u8>) -> Seq<char>
    decreases bytes.len(),
{
    if bytes.len() == 0 {
        Seq::empty()
    } else {
        let b = bytes[0];
        let head = if is_unreserved(b) {
            seq![b as char]
        } else {
            seq!['%', hex_digit(b / 16), hex_digit(b % 16)]
        };
        head + percent_encoded(bytes.drop_first())
    }
}

/// Relies on `urlencoding::encode`: percent-encodes every byte of the
/// UTF-8 form of `s` except ASCII letters, digits and `-`, `.`, `_`, `~`,
/// with upper-case hexadecimal digits.
#[verifier::external_body]
fn url_encode(s: &str) -> (r: String)
    ensures
        r@ == percent_encoded(encode_utf8(s@)),
{
    urlencoding::encode(s).into_owned()
}

/// Path and query, after the base URL, that list the projects the user is a
/// member of, at most one hundred.
pub open spec fn projects_query() -> Seq<char> {
    "/api/v4/projects?membership=true&per_page=100"@
}

/// Address that lists projects from base URL `base` (already normalised),
/// filtered by `search` (already trimmed) unless it is empty.
pub open spec fn projects_url_for(base: Seq<char>, search: Seq<char>, encoded: Seq<char>) -> Seq<char> {
    if search.len() == 0 {
        base + projects_query()
    } else {
        base + projects_query() + "&search="@ + encoded
    }
}

/// Address that lists projects; the search text goes percent-encoded.
pub fn projects_url(base_url: &str, search: Option<&str>) -> (r: String)
    ensures
        r@ == projects_url_for(
            normalized_base(trimmed(base_url@)),
            match search {
                Some(s) => trimmed(s@),
                None => Seq::empty(),
            },
            match search {
                Some(s) => percent_encoded(encode_utf8(trimmed(s@))),
                None => Seq::empty(),
            },
        ),
{
    let base = normalize_base_url(base_url);
    let query = "/api/v4/projects?membership=true&per_page=100";
    match search {
        Some(s) => {
            let t = trim(s);
            if t.unicode_len() > 0 {
                let encoded = url_encode(t);
                let head = join3(base.as_str(), query, "&search=");
                return join2(head.as_str(), encoded.as_str());
            }
        },
        None => {},
    }
    join2(base.as_str(), query)
}


/// Address that lists the branches of project `id`, at most one hundred.
pub fn branches_url(base_url: &str, project_id: u64) -> (r: String)
    ensures
        r@ == normalized_base(trimmed(base_url@)) + "/api/v4/projects/"@ + decimal(project_id as nat)
            + "/repository/branches?per_page=100"@,
{
    let base = normalize_base_url(base_url);
    let id = decimal_text(project_id);
    let head = join3(base.as_str(), "/api/v4/projects/", id.as_str());
    join2(head.as_str(), "/repository/branches?per_page=100")
}

/// The group of a project path: what comes before its first `/`, or the
/// whole path when it has none.
pub open spec fn group_of(path: Seq<char>) -> Seq<char> {
    match crate::env::first_index(path, '/', 0) {
        Some(i) => path.subrange(0, i),
        None => path,
    }
}

/// The group that a project path such as `group/sub/name` belongs to.
pub fn group_name(path_with_namespace: &str) -> (r: String)
    ensures
        r@ == group_of(path_with_namespace@),
{
    let n = path_with_namespace.unicode_len();
    let mut i: usize = 0;
    while i < n && path_with_namespace.get_char(i) != '/'
        invariant
            n == path_with_namespace@.len(),
            i <= n,
            crate::env::first_index(path_with_namespace@, '/', 0) == crate::env::first_index(
                path_with_namespace@,
                '/',
                i as int,
            ),
        decreases n - i,
    {
        i = i + 1;
    }
    if i == n {
        assert(path_with_namespace@.subrange(0, n as int) =~= path_with_namespace@);
    }
    String::from_str(path_with_namespace.substring_char(0, i))
}

} // verus!
