//! The GitHub REST API: the records it returns and the requests made of it.

use vstd::prelude::*;

use crate::text::{chars_of, push_char};

verus! {

/// A repository as the GitHub API describes it.
#[derive(Debug)]
pub struct GithubRepo {
    pub id: u64,
    pub name: String,
    pub full_name: String,
    pub description: Option<String>,
    pub html_url: String,
    pub default_branch: String,
    pub license: Option<GithubLicense>,
    pub is_private: bool,
}

/// A repository's license.
#[derive(Debug)]
pub struct GithubLicense {
    pub spdx_id: Option<String>,
}

/// A release of a repository.
#[derive(Debug)]
pub struct GithubRelease {
    pub tag_name: String,
    pub name: Option<String>,
    pub body: Option<String>,
    pub assets: Vec<GithubAsset>,
    pub tarball_url: Option<String>,
    pub zipball_url: Option<String>,
}

/// A file attached to a release.
#[derive(Debug)]
pub struct GithubAsset {
    pub name: String,
    pub browser_download_url: String,
    pub size: i64,
    pub content_type: String,
}

/// An entry of a repository directory.
#[derive(Debug)]
pub struct GithubContent {
    pub name: String,
    pub path: String,
    pub content_type: String,
    pub download_url: Option<String>,
}

/// The characters that pass through URL encoding unchanged.
pub open spec fn unreserved(c: char) -> bool {
    ('A' <= c && c <= 'Z') || ('a' <= c && c <= 'z') || ('0' <= c && c <= '9') || c == '-' || c
        == '_' || c == '.' || c == '~'
}

/// The upper-case hexadecimal digit for `n` (below 16).
pub open spec fn hex_upper_char(n: int) -> char {
    seq!['0', '1', '2', '3', '4', '5', '6', '7', '8', '9', 'A', 'B', 'C', 'D', 'E', 'F'][n]
}

/// How one character is encoded: unreserved ones as they are, a space as
/// '+', any other as '%' and two hexadecimal digits of its code's low byte.
pub open spec fn encode_char(c: char) -> Seq<char> {
    if unreserved(c) {
        seq![c]
    } else if c == ' ' {
        seq!['+']
    } else {
        let b = (c as u32) as int % 256;
        seq!['%', hex_upper_char(b / 16), hex_upper_char(b % 16)]
    }
}

/// `s` encoded for a URL query, character by character.
pub open spec fn url_encoded(s: Seq<char>) -> Seq<char>
    decreases s.len(),
{
    if s.len() == 0 {
        Seq::empty()
    } else {
        url_encoded(s.drop_last()) + encode_char(s.last())
    }
}

fn hex_upper(n: u32) -> (c: char)
    requires
        n < 16,
    ensures
        c == hex_upper_char(n as int),
{
    let digits = ['0', '1', '2', '3', '4', '5', '6', '7', '8', '9', 'A', 'B', 'C', 'D', 'E', 'F'];
    let c = digits[n as usize];
    assert(digits@ =~= seq!['0', '1', '2', '3', '4', '5', '6', '7', '8', '9', 'A', 'B', 'C', 'D', 'E', 'F']);
    c
}

/// `s` encoded for a URL query.
pub fn urlencoding(s: &str) -> (r: String)
    ensures
        r@ == url_encoded(s@),
{
    let cs = chars_of(s);
    let mut r = String::new();
    let mut i: usize = 0;
    while i < cs.len()
        invariant
            i <= cs@.len(),
            cs@ == s@,
            r@ == url_encoded(cs@.take(i as int)),
        decreases cs@.len() - i,
    {
        let c = cs[i];
        proof {
            assert(cs@.take(i + 1).drop_last() =~= cs@.take(i as int));
        }
        if ('A' <= c && c <= 'Z') || ('a' <= c && c <= 'z') || ('0' <= c && c <= '9') || c == '-'
            || c == '_' || c == '.' || c == '~' {
            push_char(&mut r, c);
        } else if c == ' ' {
            push_char(&mut r, '+');
        } else {
            let b = (c as u32) % 256;
            push_char(&mut r, '%');
            push_char(&mut r, hex_upper(b / 16));
            push_char(&mut r, hex_upper(b % 16));
        }
        i = i + 1;
    }
    assert(cs@.take(cs@.len() as int) =~= cs@);
    r
}

/// Requests to the GitHub API, with an optional access token.
#[derive(Debug)]
pub struct GithubApi {
    pub token: Option<String>,
    pub base_url: String,
}

impl GithubApi {
    /// A client of the public GitHub API.
    pub fn new(token: Option<String>) -> (r: Self)
        ensures
            r.token == token,
            r.base_url@ == "https://api.github.com"@,
    {
        GithubApi { token, base_url: String::from_str("https://api.github.com") }
    }

    /// The headers each request carries: the API version it accepts, and
    /// the token when there is one.
    pub fn headers(&self) -> (r: Vec<(String, String)>)
        ensures
            r@.len() == if self.token is Some { 2int } else { 1int },
            r@[0].0@ == "Accept"@,
            r@[0].1@ == "application/vnd.github.v3+json"@,
            self.token matches Some(t) ==> r@[1].0@ == "Authorization"@ && r@[1].1@ == "Bearer "@
                + t@,
    {
        let mut r: Vec<(String, String)> = Vec::new();
        r.push((String::from_str("Accept"), String::from_str("application/vnd.github.v3+json")));
        if let Some(t) = &self.token {
            let mut v = String::from_str("Bearer ");
            v.append(t.as_str());
            r.push((String::from_str("Authorization"), v));
        }
        r
    }

    /// The URL that searches repositories for `query` (20 per page).
    pub fn search_repositories_url(&self, query: &str) -> (r: String)
        ensures
            r@ == self.base_url@ + "/search/repositories?q="@ + url_encoded(query@) + "&per_page=20"@,
    {
        let mut r = self.base_url.clone();
        r.append("/search/repositories?q=");
        let q = urlencoding(query);
        r.append(q.as_str());
        r.append("&per_page=20");
        r
    }

    /// The URL of repository `owner/repo`.
    pub fn repository_url(&self, owner: &str, repo: &str) -> (r: String)
        ensures
            r@ == self.base_url@ + "/repos/"@ + owner@ + "/"@ + repo@,
    {
        let mut r = self.base_url.clone();
        r.append("/repos/");
        r.append(owner);
        r.append("/");
        r.append(repo);
        r
    }

    /// The URL of the releases of `owner/repo` (10 per page).
    pub fn releases_url(&self, owner: &str, repo: &str) -> (r: String)
        ensures
            r@ == self.base_url@ + "/repos/"@ + owner@ + "/"@ + repo@ + "/releases?per_page=10"@,
    {
        let mut r = self.repository_url(owner, repo);
        r.append("/releases?per_page=10");
        r
    }

    /// The URL of the latest release of `owner/repo`.
    pub fn latest_release_url(&self, owner: &str, repo: &str) -> (r: String)
        ensures
            r@ == self.base_url@ + "/repos/"@ + owner@ + "/"@ + repo@ + "/releases/latest"@,
    {
        let mut r = self.repository_url(owner, repo);
        r.append("/releases/latest");
        r
    }

    /// The URL of the contents of `path` in `owner/repo`.
    pub fn repo_contents_url(&self, owner: &str, repo: &str, path: &str) -> (r: String)
        ensures
            r@ == self.base_url@ + "/repos/"@ + owner@ + "/"@ + repo@ + "/contents/"@ + path@,
    {
        let mut r = self.repository_url(owner, repo);
        r.append("/contents/");
        r.append(path);
        r
    }
}

/// The URL of the source tarball of `owner/repo` at `tag`.
pub fn tarball_url(owner: &str, repo: &str, tag: &str) -> (r: String)
    ensures
        r@ == "https://api.github.com/repos/"@ + owner@ + "/"@ + repo@ + "/tarball/"@ + tag@,
{
    let mut r = String::from_str("https://api.github.com/repos/");
    r.append(owner);
    r.append("/");
    r.append(repo);
    r.append("/tarball/");
    r.append(tag);
    r
}

/// The URL of the raw file `path` of `owner/repo` on `branch`.
pub fn raw_file_url(owner: &str, repo: &str, path: &str, branch: &str) -> (r: String)
    ensures
        r@ == "https://raw.githubusercontent.com/"@ + owner@ + "/"@ + repo@ + "/"@ + branch@ + "/"@
            + path@,
{
    let mut r = String::from_str("https://raw.githubusercontent.com/");
    r.append(owner);
    r.append("/");
    r.append(repo);
    r.append("/");
    r.append(branch);
    r.append("/");
    r.append(path);
    r
}

} // verus!
