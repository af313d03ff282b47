//! The repository's name on its hosting service, read off the address of
//! its remote, and the addresses of the service's metadata.

use crate::text::{chars_of, find_char, index_from};
use vstd::prelude::*;

verus! {

/// `s` without the suffix `.git`, where it has one.
pub open spec fn without_git_suffix(s: Seq<char>) -> Seq<char> {
    if s.len() >= 4 && s.subrange(s.len() - 4, s.len() as int) == seq!['.', 'g', 'i', 't'] {
        s.subrange(0, s.len() - 4)
    } else {
        s
    }
}

/// Where the path of a remote address starts: after `scheme://host/` for an
/// address with a scheme, after `host:` for the short form
/// `user@host:owner/repo`. `None` where the address has neither form.
pub open spec fn path_start(url: Seq<char>) -> Option<int> {
    let colon = index_from(url, ':', 0);
    if colon >= url.len() {
        None
    } else if colon + 2 < url.len() && url[colon + 1] == '/' && url[colon + 2] == '/' {
        let slash = index_from(url, '/', colon + 3);
        if slash >= url.len() {
            None
        } else {
            Some(slash + 1)
        }
    } else {
        Some(colon + 1)
    }
}

/// The `owner/repo` name of a remote address: its path without the suffix
/// `.git`.
pub open spec fn slug_of(url: Seq<char>) -> Option<Seq<char>> {
    match path_start(url) {
        Some(start) => Some(without_git_suffix(url.subrange(start, url.len() as int))),
        None => None,
    }
}

/// The `owner/repo` name that the address of a remote stands for: host and
/// protocol are stripped, and so is the suffix `.git`.
pub fn repo_slug(remote_url: &str) -> (r: Option<String>)
    ensures
        r is Some <==> slug_of(remote_url@) is Some,
        r matches Some(slug) ==> Some(slug@) == slug_of(remote_url@),
{
    let chars = chars_of(remote_url);
    let len = chars.len();
    let colon = find_char(&chars, ':', 0);
    if colon >= len {
        return None;
    }
    let start = if len - colon > 2 && chars[colon + 1] == '/' && chars[colon + 2] == '/' {
        let slash = find_char(&chars, '/', colon + 3);
        if slash >= len {
            return None;
        }
        slash + 1
    } else {
        colon + 1
    };
    let ghost path = chars@.subrange(start as int, len as int);
    let end = if len - start >= 4 && chars[len - 4] == '.' && chars[len - 3] == 'g' && chars[len
        - 2] == 'i' && chars[len - 1] == 't' {
        assert(path.subrange(path.len() - 4, path.len() as int) =~= seq!['.', 'g', 'i', 't']);
        assert(path.subrange(0, path.len() - 4) =~= chars@.subrange(start as int, len - 4));
        len - 4
    } else {
        proof {
            if path.len() >= 4 {
                let tail = path.subrange(path.len() - 4, path.len() as int);
                assert(tail[0] == chars@[len - 4] && tail[1] == chars@[len - 3] && tail[2]
                    == chars@[len - 2] && tail[3] == chars@[len - 1]);
            }
        }
        len
    };
    Some(remote_url.substring_char(start, end).to_owned())
}

/// The address at which the hosting service describes the repository
/// `slug`.
pub fn repo_api_url(slug: &str) -> (r: String)
    ensures
        r@ == "https://api.github.com/repos/"@ + slug@,
{
    let mut url = String::new();
    url.append("https://api.github.com/repos/");
    url.append(slug);
    assert(url@ =~= "https://api.github.com/repos/"@ + slug@);
    url
}

} // verus!
