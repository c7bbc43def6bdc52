//! Where media content (images, audio, video) comes from: a path, a URL or
//! a name.
use vstd::prelude::*;

use crate::inclusion::{parse_url, url_parses};
use crate::text::{chars_of, contains_seq, has_char, owned, split_on, starts_with, str_starts_with};

verus! {

/// A parsed URL that keeps the text it was parsed from, so that it is shown
/// exactly as written.
#[derive(Debug)]
pub struct SourceUrl {
    url: url::Url,
    original: String,
}

impl View for SourceUrl {
    type V = Seq<char>;

    /// The text the URL was parsed from.
    closed spec fn view(&self) -> Seq<char> {
        self.original@
    }
}

/// The last segment of the path of the URL that `original` spells (`None`
/// for a URL that cannot be a base, such as `mailto:`).
pub uninterp spec fn url_last_segment(original: Seq<char>) -> Option<Seq<char>>;

/// `url::Url::path_segments` followed by `Iterator::last`: the last path
/// segment of the URL, which is a function of the text it was parsed from
/// (the URL of a [`SourceUrl`] is always parsed from its `original`).
#[verifier::external_body]
fn last_path_segment(u: &SourceUrl) -> (r: Option<String>)
    ensures
        match r {
            Some(s) => url_last_segment(u@) == Some(s@),
            None => url_last_segment(u@) is None,
        },
{
    match u.url.path_segments() {
        Some(segments) => match segments.last() {
            Some(segment) => Some(segment.to_string()),
            None => None,
        },
        None => None,
    }
}

impl SourceUrl {
    /// Parse `original` as an absolute URL, keeping its text.
    pub fn new(original: &str) -> (r: Result<SourceUrl, url::ParseError>)
        ensures
            r is Ok == url_parses(original@),
            r matches Ok(u) ==> u@ == original@,
    {
        match parse_url(original) {
            Ok(url) => Ok(SourceUrl { url, original: owned(original) }),
            Err(e) => Err(e),
        }
    }

    /// The URL parsed from the text, as [`SourceUrl::new`] parsed it.
    pub closed spec fn parsed_url(&self) -> url::Url {
        self.url
    }

    /// The parsed URL: the one [`SourceUrl::new`] parsed from the text.
    pub fn url(&self) -> (r: &url::Url)
        ensures
            *r == self.parsed_url(),
    {
        &self.url
    }

    /// The URL as written.
    pub fn to_string(&self) -> (r: String)
        ensures
            r@ == self@,
    {
        self.original.clone()
    }
}

/// The source of media content.
#[derive(Debug)]
pub enum Source {
    /// A filesystem path (relative or absolute).
    Path(String),
    /// A URL (http, https, ftp, etc.).
    Url(SourceUrl),
    /// A simple name, such as an icon name.
    Name(String),
}

/// Whether `v` starts with a scheme that marks a URL.
pub open spec fn url_like(v: Seq<char>) -> bool {
    starts_with(v, "http://"@) || starts_with(v, "https://"@) || starts_with(v, "ftp://"@)
        || starts_with(v, "irc://"@) || starts_with(v, "mailto:"@)
}

/// Whether `v` looks like a path: it holds `/`, `\` or `.`.
pub open spec fn path_like(v: Seq<char>) -> bool {
    v.contains('/') || v.contains('\\') || v.contains('.')
}

/// The text a source is shown as.
pub open spec fn source_text(s: Source) -> Seq<char> {
    match s {
        Source::Path(p) => p@,
        Source::Url(u) => u@,
        Source::Name(n) => n@,
    }
}

/// The text after the last `/` of a path.
pub open spec fn last_piece(p: Seq<char>) -> Seq<char> {
    split_on(p, '/').last()
}

/// Whether a path's text after its last `/` is a normal component: not
/// empty, `.` or `..`.
pub open spec fn plain_last_piece(p: Seq<char>) -> bool {
    let l = last_piece(p);
    l.len() > 0 && l != "."@ && l != ".."@
}

/// What can be said of the file name of path `p` on every platform: a
/// non-empty part of the path without a `/`; and, where the path holds no
/// `\` and no `:` (so every platform splits it at `/` alone, with no
/// prefix) and its text after the last `/` is a normal component, exactly
/// that text.
pub open spec fn file_name_of(p: Seq<char>, r: Option<String>) -> bool {
    &&& r matches Some(n) ==> n@.len() > 0 && contains_seq(p, n@) && !n@.contains('/')
    &&& !p.contains('\\') && !p.contains(':') && plain_last_piece(p) ==> (r matches Some(n) && n@
        == last_piece(p))
}

/// `std::path::Path::file_name`: the last component of the path when it is
/// a normal one, as text. Windows also splits at `\` and reads a prefix
/// before `:`; so the component is stated exactly only for paths with
/// neither, where it is the text after the last `/` (see [`file_name_of`]).
#[verifier::external_body]
fn path_file_name(path: &str) -> (r: Option<String>)
    ensures
        file_name_of(path@, r),
{
    match std::path::Path::new(path).file_name() {
        Some(name) => match name.to_str() {
            Some(name) => Some(name.to_string()),
            None => None,
        },
        None => None,
    }
}

impl Source {
    /// Classify `value`: a URL when it starts with `http://`, `https://`,
    /// `ftp://`, `irc://` or `mailto:` (refused when it does not parse), else
    /// a path when it holds `/`, `\` or `.`, else a name.
    pub fn from_str_borrowed(value: &str) -> (r: Result<Source, url::ParseError>)
        ensures
            url_like(value@) ==> (r is Ok == url_parses(value@)),
            !url_like(value@) ==> r is Ok,
            r matches Ok(s) ==> source_text(s) == value@ && (s is Url <==> url_like(value@)) && (
            s is Path <==> (!url_like(value@) && path_like(value@))),
    {
        proof {
            reveal_strlit("http://");
            reveal_strlit("https://");
            reveal_strlit("ftp://");
            reveal_strlit("irc://");
            reveal_strlit("mailto:");
        }
        if str_starts_with(value, "http://") || str_starts_with(value, "https://")
            || str_starts_with(value, "ftp://") || str_starts_with(value, "irc://")
            || str_starts_with(value, "mailto:") {
            match SourceUrl::new(value) {
                Ok(u) => Ok(Source::Url(u)),
                Err(e) => Err(e),
            }
        } else {
            let v = chars_of(value);
            if has_char(v.as_slice(), '/') || has_char(v.as_slice(), '\\') || has_char(
                v.as_slice(),
                '.',
            ) {
                Ok(Source::Path(owned(value)))
            } else {
                Ok(Source::Name(owned(value)))
            }
        }
    }

    /// The file name of the source: a path's last component, a URL's last
    /// non-empty path segment, or the name itself.
    pub fn get_filename(&self) -> (r: Option<String>)
        ensures
            match self {
                Source::Path(p) => file_name_of(p@, r),
                Source::Url(u) => match url_last_segment(u@) {
                    Some(s) => if s.len() > 0 {
                        r matches Some(n) && n@ == s
                    } else {
                        r is None
                    },
                    None => r is None,
                },
                Source::Name(n) => r matches Some(m) && m@ == n@,
            },
    {
        match self {
            Source::Path(p) => path_file_name(p.as_str()),
            Source::Url(u) => match last_path_segment(u) {
                Some(s) => if s.as_str().is_empty() {
                    None
                } else {
                    Some(s)
                },
                None => None,
            },
            Source::Name(n) => Some(n.clone()),
        }
    }

    /// The source as written.
    pub fn to_string(&self) -> (r: String)
        ensures
            r@ == source_text(*self),
    {
        match self {
            Source::Path(p) => p.clone(),
            Source::Url(u) => u.to_string(),
            Source::Name(n) => n.clone(),
        }
    }
}

} // verus!
