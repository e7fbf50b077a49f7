//! URLs as the crawler reads them: the serialization by which two URLs are
//! equal, the scheme, the host and the path. Parsing and resolving a
//! reference against a base are done by the `url` crate.

use vstd::prelude::*;

verus! {

/// A parsed absolute URL, held as the plain values that the crawler reads.
#[derive(Debug)]
pub struct WebUrl {
    /// The serialization (`Url::as_str`); two URLs are equal when these are.
    pub href: String,
    /// The scheme, lower case, without `:` (`Url::scheme`).
    pub scheme: String,
    /// The host, where the URL has one (`Url::host_str`).
    pub host: Option<String>,
    /// The path (`Url::path`).
    pub path: String,
}

/// The mathematical value of a [`WebUrl`].
pub struct WebUrlView {
    pub href: Seq<char>,
    pub scheme: Seq<char>,
    pub host: Option<Seq<char>>,
    pub path: Seq<char>,
}

/// The view of an optional string.
pub open spec fn opt_view(o: Option<String>) -> Option<Seq<char>> {
    match o {
        Some(s) => Some(s@),
        None => None,
    }
}

impl View for WebUrl {
    type V = WebUrlView;

    open spec fn view(&self) -> WebUrlView {
        WebUrlView {
            href: self.href@,
            scheme: self.scheme@,
            host: opt_view(self.host),
            path: self.path@,
        }
    }
}

impl Clone for WebUrl {
    fn clone(&self) -> (res: Self)
        ensures
            res == *self,
    {
        WebUrl {
            href: self.href.clone(),
            scheme: self.scheme.clone(),
            host: match &self.host {
                Some(h) => Some(h.clone()),
                None => None,
            },
            path: self.path.clone(),
        }
    }
}

/// What `url::Url::parse` gives for an input: the parsed URL, or the `Debug`
/// text of the `url::ParseError`.
pub uninterp spec fn parsed_url(input: Seq<char>) -> Result<WebUrlView, Seq<char>>;

/// What resolving `input` against the URL serialized as `base` gives: the
/// base is parsed again with `url::Url::parse` and `url::Url::join` is called
/// on it; the result, or the `Debug` text of the first `url::ParseError`.
pub uninterp spec fn joined_url(base: Seq<char>, input: Seq<char>) -> Result<WebUrlView, Seq<char>>;

/// What setting the host of the URL serialized as `href` gives: the URL is
/// parsed again with `url::Url::parse` and `url::Url::set_host` is called on
/// it with `Some(host)`; the changed URL, or the `Debug` text of the first
/// `url::ParseError`.
pub uninterp spec fn host_set_url(href: Seq<char>, host: Seq<char>) -> Result<WebUrlView, Seq<char>>;

/// The view of a parse outcome.
pub open spec fn outcome_view(r: Result<WebUrl, String>) -> Result<WebUrlView, Seq<char>> {
    match r {
        Ok(u) => Ok(u@),
        Err(e) => Err(e@),
    }
}

impl WebUrl {
    /// Parses an absolute URL with `url::Url::parse`. The contract names the
    /// outcome by `parsed_url` and says nothing more of it.
    #[verifier::external_body]
    pub fn parse(input: &str) -> (res: Result<WebUrl, String>)
        ensures
            outcome_view(res) == parsed_url(input@),
    {
        match url::Url::parse(input) {
            Ok(u) => Ok(WebUrl {
                href: u.as_str().to_string(),
                scheme: u.scheme().to_string(),
                host: u.host_str().map(String::from),
                path: u.path().to_string(),
            }),
            Err(e) => Err(format!("{:?}", e)),
        }
    }

    /// Resolves a reference against this URL, as `url::Url::join` does on the
    /// URL that `href` serializes. The contract names the outcome by
    /// `joined_url` and says nothing more of it.
    #[verifier::external_body]
    pub fn join(&self, input: &str) -> (res: Result<WebUrl, String>)
        ensures
            outcome_view(res) == joined_url(self.href@, input@),
    {
        let joined = match url::Url::parse(&self.href) {
            Ok(base) => base.join(input),
            Err(e) => Err(e),
        };
        match joined {
            Ok(u) => Ok(WebUrl {
                href: u.as_str().to_string(),
                scheme: u.scheme().to_string(),
                host: u.host_str().map(String::from),
                path: u.path().to_string(),
            }),
            Err(e) => Err(format!("{:?}", e)),
        }
    }

    /// This URL with its host set to `host`, by `url::Url::set_host` on the
    /// URL that `href` serializes. The contract names the outcome by
    /// `host_set_url` and says nothing more of it.
    #[verifier::external_body]
    pub(crate) fn with_host(&self, host: &str) -> (res: Result<WebUrl, String>)
        ensures
            outcome_view(res) == host_set_url(self.href@, host@),
    {
        let changed = match url::Url::parse(&self.href) {
            Ok(mut u) => u.set_host(Some(host)).and(Ok(u)),
            Err(e) => Err(e),
        };
        match changed {
            Ok(u) => Ok(WebUrl {
                href: u.as_str().to_string(),
                scheme: u.scheme().to_string(),
                host: u.host_str().map(String::from),
                path: u.path().to_string(),
            }),
            Err(e) => Err(format!("{:?}", e)),
        }
    }

    /// The serialization of the URL.
    pub fn as_str(&self) -> (res: &str)
        ensures
            res@ == self.href@,
    {
        self.href.as_str()
    }

    /// The host, where there is one.
    pub fn host_str(&self) -> (res: Option<&str>)
        ensures
            match res {
                Some(h) => self.host is Some && self.host->0@ == h@,
                None => self.host is None,
            },
    {
        match &self.host {
            Some(h) => Some(h.as_str()),
            None => None,
        }
    }

    /// The path.
    pub fn path(&self) -> (res: &str)
        ensures
            res@ == self.path@,
    {
        self.path.as_str()
    }

    /// The scheme.
    pub fn scheme(&self) -> (res: &str)
        ensures
            res@ == self.scheme@,
    {
        self.scheme.as_str()
    }
}

} // verus!
