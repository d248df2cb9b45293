//! Trusted wrappers around the regex and URL crates.  Each wrapper's result
//! is a function of its arguments alone, so the contracts name the results
//! with uninterpreted specification functions and state only what the
//! outside crates' documentation promises.
use vstd::prelude::*;

verus! {

// ------------------------------------------------------------------- regex

/// Whether `pattern` is a valid regular expression (what `regex::Regex::new`
/// accepts); a function of the pattern alone.
pub uninterp spec fn regex_valid(pattern: Seq<char>) -> bool;

/// The text that replacing the leftmost match of `pattern` in `text` with
/// `rewrite` (capture groups expanded) produces; a function of the three
/// arguments alone.
pub uninterp spec fn regex_replace_first(
    pattern: Seq<char>,
    text: Seq<char>,
    rewrite: Seq<char>,
) -> Seq<char>;

/// Whether `pattern` has a match in `text`; a function of the two arguments
/// alone.
pub uninterp spec fn regex_matches(pattern: Seq<char>, text: Seq<char>) -> bool;

/// Relies on `regex::Regex::new`: whether a pattern compiles depends on the
/// pattern alone.
#[verifier::external_body]
pub fn regex_check(pattern: &String) -> (r: bool)
    ensures
        r == regex_valid(pattern@),
{
    regex::Regex::new(pattern.as_str()).is_ok()
}

/// Relies on `regex::Regex::new` and `regex::Regex::replace`: `replace`
/// substitutes the leftmost match (if any) with the rewrite, expanding
/// capture-group references, and both are deterministic in their inputs.
#[verifier::external_body]
pub fn regex_replace(pattern: &String, text: &String, rewrite: &String) -> (r: Option<String>)
    ensures
        r is Some <==> regex_valid(pattern@),
        match r {
            Some(out) => out@ == regex_replace_first(pattern@, text@, rewrite@),
            None => true,
        },
{
    match regex::Regex::new(pattern.as_str()) {
        Ok(re) => Some(re.replace(text.as_str(), rewrite.as_str()).into_owned()),
        Err(_) => None,
    }
}

/// Relies on `regex::Regex::new` and `regex::Regex::is_match`: whether the
/// pattern matches is deterministic in the pattern and the text.
#[verifier::external_body]
pub fn regex_match(pattern: &String, text: &String) -> (r: Option<bool>)
    ensures
        r is Some <==> regex_valid(pattern@),
        match r {
            Some(m) => m == regex_matches(pattern@, text@),
            None => true,
        },
{
    match regex::Regex::new(pattern.as_str()) {
        Ok(re) => Some(re.is_match(text.as_str())),
        Err(_) => None,
    }
}

// --------------------------------------------------------------------- url

/// What inspecting `s` as a URL yields; a function of the text alone.
pub uninterp spec fn url_inspect(s: Seq<char>) -> UrlHostView;

/// The host classification of a URL-shaped text.
pub enum UrlHostView {
    /// Not a valid URL; carries the parse error's display text.
    Invalid(Seq<char>),
    /// A valid URL whose host is a domain name; carries the domain and the
    /// port kept by the URL's serialization, if any.
    Domain(Seq<char>, Option<u16>),
    /// A valid URL whose host is an IP literal or absent.
    Other,
}

/// The executable counterpart of [`UrlHostView`].
pub enum UrlHost {
    Invalid(String),
    Domain(String, Option<u16>),
    Other,
}

impl View for UrlHost {
    type V = UrlHostView;

    open spec fn view(&self) -> UrlHostView {
        match self {
            UrlHost::Invalid(msg) => UrlHostView::Invalid(msg@),
            UrlHost::Domain(d, p) => UrlHostView::Domain(d@, *p),
            UrlHost::Other => UrlHostView::Other,
        }
    }
}

/// Relies on `url::Url::parse`, `url::Url::host` and `url::Url::port`:
/// parsing is deterministic in the text, `host` distinguishes domain names
/// from IP literals, and `port` is the URL's port where the serialization
/// keeps one (a scheme's default port reads back as `None`).
#[verifier::external_body]
pub fn inspect_url(s: &String) -> (r: UrlHost)
    ensures
        r@ == url_inspect(s@),
{
    match url::Url::parse(s.as_str()) {
        Err(e) => UrlHost::Invalid(e.to_string()),
        Ok(u) => match u.host() {
            Some(url::Host::Domain(d)) => UrlHost::Domain(d.to_string(), u.port()),
            _ => UrlHost::Other,
        },
    }
}

} // verus!
