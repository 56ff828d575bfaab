use vstd::prelude::*;
use vstd::string::*;
use crate::text::{
    chars_of, ends_with, ends_with_chars, eq_chars, lemma_lower_forgets_case, lower_chars, matches_at, starts_with,
    str_eq, sub_chars, to_ascii_lower, to_ascii_upper,
};

verus! {

// ---------------------------------------------------------------------------
// Parsed URLs
// ---------------------------------------------------------------------------

/// The parts of a parsed absolute URL that the navigation and validation rules
/// read: its scheme and, where it has one, its host.
pub struct UrlParts {
    pub scheme: String,
    pub host: Option<String>,
}

/// The view of an optional string.
pub open spec fn opt_view(s: Option<String>) -> Option<Seq<char>> {
    match s {
        Some(v) => Some(v@),
        None => None,
    }
}

impl UrlParts {
    pub open spec fn view_parts(&self) -> (Seq<char>, Option<Seq<char>>) {
        (self.scheme@, opt_view(self.host))
    }
}

/// What `url::Url::parse` makes of `input`: the scheme and host of the parsed
/// URL, or the text of the parse error.
pub uninterp spec fn url_parse(input: Seq<char>) -> Result<(Seq<char>, Option<Seq<char>>), Seq<char>>;

/// `url::Url::parse` (which `str::parse::<tauri::Url>` calls), with the parsed
/// URL reduced to `Url::scheme` and `Url::host_str`, and a parse error to its
/// `Display` text. The contract claims only that the outcome is the named
/// function `url_parse` of the input; the URL grammar itself is not restated.
#[verifier::external_body]
pub(crate) fn parse_url(input: &str) -> (r: Result<UrlParts, String>)
    ensures
        match r {
            Ok(u) => url_parse(input@) == Ok::<(Seq<char>, Option<Seq<char>>), Seq<char>>(u.view_parts()),
            Err(e) => url_parse(input@) == Err::<(Seq<char>, Option<Seq<char>>), Seq<char>>(e@),
        },
{
    match url::Url::parse(input) {
        Ok(u) => {
            let host = match u.host_str() {
                Some(h) => Some(h.to_string()),
                None => None,
            };
            Ok(UrlParts { scheme: u.scheme().to_string(), host })
        },
        Err(e) => Err(e.to_string()),
    }
}

/// The view of a parse outcome held by the library.
pub open spec fn parsed_view(p: Result<UrlParts, String>) -> Result<(Seq<char>, Option<Seq<char>>), Seq<char>> {
    match p {
        Ok(u) => Ok(u.view_parts()),
        Err(e) => Err(e@),
    }
}

// ---------------------------------------------------------------------------
// Schemes
// ---------------------------------------------------------------------------

/// `http` or `https`.
pub open spec fn is_web_scheme(scheme: Seq<char>) -> bool {
    scheme == "https"@ || scheme == "http"@
}

/// Schemes a page uses to build its own internal frames, not to navigate
/// anywhere: `about` and `blob`. They carry no host to check.
pub open spec fn is_internal_scheme(scheme: Seq<char>) -> bool {
    scheme == "about"@ || scheme == "blob"@
}

pub fn is_http_scheme(scheme: &str) -> (r: bool)
    ensures
        r == is_web_scheme(scheme@),
{
    str_eq(scheme, "https") || str_eq(scheme, "http")
}

/// Whether a URL is one of a page's own internal frames.
pub fn is_internal_frame_scheme(url: &UrlParts) -> (r: bool)
    ensures
        r == is_internal_scheme(url.scheme@),
{
    str_eq(url.scheme.as_str(), "about") || str_eq(url.scheme.as_str(), "blob")
}

// ---------------------------------------------------------------------------
// Google domains
// ---------------------------------------------------------------------------

/// `s` with every leading `www.` removed, as `str::trim_start_matches("www.")` does.
pub open spec fn strip_www(s: Seq<char>) -> Seq<char>
    decreases s.len(),
{
    if s.len() >= 4 && s.subrange(0, 4) == seq!['w', 'w', 'w', '.'] {
        strip_www(s.skip(4))
    } else {
        s
    }
}

/// `d` is `root` or a subdomain of it.
pub open spec fn is_domain_or_sub(d: Seq<char>, root: Seq<char>, dot_root: Seq<char>) -> bool {
    d == root || ends_with(d, dot_root)
}

/// A domain of Google's that refuses to run inside an embedded window: after
/// removing leading `www.` and lower-casing, one of google.com,
/// googleusercontent.com, googleapis.com, youtube.com, or a subdomain of one.
pub open spec fn google_domain(domain: Seq<char>) -> bool {
    google_root(to_ascii_lower(strip_www(domain)))
}

/// `d` is one of google.com, googleusercontent.com, googleapis.com,
/// youtube.com, or a subdomain of one.
pub open spec fn google_root(d: Seq<char>) -> bool {
    ||| is_domain_or_sub(d, "google.com"@, ".google.com"@)
    ||| is_domain_or_sub(d, "googleusercontent.com"@, ".googleusercontent.com"@)
    ||| is_domain_or_sub(d, "googleapis.com"@, ".googleapis.com"@)
    ||| is_domain_or_sub(d, "youtube.com"@, ".youtube.com"@)
}

/// `www.` in front of a domain does not change whether it is `root` or one of
/// its subdomains, for a root whose first two characters are not `w`.
proof fn lemma_www_keeps_root(x: Seq<char>, root: Seq<char>, dot_root: Seq<char>)
    requires
        root.len() >= 3,
        root[0] != 'w',
        root[1] != 'w',
        dot_root == seq!['.'] + root,
    ensures
        is_domain_or_sub(seq!['w', 'w', 'w', '.'] + x, root, dot_root) == is_domain_or_sub(x, root, dot_root),
{
    let y = seq!['w', 'w', 'w', '.'] + x;
    let n = x.len() as int;
    let l = dot_root.len() as int;
    if x == root {
        assert(y.subrange(y.len() - l, y.len() as int) =~= dot_root);
    }
    if ends_with(x, dot_root) {
        assert(y.subrange(y.len() - l, y.len() as int) =~= x.subrange(n - l, n));
    }
    if y == root {
        assert(y[0] == 'w');
    }
    if ends_with(y, dot_root) && !ends_with(x, dot_root) && x != root {
        let tail = y.subrange(y.len() - l, y.len() as int);
        if n >= l {
            assert(x.subrange(n - l, n) =~= tail);
        } else if n == l - 1 {
            assert(x =~= tail.subrange(1, l));
            assert(root =~= dot_root.subrange(1, l));
        } else {
            let start = 4 + n - l;
            assert(0 <= start <= 2);
            assert(tail[2 - start] == y[2]);
            assert(y[2] == 'w');
        }
    }
}

/// Leading `www.` does not change whether a domain is one of Google's.
proof fn lemma_www_keeps_google(x: Seq<char>)
    ensures
        google_root(seq!['w', 'w', 'w', '.'] + x) == google_root(x),
{
    reveal_strlit("google.com");
    reveal_strlit(".google.com");
    reveal_strlit("googleusercontent.com");
    reveal_strlit(".googleusercontent.com");
    reveal_strlit("googleapis.com");
    reveal_strlit(".googleapis.com");
    reveal_strlit("youtube.com");
    reveal_strlit(".youtube.com");
    assert(".google.com"@ =~= seq!['.'] + "google.com"@);
    assert(".googleusercontent.com"@ =~= seq!['.'] + "googleusercontent.com"@);
    assert(".googleapis.com"@ =~= seq!['.'] + "googleapis.com"@);
    assert(".youtube.com"@ =~= seq!['.'] + "youtube.com"@);
    lemma_www_keeps_root(x, "google.com"@, ".google.com"@);
    lemma_www_keeps_root(x, "googleusercontent.com"@, ".googleusercontent.com"@);
    lemma_www_keeps_root(x, "googleapis.com"@, ".googleapis.com"@);
    lemma_www_keeps_root(x, "youtube.com"@, ".youtube.com"@);
}

/// Stripping leading `www.` before lower-casing does not change the answer.
proof fn lemma_strip_www_keeps_google(t: Seq<char>)
    ensures
        google_root(to_ascii_lower(strip_www(t))) == google_root(to_ascii_lower(t)),
    decreases t.len(),
{
    if t.len() >= 4 && t.subrange(0, 4) == seq!['w', 'w', 'w', '.'] {
        lemma_strip_www_keeps_google(t.skip(4));
        assert(t =~= t.subrange(0, 4) + t.skip(4));
        assert(to_ascii_lower(t) =~= seq!['w', 'w', 'w', '.'] + to_ascii_lower(t.skip(4)));
        lemma_www_keeps_google(to_ascii_lower(t.skip(4)));
    }
}

/// The ASCII case of a domain never changes whether it is one of Google's.
pub proof fn lemma_google_domain_ignores_case(domain: Seq<char>)
    ensures
        google_domain(to_ascii_lower(domain)) == google_domain(domain),
        google_domain(to_ascii_upper(domain)) == google_domain(domain),
{
    lemma_lower_forgets_case(domain);
    lemma_strip_www_keeps_google(domain);
    lemma_strip_www_keeps_google(to_ascii_lower(domain));
    lemma_strip_www_keeps_google(to_ascii_upper(domain));
}

fn domain_or_sub(d: &Vec<char>, root: &str, dot_root: &str) -> (r: bool)
    ensures
        r == is_domain_or_sub(d@, root@, dot_root@),
{
    let rv = chars_of(root);
    let dv = chars_of(dot_root);
    eq_chars(d, &rv) || ends_with_chars(d, &dv)
}

pub fn is_google_domain(domain: &str) -> (r: bool)
    ensures
        r == google_domain(domain@),
{
    let v = chars_of(domain);
    let www = vec!['w', 'w', 'w', '.'];
    let mut i: usize = 0;
    assert(v@.skip(0) =~= v@);
    while v.len() - i >= 4 && matches_at(&v, i, &www)
        invariant
            i <= v.len(),
            www@ == seq!['w', 'w', 'w', '.'],
            strip_www(v@) == strip_www(v@.skip(i as int)),
        decreases v.len() - i,
    {
        proof {
            let t = v@.skip(i as int);
            assert(t.subrange(0, 4) =~= v@.subrange(i as int, i + 4));
            assert(t.skip(4) =~= v@.skip(i + 4));
        }
        i = i + 4;
    }
    proof {
        let t = v@.skip(i as int);
        if t.len() >= 4 {
            assert(t.subrange(0, 4) =~= v@.subrange(i as int, i + 4));
        }
    }
    let rest = sub_chars(&v, i, v.len());
    assert(rest@ =~= v@.skip(i as int));
    let d = lower_chars(&rest);
    domain_or_sub(&d, "google.com", ".google.com") || domain_or_sub(&d, "googleusercontent.com", ".googleusercontent.com")
        || domain_or_sub(&d, "googleapis.com", ".googleapis.com") || domain_or_sub(&d, "youtube.com", ".youtube.com")
}


// ---------------------------------------------------------------------------
// URLs of user-defined entries and of external links
// ---------------------------------------------------------------------------

/// The view of a string outcome.
pub open spec fn outcome_view(r: Result<String, String>) -> Result<Seq<char>, Seq<char>> {
    match r {
        Ok(v) => Ok(v@),
        Err(e) => Err(e@),
    }
}

/// The view of an outcome that carries nothing on success.
pub open spec fn unit_outcome_view(r: Result<(), String>) -> Result<(), Seq<char>> {
    match r {
        Ok(()) => Ok(()),
        Err(e) => Err(e@),
    }
}

/// Whether an entry may be embedded at a URL, given what parsing made of it:
/// the host when it may, else the error text. A URL that does not parse, has no
/// host, or points at a Google domain is refused; `google_message` is the text
/// for the last case.
pub open spec fn entry_url_outcome(
    parsed: Result<(Seq<char>, Option<Seq<char>>), Seq<char>>,
    google_message: Seq<char>,
) -> Result<Seq<char>, Seq<char>> {
    match parsed {
        Err(e) => Err("Invalid URL: "@ + e),
        Ok((_, None)) => Err("URL has no host"@),
        Ok((_, Some(h))) => if google_domain(h) {
            Err(google_message)
        } else {
            Ok(h)
        },
    }
}

/// Decides on a parsed entry URL; see `entry_url_outcome`.
pub fn check_entry_url(parsed: &Result<UrlParts, String>, google_message: &str) -> (r: Result<String, String>)
    ensures
        outcome_view(r) == entry_url_outcome(parsed_view(*parsed), google_message@),
{
    match parsed {
        Err(e) => {
            let mut m = String::from_str("Invalid URL: ");
            m.append(e.as_str());
            Err(m)
        },
        Ok(u) => match &u.host {
            None => Err(String::from_str("URL has no host")),
            Some(h) => {
                if is_google_domain(h.as_str()) {
                    Err(String::from_str(google_message))
                } else {
                    Ok(h.clone())
                }
            },
        },
    }
}

/// Parses an entry URL and decides on it; see `entry_url_outcome`.
pub fn validate_entry_url(url: &str, google_message: &str) -> (r: Result<String, String>)
    ensures
        outcome_view(r) == entry_url_outcome(url_parse(url@), google_message@),
{
    let parsed = parse_url(url);
    check_entry_url(&parsed, google_message)
}

/// Whether a link may be handed to the system browser: only an `http` or
/// `https` URL that parses.
pub open spec fn browser_url_outcome(parsed: Result<(Seq<char>, Option<Seq<char>>), Seq<char>>) -> Result<(), Seq<char>> {
    match parsed {
        Err(_) => Err("Invalid URL"@),
        Ok((scheme, _)) => if is_web_scheme(scheme) {
            Ok(())
        } else {
            Err("Only HTTP/HTTPS URLs are supported"@)
        },
    }
}

/// Decides on a parsed link; see `browser_url_outcome`.
pub fn check_browser_url(parsed: &Result<UrlParts, String>) -> (r: Result<(), String>)
    ensures
        unit_outcome_view(r) == browser_url_outcome(parsed_view(*parsed)),
{
    match parsed {
        Err(_) => Err(String::from_str("Invalid URL")),
        Ok(u) => if is_http_scheme(u.scheme.as_str()) {
            Ok(())
        } else {
            Err(String::from_str("Only HTTP/HTTPS URLs are supported"))
        },
    }
}

/// The check `open_in_browser` makes before it hands `url` to the system
/// browser; see `browser_url_outcome`.
pub fn validate_browser_url(url: &str) -> (r: Result<(), String>)
    ensures
        unit_outcome_view(r) == browser_url_outcome(url_parse(url@)),
{
    let parsed = parse_url(url);
    check_browser_url(&parsed)
}

/// What a custom webview does with a navigation: an internal frame or any web
/// page is allowed in place.
pub open spec fn custom_navigation_allowed(scheme: Seq<char>) -> bool {
    is_internal_scheme(scheme) || is_web_scheme(scheme)
}

/// A custom webview follows exactly these: web pages over plain `http` as well
/// as `https`, and a page's own `about` and `blob` frames; it cancels every
/// other scheme.
pub proof fn lemma_custom_navigation_schemes(scheme: Seq<char>)
    ensures
        custom_navigation_allowed(scheme) <==> (scheme == "http"@ || scheme == "https"@ || scheme == "about"@
            || scheme == "blob"@),
{
}

pub fn allow_custom_navigation(url: &UrlParts) -> (r: bool)
    ensures
        r == custom_navigation_allowed(url.scheme@),
{
    is_internal_frame_scheme(url) || is_http_scheme(url.scheme.as_str())
}

} // verus!
