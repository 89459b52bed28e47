//! URL handling on the command path: scheme detection, normalization of
//! bare-host input to an absolute `https://` address, validation of the
//! normalized text, and the model of an on-demand deep site inspection.

use vstd::prelude::*;
use vstd::string::StrSliceExecFns;
use vstd::string::StringExecFns;

verus! {

/// `p` is a prefix of `s`.
pub open spec fn starts_with(s: Seq<char>, p: Seq<char>) -> bool {
    p.len() <= s.len() && s.subrange(0, p.len() as int) == p
}

/// The text opens with an explicit `http://` or `https://` scheme.
pub open spec fn has_scheme(s: Seq<char>) -> bool {
    starts_with(s, "http://"@) || starts_with(s, "https://"@)
}

/// The address a raw submission stands for: the text itself when it already
/// carries a scheme, and the text rewritten under `https://` otherwise.
pub open spec fn normalized(s: Seq<char>) -> Seq<char> {
    if has_scheme(s) {
        s
    } else {
        "https://"@ + s
    }
}

/// Whether the normalized text is accepted as a web address.  The exact
/// acceptance set is the validator's; see [`check_url`].
pub uninterp spec fn url_accepted(s: Seq<char>) -> bool;

/// Decides whether `p` is a prefix of `s`, character by character.
fn str_starts_with(s: &str, p: &str) -> (r: bool)
    ensures
        r == starts_with(s@, p@),
{
    let n = p.unicode_len();
    if s.unicode_len() < n {
        return false;
    }
    let mut i: usize = 0;
    while i < n
        invariant
            i <= n,
            n == p@.len() <= s@.len(),
            forall|j: int| 0 <= j < i ==> s@[j] == p@[j],
        decreases n - i,
    {
        if s.get_char(i) != p.get_char(i) {
            proof {
                assert(s@.subrange(0, p@.len() as int)[i as int] != p@[i as int]);
            }
            return false;
        }
        i = i + 1;
    }
    proof {
        assert(s@.subrange(0, p@.len() as int) =~= p@);
    }
    true
}

/// The submitted text already names its scheme: it opens with `http://` or
/// `https://`.
pub fn has_http_or_https(url: &str) -> (r: bool)
    ensures
        r == has_scheme(url@),
{
    str_starts_with(url, "http://") || str_starts_with(url, "https://")
}

/// Rewrites a raw submission to the absolute address it stands for:
/// unchanged when a scheme is present, prefixed with `https://` otherwise.
pub fn normalize_url(url: &str) -> (r: String)
    ensures
        r@ == normalized(url@),
{
    if has_http_or_https(url) {
        url.to_owned()
    } else {
        let mut out: String = "https://".to_owned();
        out.append(url);
        out
    }
}

/// Relies on `is_url::is_url`: a fixed regular expression matched against
/// the characters of the text alone, so the answer is a function of the
/// text.
#[verifier::external_body]
fn check_url(url: &str) -> (r: bool)
    ensures
        r == url_accepted(url@),
{
    is_url::is_url(url)
}

/// Normalizes a raw submission and validates the result: the normalized
/// address when it is accepted as a URL, and nothing otherwise.  Only
/// addresses this function returns ever reach the registry or the store.
pub fn validate_link(raw: &str) -> (r: Option<String>)
    ensures
        r is Some <==> url_accepted(normalized(raw@)),
        r matches Some(u) ==> u@ == normalized(raw@),
{
    let n = normalize_url(raw);
    if check_url(n.as_str()) {
        Some(n)
    } else {
        None
    }
}

/// What a certificate lookup reports of the host's certificate.
pub struct CertificateSummary {
    pub common_name: String,
    pub organization: String,
    pub country: String,
    pub issuer: String,
    pub time_to_expiration: String,
}

/// The result of a deep check of one site: the main response status and
/// latency, the statuses of the `robots.txt` and `sitemap.xml` probes, and
/// the host's certificate where one was found (absence is not an error).
pub struct SiteInformation {
    pub status_code: u16,
    pub has_robots: u16,
    pub has_sitemap: u16,
    pub duration: u128,
    pub certificate: Option<CertificateSummary>,
}

impl SiteInformation {
    /// Assembles a deep-check report from the raw statuses.
    pub fn new(
        status_code: u16,
        has_robots: u16,
        has_sitemap: u16,
        duration: u128,
        certificate: Option<CertificateSummary>,
    ) -> (r: SiteInformation)
        ensures
            r.status_code == status_code,
            r.has_robots == has_robots,
            r.has_sitemap == has_sitemap,
            r.duration == duration,
            r.certificate == certificate,
    {
        SiteInformation { status_code, has_robots, has_sitemap, duration, certificate }
    }

    /// The auxiliary `robots.txt` probe found the file.
    pub fn robots_present(&self) -> (r: bool)
        ensures
            r == (self.has_robots == 200),
    {
        self.has_robots == 200
    }

    /// The auxiliary `sitemap.xml` probe found the file.
    pub fn sitemap_present(&self) -> (r: bool)
        ensures
            r == (self.has_sitemap == 200),
    {
        self.has_sitemap == 200
    }
}

} // verus!
