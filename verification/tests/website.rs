use site_watch::checker::Checker;
use site_watch::website::{has_http_or_https, normalize_url, validate_link, CertificateSummary,
    SiteInformation};
use site_watch::website_checker::Website;

#[test]
fn recognizes_explicit_schemes() {
    assert_eq!(has_http_or_https("http://example.com"), true);
    assert_eq!(has_http_or_https("https://example.com"), true);
    assert_eq!(has_http_or_https("ftp://example.com"), false);
    assert_eq!(has_http_or_https("example.com"), false);
    assert_eq!(has_http_or_https(""), false);
}

#[test]
fn website_checker_agrees_on_schemes() {
    assert!(Website::has_http_s("https://example.com"));
    assert!(Website::has_http_s("http://example.com"));
    assert!(!Website::has_http_s("example.com"));
}

#[test]
fn bare_hosts_are_rewritten_to_https() {
    assert_eq!(normalize_url("example.com"), "https://example.com");
    assert_eq!(normalize_url("http://example.com"), "http://example.com");
    assert_eq!(normalize_url("https://example.com"), "https://example.com");
}

// The validator is the real one: accepted shapes come back normalized,
// rejected text comes back as nothing.
#[test]
fn validation_accepts_urls_and_rejects_plain_text() {
    assert_eq!(validate_link("https://hello.com"), Some("https://hello.com".to_string()));
    assert_eq!(validate_link("hello.com"), Some("https://hello.com".to_string()));
    assert_eq!(validate_link("https://hello.com/example"), Some(
        "https://hello.com/example".to_string(),
    ));
    assert_eq!(validate_link("not a url"), None);
    assert_eq!(validate_link(""), None);
}

#[test]
fn checker_entry_starts_activated() {
    let c = Checker::new(9, vec!["https://a.test".to_string()]);
    assert_eq!(c.user_id, 9);
    assert!(c.is_activated);
    assert_eq!(c.links, vec!["https://a.test".to_string()]);

    let copy = c.clone();
    assert_eq!(copy.user_id, c.user_id);
    assert_eq!(copy.links, c.links);
}

#[test]
fn deep_check_report_reads_marker_statuses() {
    let cert = CertificateSummary {
        common_name: "example.com".to_string(),
        organization: "Example Org".to_string(),
        country: "US".to_string(),
        issuer: "Example CA".to_string(),
        time_to_expiration: "90 days".to_string(),
    };
    let info = SiteInformation::new(200, 200, 404, 120, Some(cert));
    assert_eq!(info.status_code, 200);
    assert_eq!(info.duration, 120);
    assert!(info.robots_present());
    assert!(!info.sitemap_present());
    assert!(info.certificate.is_some());

    let bare = SiteInformation::new(301, 404, 404, 40, None);
    assert!(!bare.robots_present());
    assert!(!bare.sitemap_present());
    assert!(bare.certificate.is_none());
}
