use flowmux::cookies::{source_ids, BrowserId, Firefox, SameSite};

#[test]
fn slugs_are_stable_lower_case_names() {
    assert_eq!(BrowserId::Firefox.slug(), "firefox");
    assert_eq!(BrowserId::Chrome.slug(), "chrome");
    assert_eq!(BrowserId::Chromium.slug(), "chromium");
    assert_eq!(BrowserId::Brave.slug(), "brave");
    assert_eq!(BrowserId::Edge.slug(), "edge");
    assert_eq!(BrowserId::Arc.slug(), "arc");
}

#[test]
fn sources_start_with_firefox() {
    let ids = source_ids();
    assert_eq!(ids.len(), 6);
    assert_eq!(ids[0], BrowserId::Firefox);
    assert_eq!(Firefox::new().id(), BrowserId::Firefox);
    assert_eq!(Firefox::default().id(), BrowserId::Firefox);
}

#[test]
fn cookie_query_filters_hosts_by_substring() {
    let (sql, param) = Firefox::cookie_query(None);
    assert_eq!(
        sql,
        "SELECT host, name, value, path, expiry, isSecure, isHttpOnly, sameSite FROM moz_cookies"
    );
    assert_eq!(param, None);
    let (sql, param) = Firefox::cookie_query(Some("example.com"));
    assert!(sql.ends_with(" FROM moz_cookies WHERE host LIKE ?1"));
    assert_eq!(param.as_deref(), Some("%example.com%"));
}

#[test]
fn rows_map_to_cookies() {
    let c = Firefox::cookie_from_row(
        ".example.com".into(),
        "sid".into(),
        "abc".into(),
        "/".into(),
        1_700_000_000,
        1,
        0,
        2,
    );
    assert_eq!(c.host, ".example.com");
    assert_eq!(c.expires_at, Some(1_700_000_000));
    assert!(c.secure);
    assert!(!c.http_only);
    assert_eq!(c.same_site, SameSite::Strict);
    let session = Firefox::cookie_from_row(
        "h".into(),
        "n".into(),
        "v".into(),
        "/".into(),
        0,
        0,
        5,
        7,
    );
    assert_eq!(session.expires_at, None);
    assert!(session.http_only);
    assert_eq!(session.same_site, SameSite::NoRestriction);
    let lax = Firefox::cookie_from_row("h".into(), "n".into(), "v".into(), "/".into(), -3, 0, 0, 1);
    assert_eq!(lax.same_site, SameSite::Lax);
    assert_eq!(lax.expires_at, None);
    let none = Firefox::cookie_from_row("h".into(), "n".into(), "v".into(), "/".into(), 1, 0, 0, 3);
    assert_eq!(none.same_site, SameSite::ExplicitNone);
}
