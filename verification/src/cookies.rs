//! Importing cookies from installed browsers: which browsers there are,
//! and what the Firefox cookie database is asked and answers. Opening the
//! database and running the query is the caller's part.
use vstd::prelude::*;
use crate::text::{push_str, to_string};

verus! {

#[derive(Debug, Clone, Copy, PartialEq, Eq, Structural, Hash)]
pub enum BrowserId {
    Firefox,
    Chrome,
    Chromium,
    Brave,
    Edge,
    Arc,
}

pub open spec fn slug_of(id: BrowserId) -> Seq<char> {
    match id {
        BrowserId::Firefox => "firefox"@,
        BrowserId::Chrome => "chrome"@,
        BrowserId::Chromium => "chromium"@,
        BrowserId::Brave => "brave"@,
        BrowserId::Edge => "edge"@,
        BrowserId::Arc => "arc"@,
    }
}

impl BrowserId {
    /// Stable lower-case name of the browser.
    pub fn slug(self) -> (r: &'static str)
        ensures
            r@ == slug_of(self),
    {
        match self {
            BrowserId::Firefox => "firefox",
            BrowserId::Chrome => "chrome",
            BrowserId::Chromium => "chromium",
            BrowserId::Brave => "brave",
            BrowserId::Edge => "edge",
            BrowserId::Arc => "arc",
        }
    }
}

/// The `SameSite` attribute of a cookie.
#[derive(Debug, Clone, Copy, PartialEq, Eq, Structural)]
pub enum SameSite {
    NoRestriction,
    Lax,
    Strict,
    /// `SameSite=None`, set explicitly.
    ExplicitNone,
}

/// A cookie read from a browser profile; `expires_at` in seconds since the
/// Unix epoch, `None` for a session cookie.
#[derive(Debug, Clone, PartialEq, Eq)]
pub struct Cookie {
    pub host: String,
    pub name: String,
    pub value: String,
    pub path: String,
    pub expires_at: Option<i64>,
    pub secure: bool,
    pub http_only: bool,
    pub same_site: SameSite,
}

/// The Firefox cookie source (`~/.mozilla/firefox/<profile>/cookies.sqlite`,
/// values in plain text).
#[derive(Debug, Clone, Copy)]
pub struct Firefox;

impl Default for Firefox {
    fn default() -> (r: Self) {
        Firefox::new()
    }
}

/// The columns read from `moz_cookies`, in order.
pub open spec fn select_all() -> Seq<char> {
    "SELECT host, name, value, path, expiry, isSecure, isHttpOnly, sameSite FROM moz_cookies"@
}

/// Firefox's `sameSite` column: 1 lax, 2 strict, 3 explicitly none, anything else no
/// restriction.
pub open spec fn same_site_of(code: i64) -> SameSite {
    if code == 1 {
        SameSite::Lax
    } else if code == 2 {
        SameSite::Strict
    } else if code == 3 {
        SameSite::ExplicitNone
    } else {
        SameSite::NoRestriction
    }
}

impl Firefox {
    pub fn new() -> (r: Self) {
        Firefox
    }

    pub fn id(&self) -> (r: BrowserId)
        ensures
            r == BrowserId::Firefox,
    {
        BrowserId::Firefox
    }

    /// The query for the cookie table, and its `LIKE` parameter when the
    /// hosts are filtered by `domain_filter` (a substring match).
    pub fn cookie_query(domain_filter: Option<&str>) -> (r: (String, Option<String>))
        ensures
            r.0@ == (match domain_filter {
                Some(_) => select_all() + " WHERE host LIKE ?1"@,
                None => select_all(),
            }),
            match domain_filter {
                Some(f) => r.1 matches Some(p) && p@ == "%"@ + f@ + "%"@,
                None => r.1 is None,
            },
    {
        let mut sql = to_string(
            "SELECT host, name, value, path, expiry, isSecure, isHttpOnly, sameSite FROM moz_cookies",
        );
        match domain_filter {
            Some(f) => {
                push_str(&mut sql, " WHERE host LIKE ?1");
                let mut pattern = to_string("%");
                push_str(&mut pattern, f);
                push_str(&mut pattern, "%");
                (sql, Some(pattern))
            },
            None => (sql, None),
        }
    }

    /// The cookie a `moz_cookies` row describes; a non-positive expiry is a
    /// session cookie.
    pub fn cookie_from_row(
        host: String,
        name: String,
        value: String,
        path: String,
        expiry: i64,
        is_secure: i64,
        is_http_only: i64,
        same_site: i64,
    ) -> (c: Cookie)
        ensures
            c.host == host,
            c.name == name,
            c.value == value,
            c.path == path,
            c.expires_at == (if expiry > 0 {
                Some(expiry)
            } else {
                Option::<i64>::None
            }),
            c.secure == (is_secure != 0),
            c.http_only == (is_http_only != 0),
            c.same_site == same_site_of(same_site),
    {
        let same = if same_site == 1 {
            SameSite::Lax
        } else if same_site == 2 {
            SameSite::Strict
        } else if same_site == 3 {
            SameSite::ExplicitNone
        } else {
            SameSite::NoRestriction
        };
        Cookie {
            host,
            name,
            value,
            path,
            expires_at: if expiry > 0 {
                Some(expiry)
            } else {
                None
            },
            secure: is_secure != 0,
            http_only: is_http_only != 0,
            same_site: same,
        }
    }
}

/// The browsers cookies are looked for in, in order: Firefox first, then
/// the Chromium family.
pub fn source_ids() -> (r: Vec<BrowserId>)
    ensures
        r@ == seq![
            BrowserId::Firefox,
            BrowserId::Chrome,
            BrowserId::Chromium,
            BrowserId::Brave,
            BrowserId::Edge,
            BrowserId::Arc,
        ],
{
    vec![
        BrowserId::Firefox,
        BrowserId::Chrome,
        BrowserId::Chromium,
        BrowserId::Brave,
        BrowserId::Edge,
        BrowserId::Arc,
    ]
}

/// No two browsers share a slug.
pub proof fn lemma_slugs_distinct(a: BrowserId, b: BrowserId)
    ensures
        slug_of(a) == slug_of(b) ==> a == b,
{
    reveal_strlit("firefox");
    reveal_strlit("chrome");
    reveal_strlit("chromium");
    reveal_strlit("brave");
    reveal_strlit("edge");
    reveal_strlit("arc");
    if slug_of(a) == slug_of(b) && a != b {
        assert(slug_of(a).len() == slug_of(b).len());
        assert(slug_of(a)[0] == slug_of(b)[0]);
        assert(slug_of(a)[2] == slug_of(b)[2]);
    }
}

} // verus!
