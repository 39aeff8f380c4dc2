//! The compiled-in browser sources: their family classification, their
//! display and configuration names, their on-disk locations relative to
//! the home directory, and which of them a configuration enables.

use vstd::prelude::*;

use crate::config::Config;

verus! {

/// Supported browser types.
#[derive(Debug, Clone, Copy, PartialEq, Eq, Hash, Structural)]
pub enum Browser {
    Chrome,
    ChromeBeta,
    Brave,
    BraveBeta,
    Safari,
    Firefox,
    Edge,
    Zen,
    Opera,
    Vivaldi,
    Arc,
    Chromium,
    Sidekick,
}

/// Paths to a browser's data files, when its stores were found on disk.
#[derive(Debug, Clone)]
pub struct BrowserPaths {
    pub history: Option<String>,
    pub bookmarks: Option<String>,
}

/// Whether the browser stores its data in the Chromium layout.
pub open spec fn spec_is_chrome_like(b: Browser) -> bool {
    b == Browser::Chrome || b == Browser::ChromeBeta || b == Browser::Brave || b
        == Browser::BraveBeta || b == Browser::Edge || b == Browser::Opera || b
        == Browser::Vivaldi || b == Browser::Arc || b == Browser::Chromium || b
        == Browser::Sidekick
}

/// Whether the browser stores its data in the Mozilla layout.
pub open spec fn spec_is_firefox_like(b: Browser) -> bool {
    b == Browser::Firefox || b == Browser::Zen
}

/// Whether the browser stores its data in the WebKit layout.
pub open spec fn spec_is_safari_like(b: Browser) -> bool {
    b == Browser::Safari
}

/// The browser's display name.
pub open spec fn spec_name(b: Browser) -> Seq<char> {
    match b {
        Browser::Zen => "Zen"@,
        Browser::Chrome => "Google Chrome"@,
        Browser::ChromeBeta => "Google Chrome Beta"@,
        Browser::Brave => "Brave"@,
        Browser::BraveBeta => "Brave Beta"@,
        Browser::Safari => "Safari"@,
        Browser::Firefox => "Firefox"@,
        Browser::Edge => "Microsoft Edge"@,
        Browser::Opera => "Opera"@,
        Browser::Vivaldi => "Vivaldi"@,
        Browser::Arc => "Arc"@,
        Browser::Chromium => "Chromium"@,
        Browser::Sidekick => "Sidekick"@,
    }
}

/// The configuration key that enables the browser.
pub open spec fn spec_env_var(b: Browser) -> Seq<char> {
    match b {
        Browser::Chrome => "chrome"@,
        Browser::Zen => "zen"@,
        Browser::ChromeBeta => "chrome_beta"@,
        Browser::Brave => "brave"@,
        Browser::BraveBeta => "brave_beta"@,
        Browser::Safari => "safari"@,
        Browser::Firefox => "firefox"@,
        Browser::Edge => "edge"@,
        Browser::Opera => "opera"@,
        Browser::Vivaldi => "vivaldi"@,
        Browser::Arc => "arc"@,
        Browser::Chromium => "chromium"@,
        Browser::Sidekick => "sidekick"@,
    }
}

/// Whether the configuration enables the browser.
pub open spec fn spec_enabled(cfg: Config, b: Browser) -> bool {
    match b {
        Browser::Chrome => cfg.chrome,
        Browser::ChromeBeta => cfg.chrome_beta,
        Browser::Brave => cfg.brave,
        Browser::BraveBeta => cfg.brave_beta,
        Browser::Safari => cfg.safari,
        Browser::Firefox => cfg.firefox,
        Browser::Edge => cfg.edge,
        Browser::Zen => cfg.zen,
        Browser::Opera => cfg.opera,
        Browser::Vivaldi => cfg.vivaldi,
        Browser::Arc => cfg.arc,
        Browser::Chromium => cfg.chromium,
        Browser::Sidekick => cfg.sidekick,
    }
}

/// The browser's history store, relative to the home directory.  For
/// Mozilla-layout browsers this is the profiles directory, which is
/// scanned for one profile holding the database.
pub open spec fn spec_history_location(b: Browser) -> Seq<char> {
    match b {
        Browser::Chrome => "Library/Application Support/Google/Chrome/Default/History"@,
        Browser::Brave => "Library/Application Support/BraveSoftware/Brave-Browser/Default/History"@,
        Browser::BraveBeta => "Library/Application Support/BraveSoftware/Brave-Browser-Beta/Default/History"@,
        Browser::Safari => "Library/Safari/History.db"@,
        Browser::Firefox => "Library/Application Support/Firefox/Profiles"@,
        Browser::Zen => "Library/Application Support/zen/Profiles"@,
        Browser::Edge => "Library/Application Support/Microsoft Edge/Default/History"@,
        Browser::Opera => "Library/Application Support/com.operasoftware.Opera/History"@,
        Browser::Vivaldi => "Library/Application Support/Vivaldi/Default/History"@,
        Browser::Arc => "Library/Application Support/Arc/User Data/Default/History"@,
        Browser::Chromium => "Library/Application Support/Chromium/Default/History"@,
        Browser::Sidekick => "Library/Application Support/Sidekick/Default/History"@,
        Browser::ChromeBeta => "Library/Application Support/Google/ChromeBeta/Default/History"@,
    }
}

/// The browser's bookmark store, relative to the home directory.  For
/// Mozilla-layout browsers bookmarks live in the same profile database
/// as history.
pub open spec fn spec_bookmarks_location(b: Browser) -> Seq<char> {
    match b {
        Browser::Chrome => "Library/Application Support/Google/Chrome/Default/Bookmarks"@,
        Browser::Brave => "Library/Application Support/BraveSoftware/Brave-Browser/Default/Bookmarks"@,
        Browser::BraveBeta => "Library/Application Support/BraveSoftware/Brave-Browser-Beta/Default/Bookmarks"@,
        Browser::Safari => "Library/Safari/Bookmarks.plist"@,
        Browser::Firefox => "Library/Application Support/Firefox/Profiles"@,
        Browser::Zen => "Library/Application Support/zen/Profiles"@,
        Browser::Edge => "Library/Application Support/Microsoft Edge/Default/Bookmarks"@,
        Browser::Opera => "Library/Application Support/com.operasoftware.Opera/Bookmarks"@,
        Browser::Vivaldi => "Library/Application Support/Vivaldi/Default/Bookmarks"@,
        Browser::Arc => "Library/Application Support/Arc/User Data/Default/Bookmarks"@,
        Browser::Chromium => "Library/Application Support/Chromium/Default/Bookmarks"@,
        Browser::Sidekick => "Library/Application Support/Sidekick/Default/Bookmarks"@,
        Browser::ChromeBeta => "Library/Application Support/Google/ChromeBeta/Default/Bookmarks"@,
    }
}

impl Browser {
    /// Returns true if this browser is based on Chromium.
    pub fn is_chrome_like(&self) -> (r: bool)
        ensures
            r == spec_is_chrome_like(*self),
    {
        match self {
            Browser::Chrome => true,
            Browser::ChromeBeta => true,
            Browser::Brave => true,
            Browser::BraveBeta => true,
            Browser::Edge => true,
            Browser::Opera => true,
            Browser::Vivaldi => true,
            Browser::Arc => true,
            Browser::Chromium => true,
            Browser::Sidekick => true,
            _ => false,
        }
    }

    /// Returns true if this browser is based on Firefox.
    pub fn is_firefox_like(&self) -> (r: bool)
        ensures
            r == spec_is_firefox_like(*self),
    {
        match self {
            Browser::Firefox => true,
            Browser::Zen => true,
            _ => false,
        }
    }

    /// Returns true if this browser is based on WebKit.
    pub fn is_safari_like(&self) -> (r: bool)
        ensures
            r == spec_is_safari_like(*self),
    {
        match self {
            Browser::Safari => true,
            _ => false,
        }
    }

    /// Get the display name of the browser.
    pub fn name(&self) -> (r: &'static str)
        ensures
            r@ == spec_name(*self),
    {
        match self {
            Browser::Zen => "Zen",
            Browser::Chrome => "Google Chrome",
            Browser::ChromeBeta => "Google Chrome Beta",
            Browser::Brave => "Brave",
            Browser::BraveBeta => "Brave Beta",
            Browser::Safari => "Safari",
            Browser::Firefox => "Firefox",
            Browser::Edge => "Microsoft Edge",
            Browser::Opera => "Opera",
            Browser::Vivaldi => "Vivaldi",
            Browser::Arc => "Arc",
            Browser::Chromium => "Chromium",
            Browser::Sidekick => "Sidekick",
        }
    }

    /// Get the configuration key used to enable this browser.
    pub fn env_var(&self) -> (r: &'static str)
        ensures
            r@ == spec_env_var(*self),
    {
        match self {
            Browser::Chrome => "chrome",
            Browser::Zen => "zen",
            Browser::ChromeBeta => "chrome_beta",
            Browser::Brave => "brave",
            Browser::BraveBeta => "brave_beta",
            Browser::Safari => "safari",
            Browser::Firefox => "firefox",
            Browser::Edge => "edge",
            Browser::Opera => "opera",
            Browser::Vivaldi => "vivaldi",
            Browser::Arc => "arc",
            Browser::Chromium => "chromium",
            Browser::Sidekick => "sidekick",
        }
    }

    /// Check if this browser is enabled in the given configuration.
    pub fn is_enabled(&self, cfg: &Config) -> (r: bool)
        ensures
            r == spec_enabled(*cfg, *self),
    {
        match self {
            Browser::Chrome => cfg.chrome,
            Browser::ChromeBeta => cfg.chrome_beta,
            Browser::Brave => cfg.brave,
            Browser::BraveBeta => cfg.brave_beta,
            Browser::Safari => cfg.safari,
            Browser::Firefox => cfg.firefox,
            Browser::Edge => cfg.edge,
            Browser::Zen => cfg.zen,
            Browser::Opera => cfg.opera,
            Browser::Vivaldi => cfg.vivaldi,
            Browser::Arc => cfg.arc,
            Browser::Chromium => cfg.chromium,
            Browser::Sidekick => cfg.sidekick,
        }
    }

    /// The browser's history store, relative to the home directory.
    pub fn history_location(&self) -> (r: &'static str)
        ensures
            r@ == spec_history_location(*self),
    {
        match self {
            Browser::Chrome => "Library/Application Support/Google/Chrome/Default/History",
            Browser::Brave => "Library/Application Support/BraveSoftware/Brave-Browser/Default/History",
            Browser::BraveBeta => "Library/Application Support/BraveSoftware/Brave-Browser-Beta/Default/History",
            Browser::Safari => "Library/Safari/History.db",
            Browser::Firefox => "Library/Application Support/Firefox/Profiles",
            Browser::Zen => "Library/Application Support/zen/Profiles",
            Browser::Edge => "Library/Application Support/Microsoft Edge/Default/History",
            Browser::Opera => "Library/Application Support/com.operasoftware.Opera/History",
            Browser::Vivaldi => "Library/Application Support/Vivaldi/Default/History",
            Browser::Arc => "Library/Application Support/Arc/User Data/Default/History",
            Browser::Chromium => "Library/Application Support/Chromium/Default/History",
            Browser::Sidekick => "Library/Application Support/Sidekick/Default/History",
            Browser::ChromeBeta => "Library/Application Support/Google/ChromeBeta/Default/History",
        }
    }

    /// The browser's bookmark store, relative to the home directory.
    pub fn bookmarks_location(&self) -> (r: &'static str)
        ensures
            r@ == spec_bookmarks_location(*self),
    {
        match self {
            Browser::Chrome => "Library/Application Support/Google/Chrome/Default/Bookmarks",
            Browser::Brave => "Library/Application Support/BraveSoftware/Brave-Browser/Default/Bookmarks",
            Browser::BraveBeta => "Library/Application Support/BraveSoftware/Brave-Browser-Beta/Default/Bookmarks",
            Browser::Safari => "Library/Safari/Bookmarks.plist",
            Browser::Firefox => "Library/Application Support/Firefox/Profiles",
            Browser::Zen => "Library/Application Support/zen/Profiles",
            Browser::Edge => "Library/Application Support/Microsoft Edge/Default/Bookmarks",
            Browser::Opera => "Library/Application Support/com.operasoftware.Opera/Bookmarks",
            Browser::Vivaldi => "Library/Application Support/Vivaldi/Default/Bookmarks",
            Browser::Arc => "Library/Application Support/Arc/User Data/Default/Bookmarks",
            Browser::Chromium => "Library/Application Support/Chromium/Default/Bookmarks",
            Browser::Sidekick => "Library/Application Support/Sidekick/Default/Bookmarks",
            Browser::ChromeBeta => "Library/Application Support/Google/ChromeBeta/Default/Bookmarks",
        }
    }

    /// The database file a Mozilla-layout profile directory is scanned
    /// for; it holds both history and bookmarks.
    pub fn profile_database_name(&self) -> (r: &'static str)
        ensures
            r@ == "places.sqlite"@,
    {
        "places.sqlite"
    }
}

/// Every compiled-in browser source, in registry order.
pub open spec fn all_browsers_seq() -> Seq<Browser> {
    seq![
        Browser::Chrome,
        Browser::Brave,
        Browser::BraveBeta,
        Browser::Safari,
        Browser::Firefox,
        Browser::Zen,
        Browser::Edge,
        Browser::Opera,
        Browser::Vivaldi,
        Browser::Arc,
        Browser::Chromium,
        Browser::Sidekick,
        Browser::ChromeBeta,
    ]
}

/// Every compiled-in browser source, in registry order.
pub fn all_browsers() -> (v: Vec<Browser>)
    ensures
        v@ == all_browsers_seq(),
{
    let mut v: Vec<Browser> = Vec::new();
    v.push(Browser::Chrome);
    v.push(Browser::Brave);
    v.push(Browser::BraveBeta);
    v.push(Browser::Safari);
    v.push(Browser::Firefox);
    v.push(Browser::Zen);
    v.push(Browser::Edge);
    v.push(Browser::Opera);
    v.push(Browser::Vivaldi);
    v.push(Browser::Arc);
    v.push(Browser::Chromium);
    v.push(Browser::Sidekick);
    v.push(Browser::ChromeBeta);
    proof {
        assert(v@ =~= all_browsers_seq());
    }
    v
}

/// The sources a configuration enables, in registry order.
pub open spec fn spec_enabled_browsers(cfg: Config) -> Seq<Browser> {
    all_browsers_seq().filter(|b: Browser| spec_enabled(cfg, b))
}

/// The sources the configuration enables: a disabled source is omitted
/// entirely.
pub fn enabled_browsers(cfg: &Config) -> (v: Vec<Browser>)
    ensures
        v@ == spec_enabled_browsers(*cfg),
{
    let all = all_browsers();
    let n: usize = all.len();
    let mut v: Vec<Browser> = Vec::new();
    let mut i: usize = 0;
    while i < n
        invariant
            i <= n,
            n == all@.len(),
            all@ == all_browsers_seq(),
            v@ == all@.subrange(0, i as int).filter(|b: Browser| spec_enabled(*cfg, b)),
        decreases n - i,
    {
        let b = all[i];
        let ghost prefix = all@.subrange(0, i as int);
        let ghost newpref = all@.subrange(0, i + 1);
        proof {
            reveal_with_fuel(Seq::<Browser>::filter, 2);
            assert(newpref.drop_last() =~= prefix);
            assert(newpref.last() == b);
        }
        if b.is_enabled(cfg) {
            v.push(b);
        }
        proof {
            assert(v@ == newpref.filter(|b2: Browser| spec_enabled(*cfg, b2)));
        }
        i = i + 1;
    }
    proof {
        assert(all@.subrange(0, n as int) =~= all@);
    }
    v
}

/// With no source enabled the registry yields nothing, so the pipeline
/// produces an empty result set rather than an error.
pub proof fn lemma_no_enabled_no_sources(cfg: Config)
    requires
        forall|b: Browser| !spec_enabled(cfg, b),
    ensures
        spec_enabled_browsers(cfg) =~= Seq::<Browser>::empty(),
{
    let out = spec_enabled_browsers(cfg);
    if out.len() > 0 {
        all_browsers_seq().lemma_filter_pred(|b: Browser| spec_enabled(cfg, b), 0);
        assert(!spec_enabled(cfg, out[0]));
    }
}

} // verus!
