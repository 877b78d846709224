//! The azure status feed.
use vstd::prelude::*;
use super::rss_common::{texts_of, RssProvider};

verus! {

/// Hosts the feed may be served from; subdomains of each are allowed too.
pub open spec fn domains() -> Seq<Seq<char>> {
    seq!["azure.status.microsoft"@, "status.azure.com"@, "status.microsoft.com"@]
}

/// The hosts of `domains`.
pub fn allowed_domains() -> (d: &'static [&'static str])
    ensures
        texts_of(d@) == domains(),
{
    let d: &'static [&'static str] = &[
        "azure.status.microsoft",
        "status.azure.com",
        "status.microsoft.com",
    ];
    assert(texts_of(d@) =~= domains());
    d
}

pub const CONFIG_KEY: &'static str = "PROVIDER_AZURE_FEED_URL";

/// The provider, with its feed URL validated before every fetch.
pub fn new(feed_url: String) -> (p: RssProvider)
    ensures
        p.name_text() == "azure"@,
        p.feed_url_text() == feed_url@,
        p.config_key_text() == CONFIG_KEY@,
        p.allowed_texts() == domains(),
        !p.skips_validation(),
        p.dropped_texts().len() == 0,
{
    RssProvider::new("azure", feed_url, CONFIG_KEY, allowed_domains())
}

/// The provider without URL validation.
pub fn new_unvalidated(feed_url: String) -> (p: RssProvider)
    ensures
        p.name_text() == "azure"@,
        p.feed_url_text() == feed_url@,
        p.config_key_text() == CONFIG_KEY@,
        p.allowed_texts() == domains(),
        p.skips_validation(),
        p.dropped_texts().len() == 0,
{
    RssProvider::new_unvalidated("azure", feed_url, CONFIG_KEY, allowed_domains())
}

} // verus!
