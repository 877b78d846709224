//! Errors the library reports.
use vstd::prelude::*;

verus! {

/// The error type of the `rss` crate, carried through unchanged.
#[verifier::external_type_specification]
#[verifier::external_body]
pub struct ExRssError(rss::Error);

/// Why a configuration, a provider or a feed was refused.
#[derive(Debug)]
pub enum AppError {
    /// The RSS feed could not be parsed.
    Rss(rss::Error),
    /// The Telegram API answered with a status outside 200..=299.
    TelegramApi { status: u16, body: String },
    /// A configuration value is out of range or malformed.
    InvalidConfig { key: &'static str, value: String },
    /// A required configuration key is not set.
    MissingConfig(&'static str),
    /// The configuration names a provider that does not exist.
    UnknownProvider(String),
    /// The configuration names a notifier that does not exist.
    UnknownNotifier(String),
    /// No provider is enabled.
    NoProvidersEnabled,
    /// No notifier is enabled.
    NoNotifiersEnabled,
}

} // verus!
