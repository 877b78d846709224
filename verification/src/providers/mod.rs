//! Status providers and the choice of them from the configuration.
pub mod airship;
pub mod aws;
pub mod azure;
pub mod cloudflare;
pub mod github;
pub mod microsoft;
pub mod okta;
pub mod rss_common;
pub mod twilio;

use vstd::prelude::*;
use crate::config::value_or;
use crate::error::AppError;
use crate::utils::text::same_text;
use rss_common::RssProvider;
use twilio::TwilioProvider;

verus! {

/// A provider the monitor can poll.
pub enum Provider {
    /// One of the RSS feeds.
    Rss(RssProvider),
    /// Twilio's JSON incidents API.
    Twilio(TwilioProvider),
}

/// The URL a provider is polled at unless its URL setting overrides it;
/// `None` for a name that is no provider.
pub open spec fn default_url(name: Seq<char>) -> Option<Seq<char>> {
    if name == "azure"@ {
        Some("https://rssfeed.azure.status.microsoft/en-us/status/feed/"@)
    } else if name == "aws"@ {
        Some("https://status.aws.amazon.com/rss/all.rss"@)
    } else if name == "twilio"@ {
        Some("https://status.twilio.com/api/v2/incidents.json"@)
    } else if name == "airship"@ {
        Some("https://status.airship.com/rss"@)
    } else if name == "cloudflare"@ {
        Some("https://www.cloudflarestatus.com/history.rss"@)
    } else if name == "github"@ {
        Some("https://www.githubstatus.com/history.rss"@)
    } else {
        None
    }
}

/// The setting that overrides a provider's URL: `API_URL` for Twilio,
/// `FEED_URL` for the feeds.
pub open spec fn url_setting(name: Seq<char>) -> Seq<char> {
    if name == "twilio"@ {
        "API_URL"@
    } else {
        "FEED_URL"@
    }
}

/// The configuration key and the allowed hosts of a feed provider.
pub open spec fn feed_setup(name: Seq<char>) -> (Seq<char>, Seq<Seq<char>>) {
    if name == "azure"@ {
        (azure::CONFIG_KEY@, azure::domains())
    } else if name == "aws"@ {
        (aws::CONFIG_KEY@, aws::domains())
    } else if name == "airship"@ {
        (airship::CONFIG_KEY@, airship::domains())
    } else if name == "cloudflare"@ {
        (cloudflare::CONFIG_KEY@, cloudflare::domains())
    } else {
        (github::CONFIG_KEY@, github::domains())
    }
}

/// Whether `p` is the provider `name`, polling `url`, with URL validation on.
pub open spec fn is_provider(p: Provider, name: Seq<char>, url: Seq<char>) -> bool {
    match p {
        Provider::Twilio(t) => name == "twilio"@ && t.api_url_text() == url && !t.skips_validation(),
        Provider::Rss(q) => {
            &&& name != "twilio"@
            &&& q.name_text() == name
            &&& q.feed_url_text() == url
            &&& q.config_key_text() == feed_setup(name).0
            &&& q.allowed_texts() == feed_setup(name).1
            &&& !q.skips_validation()
            &&& q.dropped_texts().len() == 0
        },
    }
}

impl Provider {
    pub open spec fn name_text(&self) -> Seq<char> {
        match self {
            Provider::Rss(q) => q.name_text(),
            Provider::Twilio(t) => "twilio"@,
        }
    }

    /// The provider's name.
    pub fn name(&self) -> (n: &'static str)
        ensures
            n@ == self.name_text(),
    {
        match self {
            Provider::Rss(q) => q.name(),
            Provider::Twilio(t) => t.name(),
        }
    }
}

/// The name of the setting that overrides provider `name`'s URL.
pub fn url_setting_name(name: &str) -> (s: &'static str)
    ensures
        s@ == url_setting(name@),
{
    if same_text(name, "twilio") {
        "API_URL"
    } else {
        "FEED_URL"
    }
}

/// Builds provider `name`, polling `configured_url` when it is set and the
/// provider's default URL otherwise; an unknown name is refused.
pub fn build_one(name: &str, configured_url: Option<String>) -> (r: Result<Provider, AppError>)
    ensures
        match default_url(name@) {
            None => r matches Err(AppError::UnknownProvider(n)) && n@ == name@,
            Some(d) => r matches Ok(p) && is_provider(p, name@, value_or(configured_url, d)),
        },
{
    proof {
        reveal_strlit("azure");
        reveal_strlit("aws");
        reveal_strlit("twilio");
        reveal_strlit("airship");
        reveal_strlit("cloudflare");
        reveal_strlit("github");
    }
    if same_text(name, "azure") {
        let url = match configured_url {
            Some(u) => u,
            None => "https://rssfeed.azure.status.microsoft/en-us/status/feed/".to_owned(),
        };
        let q = azure::new(url);
        assert(q.name_text() == name@);
        assert(q.feed_url_text() == value_or(configured_url, default_url(name@).unwrap()));
        assert(q.config_key_text() == feed_setup(name@).0);
        assert(q.allowed_texts() == feed_setup(name@).1);
        assert(is_provider(Provider::Rss(q), name@, value_or(configured_url, default_url(name@).unwrap())));
        Ok(Provider::Rss(q))
    } else if same_text(name, "aws") {
        let url = match configured_url {
            Some(u) => u,
            None => "https://status.aws.amazon.com/rss/all.rss".to_owned(),
        };
        let q = aws::new(url);
        assert(q.name_text() == name@);
        assert(q.feed_url_text() == value_or(configured_url, default_url(name@).unwrap()));
        assert(q.config_key_text() == feed_setup(name@).0);
        assert(q.allowed_texts() == feed_setup(name@).1);
        assert(is_provider(Provider::Rss(q), name@, value_or(configured_url, default_url(name@).unwrap())));
        Ok(Provider::Rss(q))
    } else if same_text(name, "twilio") {
        let url = match configured_url {
            Some(u) => u,
            None => "https://status.twilio.com/api/v2/incidents.json".to_owned(),
        };
        let t = TwilioProvider::new(url);
        assert(is_provider(Provider::Twilio(t), name@, value_or(configured_url, default_url(name@).unwrap())));
        Ok(Provider::Twilio(t))
    } else if same_text(name, "airship") {
        let url = match configured_url {
            Some(u) => u,
            None => "https://status.airship.com/rss".to_owned(),
        };
        let q = airship::new(url);
        assert(q.name_text() == name@);
        assert(q.feed_url_text() == value_or(configured_url, default_url(name@).unwrap()));
        assert(q.config_key_text() == feed_setup(name@).0);
        assert(q.allowed_texts() == feed_setup(name@).1);
        assert(is_provider(Provider::Rss(q), name@, value_or(configured_url, default_url(name@).unwrap())));
        Ok(Provider::Rss(q))
    } else if same_text(name, "cloudflare") {
        let url = match configured_url {
            Some(u) => u,
            None => "https://www.cloudflarestatus.com/history.rss".to_owned(),
        };
        let q = cloudflare::new(url);
        assert(q.name_text() == name@);
        assert(q.feed_url_text() == value_or(configured_url, default_url(name@).unwrap()));
        assert(q.config_key_text() == feed_setup(name@).0);
        assert(q.allowed_texts() == feed_setup(name@).1);
        assert(is_provider(Provider::Rss(q), name@, value_or(configured_url, default_url(name@).unwrap())));
        Ok(Provider::Rss(q))
    } else if same_text(name, "github") {
        let url = match configured_url {
            Some(u) => u,
            None => "https://www.githubstatus.com/history.rss".to_owned(),
        };
        let q = github::new(url);
        assert(q.name_text() == name@);
        assert(q.feed_url_text() == value_or(configured_url, default_url(name@).unwrap()));
        assert(q.config_key_text() == feed_setup(name@).0);
        assert(q.allowed_texts() == feed_setup(name@).1);
        assert(is_provider(Provider::Rss(q), name@, value_or(configured_url, default_url(name@).unwrap())));
        Ok(Provider::Rss(q))
    } else {
        assert(default_url(name@) is None);
        Err(AppError::UnknownProvider(name.to_owned()))
    }
}

/// One enabled provider: its name and the value of its URL setting.
pub struct ProviderSetting {
    pub name: String,
    pub url: Option<String>,
}

/// Whether every setting names a provider.
pub open spec fn all_known(settings: Seq<ProviderSetting>) -> bool {
    forall|i: int| 0 <= i < settings.len() ==> default_url(#[trigger] settings[i].name@) is Some
}

/// Whether `e` refuses the first setting that names no provider.
pub open spec fn refuses_first_unknown(e: AppError, settings: Seq<ProviderSetting>) -> bool {
    exists|k: int|
        {
            &&& 0 <= k < settings.len()
            &&& default_url(#[trigger] settings[k].name@) is None
            &&& forall|j: int| 0 <= j < k ==> default_url(#[trigger] settings[j].name@) is Some
            &&& e matches AppError::UnknownProvider(n) && n@ == settings[k].name@
        }
}

/// Whether `v` holds, in order, the providers the settings describe.
pub open spec fn are_providers(v: Seq<Provider>, settings: Seq<ProviderSetting>) -> bool {
    &&& v.len() == settings.len()
    &&& forall|i: int|
        0 <= i < settings.len() ==> is_provider(
            #[trigger] v[i],
            settings[i].name@,
            value_or(settings[i].url, default_url(settings[i].name@).unwrap()),
        )
}

/// Builds every enabled provider, in order; the first unknown name is
/// refused.
pub fn build_all(settings: &Vec<ProviderSetting>) -> (r: Result<Vec<Provider>, AppError>)
    ensures
        r is Ok <==> all_known(settings@),
        r matches Ok(v) ==> are_providers(v@, settings@),
        r matches Err(e) ==> refuses_first_unknown(e, settings@),
{
    let mut out: Vec<Provider> = Vec::new();
    let mut i: usize = 0;
    while i < settings.len()
        invariant
            0 <= i <= settings@.len(),
            out@.len() == i,
            forall|j: int| 0 <= j < i ==> default_url(#[trigger] settings@[j].name@) is Some,
            forall|j: int|
                0 <= j < i ==> is_provider(
                    #[trigger] out@[j],
                    settings@[j].name@,
                    value_or(settings@[j].url, default_url(settings@[j].name@).unwrap()),
                ),
        decreases settings.len() - i,
    {
        let s = &settings[i];
        match build_one(s.name.as_str(), s.url.clone()) {
            Ok(p) => {
                out.push(p);
            },
            Err(e) => {
                assert(default_url(settings@[i as int].name@) is None);
                return Err(e);
            },
        }
        i += 1;
    }
    Ok(out)
}

} // verus!
