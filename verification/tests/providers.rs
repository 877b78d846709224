use wn_alerts::error::AppError;
use wn_alerts::providers::twilio::{incidents_from_api, TwilioIncident, TwilioProvider, TwilioUpdate};
use wn_alerts::providers::{airship, aws, azure, build_all, build_one, cloudflare, github, microsoft, okta};
use wn_alerts::providers::{url_setting_name, Provider, ProviderSetting};

fn expect_disallowed(result: Result<(), AppError>, expected_key: &str) {
    match result.unwrap_err() {
        AppError::InvalidConfig { key, value } => {
            assert_eq!(key, expected_key);
            assert!(value.contains("not in allowed domains"), "value={value}");
        }
        other => panic!("expected InvalidConfig, got {:?}", other),
    }
}

#[test]
fn aws_validates_allowed_domains() {
    assert!(aws::new("https://status.aws.amazon.com/rss/all.rss".into()).validate_feed_url().is_ok());
    assert!(aws::new("https://aws.amazon.com/rss/all.rss".into()).validate_feed_url().is_ok());
    assert!(aws::new("https://health.aws.amazon.com/rss".into()).validate_feed_url().is_ok());
}

#[test]
fn aws_rejects_disallowed_domains() {
    let provider = aws::new("https://evil.example.com/feed/".into());
    expect_disallowed(provider.validate_feed_url(), "PROVIDER_AWS_FEED_URL");
}

#[test]
fn azure_validates_allowed_domains() {
    assert!(azure::new("https://azure.status.microsoft/en-us/status/feed/".into()).validate_feed_url().is_ok());
    assert!(azure::new("https://status.azure.com/feed/".into()).validate_feed_url().is_ok());
    assert!(azure::new("https://status.microsoft.com/feed/".into()).validate_feed_url().is_ok());
}

#[test]
fn azure_rejects_disallowed_domains() {
    let provider = azure::new("https://evil.example.com/feed/".into());
    expect_disallowed(provider.validate_feed_url(), "PROVIDER_AZURE_FEED_URL");
}

#[test]
fn cloudflare_validates_allowed_domains() {
    assert!(cloudflare::new("https://www.cloudflarestatus.com/history.rss".into()).validate_feed_url().is_ok());
    assert!(cloudflare::new("https://cloudflarestatus.com/history.rss".into()).validate_feed_url().is_ok());
}

#[test]
fn cloudflare_rejects_disallowed_domains() {
    let provider = cloudflare::new("https://evil.example.com/feed/".into());
    expect_disallowed(provider.validate_feed_url(), "PROVIDER_CLOUDFLARE_FEED_URL");
}

#[test]
fn microsoft_validates_allowed_domain() {
    let provider = microsoft::new("https://status.microsoft.com/en-us/status/feed/".into());
    assert!(provider.validate_feed_url().is_ok());
}

#[test]
fn microsoft_rejects_disallowed_domains() {
    for url in &[
        "https://evil.example.com/feed/",
        "https://microsoft.com/feed/",
        "https://azure.status.microsoft/feed/",
        "https://arbitrary.microsoft.com/feed/",
    ] {
        let provider = microsoft::new(url.to_string());
        expect_disallowed(provider.validate_feed_url(), "PROVIDER_MICROSOFT_FEED_URL");
    }
}

#[test]
fn okta_validates_allowed_domain() {
    let provider = okta::new("https://status.okta.com/history.rss".into());
    assert!(provider.validate_feed_url().is_ok());
}

#[test]
fn okta_rejects_disallowed_domains() {
    let provider = okta::new("https://evil.example.com/feed/".into());
    expect_disallowed(provider.validate_feed_url(), "PROVIDER_OKTA_FEED_URL");
}

#[test]
fn feed_providers_carry_their_names() {
    assert_eq!(aws::new_unvalidated("u".into()).name(), "aws");
    assert_eq!(azure::new_unvalidated("u".into()).name(), "azure");
    assert_eq!(cloudflare::new_unvalidated("u".into()).name(), "cloudflare");
    assert_eq!(microsoft::new_unvalidated("u".into()).name(), "microsoft");
    assert_eq!(okta::new_unvalidated("u".into()).name(), "okta");
    assert!(azure::new_unvalidated("http://127.0.0.1/x".into()).validate_feed_url().is_ok());
}

fn update(id: &str, body: &str, status: &str, created_at: &str) -> TwilioUpdate {
    TwilioUpdate { id: id.into(), body: body.into(), status: status.into(), created_at: created_at.into() }
}

fn api_incident(id: &str, name: &str, impact: &str, shortlink: &str, updates: Vec<TwilioUpdate>) -> TwilioIncident {
    TwilioIncident {
        id: id.into(),
        name: name.into(),
        status: "investigating".into(),
        impact: impact.into(),
        shortlink: shortlink.into(),
        incident_updates: updates,
    }
}

#[test]
fn parse_empty_response() {
    assert!(incidents_from_api(&vec![]).is_empty());
}

#[test]
fn parse_incident_with_updates() {
    let incidents = incidents_from_api(&vec![api_incident(
        "cp306tmzcl0y",
        "Unplanned Database Outage",
        "major",
        "http://stspg.co/Q0E",
        vec![
            update("jdy3tw5mt5r5", "Our master database is experiencing issues.", "investigating", "2014-05-14T14:22:39.441-06:00"),
            update("abc123", "We have identified the root cause.", "identified", "2014-05-14T14:35:21.711-06:00"),
        ],
    )]);
    assert_eq!(incidents.len(), 2);

    assert_eq!(incidents[0].id, "twilio:cp306tmzcl0y:jdy3tw5mt5r5");
    assert_eq!(incidents[0].provider, "twilio");
    assert_eq!(incidents[0].title, "Unplanned Database Outage");
    assert!(incidents[0].description.contains("[major] [investigating]"));
    assert_eq!(
        incidents[0].description,
        "[major] [investigating] Our master database is experiencing issues."
    );
    assert_eq!(incidents[0].link, "http://stspg.co/Q0E");
    assert_eq!(incidents[0].occurred_at, "2014-05-14T14:22:39.441-06:00");

    assert_eq!(incidents[1].id, "twilio:cp306tmzcl0y:abc123");
    assert!(incidents[1].description.contains("[major] [identified]"));
}

#[test]
fn parse_incident_without_updates() {
    let incidents = incidents_from_api(&vec![api_incident("cp001", "SMS Delivery Delays", "minor", "http://stspg.co/ABCD", vec![])]);
    assert!(incidents.is_empty());
}

#[test]
fn parse_incident_with_missing_impact_field() {
    let incidents = incidents_from_api(&vec![api_incident(
        "cp002",
        "Voice Quality Issues",
        "",
        "http://stspg.co/EFGH",
        vec![update("upd001", "Investigating reports.", "investigating", "2024-01-01T00:00:00Z")],
    )]);
    assert_eq!(incidents.len(), 1);
    assert!(incidents[0].description.contains("[] [investigating]"));
}

#[test]
fn parse_multiple_incidents() {
    let incidents = incidents_from_api(&vec![
        api_incident(
            "cp010",
            "API Errors",
            "critical",
            "http://stspg.co/API",
            vec![update("upd010", "Investigating API errors in US1.", "investigating", "2024-06-01T10:00:00Z")],
        ),
        api_incident(
            "cp020",
            "Console Login Issues",
            "major",
            "http://stspg.co/CON",
            vec![
                update("upd020a", "Login page returning 503.", "investigating", "2024-06-01T11:00:00Z"),
                update("upd020b", "Mitigation deployed, monitoring.", "monitoring", "2024-06-01T11:30:00Z"),
            ],
        ),
    ]);
    assert_eq!(incidents.len(), 3);
    assert_eq!(incidents[0].id, "twilio:cp010:upd010");
    assert_eq!(incidents[1].id, "twilio:cp020:upd020a");
    assert_eq!(incidents[2].id, "twilio:cp020:upd020b");
}

#[test]
fn twilio_validates_allowed_domain() {
    let provider = TwilioProvider::new("https://status.twilio.com/api/v2/incidents.json".into());
    assert!(provider.validate_url().is_ok());
}

#[test]
fn validates_subdomain() {
    let provider = TwilioProvider::new("https://sub.status.twilio.com/api/v2/incidents.json".into());
    assert!(provider.validate_url().is_ok());
}

#[test]
fn twilio_rejects_disallowed_domains() {
    let provider = TwilioProvider::new("https://evil.example.com/api".into());
    expect_disallowed(provider.validate_url(), "PROVIDER_TWILIO_API_URL");
}

#[test]
fn twilio_rejects_private_ips() {
    let provider = TwilioProvider::new("http://127.0.0.1/api".into());
    assert!(provider.validate_url().is_err());

    let provider = TwilioProvider::new("http://10.0.0.1/api".into());
    assert!(provider.validate_url().is_err());
}

#[test]
fn twilio_rejects_invalid_schemes() {
    let provider = TwilioProvider::new("file:///etc/passwd".into());
    assert!(provider.validate_url().is_err());
}

#[test]
fn twilio_unvalidated_provider_skips_validation() {
    let provider = TwilioProvider::new_unvalidated("https://evil.com/api".into());
    assert!(provider.skip_validation());
    assert!(provider.check_url().is_ok());
    assert!(TwilioProvider::new("https://evil.com/api".into()).check_url().is_err());
}

fn setting(name: &str, url: Option<&str>) -> ProviderSetting {
    ProviderSetting { name: name.into(), url: url.map(|u| u.to_string()) }
}

#[test]
fn builds_providers_with_default_urls() {
    match build_one("azure", None).unwrap() {
        Provider::Rss(p) => {
            assert_eq!(p.name(), "azure");
            assert_eq!(p.feed_url(), "https://rssfeed.azure.status.microsoft/en-us/status/feed/");
            assert!(p.validate_feed_url().is_ok());
        }
        Provider::Twilio(_) => panic!("azure is a feed"),
    }
    match build_one("twilio", None).unwrap() {
        Provider::Twilio(t) => assert_eq!(t.api_url(), "https://status.twilio.com/api/v2/incidents.json"),
        Provider::Rss(_) => panic!("twilio is an API"),
    }
    match build_one("aws", Some("https://aws.amazon.com/x.rss".into())).unwrap() {
        Provider::Rss(p) => assert_eq!(p.feed_url(), "https://aws.amazon.com/x.rss"),
        Provider::Twilio(_) => panic!("aws is a feed"),
    }
    assert_eq!(build_one("cloudflare", None).unwrap().name(), "cloudflare");
}

#[test]
fn build_one_refuses_unknown_name() {
    match build_one("nonexistent", None) {
        Err(AppError::UnknownProvider(name)) => assert_eq!(name, "nonexistent"),
        Err(other) => panic!("expected UnknownProvider, got {:?}", other),
        Ok(_) => panic!("expected UnknownProvider"),
    }
}

#[test]
fn build_all_refuses_first_unknown_name() {
    let settings = vec![setting("azure", None), setting("bogus1", None), setting("bogus2", None)];
    match build_all(&settings) {
        Err(AppError::UnknownProvider(name)) => assert_eq!(name, "bogus1"),
        Err(other) => panic!("expected UnknownProvider, got {:?}", other),
        Ok(_) => panic!("expected UnknownProvider"),
    }
    let ok = build_all(&vec![setting("aws", None), setting("twilio", Some("https://status.twilio.com/x"))]).unwrap();
    assert_eq!(ok.len(), 2);
    assert_eq!(ok[0].name(), "aws");
    assert_eq!(ok[1].name(), "twilio");
}

#[test]
fn url_setting_names() {
    assert_eq!(url_setting_name("twilio"), "API_URL");
    assert_eq!(url_setting_name("azure"), "FEED_URL");
}

#[test]
fn github_and_airship_are_built_with_their_defaults() {
    match build_one("github", None).unwrap() {
        Provider::Rss(p) => {
            assert_eq!(p.name(), "github");
            assert_eq!(p.feed_url(), "https://www.githubstatus.com/history.rss");
            assert!(p.validate_feed_url().is_ok());
        }
        Provider::Twilio(_) => panic!("github is a feed"),
    }
    match build_one("airship", None).unwrap() {
        Provider::Rss(p) => {
            assert_eq!(p.name(), "airship");
            assert_eq!(p.feed_url(), "https://status.airship.com/rss");
            assert!(p.validate_feed_url().is_ok());
        }
        Provider::Twilio(_) => panic!("airship is a feed"),
    }
    let all = build_all(&vec![
        setting("azure", None),
        setting("aws", None),
        setting("twilio", None),
        setting("airship", None),
        setting("cloudflare", None),
        setting("github", None),
    ])
    .unwrap();
    let names: Vec<&str> = all.iter().map(|p| p.name()).collect();
    assert_eq!(names, vec!["azure", "aws", "twilio", "airship", "cloudflare", "github"]);
}

#[test]
fn github_and_airship_reject_other_hosts() {
    expect_disallowed(github::new("https://evil.example.com/feed/".into()).validate_feed_url(), "PROVIDER_GITHUB_FEED_URL");
    expect_disallowed(airship::new("https://evil.example.com/feed/".into()).validate_feed_url(), "PROVIDER_AIRSHIP_FEED_URL");
    assert!(github::new_unvalidated("http://127.0.0.1/x".into()).validate_feed_url().is_ok());
    assert_eq!(airship::new_unvalidated("u".into()).name(), "airship");
}
