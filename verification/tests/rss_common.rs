use wn_alerts::error::AppError;
use wn_alerts::providers::rss_common::{
    extract_item_statuses, inner_text, parse_incidents_from_bytes, RssProvider, MAX_FEED_SIZE,
};

#[test]
fn parse_empty_feed() {
    let xml = br#"<?xml version="1.0"?><rss version="2.0"><channel><title>Test Status</title></channel></rss>"#;
    let incidents = parse_incidents_from_bytes(xml, "test", &[]).unwrap();
    assert!(incidents.is_empty());
}

#[test]
fn parse_feed_with_items() {
    let xml = br#"<?xml version="1.0"?>
<rss version="2.0">
  <channel>
    <title>Test Status</title>
    <item>
      <title>Service Degraded</title>
      <description>Investigating in East US</description>
      <link>https://status.example.com/abc</link>
      <guid>tc-001</guid>
      <pubDate>Thu, 21 May 2026 18:00:00 GMT</pubDate>
    </item>
    <item>
      <title>Service Outage</title>
      <description>West Europe down</description>
      <link>https://status.example.com/def</link>
      <guid>tc-002</guid>
      <pubDate>Thu, 21 May 2026 19:00:00 GMT</pubDate>
    </item>
  </channel>
</rss>"#;

    let incidents = parse_incidents_from_bytes(xml, "test", &[]).unwrap();
    assert_eq!(incidents.len(), 2);
    assert_eq!(incidents[0].id, "tc-001");
    assert_eq!(incidents[0].title, "Service Degraded");
    assert_eq!(incidents[0].provider, "test");
    assert_eq!(incidents[1].id, "tc-002");
    assert_eq!(incidents[1].provider, "test");
}

#[test]
fn parse_item_with_minimal_fields() {
    let xml = br#"<?xml version="1.0"?>
<rss version="2.0">
  <channel>
    <item>
      <title>Minimal</title>
      <guid>min-1</guid>
    </item>
  </channel>
</rss>"#;
    let incidents = parse_incidents_from_bytes(xml, "test", &[]).unwrap();
    assert_eq!(incidents.len(), 1);
    assert_eq!(incidents[0].description, "");
    assert_eq!(incidents[0].link, "");
    assert_eq!(incidents[0].occurred_at, "");
}

#[test]
fn rss_common_parse_garbage_bytes() {
    assert!(parse_incidents_from_bytes(b"not xml", "test", &[]).is_err());
}

const MS_PLACEHOLDER_XML: &[u8] = br#"<?xml version="1.0" encoding="utf-8"?>
<rss xmlns:a10="http://www.w3.org/2005/Atom" version="2.0">
  <channel>
    <title>Microsoft Admin Center Status</title>
    <item>
      <guid isPermaLink="false">a9497817-89ce-4788-b14a-555c2ff9b93b</guid>
      <link>https://status.cloud.microsoft/</link>
      <title>Microsoft Admin Center</title>
      <description>&lt;div&gt;This site is updated when service issues...&lt;/div&gt;</description>
      <pubDate>Mon, 01 Jun 2026 13:15:00 Z</pubDate>
      <status>Available</status>
    </item>
  </channel>
</rss>"#;

#[test]
fn drops_items_with_healthy_status() {
    let incidents =
        parse_incidents_from_bytes(MS_PLACEHOLDER_XML, "microsoft_mac", &["Available"]).unwrap();
    assert!(incidents.is_empty(), "the Available placeholder must be filtered out");
}

#[test]
fn status_filter_is_case_insensitive() {
    let incidents =
        parse_incidents_from_bytes(MS_PLACEHOLDER_XML, "microsoft_mac", &["available"]).unwrap();
    assert!(incidents.is_empty());
}

#[test]
fn keeps_placeholder_when_no_drop_list() {
    let incidents = parse_incidents_from_bytes(MS_PLACEHOLDER_XML, "microsoft_mac", &[]).unwrap();
    assert_eq!(incidents.len(), 1);
}

#[test]
fn keeps_non_healthy_status_items() {
    let xml = br#"<?xml version="1.0" encoding="utf-8"?>
<rss version="2.0">
  <channel>
    <item>
      <guid isPermaLink="false">incident-42</guid>
      <title>Service degradation in West US</title>
      <description>Investigating</description>
      <pubDate>Mon, 01 Jun 2026 14:00:00 Z</pubDate>
      <status>Information</status>
    </item>
  </channel>
</rss>"#;
    let incidents = parse_incidents_from_bytes(xml, "microsoft_mac", &["Available"]).unwrap();
    assert_eq!(incidents.len(), 1);
    assert_eq!(incidents[0].id, "incident-42");
}

#[test]
fn mixed_feed_drops_only_healthy_items() {
    let xml = br#"<?xml version="1.0" encoding="utf-8"?>
<rss version="2.0">
  <channel>
    <item>
      <guid isPermaLink="false">placeholder</guid>
      <title>Power Platform Admin Center</title>
      <description>boilerplate</description>
      <status>Available</status>
    </item>
    <item>
      <guid isPermaLink="false">real-incident</guid>
      <title>Outage</title>
      <description>Identified</description>
      <status>Warning</status>
    </item>
  </channel>
</rss>"#;
    let incidents = parse_incidents_from_bytes(xml, "microsoft_ppac", &["Available"]).unwrap();
    assert_eq!(incidents.len(), 1);
    assert_eq!(incidents[0].id, "real-incident");
}

#[test]
fn item_without_status_is_kept_even_with_drop_list() {
    let xml = br#"<?xml version="1.0" encoding="utf-8"?>
<rss version="2.0">
  <channel>
    <item>
      <guid>no-status</guid>
      <title>Something</title>
    </item>
  </channel>
</rss>"#;
    let incidents = parse_incidents_from_bytes(xml, "test", &["Available"]).unwrap();
    assert_eq!(incidents.len(), 1);
}

#[test]
fn items_without_guid_or_title_are_skipped() {
    let xml = br#"<?xml version="1.0"?>
<rss version="2.0">
  <channel>
    <item><title>No guid</title></item>
    <item><guid>no-title</guid></item>
    <item><title>Kept</title><guid>kept-1</guid><description>d</description></item>
  </channel>
</rss>"#;
    let incidents = parse_incidents_from_bytes(xml, "test", &[]).unwrap();
    assert_eq!(incidents.len(), 1);
    assert_eq!(incidents[0].id, "kept-1");
    assert_eq!(incidents[0].description, "d");
}

#[test]
fn extracts_statuses_per_guid() {
    let xml = r#"<item><guid isPermaLink="false"> g1 </guid><status>Available</status></item>
<item><guid>g2</guid></item><item><guid>g3</guid><status> Warning </status></item>"#;
    let statuses = extract_item_statuses(xml);
    assert_eq!(
        statuses,
        vec![("g1".to_string(), "Available".to_string()), ("g3".to_string(), "Warning".to_string())]
    );
}

#[test]
fn inner_text_tolerates_attributes_and_trims() {
    assert_eq!(inner_text(r#"<guid isPermaLink="false"> abc </guid>"#, "guid"), Some("abc".to_string()));
    assert_eq!(inner_text("<title>x</title>", "guid"), None);
    assert_eq!(inner_text("<guid>open", "guid"), None);
}

const TEST_DOMAINS: &[&str] = &["status.example.com", "example.com"];

fn make_provider(url: &str) -> RssProvider {
    RssProvider::new("test", url.into(), "PROVIDER_TEST_FEED_URL", TEST_DOMAINS)
}

#[test]
fn rss_common_validates_allowed_domains() {
    let provider = make_provider("https://status.example.com/feed/");
    assert!(provider.validate_feed_url().is_ok());

    let provider = make_provider("https://example.com/feed/");
    assert!(provider.validate_feed_url().is_ok());

    let provider = make_provider("https://sub.example.com/feed/");
    assert!(provider.validate_feed_url().is_ok());
}

#[test]
fn rss_common_rejects_disallowed_domains() {
    let provider = make_provider("https://evil.example.org/feed/");
    let result = provider.validate_feed_url();
    assert!(result.is_err());
    match result.unwrap_err() {
        AppError::InvalidConfig { key, value } => {
            assert_eq!(key, "PROVIDER_TEST_FEED_URL");
            assert!(value.contains("not in allowed domains"));
        }
        other => panic!("expected InvalidConfig, got {:?}", other),
    }
}

#[test]
fn rss_common_rejects_private_ips() {
    for url in &["http://127.0.0.1/feed", "http://192.168.1.1/feed", "http://10.0.0.1/feed"] {
        let provider = make_provider(url);
        assert!(provider.validate_feed_url().is_err());
    }
}

#[test]
fn allowed_private_address_is_still_refused() {
    const PRIVATE: &[&str] = &["192.168.1.1", "127.0.0.1"];
    for url in &["http://192.168.1.1/feed", "http://127.0.0.1/feed"] {
        let provider = RssProvider::new("test", url.to_string(), "PROVIDER_TEST_FEED_URL", PRIVATE);
        match provider.validate_feed_url().unwrap_err() {
            AppError::InvalidConfig { value, .. } => {
                assert_eq!(value, format!("{} (private/internal IP not allowed)", url));
            }
            other => panic!("expected InvalidConfig, got {:?}", other),
        }
    }
    let public = RssProvider::new("test", "http://8.8.8.8/feed".into(), "K", &["8.8.8.8"]);
    assert!(public.validate_feed_url().is_ok());
}

#[test]
fn allowed_ipv6_loopback_and_unspecified_are_refused() {
    const LOCAL: &[&str] = &["[::1]", "[::]"];
    for url in &["http://[::1]/feed", "http://[::]/feed", "http://[0:0:0:0:0:0:0:1]:8080/feed"] {
        let provider = RssProvider::new("test", url.to_string(), "PROVIDER_TEST_FEED_URL", LOCAL);
        match provider.validate_feed_url().unwrap_err() {
            AppError::InvalidConfig { key, value } => {
                assert_eq!(key, "PROVIDER_TEST_FEED_URL");
                assert_eq!(value, format!("{} (private/internal IP not allowed)", url));
            }
            other => panic!("expected InvalidConfig, got {:?}", other),
        }
    }
    let public = RssProvider::new("test", "https://[2001:db8::1]/feed".into(), "K", &["[2001:db8::1]"]);
    assert!(public.validate_feed_url().is_ok());
    let not_loopback = RssProvider::new("test", "http://[::2]/feed".into(), "K", &["[::2]"]);
    assert!(not_loopback.validate_feed_url().is_ok());
}

#[test]
fn rss_common_rejects_invalid_schemes() {
    let provider = make_provider("file:///etc/passwd");
    let result = provider.validate_feed_url();
    assert!(result.is_err());
    match result.unwrap_err() {
        AppError::InvalidConfig { value, .. } => {
            assert!(value.contains("invalid scheme"));
            assert_eq!(value, "file:///etc/passwd (invalid scheme: file)");
        }
        other => panic!("expected InvalidConfig, got {:?}", other),
    }
}

#[test]
fn rejects_malformed_urls() {
    let provider = make_provider("not a url");
    let result = provider.validate_feed_url();
    assert!(result.is_err());
    match result.unwrap_err() {
        AppError::InvalidConfig { value, .. } => assert!(value.starts_with("not a url (parse error: ")),
        other => panic!("expected InvalidConfig, got {:?}", other),
    }
}

#[test]
fn disallowed_domain_message_lists_the_allow_list() {
    let provider = make_provider("https://evil.example.org/feed/");
    match provider.validate_feed_url().unwrap_err() {
        AppError::InvalidConfig { value, .. } => assert_eq!(
            value,
            "https://evil.example.org/feed/ (host 'evil.example.org' not in allowed domains: [\"status.example.com\", \"example.com\"])"
        ),
        other => panic!("expected InvalidConfig, got {:?}", other),
    }
}

#[test]
fn rss_common_unvalidated_provider_skips_validation() {
    let provider = RssProvider::new_unvalidated(
        "test",
        "http://127.0.0.1:8080/feed".into(),
        "PROVIDER_TEST_FEED_URL",
        TEST_DOMAINS,
    );
    assert!(provider.validate_feed_url().is_ok());
}

#[test]
fn rejects_redirect_response() {
    let provider = make_provider("https://status.example.com/feed/");
    match provider.check_response(Some("301 Moved Permanently"), None).unwrap_err() {
        AppError::InvalidConfig { key, value } => {
            assert_eq!(key, "PROVIDER_TEST_FEED_URL");
            assert_eq!(
                value,
                "https://status.example.com/feed/ returned 301 Moved Permanently — redirects are not followed"
            );
        }
        other => panic!("expected InvalidConfig, got {:?}", other),
    }
}

#[test]
fn rejects_oversized_declared_length() {
    let provider = make_provider("https://status.example.com/feed/");
    let too_big = (MAX_FEED_SIZE + 1) as u64;
    match provider.check_response(None, Some(too_big)).unwrap_err() {
        AppError::InvalidConfig { value, .. } => assert_eq!(
            value,
            format!("https://status.example.com/feed/ response too large: {} bytes", too_big)
        ),
        other => panic!("expected InvalidConfig, got {:?}", other),
    }
    assert!(provider.check_response(None, Some(MAX_FEED_SIZE as u64)).is_ok());
    assert!(provider.check_response(None, None).is_ok());
}

#[test]
fn rejects_oversized_body() {
    let provider = make_provider("https://status.example.com/feed/");
    let body = vec![0u8; MAX_FEED_SIZE + 1];
    match provider.incidents_from_body(&body).unwrap_err() {
        AppError::InvalidConfig { key, value } => {
            assert_eq!(key, "PROVIDER_TEST_FEED_URL");
            assert!(value.contains("response too large"));
        }
        other => panic!("expected InvalidConfig, got {:?}", other),
    }
}

#[test]
fn body_within_limit_is_parsed() {
    let provider = make_provider("https://status.example.com/feed/");
    let xml = br#"<rss version="2.0"><channel><item><title>T</title><guid>g</guid></item></channel></rss>"#;
    let incidents = provider.incidents_from_body(xml).unwrap();
    assert_eq!(incidents.len(), 1);
    assert_eq!(incidents[0].provider, "test");
    assert!(matches!(provider.incidents_from_body(b"garbage"), Err(AppError::Rss(_))));
}
