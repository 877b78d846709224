use wn_alerts::config::{
    notifier_param_key, parse_env_list, parse_env_u32, parse_env_u64, provider_param_key, Config,
    ConfigBuilder, EnvValues, MAX_POLL_INTERVAL_MINUTES, MAX_REQUEST_TIMEOUT_SECS,
};
use wn_alerts::utils::text::parse_unsigned;
use wn_alerts::error::AppError;

#[test]
fn builder_defaults() {
    let config = ConfigBuilder::new().build().unwrap();
    assert_eq!(config.poll_interval_minutes, 5);
    assert_eq!(config.request_timeout_secs, 30);
    assert_eq!(config.state_file_path, "state.json");
    assert_eq!(config.enabled_providers, vec!["azure"]);
    assert_eq!(config.enabled_notifiers, vec!["telegram"]);
}

#[test]
fn builder_custom_values() {
    let config = ConfigBuilder::new()
        .poll_interval(10)
        .request_timeout(45)
        .providers(vec!["azure".into(), "aws".into()])
        .notifiers(vec!["telegram".into()])
        .build()
        .unwrap();

    assert_eq!(config.poll_interval_minutes, 10);
    assert_eq!(config.request_timeout_secs, 45);
    assert_eq!(config.enabled_providers, vec!["azure", "aws"]);
}

#[test]
fn builder_rejects_zero_poll_interval() {
    let result = ConfigBuilder::new().poll_interval(0).build();
    assert!(result.is_err());
    match result.unwrap_err() {
        AppError::InvalidConfig { key: "POLL_INTERVAL_MINUTES", .. } => {}
        other => panic!("expected InvalidConfig, got {:?}", other),
    }
}

#[test]
fn builder_rejects_zero_timeout() {
    let result = ConfigBuilder::new().request_timeout(0).build();
    assert!(result.is_err());
    match result.unwrap_err() {
        AppError::InvalidConfig { key: "REQUEST_TIMEOUT_SECS", .. } => {}
        other => panic!("expected InvalidConfig, got {:?}", other),
    }
}

#[test]
fn builder_empty_providers_allowed() {
    let config = ConfigBuilder::new().providers(vec![]).build().unwrap();
    assert!(config.enabled_providers.is_empty());
}

#[test]
fn builder_empty_notifiers_allowed() {
    let config = ConfigBuilder::new().notifiers(vec![]).build().unwrap();
    assert!(config.enabled_notifiers.is_empty());
}

#[test]
fn builder_rejects_oversized_poll_interval() {
    let result = ConfigBuilder::new().poll_interval(MAX_POLL_INTERVAL_MINUTES + 1).build();
    match result.unwrap_err() {
        AppError::InvalidConfig { key: "POLL_INTERVAL_MINUTES", .. } => {}
        other => panic!("expected InvalidConfig, got {:?}", other),
    }
}

#[test]
fn builder_accepts_max_poll_interval() {
    let config = ConfigBuilder::new().poll_interval(MAX_POLL_INTERVAL_MINUTES).build().unwrap();
    assert_eq!(config.poll_interval_minutes, MAX_POLL_INTERVAL_MINUTES);
}

#[test]
fn builder_rejects_oversized_timeout() {
    let result = ConfigBuilder::new().request_timeout(MAX_REQUEST_TIMEOUT_SECS + 1).build();
    match result.unwrap_err() {
        AppError::InvalidConfig { key: "REQUEST_TIMEOUT_SECS", .. } => {}
        other => panic!("expected InvalidConfig, got {:?}", other),
    }
}

#[test]
fn builder_accepts_max_timeout() {
    let config = ConfigBuilder::new().request_timeout(MAX_REQUEST_TIMEOUT_SECS).build().unwrap();
    assert_eq!(config.request_timeout_secs, MAX_REQUEST_TIMEOUT_SECS);
}

#[test]
fn builder_error_messages_name_the_limit() {
    match ConfigBuilder::new().poll_interval(2000).build().unwrap_err() {
        AppError::InvalidConfig { key, value } => {
            assert_eq!(key, "POLL_INTERVAL_MINUTES");
            assert_eq!(value, "2000 (max 1440)");
        }
        other => panic!("expected InvalidConfig, got {:?}", other),
    }
    match ConfigBuilder::new().request_timeout(0).build().unwrap_err() {
        AppError::InvalidConfig { value, .. } => assert_eq!(value, "0"),
        other => panic!("expected InvalidConfig, got {:?}", other),
    }
    match ConfigBuilder::new().poll_interval(0).request_timeout(0).build().unwrap_err() {
        AppError::InvalidConfig { key, .. } => assert_eq!(key, "POLL_INTERVAL_MINUTES"),
        other => panic!("expected InvalidConfig, got {:?}", other),
    }
}

#[test]
fn builder_carries_backoff_settings() {
    let config = ConfigBuilder::new()
        .failure_threshold(Some(3))
        .backoff_max_cycles(16)
        .state_file("s.json".to_string())
        .build()
        .unwrap();
    assert_eq!(config.failure_threshold, Some(3));
    assert_eq!(config.backoff_max_cycles, 16);
    assert_eq!(config.state_file_path, "s.json");
    let default = ConfigBuilder::default().build().unwrap();
    assert_eq!(default.failure_threshold, None);
    assert_eq!(default.backoff_max_cycles, 32);
}

fn some(s: &str) -> Option<String> {
    Some(s.to_string())
}

#[test]
fn from_env_defaults() {
    let config = Config::from_env(&EnvValues::default()).unwrap();
    assert_eq!(config.poll_interval_minutes, 5);
    assert_eq!(config.request_timeout_secs, 30);
    assert_eq!(config.state_file_path, "state.json");
    assert_eq!(config.enabled_providers, vec!["azure"]);
    assert_eq!(config.enabled_notifiers, vec!["telegram"]);
    assert_eq!(config.failure_threshold, None);
    assert_eq!(config.backoff_max_cycles, 32);
}

#[test]
fn from_env_reads_every_variable() {
    let env = EnvValues {
        poll_interval_minutes: some("10"),
        request_timeout_secs: some("+45"),
        providers: some(" Azure, aws ,,GitHub "),
        notifiers: some("TELEGRAM"),
        state_file_path: some("/var/lib/wn/state.json"),
        failure_threshold: some("3"),
        backoff_max_cycles: some("16"),
    };
    let config = Config::from_env(&env).unwrap();
    assert_eq!(config.poll_interval_minutes, 10);
    assert_eq!(config.request_timeout_secs, 45);
    assert_eq!(config.enabled_providers, vec!["azure", "aws", "github"]);
    assert_eq!(config.enabled_notifiers, vec!["telegram"]);
    assert_eq!(config.state_file_path, "/var/lib/wn/state.json");
    assert_eq!(config.failure_threshold, Some(3));
    assert_eq!(config.backoff_max_cycles, 16);
}

#[test]
fn from_env_refuses_unreadable_numbers() {
    let env = EnvValues { poll_interval_minutes: some("five"), ..EnvValues::default() };
    match Config::from_env(&env).unwrap_err() {
        AppError::InvalidConfig { key, value } => {
            assert_eq!(key, "POLL_INTERVAL_MINUTES");
            assert_eq!(value, "five");
        }
        other => panic!("expected InvalidConfig, got {:?}", other),
    }
    let env = EnvValues { request_timeout_secs: some("-1"), ..EnvValues::default() };
    assert!(matches!(
        Config::from_env(&env),
        Err(AppError::InvalidConfig { key: "REQUEST_TIMEOUT_SECS", .. })
    ));
    let env = EnvValues { failure_threshold: some(""), ..EnvValues::default() };
    assert!(matches!(
        Config::from_env(&env),
        Err(AppError::InvalidConfig { key: "PROVIDER_FAILURE_THRESHOLD", .. })
    ));
    let env = EnvValues { backoff_max_cycles: some("4294967296"), ..EnvValues::default() };
    assert!(matches!(
        Config::from_env(&env),
        Err(AppError::InvalidConfig { key: "PROVIDER_BACKOFF_MAX_CYCLES", .. })
    ));
}

#[test]
fn from_env_applies_range_checks() {
    let env = EnvValues { poll_interval_minutes: some("0"), ..EnvValues::default() };
    assert!(matches!(
        Config::from_env(&env),
        Err(AppError::InvalidConfig { key: "POLL_INTERVAL_MINUTES", .. })
    ));
    let env = EnvValues { request_timeout_secs: some("301"), ..EnvValues::default() };
    match Config::from_env(&env).unwrap_err() {
        AppError::InvalidConfig { key, value } => {
            assert_eq!(key, "REQUEST_TIMEOUT_SECS");
            assert_eq!(value, "301 (max 300)");
        }
        other => panic!("expected InvalidConfig, got {:?}", other),
    }
}

#[test]
fn parse_env_u64_uses_default_when_unset() {
    assert_eq!(parse_env_u64("K", &None, "5").unwrap(), 5);
    assert_eq!(parse_env_u64("K", &some("18446744073709551615"), "5").unwrap(), u64::MAX);
    match parse_env_u64("K", &some("18446744073709551616"), "5").unwrap_err() {
        AppError::InvalidConfig { key, value } => {
            assert_eq!(key, "K");
            assert_eq!(value, "18446744073709551616");
        }
        other => panic!("expected InvalidConfig, got {:?}", other),
    }
    assert!(parse_env_u64("K", &some(" 5"), "5").is_err());
    assert!(parse_env_u64("K", &some("+"), "5").is_err());
    assert_eq!(parse_env_u32("K", &some("4294967295"), "1").unwrap(), u32::MAX);
}

#[test]
fn parse_unsigned_matches_std() {
    for s in ["0", "007", "+12", "", "+", "-3", "1_000", "12a", "99999999999999999999"] {
        assert_eq!(parse_unsigned(s, u64::MAX), s.parse::<u64>().ok(), "input {s:?}");
        assert_eq!(parse_unsigned(s, u32::MAX as u64), s.parse::<u32>().ok().map(u64::from), "input {s:?}");
    }
}

#[test]
fn parse_env_list_trims_lowercases_and_drops_empty() {
    assert_eq!(parse_env_list(&None, "azure"), vec!["azure"]);
    assert_eq!(parse_env_list(&some(""), "azure"), Vec::<String>::new());
    assert_eq!(parse_env_list(&some(" , ,"), "azure"), Vec::<String>::new());
    assert_eq!(parse_env_list(&some("AWS,Twilio "), "azure"), vec!["aws", "twilio"]);
}

#[test]
fn provider_param_key_uppercases_name() {
    assert_eq!(provider_param_key("myprovider", "API_URL"), "PROVIDER_MYPROVIDER_API_URL");
    assert_eq!(provider_param_key("testprovider", "FEED_URL"), "PROVIDER_TESTPROVIDER_FEED_URL");
}

#[test]
fn notifier_param_keys() {
    assert_eq!(notifier_param_key("testnotifier", "BOT_TOKEN"), "NOTIFIER_TESTNOTIFIER_BOT_TOKEN");
    assert_eq!(notifier_param_key("absent_notifier", "CHAT_ID"), "NOTIFIER_ABSENT_NOTIFIER_CHAT_ID");
}
