//! Monitor configuration: a validating builder and the parsing of the
//! environment values it is read from.
use vstd::prelude::*;
use crate::error::AppError;
use crate::utils::text::{
    chars_of, comma_pieces, decimal, format_decimal, lowercased, parse_unsigned, parsed_unsigned,
    split_commas, string_from_chars, to_lowercase_string, to_uppercase_string, trim, trim_chars,
    uppercased,
};

verus! {

/// Longest poll interval: 24 hours.
pub const MAX_POLL_INTERVAL_MINUTES: u64 = 1440;

/// Longest request timeout: 5 minutes.
pub const MAX_REQUEST_TIMEOUT_SECS: u64 = 300;

/// Default cap on the cycles a failing provider is skipped.
pub const DEFAULT_BACKOFF_MAX_CYCLES: u32 = 32;

/// A validated configuration.
#[derive(Debug)]
pub struct Config {
    pub poll_interval_minutes: u64,
    pub request_timeout_secs: u64,
    pub state_file_path: String,
    pub enabled_providers: Vec<String>,
    pub enabled_notifiers: Vec<String>,
    /// Consecutive failures before a provider backs off; `None` disables backoff.
    pub failure_threshold: Option<u32>,
    /// The longest backoff, in cycles.
    pub backoff_max_cycles: u32,
}

/// Collects configuration values; `build` validates them.
pub struct ConfigBuilder {
    poll_interval_minutes: u64,
    request_timeout_secs: u64,
    state_file_path: String,
    enabled_providers: Vec<String>,
    enabled_notifiers: Vec<String>,
    failure_threshold: Option<u32>,
    backoff_max_cycles: u32,
}

/// The message of an over-the-limit value: `"<value> (max <limit>)"`.
pub open spec fn over_max_message(value: u64, max: u64) -> Seq<char> {
    decimal(value as nat) + " (max "@ + decimal(max as nat) + ")"@
}

/// An `InvalidConfig` error for `key` with message `value`.
pub open spec fn is_invalid_config(e: AppError, key: Seq<char>, value: Seq<char>) -> bool {
    e matches AppError::InvalidConfig { key: k, value: v } && k@ == key && v@ == value
}

/// The refusal `ConfigBuilder::build` gives for a poll interval and a
/// timeout, as the configuration key and the message; `None` when both are
/// in range.
pub open spec fn range_refusal(poll: u64, timeout: u64) -> Option<(Seq<char>, Seq<char>)> {
    if poll == 0 {
        Some(("POLL_INTERVAL_MINUTES"@, "0"@))
    } else if poll > MAX_POLL_INTERVAL_MINUTES {
        Some(("POLL_INTERVAL_MINUTES"@, over_max_message(poll, MAX_POLL_INTERVAL_MINUTES)))
    } else if timeout == 0 {
        Some(("REQUEST_TIMEOUT_SECS"@, "0"@))
    } else if timeout > MAX_REQUEST_TIMEOUT_SECS {
        Some(("REQUEST_TIMEOUT_SECS"@, over_max_message(timeout, MAX_REQUEST_TIMEOUT_SECS)))
    } else {
        None
    }
}

impl ConfigBuilder {
    pub closed spec fn poll_interval_value(&self) -> u64 {
        self.poll_interval_minutes
    }

    pub closed spec fn request_timeout_value(&self) -> u64 {
        self.request_timeout_secs
    }

    pub closed spec fn state_file_value(&self) -> Seq<char> {
        self.state_file_path@
    }

    pub closed spec fn providers_value(&self) -> Seq<String> {
        self.enabled_providers@
    }

    pub closed spec fn notifiers_value(&self) -> Seq<String> {
        self.enabled_notifiers@
    }

    pub closed spec fn failure_threshold_value(&self) -> Option<u32> {
        self.failure_threshold
    }

    pub closed spec fn backoff_max_cycles_value(&self) -> u32 {
        self.backoff_max_cycles
    }

    /// Defaults: poll every 5 minutes, 30 s timeout, `state.json`, Azure
    /// polled, Telegram notified, backoff disabled with a 32-cycle cap.
    pub fn new() -> (b: Self)
        ensures
            b.poll_interval_value() == 5,
            b.request_timeout_value() == 30,
            b.state_file_value() == "state.json"@,
            b.providers_value().len() == 1,
            b.providers_value()[0]@ == "azure"@,
            b.notifiers_value().len() == 1,
            b.notifiers_value()[0]@ == "telegram"@,
            b.failure_threshold_value() is None,
            b.backoff_max_cycles_value() == DEFAULT_BACKOFF_MAX_CYCLES,
    {
        ConfigBuilder {
            poll_interval_minutes: 5,
            request_timeout_secs: 30,
            state_file_path: "state.json".to_owned(),
            enabled_providers: vec!["azure".to_owned()],
            enabled_notifiers: vec!["telegram".to_owned()],
            failure_threshold: None,
            backoff_max_cycles: DEFAULT_BACKOFF_MAX_CYCLES,
        }
    }

    pub fn poll_interval(self, minutes: u64) -> (b: Self)
        ensures
            b.poll_interval_value() == minutes,
            b.request_timeout_value() == self.request_timeout_value(),
            b.state_file_value() == self.state_file_value(),
            b.providers_value() == self.providers_value(),
            b.notifiers_value() == self.notifiers_value(),
            b.failure_threshold_value() == self.failure_threshold_value(),
            b.backoff_max_cycles_value() == self.backoff_max_cycles_value(),
    {
        ConfigBuilder { poll_interval_minutes: minutes, ..self }
    }

    pub fn request_timeout(self, seconds: u64) -> (b: Self)
        ensures
            b.poll_interval_value() == self.poll_interval_value(),
            b.request_timeout_value() == seconds,
            b.state_file_value() == self.state_file_value(),
            b.providers_value() == self.providers_value(),
            b.notifiers_value() == self.notifiers_value(),
            b.failure_threshold_value() == self.failure_threshold_value(),
            b.backoff_max_cycles_value() == self.backoff_max_cycles_value(),
    {
        ConfigBuilder { request_timeout_secs: seconds, ..self }
    }

    pub fn state_file(self, path: String) -> (b: Self)
        ensures
            b.poll_interval_value() == self.poll_interval_value(),
            b.request_timeout_value() == self.request_timeout_value(),
            b.state_file_value() == path@,
            b.providers_value() == self.providers_value(),
            b.notifiers_value() == self.notifiers_value(),
            b.failure_threshold_value() == self.failure_threshold_value(),
            b.backoff_max_cycles_value() == self.backoff_max_cycles_value(),
    {
        ConfigBuilder { state_file_path: path, ..self }
    }

    pub fn providers(self, names: Vec<String>) -> (b: Self)
        ensures
            b.poll_interval_value() == self.poll_interval_value(),
            b.request_timeout_value() == self.request_timeout_value(),
            b.state_file_value() == self.state_file_value(),
            b.providers_value() == names@,
            b.notifiers_value() == self.notifiers_value(),
            b.failure_threshold_value() == self.failure_threshold_value(),
            b.backoff_max_cycles_value() == self.backoff_max_cycles_value(),
    {
        ConfigBuilder { enabled_providers: names, ..self }
    }

    pub fn notifiers(self, names: Vec<String>) -> (b: Self)
        ensures
            b.poll_interval_value() == self.poll_interval_value(),
            b.request_timeout_value() == self.request_timeout_value(),
            b.state_file_value() == self.state_file_value(),
            b.providers_value() == self.providers_value(),
            b.notifiers_value() == names@,
            b.failure_threshold_value() == self.failure_threshold_value(),
            b.backoff_max_cycles_value() == self.backoff_max_cycles_value(),
    {
        ConfigBuilder { enabled_notifiers: names, ..self }
    }

    pub fn failure_threshold(self, threshold: Option<u32>) -> (b: Self)
        ensures
            b.poll_interval_value() == self.poll_interval_value(),
            b.request_timeout_value() == self.request_timeout_value(),
            b.state_file_value() == self.state_file_value(),
            b.providers_value() == self.providers_value(),
            b.notifiers_value() == self.notifiers_value(),
            b.failure_threshold_value() == threshold,
            b.backoff_max_cycles_value() == self.backoff_max_cycles_value(),
    {
        ConfigBuilder { failure_threshold: threshold, ..self }
    }

    pub fn backoff_max_cycles(self, cycles: u32) -> (b: Self)
        ensures
            b.poll_interval_value() == self.poll_interval_value(),
            b.request_timeout_value() == self.request_timeout_value(),
            b.state_file_value() == self.state_file_value(),
            b.providers_value() == self.providers_value(),
            b.notifiers_value() == self.notifiers_value(),
            b.failure_threshold_value() == self.failure_threshold_value(),
            b.backoff_max_cycles_value() == cycles,
    {
        ConfigBuilder { backoff_max_cycles: cycles, ..self }
    }

    /// Validates the values: the poll interval must be 1 to 1440 minutes and
    /// the timeout 1 to 300 seconds, checked in that order.
    pub fn build(self) -> (r: Result<Config, AppError>)
        ensures
            self.poll_interval_value() == 0 ==> (r matches Err(e) && is_invalid_config(
                e,
                "POLL_INTERVAL_MINUTES"@,
                "0"@,
            )),
            self.poll_interval_value() > MAX_POLL_INTERVAL_MINUTES ==> (r matches Err(e)
                && is_invalid_config(
                e,
                "POLL_INTERVAL_MINUTES"@,
                over_max_message(self.poll_interval_value(), MAX_POLL_INTERVAL_MINUTES),
            )),
            1 <= self.poll_interval_value() <= MAX_POLL_INTERVAL_MINUTES
                && self.request_timeout_value() == 0 ==> (r matches Err(e) && is_invalid_config(
                e,
                "REQUEST_TIMEOUT_SECS"@,
                "0"@,
            )),
            1 <= self.poll_interval_value() <= MAX_POLL_INTERVAL_MINUTES
                && self.request_timeout_value() > MAX_REQUEST_TIMEOUT_SECS ==> (r matches Err(e)
                && is_invalid_config(
                e,
                "REQUEST_TIMEOUT_SECS"@,
                over_max_message(self.request_timeout_value(), MAX_REQUEST_TIMEOUT_SECS),
            )),
            r is Ok <==> (1 <= self.poll_interval_value() <= MAX_POLL_INTERVAL_MINUTES && 1
                <= self.request_timeout_value() <= MAX_REQUEST_TIMEOUT_SECS),
            r matches Ok(c) ==> {
                &&& c.poll_interval_minutes == self.poll_interval_value()
                &&& c.request_timeout_secs == self.request_timeout_value()
                &&& c.state_file_path@ == self.state_file_value()
                &&& c.enabled_providers@ == self.providers_value()
                &&& c.enabled_notifiers@ == self.notifiers_value()
                &&& c.failure_threshold == self.failure_threshold_value()
                &&& c.backoff_max_cycles == self.backoff_max_cycles_value()
            },
    {
        if self.poll_interval_minutes == 0 {
            return Err(AppError::InvalidConfig { key: "POLL_INTERVAL_MINUTES", value: "0".to_owned() });
        }
        if self.poll_interval_minutes > MAX_POLL_INTERVAL_MINUTES {
            return Err(
                AppError::InvalidConfig {
                    key: "POLL_INTERVAL_MINUTES",
                    value: over_max(self.poll_interval_minutes, MAX_POLL_INTERVAL_MINUTES),
                },
            );
        }
        if self.request_timeout_secs == 0 {
            return Err(AppError::InvalidConfig { key: "REQUEST_TIMEOUT_SECS", value: "0".to_owned() });
        }
        if self.request_timeout_secs > MAX_REQUEST_TIMEOUT_SECS {
            return Err(
                AppError::InvalidConfig {
                    key: "REQUEST_TIMEOUT_SECS",
                    value: over_max(self.request_timeout_secs, MAX_REQUEST_TIMEOUT_SECS),
                },
            );
        }
        Ok(
            Config {
                poll_interval_minutes: self.poll_interval_minutes,
                request_timeout_secs: self.request_timeout_secs,
                state_file_path: self.state_file_path,
                enabled_providers: self.enabled_providers,
                enabled_notifiers: self.enabled_notifiers,
                failure_threshold: self.failure_threshold,
                backoff_max_cycles: self.backoff_max_cycles,
            },
        )
    }
}

impl Default for ConfigBuilder {
    fn default() -> (b: Self)
        ensures
            b.poll_interval_value() == 5,
            b.request_timeout_value() == 30,
            b.state_file_value() == "state.json"@,
            b.failure_threshold_value() is None,
            b.backoff_max_cycles_value() == DEFAULT_BACKOFF_MAX_CYCLES,
    {
        ConfigBuilder::new()
    }
}

fn over_max(value: u64, max: u64) -> (s: String)
    ensures
        s@ == over_max_message(value, max),
{
    let mut s = format_decimal(value);
    s.append(" (max ");
    let m = format_decimal(max);
    s.append(m.as_str());
    s.append(")");
    s
}


/// The raw values of the environment variables the configuration is read
/// from; `None` where a variable is not set.
pub struct EnvValues {
    /// `POLL_INTERVAL_MINUTES`
    pub poll_interval_minutes: Option<String>,
    /// `REQUEST_TIMEOUT_SECS`
    pub request_timeout_secs: Option<String>,
    /// `PROVIDERS`
    pub providers: Option<String>,
    /// `NOTIFIERS`
    pub notifiers: Option<String>,
    /// `STATE_FILE_PATH`
    pub state_file_path: Option<String>,
    /// `PROVIDER_FAILURE_THRESHOLD`
    pub failure_threshold: Option<String>,
    /// `PROVIDER_BACKOFF_MAX_CYCLES`
    pub backoff_max_cycles: Option<String>,
}

impl Default for EnvValues {
    /// No variable set.
    fn default() -> (e: Self)
        ensures
            e.poll_interval_minutes is None,
            e.request_timeout_secs is None,
            e.providers is None,
            e.notifiers is None,
            e.state_file_path is None,
            e.failure_threshold is None,
            e.backoff_max_cycles is None,
    {
        EnvValues {
            poll_interval_minutes: None,
            request_timeout_secs: None,
            providers: None,
            notifiers: None,
            state_file_path: None,
            failure_threshold: None,
            backoff_max_cycles: None,
        }
    }
}

/// A variable's value, or `default` when it is unset.
pub open spec fn value_or(value: Option<String>, default: Seq<char>) -> Seq<char> {
    match value {
        Some(s) => s@,
        None => default,
    }
}

/// The names a comma-separated list holds: each piece trimmed and
/// lower-cased, empty ones dropped.
pub open spec fn listed_names(pieces: Seq<Seq<char>>) -> Seq<Seq<char>>
    decreases pieces.len(),
{
    if pieces.len() == 0 {
        Seq::empty()
    } else {
        let rest = listed_names(pieces.drop_last());
        let name = lowercased(trim(pieces.last()));
        if name.len() > 0 {
            rest.push(name)
        } else {
            rest
        }
    }
}

/// Every name a list yields is non-empty, and there are no more names than
/// comma-separated pieces.
pub proof fn lemma_listed_names(pieces: Seq<Seq<char>>)
    ensures
        forall|i: int| 0 <= i < listed_names(pieces).len() ==> #[trigger] listed_names(pieces)[i].len() > 0,
        listed_names(pieces).len() <= pieces.len(),
    decreases pieces.len(),
{
    if pieces.len() > 0 {
        lemma_listed_names(pieces.drop_last());
    }
}

/// The names of the list `raw`; none when `raw` is empty.
pub open spec fn env_list(raw: Seq<char>) -> Seq<Seq<char>> {
    if raw.len() == 0 {
        Seq::empty()
    } else {
        listed_names(comma_pieces(raw))
    }
}

/// The views of `v`'s strings.
pub open spec fn string_views(v: Seq<String>) -> Seq<Seq<char>> {
    v.map_values(|s: String| s@)
}

/// The failure threshold `value` sets: `Some(None)` when unset,
/// `Some(Some(n))` when it reads as a `u32`, and `None` when it does not.
pub open spec fn threshold_setting(value: Option<String>) -> Option<Option<u32>> {
    match value {
        None => Some(None),
        Some(s) => match parsed_unsigned(s@, u32::MAX as nat) {
            Some(n) => Some(Some(n as u32)),
            None => None,
        },
    }
}

fn env_or_default(value: &Option<String>, default: &str) -> (s: String)
    ensures
        s@ == value_or(*value, default@),
{
    match value {
        Some(v) => v.clone(),
        None => default.to_owned(),
    }
}

/// Reads `raw` as an unsigned integer no larger than `max`, refusing it
/// under configuration key `key`.
fn parse_unsigned_setting(key: &'static str, raw: String, max: u64) -> (r: Result<u64, AppError>)
    ensures
        match parsed_unsigned(raw@, max as nat) {
            Some(n) => r matches Ok(v) && v == n,
            None => r matches Err(e) && is_invalid_config(e, key@, raw@),
        },
{
    match parse_unsigned(raw.as_str(), max) {
        Some(n) => Ok(n),
        None => Err(AppError::InvalidConfig { key, value: raw }),
    }
}

/// Reads a `u64` setting: the variable's value, or `default` when unset.
pub fn parse_env_u64(key: &'static str, value: &Option<String>, default: &str) -> (r: Result<
    u64,
    AppError,
>)
    ensures
        match parsed_unsigned(value_or(*value, default@), u64::MAX as nat) {
            Some(n) => r matches Ok(v) && v == n,
            None => r matches Err(e) && is_invalid_config(e, key@, value_or(*value, default@)),
        },
{
    let raw = env_or_default(value, default);
    parse_unsigned_setting(key, raw, u64::MAX)
}

/// Reads a `u32` setting: the variable's value, or `default` when unset.
pub fn parse_env_u32(key: &'static str, value: &Option<String>, default: &str) -> (r: Result<
    u32,
    AppError,
>)
    ensures
        match parsed_unsigned(value_or(*value, default@), u32::MAX as nat) {
            Some(n) => r matches Ok(v) && v == n,
            None => r matches Err(e) && is_invalid_config(e, key@, value_or(*value, default@)),
        },
{
    let raw = env_or_default(value, default);
    match parse_unsigned_setting(key, raw, u32::MAX as u64) {
        Ok(n) => Ok(n as u32),
        Err(e) => Err(e),
    }
}

/// Reads the optional failure threshold: unset disables backoff.
pub fn parse_env_threshold(key: &'static str, value: &Option<String>) -> (r: Result<
    Option<u32>,
    AppError,
>)
    ensures
        match threshold_setting(*value) {
            Some(t) => r matches Ok(v) && v == t,
            None => r matches Err(e) && is_invalid_config(e, key@, value.unwrap()@),
        },
{
    match value {
        None => Ok(None),
        Some(raw) => match parse_unsigned_setting(key, raw.clone(), u32::MAX as u64) {
            Ok(n) => Ok(Some(n as u32)),
            Err(e) => Err(e),
        },
    }
}

/// Reads a comma-separated list: the variable's value, or `default` when
/// unset; names are trimmed and lower-cased, and empty ones dropped.
pub fn parse_env_list(value: &Option<String>, default: &str) -> (r: Vec<String>)
    ensures
        string_views(r@) == env_list(value_or(*value, default@)),
{
    let raw = env_or_default(value, default);
    if raw.as_str().is_empty() {
        let empty: Vec<String> = Vec::new();
        assert(string_views(empty@) =~= Seq::<Seq<char>>::empty());
        return empty;
    }
    let chars = chars_of(raw.as_str());
    let pieces = split_commas(&chars);
    let ghost all = comma_pieces(raw@);
    let mut out: Vec<String> = Vec::new();
    let mut i: usize = 0;
    assert(all.take(0) =~= Seq::<Seq<char>>::empty());
    assert(string_views(out@) =~= Seq::<Seq<char>>::empty());
    while i < pieces.len()
        invariant
            chars@ == raw@,
            all == comma_pieces(raw@),
            pieces@.map_values(|p: Vec<char>| p@) == all,
            0 <= i <= pieces.len(),
            string_views(out@) == listed_names(all.take(i as int)),
        decreases pieces.len() - i,
    {
        assert(pieces@.map_values(|p: Vec<char>| p@)[i as int] == pieces@[i as int]@);
        let trimmed = trim_chars(&pieces[i]);
        let text = string_from_chars(&trimmed);
        let name = to_lowercase_string(text.as_str());
        assert(all.take(i + 1).drop_last() =~= all.take(i as int));
        assert(all.take(i + 1).last() == all[i as int]);
        if !name.as_str().is_empty() {
            let ghost before = string_views(out@);
            out.push(name);
            assert(string_views(out@) =~= before.push(name@));
        }
        i += 1;
    }
    assert(all.take(i as int) =~= all);
    out
}

impl Config {
    /// Reads the configuration from the environment's values, in the
    /// order: poll interval, timeout, failure threshold, backoff cap (each
    /// refused when it does not read as a number), then the range checks
    /// of `ConfigBuilder::build`.
    pub fn from_env(env: &EnvValues) -> (r: Result<Config, AppError>)
        ensures
            ({
                let poll_raw = value_or(env.poll_interval_minutes, "5"@);
                let timeout_raw = value_or(env.request_timeout_secs, "30"@);
                let cap_raw = value_or(env.backoff_max_cycles, "32"@);
                let poll = parsed_unsigned(poll_raw, u64::MAX as nat);
                let timeout = parsed_unsigned(timeout_raw, u64::MAX as nat);
                let threshold = threshold_setting(env.failure_threshold);
                let cap = parsed_unsigned(cap_raw, u32::MAX as nat);
                if poll is None {
                    r matches Err(e) && is_invalid_config(e, "POLL_INTERVAL_MINUTES"@, poll_raw)
                } else if timeout is None {
                    r matches Err(e) && is_invalid_config(e, "REQUEST_TIMEOUT_SECS"@, timeout_raw)
                } else if threshold is None {
                    r matches Err(e) && is_invalid_config(
                        e,
                        "PROVIDER_FAILURE_THRESHOLD"@,
                        env.failure_threshold.unwrap()@,
                    )
                } else if cap is None {
                    r matches Err(e) && is_invalid_config(e, "PROVIDER_BACKOFF_MAX_CYCLES"@, cap_raw)
                } else {
                    let p = poll.unwrap() as u64;
                    let t = timeout.unwrap() as u64;
                    match range_refusal(p, t) {
                        Some((key, message)) => r matches Err(e) && is_invalid_config(
                            e,
                            key,
                            message,
                        ),
                        None => r matches Ok(c) && {
                            &&& c.poll_interval_minutes == p
                            &&& c.request_timeout_secs == t
                            &&& c.state_file_path@ == value_or(
                                env.state_file_path,
                                "state.json"@,
                            )
                            &&& string_views(c.enabled_providers@) == env_list(
                                value_or(env.providers, "azure"@),
                            )
                            &&& string_views(c.enabled_notifiers@) == env_list(
                                value_or(env.notifiers, "telegram"@),
                            )
                            &&& c.failure_threshold == threshold.unwrap()
                            &&& c.backoff_max_cycles == cap.unwrap() as u32
                        },
                    }
                }
            }),
    {
        let poll_interval = parse_env_u64("POLL_INTERVAL_MINUTES", &env.poll_interval_minutes, "5")?;
        let timeout = parse_env_u64("REQUEST_TIMEOUT_SECS", &env.request_timeout_secs, "30")?;
        let threshold = parse_env_threshold("PROVIDER_FAILURE_THRESHOLD", &env.failure_threshold)?;
        let cap = parse_env_u32("PROVIDER_BACKOFF_MAX_CYCLES", &env.backoff_max_cycles, "32")?;
        let providers = parse_env_list(&env.providers, "azure");
        let notifiers = parse_env_list(&env.notifiers, "telegram");
        let state_file_path = env_or_default(&env.state_file_path, "state.json");
        ConfigBuilder::new().poll_interval(poll_interval).request_timeout(timeout).state_file(
            state_file_path,
        ).providers(providers).notifiers(notifiers).failure_threshold(threshold).backoff_max_cycles(
            cap,
        ).build()
    }
}


/// The variable that holds setting `key` of provider `provider`:
/// `PROVIDER_<NAME>_<key>`, the name upper-cased.
pub fn provider_param_key(provider: &str, key: &str) -> (r: String)
    ensures
        r@ == "PROVIDER_"@ + uppercased(provider@) + "_"@ + key@,
{
    let mut r = "PROVIDER_".to_owned();
    let name = to_uppercase_string(provider);
    r.append(name.as_str());
    r.append("_");
    r.append(key);
    r
}

/// The variable that holds setting `key` of notifier `notifier`:
/// `NOTIFIER_<NAME>_<key>`, the name upper-cased.
pub fn notifier_param_key(notifier: &str, key: &str) -> (r: String)
    ensures
        r@ == "NOTIFIER_"@ + uppercased(notifier@) + "_"@ + key@,
{
    let mut r = "NOTIFIER_".to_owned();
    let name = to_uppercase_string(notifier);
    r.append(name.as_str());
    r.append("_");
    r.append(key);
    r
}

} // verus!
