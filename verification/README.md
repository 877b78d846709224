# wn_alerts

A multi-provider service status monitor: it polls status pages (RSS feeds
and Twilio's incidents API), works out which incidents are new or changed,
and alerts through Telegram.

- `src/` is the verified library. It holds the configuration parsing and
  validation, feed and URL checks, the HTML clean-up of incident text, the
  Telegram message format, the bounded record of seen incidents, and the
  decisions of a poll cycle (which providers to poll, what to do with each
  incident, how failures turn into backoff). Every function there carries a
  contract that Verus proves; the calls into `rss`, `url`, `chrono` and a few
  std formatting routines sit behind small trusted wrappers whose contracts
  say what the library relies on.
- Providers that can be enabled by name: azure, aws, twilio, airship,
  cloudflare, github. The airship and github feeds accept only the host of
  their default URL (`status.airship.com`, `www.githubstatus.com`) and its
  subdomains. The microsoft and okta feed modules exist but cannot be
  chosen by name.
- `app/` is the daemon around it: environment and `.env` reading, HTTP
  requests, the state file, signal handling, and the tokio loop that runs the
  library's decisions.
- `tests/` runs the library on concrete inputs.
