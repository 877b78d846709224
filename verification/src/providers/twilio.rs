//! The Twilio status page, read through its JSON incidents API.
use vstd::prelude::*;
use crate::error::AppError;
use crate::monitor::incident::Incident;
use super::rss_common::{matches_verdict, parsed_url, texts_of, url_verdict, validate_url_for};

verus! {

pub const CONFIG_KEY: &'static str = "PROVIDER_TWILIO_API_URL";

/// Hosts the API may be served from; subdomains of each are allowed too.
pub open spec fn domains() -> Seq<Seq<char>> {
    seq!["status.twilio.com"@]
}

/// The hosts of `domains`.
pub fn allowed_domains() -> (d: &'static [&'static str])
    ensures
        texts_of(d@) == domains(),
{
    let d: &'static [&'static str] = &["status.twilio.com"];
    assert(texts_of(d@) =~= domains());
    d
}

/// The Twilio provider.
pub struct TwilioProvider {
    api_url: String,
    skip_validation: bool,
}

/// One update of an incident, as the API lists it.
pub struct TwilioUpdate {
    pub id: String,
    pub body: String,
    pub status: String,
    pub created_at: String,
}

/// One incident, as the API lists it.
pub struct TwilioIncident {
    pub id: String,
    pub name: String,
    pub status: String,
    pub impact: String,
    pub shortlink: String,
    pub incident_updates: Vec<TwilioUpdate>,
}

/// The incident reported for one update of an API incident.
pub open spec fn update_incident(a: TwilioIncident, u: TwilioUpdate) -> (
    Seq<char>,
    Seq<char>,
    Seq<char>,
    Seq<char>,
    Seq<char>,
    Seq<char>,
) {
    (
        "twilio"@,
        "twilio:"@ + a.id@ + ":"@ + u.id@,
        a.name@,
        "["@ + a.impact@ + "] ["@ + u.status@ + "] "@ + u.body@,
        a.shortlink@,
        u.created_at@,
    )
}

/// One incident per update, in the order of the API's incidents and their updates.
pub open spec fn api_incidents(incidents: Seq<TwilioIncident>) -> Seq<
    (Seq<char>, Seq<char>, Seq<char>, Seq<char>, Seq<char>, Seq<char>),
>
    decreases incidents.len(),
{
    if incidents.len() == 0 {
        Seq::empty()
    } else {
        let a = incidents.last();
        api_incidents(incidents.drop_last()) + a.incident_updates@.map_values(
            |u: TwilioUpdate| update_incident(a, u),
        )
    }
}

/// The incidents of an API response followed by one more API incident `a`
/// are those of the response, then one incident per update of `a`, in the
/// order of its updates: the `k`-th carries `a`'s name and shortlink, the
/// id `twilio:<a>:<update>`, the description `[<impact>] [<status>] <body>`
/// and the update's own creation time.
pub proof fn lemma_update_incidents(prefix: Seq<TwilioIncident>, a: TwilioIncident)
    ensures
        api_incidents(prefix.push(a)).len() == api_incidents(prefix).len()
            + a.incident_updates@.len(),
        api_incidents(prefix.push(a)).subrange(0, api_incidents(prefix).len() as int)
            == api_incidents(prefix),
        forall|k: int|
            0 <= k < a.incident_updates@.len() ==> {
                let x = #[trigger] api_incidents(prefix.push(a))[api_incidents(prefix).len() + k];
                let u = a.incident_updates@[k];
                &&& x.0 == "twilio"@
                &&& x.1 == "twilio:"@ + a.id@ + ":"@ + u.id@
                &&& x.2 == a.name@
                &&& x.3 == "["@ + a.impact@ + "] ["@ + u.status@ + "] "@ + u.body@
                &&& x.4 == a.shortlink@
                &&& x.5 == u.created_at@
            },
{
    let s = prefix.push(a);
    assert(s.drop_last() =~= prefix);
    assert(s.last() == a);
    let base = api_incidents(prefix);
    let r = api_incidents(s);
    assert(r.subrange(0, base.len() as int) =~= base);
}

fn concat3(a: &str, b: &str, c: &str) -> (s: String)
    ensures
        s@ == a@ + b@ + c@,
{
    let mut s = a.to_owned();
    s.append(b);
    s.append(c);
    s
}

/// Turns the incidents of an API response into one incident per update:
/// id `twilio:<incident>:<update>`, description `[<impact>] [<status>] <body>`.
pub fn incidents_from_api(incidents: &Vec<TwilioIncident>) -> (r: Vec<Incident>)
    ensures
        r@.map_values(|i: Incident| i@) == api_incidents(incidents@),
{
    let mut out: Vec<Incident> = Vec::new();
    let mut i: usize = 0;
    assert(incidents@.take(0) =~= Seq::<TwilioIncident>::empty());
    while i < incidents.len()
        invariant
            0 <= i <= incidents.len(),
            out@.map_values(|x: Incident| x@) == api_incidents(incidents@.take(i as int)),
        decreases incidents.len() - i,
    {
        let a = &incidents[i];
        let ghost start = out@.map_values(|x: Incident| x@);
        let mut k: usize = 0;
        while k < a.incident_updates.len()
            invariant
                0 <= k <= a.incident_updates.len(),
                out@.map_values(|x: Incident| x@) == start + a.incident_updates@.take(
                    k as int,
                ).map_values(|u: TwilioUpdate| update_incident(*a, u)),
            decreases a.incident_updates.len() - k,
        {
            let u = &a.incident_updates[k];
            let ghost before = out@.map_values(|x: Incident| x@);
            let mut id = concat3("twilio:", a.id.as_str(), ":");
            id.append(u.id.as_str());
            let mut description = concat3("[", a.impact.as_str(), "] [");
            description.append(u.status.as_str());
            description.append("] ");
            description.append(u.body.as_str());
            let incident = Incident {
                id,
                provider: "twilio".to_owned(),
                title: a.name.clone(),
                description,
                link: a.shortlink.clone(),
                occurred_at: u.created_at.clone(),
            };
            out.push(incident);
            assert(out@.map_values(|x: Incident| x@) =~= before.push(update_incident(*a, *u)));
            assert(a.incident_updates@.take(k + 1).map_values(|u: TwilioUpdate| update_incident(*a, u))
                =~= a.incident_updates@.take(k as int).map_values(|u: TwilioUpdate| update_incident(*a, u)).push(
                update_incident(*a, *u),
            ));
            k += 1;
        }
        assert(a.incident_updates@.take(k as int) =~= a.incident_updates@);
        assert(incidents@.take(i + 1).drop_last() =~= incidents@.take(i as int));
        assert(incidents@.take(i + 1).last() == *a);
        i += 1;
    }
    assert(incidents@.take(i as int) =~= incidents@);
    out
}

impl TwilioProvider {
    pub closed spec fn api_url_text(&self) -> Seq<char> {
        self.api_url@
    }

    pub closed spec fn skips_validation(&self) -> bool {
        self.skip_validation
    }

    /// A provider whose API URL is validated before every fetch.
    pub fn new(api_url: String) -> (p: Self)
        ensures
            p.api_url_text() == api_url@,
            !p.skips_validation(),
    {
        TwilioProvider { api_url, skip_validation: false }
    }

    /// A provider that skips URL validation.
    pub fn new_unvalidated(api_url: String) -> (p: Self)
        ensures
            p.api_url_text() == api_url@,
            p.skips_validation(),
    {
        TwilioProvider { api_url, skip_validation: true }
    }

    /// The provider's name.
    pub fn name(&self) -> (n: &'static str)
        ensures
            n@ == "twilio"@,
    {
        "twilio"
    }

    /// The API URL.
    pub fn api_url(&self) -> (u: &str)
        ensures
            u@ == self.api_url_text(),
    {
        self.api_url.as_str()
    }

    /// Whether URL validation is skipped.
    pub fn skip_validation(&self) -> (b: bool)
        ensures
            b == self.skips_validation(),
    {
        self.skip_validation
    }

    /// Checks the API URL: scheme, host, allow-list, internal addresses.
    pub fn validate_url(&self) -> (r: Result<(), AppError>)
        ensures
            matches_verdict(
                r,
                CONFIG_KEY@,
                url_verdict(self.api_url_text(), domains(), parsed_url(self.api_url_text())),
            ),
    {
        validate_url_for(self.api_url.as_str(), CONFIG_KEY, allowed_domains())
    }

    /// The check made before every fetch: the API URL is validated unless
    /// validation is skipped.
    pub fn check_url(&self) -> (r: Result<(), AppError>)
        ensures
            self.skips_validation() ==> r is Ok,
            !self.skips_validation() ==> matches_verdict(
                r,
                CONFIG_KEY@,
                url_verdict(self.api_url_text(), domains(), parsed_url(self.api_url_text())),
            ),
    {
        if self.skip_validation {
            return Ok(());
        }
        self.validate_url()
    }
}

} // verus!
