//! The decisions of a poll cycle: which providers to poll, what to do with
//! each fetched incident, and how a poll outcome updates provider health.
use vstd::prelude::*;
use crate::monitor::incident::{content_fingerprint, lemma_fingerprint_len, Incident};
use crate::monitor::state::AppState;
use crate::error::AppError;
use crate::notifiers::{self, NotificationKind, NotifierSetting};
use crate::notifiers::telegram::TelegramNotifier;
use crate::providers::{self, Provider, ProviderSetting};

verus! {

/// What to do with one fetched incident.
#[derive(Debug, Clone, Copy, PartialEq, Eq, Structural)]
pub enum IncidentAction {
    /// Send it to the notifiers, labelled as new or as an update.
    Notify(NotificationKind),
    /// Record its current fingerprint without alerting: the recorded one is
    /// the empty sentinel of a state file written before fingerprints existed.
    Resync,
    /// Nothing changed since it was last alerted on.
    Skip,
}

/// The action for an incident whose current fingerprint is `current`, given
/// the fingerprint recorded for its id (`None` when the id is unseen).
pub open spec fn action_for(recorded: Option<Seq<char>>, current: Seq<char>) -> IncidentAction {
    match recorded {
        None => IncidentAction::Notify(NotificationKind::New),
        Some(f) => if f == current {
            IncidentAction::Skip
        } else if f.len() == 0 {
            IncidentAction::Resync
        } else {
            IncidentAction::Notify(NotificationKind::Update)
        },
    }
}

/// The fingerprint recorded in `state` for incident `id` of `provider`.
pub open spec fn recorded_fingerprint(state: &AppState, provider: Seq<char>, id: Seq<char>) -> Option<
    Seq<char>,
> {
    if state.seen_entries(provider).contains_key(id) {
        Some(state.seen_entries(provider)[id])
    } else {
        None
    }
}

pub open spec fn fingerprint_of(incident: &Incident) -> Seq<char> {
    content_fingerprint(incident.title@, incident.description@, incident.occurred_at@)
}

/// Decides what to do with `incident`, fetched from `provider`: alert on an
/// unseen id, alert an update when the content changed, skip it otherwise.
pub fn classify_incident(state: &AppState, provider: &str, incident: &Incident) -> (a:
    IncidentAction)
    ensures
        a == action_for(
            recorded_fingerprint(state, provider@, incident.id@),
            fingerprint_of(incident),
        ),
{
    let current = incident.fingerprint();
    match state.seen_fingerprint(provider, incident.id.as_str()) {
        None => IncidentAction::Notify(NotificationKind::New),
        Some(f) => {
            if f.to_owned() == current {
                IncidentAction::Skip
            } else if f.is_empty() {
                IncidentAction::Resync
            } else {
                IncidentAction::Notify(NotificationKind::Update)
            }
        },
    }
}

/// Whether an incident gets its fingerprint recorded after `action`, given
/// whether at least one notifier delivered the alert.
pub open spec fn records_fingerprint(action: IncidentAction, delivered: bool) -> bool {
    match action {
        IncidentAction::Notify(_) => delivered,
        IncidentAction::Resync => true,
        IncidentAction::Skip => false,
    }
}

/// Records the outcome of handling `incident`: an alert that reached at
/// least one notifier, or a resync, marks it seen with its current
/// fingerprint; a failed alert leaves it unseen so it is retried next cycle.
pub fn record_outcome(
    state: &mut AppState,
    provider: &str,
    incident: &Incident,
    action: IncidentAction,
    delivered: bool,
)
    ensures
        records_fingerprint(action, delivered) ==> {
            &&& final(state).only_touches(old(state), provider@)
            &&& (final(state).seen_entries(provider@), final(state).seen_order(provider@))
                == crate::monitor::state::seen_after_insert(
                old(state).seen_entries(provider@),
                old(state).seen_order(provider@),
                incident.id@,
                fingerprint_of(incident),
            )
            &&& final(state).last_poll(provider@) == old(state).last_poll(provider@)
            &&& final(state).failures(provider@) == old(state).failures(provider@)
            &&& final(state).backoff(provider@) == old(state).backoff(provider@)
        },
        !records_fingerprint(action, delivered) ==> final(state).providers@ == old(
            state,
        ).providers@,
{
    let record = match action {
        IncidentAction::Notify(_) => delivered,
        IncidentAction::Resync => true,
        IncidentAction::Skip => false,
    };
    if record {
        let fp = incident.fingerprint();
        state.mark_seen(provider, incident.id.clone(), fp);
    }
}

/// The actions for a whole fetch, each decided against the state as it was
/// before the fetch (a batch: no outcome of this fetch is recorded yet).
pub fn classify_all(state: &AppState, provider: &str, incidents: &Vec<Incident>) -> (actions: Vec<
    IncidentAction,
>)
    ensures
        actions@.len() == incidents@.len(),
        forall|i: int|
            0 <= i < incidents@.len() ==> #[trigger] actions@[i] == action_for(
                recorded_fingerprint(state, provider@, incidents@[i].id@),
                fingerprint_of(&incidents@[i]),
            ),
{
    let mut actions: Vec<IncidentAction> = Vec::new();
    let mut i: usize = 0;
    while i < incidents.len()
        invariant
            0 <= i <= incidents@.len(),
            actions@.len() == i,
            forall|j: int|
                0 <= j < i ==> #[trigger] actions@[j] == action_for(
                    recorded_fingerprint(state, provider@, incidents@[j].id@),
                    fingerprint_of(&incidents@[j]),
                ),
        decreases incidents.len() - i,
    {
        let a = classify_incident(state, provider, &incidents[i]);
        actions.push(a);
        i += 1;
    }
    actions
}

/// The seen ids of a provider after the outcomes of the first `k`
/// incidents of a fetch are recorded, in order.
pub open spec fn seen_after_outcomes(
    entries: Map<Seq<char>, Seq<char>>,
    order: Seq<Seq<char>>,
    incidents: Seq<Incident>,
    actions: Seq<IncidentAction>,
    delivered: Seq<bool>,
    k: nat,
) -> (Map<Seq<char>, Seq<char>>, Seq<Seq<char>>)
    decreases k,
{
    if k == 0 {
        (entries, order)
    } else {
        let before = seen_after_outcomes(entries, order, incidents, actions, delivered, (k - 1) as nat);
        let i = k - 1;
        if records_fingerprint(actions[i], delivered[i]) {
            crate::monitor::state::seen_after_insert(
                before.0,
                before.1,
                incidents[i].id@,
                fingerprint_of(&incidents[i]),
            )
        } else {
            before
        }
    }
}

/// Whether one of the first `k` incidents of a fetch with id `key` had its
/// fingerprint recorded.
pub open spec fn id_recorded(
    incidents: Seq<Incident>,
    actions: Seq<IncidentAction>,
    delivered: Seq<bool>,
    k: nat,
    key: Seq<char>,
) -> bool {
    exists|i: int|
        0 <= i < k && records_fingerprint(actions[i], delivered[i]) && #[trigger] incidents[i].id@
            == key
}

/// Whether no incident after the `i`-th among the first `k` of a fetch has
/// its id.
#[verifier::opaque]
pub open spec fn latest_with_id(incidents: Seq<Incident>, i: int, k: nat) -> bool {
    forall|j: int| i < j < k ==> #[trigger] incidents[j].id@ != incidents[i].id@
}

/// Whether every incident of a fetch with id `key` was skipped or had an
/// alert that reached no notifier.
pub open spec fn id_only_unrecorded(
    incidents: Seq<Incident>,
    actions: Seq<IncidentAction>,
    delivered: Seq<bool>,
    key: Seq<char>,
) -> bool {
    forall|i: int|
        #![trigger incidents[i]]
        0 <= i < incidents.len() && incidents[i].id@ == key ==> (actions[i] is Skip || (
        actions[i] is Notify && !delivered[i]))
}

proof fn lemma_latest_shrinks(incidents: Seq<Incident>, i: int, k: nat)
    requires
        k > 0,
        latest_with_id(incidents, i, k),
    ensures
        latest_with_id(incidents, i, (k - 1) as nat),
{
    reveal(latest_with_id);
}

proof fn lemma_latest_differs(incidents: Seq<Incident>, i: int, k: nat, j: int)
    requires
        latest_with_id(incidents, i, k),
        i < j < k,
    ensures
        incidents[j].id@ != incidents[i].id@,
{
    reveal(latest_with_id);
}

proof fn lemma_outcomes_prefix(
    entries: Map<Seq<char>, Seq<char>>,
    order: Seq<Seq<char>>,
    incidents: Seq<Incident>,
    actions: Seq<IncidentAction>,
    delivered: Seq<bool>,
    k: nat,
)
    requires
        actions.len() == incidents.len(),
        delivered.len() == incidents.len(),
        k <= incidents.len(),
        order.len() + k <= crate::monitor::state::MAX_SEEN_IDS_PER_PROVIDER,
    ensures
        ({
            let r = seen_after_outcomes(entries, order, incidents, actions, delivered, k);
            &&& r.1.len() <= order.len() + k
            &&& forall|i: int|
                #![trigger incidents[i]]
                0 <= i < k && records_fingerprint(actions[i], delivered[i]) && latest_with_id(incidents, i, k) ==> r.0.contains_key(
                    incidents[i].id@,
                ) && r.0[incidents[i].id@] == fingerprint_of(&incidents[i])
            &&& forall|key: Seq<char>|
                #![trigger r.0.contains_key(key)]
                !id_recorded(incidents, actions, delivered, k, key) ==> (r.0.contains_key(key)
                    == entries.contains_key(key) && (entries.contains_key(key) ==> r.0[key]
                    == entries[key]))
        }),
    decreases k,
{
    if k > 0 {
        let km = (k - 1) as nat;
        lemma_outcomes_prefix(entries, order, incidents, actions, delivered, km);
        let before = seen_after_outcomes(entries, order, incidents, actions, delivered, km);
        let r = seen_after_outcomes(entries, order, incidents, actions, delivered, k);
        let last = km as int;
        if records_fingerprint(actions[last], delivered[last]) {
            let id = incidents[last].id@;
            let fp = fingerprint_of(&incidents[last]);
            assert(r.0 == before.0.insert(id, fp));
            assert forall|i: int|
                #![trigger incidents[i]]
                0 <= i < k && records_fingerprint(actions[i], delivered[i]) && latest_with_id(incidents, i, k) implies r.0.contains_key(
                incidents[i].id@,
            ) && r.0[incidents[i].id@] == fingerprint_of(&incidents[i]) by {
                if i < last {
                    lemma_latest_differs(incidents, i, k, last);
                    lemma_latest_shrinks(incidents, i, k);
                }
            }
            assert forall|key: Seq<char>|
                #![trigger r.0.contains_key(key)]
                !id_recorded(incidents, actions, delivered, k, key) implies (r.0.contains_key(key)
                == entries.contains_key(key) && (entries.contains_key(key) ==> r.0[key]
                == entries[key])) by {
                if incidents[last].id@ == key {
                    assert(id_recorded(incidents, actions, delivered, k, key));
                }
                if id_recorded(incidents, actions, delivered, km, key) {
                    let j = choose|j: int|
                        0 <= j < km && records_fingerprint(actions[j], delivered[j])
                            && incidents[j].id@ == key;
                    assert(id_recorded(incidents, actions, delivered, k, key));
                }
                assert(before.0.contains_key(key) == entries.contains_key(key));
            }
        } else {
            assert(r == before);
            assert forall|i: int|
                #![trigger incidents[i]]
                0 <= i < k && records_fingerprint(actions[i], delivered[i]) && latest_with_id(incidents, i, k) implies r.0.contains_key(
                incidents[i].id@,
            ) && r.0[incidents[i].id@] == fingerprint_of(&incidents[i]) by {
                lemma_latest_shrinks(incidents, i, k);
            }
            assert forall|key: Seq<char>|
                #![trigger r.0.contains_key(key)]
                !id_recorded(incidents, actions, delivered, k, key) implies (r.0.contains_key(key)
                == entries.contains_key(key) && (entries.contains_key(key) ==> r.0[key]
                == entries[key])) by {
                if id_recorded(incidents, actions, delivered, km, key) {
                    let j = choose|j: int|
                        0 <= j < km && records_fingerprint(actions[j], delivered[j])
                            && incidents[j].id@ == key;
                    assert(id_recorded(incidents, actions, delivered, k, key));
                }
                assert(before.0.contains_key(key) == entries.contains_key(key));
            }
        }
    }
}

proof fn lemma_unrecorded_id_kept(
    entries: Map<Seq<char>, Seq<char>>,
    order: Seq<Seq<char>>,
    incidents: Seq<Incident>,
    actions: Seq<IncidentAction>,
    delivered: Seq<bool>,
    key: Seq<char>,
)
    requires
        actions.len() == incidents.len(),
        delivered.len() == incidents.len(),
        order.len() + incidents.len() <= crate::monitor::state::MAX_SEEN_IDS_PER_PROVIDER,
        id_only_unrecorded(incidents, actions, delivered, key),
    ensures
        ({
            let r = seen_after_outcomes(entries, order, incidents, actions, delivered, incidents.len());
            &&& r.0.contains_key(key) == entries.contains_key(key)
            &&& entries.contains_key(key) ==> r.0[key] == entries[key]
        }),
{
    let n = incidents.len();
    if id_recorded(incidents, actions, delivered, n, key) {
        let j = choose|j: int|
            0 <= j < n && records_fingerprint(actions[j], delivered[j]) && #[trigger] incidents[j].id@
                == key;
        assert(incidents[j].id@ == key);
        assert(actions[j] is Skip || (actions[j] is Notify && !delivered[j]));
    }
    lemma_outcomes_prefix(entries, order, incidents, actions, delivered, n);
}

/// The fingerprint remembered for `id` in `entries`, if any.
pub open spec fn remembered(entries: Map<Seq<char>, Seq<char>>, id: Seq<char>) -> Option<Seq<char>> {
    if entries.contains_key(id) {
        Some(entries[id])
    } else {
        None
    }
}

/// What recording a fetch's outcomes does to a provider's seen ids, when
/// they all fit without eviction: every incident whose alert was delivered,
/// or that was resynced, and whose id no later incident of the fetch has,
/// is remembered with its current fingerprint; an id that only skipped or
/// undelivered incidents have keeps what it had (present with the same
/// fingerprint, or absent).
pub proof fn lemma_outcomes_recorded(
    entries: Map<Seq<char>, Seq<char>>,
    order: Seq<Seq<char>>,
    incidents: Seq<Incident>,
    actions: Seq<IncidentAction>,
    delivered: Seq<bool>,
)
    requires
        actions.len() == incidents.len(),
        delivered.len() == incidents.len(),
        order.len() + incidents.len() <= crate::monitor::state::MAX_SEEN_IDS_PER_PROVIDER,
    ensures
        forall|i: int|
            #![trigger incidents[i]]
            0 <= i < incidents.len() && ((actions[i] is Notify && delivered[i]) || actions[i] is Resync)
                && latest_with_id(incidents, i, incidents.len()) ==> remembered(
                seen_after_outcomes(entries, order, incidents, actions, delivered, incidents.len()).0,
                incidents[i].id@,
            ) == Some(fingerprint_of(&incidents[i])),
        forall|key: Seq<char>|
            id_only_unrecorded(incidents, actions, delivered, key) ==> #[trigger] remembered(
                seen_after_outcomes(entries, order, incidents, actions, delivered, incidents.len()).0,
                key,
            ) == remembered(entries, key),
{
    let n = incidents.len();
    lemma_outcomes_prefix(entries, order, incidents, actions, delivered, n);
    let r = seen_after_outcomes(entries, order, incidents, actions, delivered, n);
    assert forall|i: int|
        #![trigger incidents[i]]
        0 <= i < n && ((actions[i] is Notify && delivered[i]) || actions[i] is Resync) && latest_with_id(incidents, i, n) implies r.0.contains_key(
        incidents[i].id@,
    ) && r.0[incidents[i].id@] == fingerprint_of(&incidents[i]) by {
        assert(records_fingerprint(actions[i], delivered[i]));
    }
    assert forall|i: int|
        #![trigger incidents[i]]
        0 <= i < n && ((actions[i] is Notify && delivered[i]) || actions[i] is Resync) && latest_with_id(incidents, i, n) implies remembered(r.0, incidents[i].id@) == Some(fingerprint_of(&incidents[i])) by {
        assert(r.0.contains_key(incidents[i].id@));
    }
    assert forall|key: Seq<char>|
        #![trigger r.0.contains_key(key)]
        id_only_unrecorded(incidents, actions, delivered, key) implies (r.0.contains_key(key) == entries.contains_key(key) && (
    entries.contains_key(key) ==> r.0[key] == entries[key])) by {
        lemma_unrecorded_id_kept(entries, order, incidents, actions, delivered, key);
    }
    assert forall|key: Seq<char>|
        id_only_unrecorded(incidents, actions, delivered, key) implies #[trigger] remembered(r.0, key) == remembered(entries, key) by {
        lemma_unrecorded_id_kept(entries, order, incidents, actions, delivered, key);
    }
}

/// Each incident state is alerted once: after a fetch's outcomes are
/// recorded (without eviction), an incident whose alert was delivered, or
/// that was resynced, is skipped when fetched again unchanged; an incident
/// whose alert reached no notifier, and whose id no recorded incident has,
/// gets the same action again on the next poll, so it is retried.
pub proof fn lemma_alerted_once_retried_on_failure(
    entries: Map<Seq<char>, Seq<char>>,
    order: Seq<Seq<char>>,
    incidents: Seq<Incident>,
    actions: Seq<IncidentAction>,
    delivered: Seq<bool>,
)
    requires
        actions.len() == incidents.len(),
        delivered.len() == incidents.len(),
        order.len() + incidents.len() <= crate::monitor::state::MAX_SEEN_IDS_PER_PROVIDER,
        forall|i: int|
            0 <= i < incidents.len() ==> #[trigger] actions[i] == action_for(
                remembered(entries, incidents[i].id@),
                fingerprint_of(&incidents[i]),
            ),
    ensures
        forall|i: int|
            #![trigger incidents[i]]
            0 <= i < incidents.len() && ((actions[i] is Notify && delivered[i]) || actions[i] is Resync)
                && latest_with_id(incidents, i, incidents.len()) ==> action_for(
                remembered(
                    seen_after_outcomes(entries, order, incidents, actions, delivered, incidents.len()).0,
                    incidents[i].id@,
                ),
                fingerprint_of(&incidents[i]),
            ) == IncidentAction::Skip,
        forall|i: int|
            #![trigger incidents[i]]
            0 <= i < incidents.len() && actions[i] is Notify && !delivered[i] && id_only_unrecorded(
                incidents,
                actions,
                delivered,
                incidents[i].id@,
            ) ==> action_for(
                remembered(
                    seen_after_outcomes(entries, order, incidents, actions, delivered, incidents.len()).0,
                    incidents[i].id@,
                ),
                fingerprint_of(&incidents[i]),
            ) == actions[i],
{
    lemma_outcomes_recorded(entries, order, incidents, actions, delivered);
    let r = seen_after_outcomes(entries, order, incidents, actions, delivered, incidents.len());
    assert forall|i: int|
        #![trigger incidents[i]]
        0 <= i < incidents.len() && ((actions[i] is Notify && delivered[i]) || actions[i] is Resync)
            && latest_with_id(incidents, i, incidents.len()) implies action_for(
        remembered(r.0, incidents[i].id@),
        fingerprint_of(&incidents[i]),
    ) == IncidentAction::Skip by {
        assert(remembered(r.0, incidents[i].id@) == Some(fingerprint_of(&incidents[i])));
    }
    assert forall|i: int|
        #![trigger incidents[i]]
        0 <= i < incidents.len() && actions[i] is Notify && !delivered[i] && id_only_unrecorded(
            incidents,
            actions,
            delivered,
            incidents[i].id@,
        ) implies action_for(remembered(r.0, incidents[i].id@), fingerprint_of(&incidents[i]))
        == actions[i] by {
        let key = incidents[i].id@;
        assert(remembered(r.0, key) == remembered(entries, key));
    }
}

/// Records a successful poll of `provider` at `now`: the outcome of every
/// fetched incident, in order (`actions` from `classify_all`, `delivered`
/// whether its alert reached a notifier), then the poll itself as
/// `record_poll_success` does.
pub fn record_poll_outcomes(
    state: &mut AppState,
    provider: &str,
    incidents: &Vec<Incident>,
    actions: &Vec<IncidentAction>,
    delivered: &Vec<bool>,
    now: String,
    backoff_enabled: bool,
)
    requires
        actions@.len() == incidents@.len(),
        delivered@.len() == incidents@.len(),
    ensures
        final(state).only_touches(old(state), provider@),
        (final(state).seen_entries(provider@), final(state).seen_order(provider@))
            == seen_after_outcomes(
            old(state).seen_entries(provider@),
            old(state).seen_order(provider@),
            incidents@,
            actions@,
            delivered@,
            incidents@.len(),
        ),
        final(state).last_poll(provider@) == Some(now@),
        final(state).failures(provider@) == if backoff_enabled {
            0
        } else {
            old(state).failures(provider@)
        },
        final(state).backoff(provider@) == if backoff_enabled {
            0
        } else {
            old(state).backoff(provider@)
        },
{
    let ghost start = *state;
    let mut i: usize = 0;
    while i < incidents.len()
        invariant
            actions@.len() == incidents@.len(),
            delivered@.len() == incidents@.len(),
            0 <= i <= incidents@.len(),
            state.providers@.remove(provider@) == start.providers@.remove(provider@),
            (state.seen_entries(provider@), state.seen_order(provider@)) == seen_after_outcomes(
                start.seen_entries(provider@),
                start.seen_order(provider@),
                incidents@,
                actions@,
                delivered@,
                i as nat,
            ),
            state.last_poll(provider@) == start.last_poll(provider@),
            state.failures(provider@) == start.failures(provider@),
            state.backoff(provider@) == start.backoff(provider@),
        decreases incidents.len() - i,
    {
        record_outcome(state, provider, &incidents[i], actions[i], delivered[i]);
        i += 1;
    }
    record_poll_success(state, provider, now, backoff_enabled);
    proof {
        assert(state.providers@.remove(provider@) =~= start.providers@.remove(provider@));
    }
}

/// Whether at least one notifier delivered.
pub fn any_delivered(outcomes: &Vec<bool>) -> (b: bool)
    ensures
        b == outcomes@.contains(true),
{
    let mut i: usize = 0;
    while i < outcomes.len()
        invariant
            0 <= i <= outcomes.len(),
            forall|j: int| 0 <= j < i ==> !outcomes@[j],
        decreases outcomes.len() - i,
    {
        if outcomes[i] {
            return true;
        }
        i += 1;
    }
    false
}

/// `2^n`.
pub open spec fn pow2(n: nat) -> nat
    decreases n,
{
    if n == 0 {
        1
    } else {
        2 * pow2((n - 1) as nat)
    }
}

/// Cycles to skip after `failures` consecutive failures: `2^failures`
/// (`u32::MAX` when that does not fit in 32 bits), capped at `max_cycles`.
pub open spec fn backoff_for(failures: u32, max_cycles: u32) -> u32 {
    let raw: u32 = if failures < 32 {
        pow2(failures as nat) as u32
    } else {
        u32::MAX
    };
    if raw <= max_cycles {
        raw
    } else {
        max_cycles
    }
}

proof fn lemma_pow2_bound(n: nat)
    requires
        n < 32,
    ensures
        1 <= pow2(n) <= 0x8000_0000,
{
    lemma_pow2_positive(n);
    lemma_pow2_monotone(n, 31);
    reveal_with_fuel(pow2, 32);
    assert(pow2(31) == 0x8000_0000);
}

proof fn lemma_pow2_monotone(a: nat, b: nat)
    requires
        a <= b,
    ensures
        pow2(a) <= pow2(b),
    decreases b - a,
{
    if a < b {
        lemma_pow2_monotone(a, (b - 1) as nat);
        assert(pow2(b) == 2 * pow2((b - 1) as nat));
        lemma_pow2_positive((b - 1) as nat);
    }
}

proof fn lemma_pow2_positive(n: nat)
    ensures
        pow2(n) >= 1,
    decreases n,
{
    if n > 0 {
        lemma_pow2_positive((n - 1) as nat);
    }
}

/// The backoff, in cycles, after `failures` consecutive failures.
pub fn backoff_cycles(failures: u32, max_cycles: u32) -> (c: u32)
    ensures
        c == backoff_for(failures, max_cycles),
{
    let raw: u32 = if failures < 32 {
        let mut r: u32 = 1;
        let mut i: u32 = 0;
        while i < failures
            invariant
                0 <= i <= failures < 32,
                r as nat == pow2(i as nat),
            decreases failures - i,
        {
            proof {
                lemma_pow2_bound(i as nat);
                lemma_pow2_bound((i + 1) as nat);
            }
            r = r * 2;
            i += 1;
        }
        r
    } else {
        u32::MAX
    };
    if raw <= max_cycles {
        raw
    } else {
        max_cycles
    }
}


/// Updates `provider` after a successful poll at `now`: with backoff enabled
/// the failure streak and any remaining backoff are cleared.
pub fn record_poll_success(state: &mut AppState, provider: &str, now: String, backoff_enabled: bool)
    ensures
        final(state).only_touches(old(state), provider@),
        final(state).last_poll(provider@) == Some(now@),
        final(state).failures(provider@) == if backoff_enabled {
            0
        } else {
            old(state).failures(provider@)
        },
        final(state).backoff(provider@) == if backoff_enabled {
            0
        } else {
            old(state).backoff(provider@)
        },
        final(state).seen_entries(provider@) == old(state).seen_entries(provider@),
        final(state).seen_order(provider@) == old(state).seen_order(provider@),
{
    if backoff_enabled {
        state.record_success(provider);
    }
    state.set_poll_time(provider, now);
    proof {
        assert(final(state).providers@.remove(provider@) =~= old(state).providers@.remove(
            provider@,
        ));
    }
}

/// Updates `provider` after a failed poll at `now`. With a failure threshold
/// the failure is counted, and once the streak reaches the threshold the
/// provider backs off for `backoff_for(streak, max_cycles)` cycles, which is
/// returned.
pub fn record_poll_failure(
    state: &mut AppState,
    provider: &str,
    now: String,
    threshold: Option<u32>,
    max_cycles: u32,
) -> (cycles: Option<u32>)
    requires
        threshold is Some ==> old(state).failures(provider@) < u32::MAX,
    ensures
        final(state).only_touches(old(state), provider@),
        final(state).last_poll(provider@) == Some(now@),
        final(state).seen_entries(provider@) == old(state).seen_entries(provider@),
        final(state).seen_order(provider@) == old(state).seen_order(provider@),
        match threshold {
            None => {
                &&& final(state).failures(provider@) == old(state).failures(provider@)
                &&& final(state).backoff(provider@) == old(state).backoff(provider@)
                &&& cycles is None
            },
            Some(t) => {
                let streak = (old(state).failures(provider@) + 1) as u32;
                &&& final(state).failures(provider@) == streak
                &&& streak >= t ==> {
                    &&& final(state).backoff(provider@) == backoff_for(streak, max_cycles)
                    &&& cycles == Some(backoff_for(streak, max_cycles))
                }
                &&& streak < t ==> {
                    &&& final(state).backoff(provider@) == old(state).backoff(provider@)
                    &&& cycles is None
                }
            },
        },
{
    state.set_poll_time(provider, now);
    let result = match threshold {
        Some(t) => {
            state.record_failure(provider);
            let failures = state.consecutive_failures(provider);
            if failures >= t {
                let cycles = backoff_cycles(failures, max_cycles);
                state.set_backoff(provider, cycles);
                Some(cycles)
            } else {
                None
            }
        },
        None => None,
    };
    proof {
        assert(final(state).providers@.remove(provider@) =~= old(state).providers@.remove(
            provider@,
        ));
    }
    result
}

/// The provider names of `names` as sequences of characters.
pub open spec fn names_view(names: Seq<String>) -> Seq<Seq<char>> {
    names.map_values(|n: String| n@)
}

/// The start of a cycle over providers `names`, from backoff counters
/// `backoff`: in order, a provider with cycles left is skipped and loses one
/// cycle, any other is polled. Gives the counters afterwards and, per
/// provider, whether it is polled.
pub open spec fn poll_plan(backoff: spec_fn(Seq<char>) -> u32, names: Seq<Seq<char>>) -> (
    spec_fn(Seq<char>) -> u32,
    Seq<bool>,
)
    decreases names.len(),
{
    if names.len() == 0 {
        (backoff, Seq::empty())
    } else {
        let (b, polls) = poll_plan(backoff, names.drop_last());
        let n = names.last();
        if b(n) > 0 {
            (|k: Seq<char>| if k == n { (b(n) - 1) as u32 } else { b(k) }, polls.push(false))
        } else {
            (b, polls.push(true))
        }
    }
}

/// The backoff counters of `state` as a function of the provider name.
pub open spec fn backoff_fn(state: &AppState) -> spec_fn(Seq<char>) -> u32 {
    |k: Seq<char>| state.backoff(k)
}

/// A provider other than the one an operation touched keeps its state.
pub proof fn lemma_untouched(before: &AppState, after: &AppState, touched: Seq<char>, k: Seq<char>)
    requires
        after.providers@.remove(touched) == before.providers@.remove(touched),
        k != touched,
    ensures
        after.providers@.contains_key(k) == before.providers@.contains_key(k),
        after.backoff(k) == before.backoff(k),
        after.failures(k) == before.failures(k),
        after.last_poll(k) == before.last_poll(k),
        after.seen_entries(k) == before.seen_entries(k),
        after.seen_order(k) == before.seen_order(k),
{
    assert(after.providers@.remove(touched).contains_key(k) == after.providers@.contains_key(k));
    assert(before.providers@.remove(touched).contains_key(k) == before.providers@.contains_key(k));
    if after.providers@.contains_key(k) {
        assert(after.providers@[k] == after.providers@.remove(touched)[k]);
        assert(before.providers@[k] == before.providers@.remove(touched)[k]);
    }
}

/// Starts a cycle: decides for each provider in `names`, in order, whether it
/// is polled, taking one cycle off the backoff of each one that is skipped.
pub fn plan_cycle(state: &mut AppState, names: &Vec<String>) -> (polls: Vec<bool>)
    ensures
        polls@ == poll_plan(backoff_fn(old(state)), names_view(names@)).1,
        forall|k: Seq<char>|
            #![trigger final(state).backoff(k)]
            final(state).backoff(k) == (poll_plan(backoff_fn(old(state)), names_view(names@)).0)(
                k,
            ),
        final(state).providers@.dom() == old(state).providers@.dom(),
        forall|k: Seq<char>|
            #![trigger final(state).failures(k)]
            final(state).failures(k) == old(state).failures(k),
        forall|k: Seq<char>|
            #![trigger final(state).last_poll(k)]
            final(state).last_poll(k) == old(state).last_poll(k),
        forall|k: Seq<char>|
            #![trigger final(state).seen_entries(k)]
            final(state).seen_entries(k) == old(state).seen_entries(k),
        forall|k: Seq<char>|
            #![trigger final(state).seen_order(k)]
            final(state).seen_order(k) == old(state).seen_order(k),
{
    let ghost start = backoff_fn(old(state));
    let mut polls: Vec<bool> = Vec::new();
    let mut i: usize = 0;
    while i < names.len()
        invariant
            0 <= i <= names.len(),
            polls@ == poll_plan(start, names_view(names@).take(i as int)).1,
            forall|k: Seq<char>|
                #![trigger state.backoff(k)]
                state.backoff(k) == (poll_plan(start, names_view(names@).take(i as int)).0)(k),
            state.providers@.dom() == old(state).providers@.dom(),
            forall|k: Seq<char>|
                #![trigger state.failures(k)]
                state.failures(k) == old(state).failures(k),
            forall|k: Seq<char>|
                #![trigger state.last_poll(k)]
                state.last_poll(k) == old(state).last_poll(k),
            forall|k: Seq<char>|
                #![trigger state.seen_entries(k)]
                state.seen_entries(k) == old(state).seen_entries(k),
            forall|k: Seq<char>|
                #![trigger state.seen_order(k)]
                state.seen_order(k) == old(state).seen_order(k),
        decreases names.len() - i,
    {
        let ghost before = *state;
        let ghost prefix = names_view(names@).take(i as int);
        let ghost next = names_view(names@).take(i + 1);
        assert(next.drop_last() =~= prefix);
        assert(next.last() == names@[i as int]@);
        let name = names[i].as_str();
        let remaining = state.backoff_cycles_remaining(name);
        if remaining > 0 {
            state.decrement_backoff(name);
            polls.push(false);
            proof {
                assert forall|k: Seq<char>| #[trigger] state.providers@.contains_key(k)
                    == before.providers@.contains_key(k) by {
                    if k != name@ {
                        lemma_untouched(&before, state, name@, k);
                    }
                }
                assert(state.providers@.dom() =~= before.providers@.dom());
                assert forall|k: Seq<char>| #[trigger] state.backoff(k) == (poll_plan(
                    start,
                    next,
                ).0)(k) by {
                    if k != name@ {
                        lemma_untouched(&before, state, name@, k);
                    }
                }
                assert forall|k: Seq<char>| #[trigger]
                    state.failures(k) == old(state).failures(k) by {
                    if k != name@ {
                        lemma_untouched(&before, state, name@, k);
                    }
                }
                assert forall|k: Seq<char>| #[trigger]
                    state.last_poll(k) == old(state).last_poll(k) by {
                    if k != name@ {
                        lemma_untouched(&before, state, name@, k);
                    }
                }
                assert forall|k: Seq<char>| #[trigger]
                    state.seen_entries(k) == old(state).seen_entries(k) by {
                    if k != name@ {
                        lemma_untouched(&before, state, name@, k);
                    }
                }
                assert forall|k: Seq<char>| #[trigger]
                    state.seen_order(k) == old(state).seen_order(k) by {
                    if k != name@ {
                        lemma_untouched(&before, state, name@, k);
                    }
                }
            }
        } else {
            polls.push(true);
        }
        i += 1;
    }
    assert(names_view(names@).take(names.len() as int) =~= names_view(names@));
    polls
}


/// An id recorded with the empty fingerprint (as loaded from a state file
/// written before fingerprints existed) is re-synced, not alerted on again,
/// the first time it is fetched.
pub proof fn lemma_legacy_entry_resyncs(incident: Incident)
    ensures
        action_for(Some(Seq::empty()), fingerprint_of(&incident)) == IncidentAction::Resync,
{
    lemma_fingerprint_len(incident.title@, incident.description@, incident.occurred_at@);
}

/// An incident whose fingerprint was recorded is skipped while its content
/// stays the same; one never recorded is alerted on as new.
pub proof fn lemma_alert_once(recorded: Option<Seq<char>>, current: Seq<char>)
    ensures
        recorded == Some(current) ==> action_for(recorded, current) == IncidentAction::Skip,
        recorded is None ==> action_for(recorded, current) == IncidentAction::Notify(
            NotificationKind::New,
        ),
        recorded matches Some(f) && f != current && f.len() > 0 ==> action_for(recorded, current)
            == IncidentAction::Notify(NotificationKind::Update),
{
}

/// The backoff never exceeds the cap; below the cap it is `2^failures`; it
/// never shrinks as failures add up; and it is at least one cycle when the
/// cap is. (With a cap of 32: 3 failures give 8 cycles, 4 give 16, 5 and
/// more give 32.)
pub proof fn lemma_backoff_schedule(failures: u32, max_cycles: u32)
    ensures
        backoff_for(failures, max_cycles) <= max_cycles,
        failures < 32 && pow2(failures as nat) <= max_cycles ==> backoff_for(failures, max_cycles)
            == pow2(failures as nat),
        failures < u32::MAX ==> backoff_for(failures, max_cycles) <= backoff_for(
            (failures + 1) as u32,
            max_cycles,
        ),
        max_cycles >= 1 ==> backoff_for(failures, max_cycles) >= 1,
{
    if failures < 32 {
        lemma_pow2_bound(failures as nat);
    }
    if failures + 1 < 32 {
        lemma_pow2_bound((failures + 1) as nat);
        lemma_pow2_monotone(failures as nat, (failures + 1) as nat);
    }
}

/// Builds what the monitor runs with. Refused, in this order: an unknown
/// provider, a notifier that cannot be built, no provider enabled, no
/// notifier enabled.
pub fn build_components(
    provider_settings: &Vec<ProviderSetting>,
    notifier_settings: &Vec<NotifierSetting>,
) -> (r: Result<(Vec<Provider>, Vec<TelegramNotifier>), AppError>)
    ensures
        !providers::all_known(provider_settings@) ==> (r matches Err(e)
            && providers::refuses_first_unknown(e, provider_settings@)),
        providers::all_known(provider_settings@) && !notifiers::all_buildable(notifier_settings@)
            ==> (r matches Err(e) && notifiers::refuses_first_unbuildable(e, notifier_settings@)),
        providers::all_known(provider_settings@) && notifiers::all_buildable(notifier_settings@)
            && provider_settings@.len() == 0 ==> (r matches Err(AppError::NoProvidersEnabled)),
        providers::all_known(provider_settings@) && notifiers::all_buildable(notifier_settings@)
            && provider_settings@.len() > 0 && notifier_settings@.len() == 0 ==> (r matches Err(
            AppError::NoNotifiersEnabled,
        )),
        r matches Ok((p, n)) ==> {
            &&& provider_settings@.len() > 0
            &&& notifier_settings@.len() > 0
            &&& providers::are_providers(p@, provider_settings@)
            &&& notifiers::are_notifiers(n@, notifier_settings@)
        },
        r is Ok <==> (providers::all_known(provider_settings@) && notifiers::all_buildable(
            notifier_settings@,
        ) && provider_settings@.len() > 0 && notifier_settings@.len() > 0),
{
    let built_providers = providers::build_all(provider_settings)?;
    let built_notifiers = notifiers::build_all(notifier_settings)?;
    if built_providers.len() == 0 {
        return Err(AppError::NoProvidersEnabled);
    }
    if built_notifiers.len() == 0 {
        return Err(AppError::NoNotifiersEnabled);
    }
    Ok((built_providers, built_notifiers))
}

} // verus!
