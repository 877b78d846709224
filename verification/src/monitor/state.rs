//! Per-provider tracking of seen incidents and poll health.
use vstd::prelude::*;
use vstd::hash_map::StringHashMap;
use std::collections::VecDeque;

verus! {

broadcast use vstd::hash_map::group_hash_map_axioms;

/// How many incident ids are remembered per provider.
pub const MAX_SEEN_IDS_PER_PROVIDER: usize = 10_000;

/// A map of incident id to content fingerprint, bounded to
/// `MAX_SEEN_IDS_PER_PROVIDER` entries. When the cap is reached the oldest
/// inserted id is evicted (FIFO); updating the fingerprint of an existing id
/// leaves its eviction position unchanged.
pub struct BoundedSeenSet {
    fingerprints: StringHashMap<String>,
    order: VecDeque<String>,
}

/// The entries and eviction order after recording `fp` for `id`: a known id
/// gets the new fingerprint and keeps its place; a new id goes last, and when
/// `MAX_SEEN_IDS_PER_PROVIDER` ids are already remembered the oldest one is
/// dropped first.
pub open spec fn seen_after_insert(
    entries: Map<Seq<char>, Seq<char>>,
    order: Seq<Seq<char>>,
    id: Seq<char>,
    fp: Seq<char>,
) -> (Map<Seq<char>, Seq<char>>, Seq<Seq<char>>) {
    if entries.contains_key(id) {
        (entries.insert(id, fp), order)
    } else if order.len() >= MAX_SEEN_IDS_PER_PROVIDER {
        (entries.remove(order[0]).insert(id, fp), order.drop_first().push(id))
    } else {
        (entries.insert(id, fp), order.push(id))
    }
}

spec fn ids_of(order: Seq<String>) -> Seq<Seq<char>> {
    order.map_values(|v: String| v@)
}

spec fn parts_agree(fps: Map<Seq<char>, String>, order: Seq<String>) -> bool {
    &&& ids_of(order).no_duplicates()
    &&& fps.dom() == ids_of(order).to_set()
    &&& order.len() <= MAX_SEEN_IDS_PER_PROVIDER
}

impl BoundedSeenSet {
    /// Id to fingerprint, for every id currently remembered.
    pub closed spec fn entries(&self) -> Map<Seq<char>, Seq<char>> {
        self.fingerprints@.map_values(|v: String| v@)
    }

    /// The remembered ids, oldest first.
    pub closed spec fn order(&self) -> Seq<Seq<char>> {
        ids_of(self.order@)
    }

    #[verifier::type_invariant]
    closed spec fn inv(self) -> bool {
        parts_agree(self.fingerprints@, self.order@)
    }

    /// The facts the invariant gives about the public views.
    pub open spec fn consistent(&self) -> bool {
        &&& self.order().no_duplicates()
        &&& self.entries().dom() == self.order().to_set()
        &&& self.order().len() == self.entries().len()
        &&& self.entries().len() <= MAX_SEEN_IDS_PER_PROVIDER
    }

    proof fn lemma_consistent(&self)
        requires
            self.inv(),
        ensures
            self.consistent(),
    {
        assert(self.entries().dom() =~= self.fingerprints@.dom());
        self.order().unique_seq_to_set();
    }

    /// An empty set.
    pub fn new() -> (s: Self)
        ensures
            s.entries() == Map::<Seq<char>, Seq<char>>::empty(),
            s.order() == Seq::<Seq<char>>::empty(),
            s.consistent(),
    {
        let fps = StringHashMap::new();
        let order = VecDeque::new();
        proof {
            assert(ids_of(order@) =~= Seq::<Seq<char>>::empty());
            assert(fps@.dom() =~= ids_of(order@).to_set());
        }
        let s = BoundedSeenSet { fingerprints: fps, order };
        proof {
            assert(s.entries() =~= Map::<Seq<char>, Seq<char>>::empty());
            s.lemma_consistent();
        }
        s
    }

    /// Whether `id` is remembered.
    pub fn contains(&self, id: &str) -> (b: bool)
        ensures
            b == self.entries().contains_key(id@),
            self.consistent(),
    {
        proof {
            use_type_invariant(self);
            self.lemma_consistent();
        }
        self.fingerprints.contains_key(id)
    }

    /// The fingerprint recorded for `id`, or `None` if the id has never been seen.
    pub fn fingerprint(&self, id: &str) -> (r: Option<&str>)
        ensures
            match r {
                Some(f) => self.entries().contains_key(id@) && f@ == self.entries()[id@],
                None => !self.entries().contains_key(id@),
            },
            self.consistent(),
    {
        proof {
            use_type_invariant(self);
            self.lemma_consistent();
        }
        match self.fingerprints.get(id) {
            Some(f) => Some(f.as_str()),
            None => None,
        }
    }

    /// Records `fingerprint` for `id`. A known id keeps its place in the
    /// eviction order; a new id goes last, evicting the oldest id first when
    /// the set is full.
    pub fn insert(&mut self, id: String, fingerprint: String)
        ensures
            (final(self).entries(), final(self).order()) == seen_after_insert(
                old(self).entries(),
                old(self).order(),
                id@,
                fingerprint@,
            ),
            old(self).consistent(),
            final(self).consistent(),
    {
        proof {
            use_type_invariant(&*self);
            self.lemma_consistent();
        }
        let mut taken = BoundedSeenSet::new();
        std::mem::swap(self, &mut taken);
        let ghost before = taken;
        let BoundedSeenSet { fingerprints: mut fps, order: mut order } = taken;
        if fps.contains_key(id.as_str()) {
            fps.insert(id, fingerprint);
            proof {
                assert(fps@.dom() =~= before.fingerprints@.dom());
            }
            let s = BoundedSeenSet { fingerprints: fps, order };
            proof {
                assert(s.entries() =~= before.entries().insert(id@, fingerprint@));
                s.lemma_consistent();
            }
            *self = s;
            return;
        }
        if fps.len() >= MAX_SEEN_IDS_PER_PROVIDER {
            let oldest = order.pop_front();
            match oldest {
                Some(o) => {
                    fps.remove(o.as_str());
                },
                None => {},
            }
        }
        let ghost mid_order = order@;
        fps.insert(id.clone(), fingerprint);
        order.push_back(id);
        proof {
            let bo = before.order();
            assert(bo.len() == before.order@.len());
            if bo.len() >= MAX_SEEN_IDS_PER_PROVIDER {
                assert(mid_order.map_values(|v: String| v@) =~= bo.drop_first());
                assert(ids_of(order@) =~= bo.drop_first().push(id@));
                assert forall|i: int, j: int|
                    0 <= i < ids_of(order@).len() && 0 <= j < ids_of(order@).len() && i != j implies ids_of(order@)[i]
                    != ids_of(order@)[j] by {
                    if i < ids_of(order@).len() - 1 && j < ids_of(order@).len() - 1 {
                        assert(ids_of(order@)[i] == bo[i + 1]);
                        assert(ids_of(order@)[j] == bo[j + 1]);
                    } else if i == ids_of(order@).len() - 1 {
                        assert(ids_of(order@)[j] == bo[j + 1]);
                        assert(bo.to_set().contains(bo[j + 1]));
                    } else {
                        assert(ids_of(order@)[i] == bo[i + 1]);
                        assert(bo.to_set().contains(bo[i + 1]));
                    }
                }
                assert forall|k: Seq<char>| ids_of(order@).to_set().contains(k) <==> fps@.dom().contains(
                    k,
                ) by {
                    if ids_of(order@).to_set().contains(k) {
                        let i = choose|i: int| 0 <= i < ids_of(order@).len() && ids_of(order@)[i] == k;
                        if i < ids_of(order@).len() - 1 {
                            assert(ids_of(order@)[i] == bo[i + 1]);
                            assert(bo.to_set().contains(k));
                            assert(bo[0] != bo[i + 1]);
                        }
                    }
                    if fps@.dom().contains(k) && k != id@ {
                        assert(before.fingerprints@.dom().contains(k));
                        assert(bo.to_set().contains(k));
                        let i = choose|i: int| 0 <= i < bo.len() && bo[i] == k;
                        assert(i != 0);
                        assert(ids_of(order@)[i - 1] == k);
                        assert(ids_of(order@).to_set().contains(k));
                    }
                    if k == id@ {
                        assert(ids_of(order@)[ids_of(order@).len() - 1] == k);
                    }
                }
                assert(fps@.dom() =~= ids_of(order@).to_set());
                assert(fps@.map_values(|v: String| v@) =~= before.entries().remove(bo[0]).insert(id@, fingerprint@));
            } else {
                assert(mid_order == before.order@);
                assert(ids_of(order@) =~= bo.push(id@));
                assert forall|i: int, j: int|
                    0 <= i < ids_of(order@).len() && 0 <= j < ids_of(order@).len() && i != j implies ids_of(order@)[i]
                    != ids_of(order@)[j] by {
                    if i == ids_of(order@).len() - 1 {
                        assert(bo.to_set().contains(bo[j]));
                    } else if j == ids_of(order@).len() - 1 {
                        assert(bo.to_set().contains(bo[i]));
                    }
                }
                assert forall|k: Seq<char>| ids_of(order@).to_set().contains(k) <==> fps@.dom().contains(
                    k,
                ) by {
                    if ids_of(order@).to_set().contains(k) {
                        let i = choose|i: int| 0 <= i < ids_of(order@).len() && ids_of(order@)[i] == k;
                        if i < ids_of(order@).len() - 1 {
                            assert(bo.to_set().contains(bo[i]));
                        }
                    }
                    if fps@.dom().contains(k) && k != id@ {
                        assert(bo.to_set().contains(k));
                        let i = choose|i: int| 0 <= i < bo.len() && bo[i] == k;
                        assert(ids_of(order@)[i] == k);
                    }
                    if k == id@ {
                        assert(ids_of(order@)[ids_of(order@).len() - 1] == k);
                    }
                }
                assert(fps@.dom() =~= ids_of(order@).to_set());
                assert(fps@.map_values(|v: String| v@) =~= before.entries().insert(id@, fingerprint@));
            }
        }
        let s = BoundedSeenSet { fingerprints: fps, order };
        proof {
            s.lemma_consistent();
        }
        *self = s;
    }

    /// How many ids are remembered.
    pub fn len(&self) -> (n: usize)
        ensures
            n == self.entries().len(),
            n <= MAX_SEEN_IDS_PER_PROVIDER,
            self.consistent(),
    {
        proof {
            use_type_invariant(self);
            self.lemma_consistent();
        }
        self.fingerprints.len()
    }

    /// Whether no id is remembered.
    pub fn is_empty(&self) -> (b: bool)
        ensures
            b == (self.entries().len() == 0),
            self.consistent(),
    {
        proof {
            use_type_invariant(self);
            self.lemma_consistent();
        }
        self.fingerprints.len() == 0
    }
}


/// The views of (id, fingerprint) pairs.
pub open spec fn pair_views(pairs: Seq<(String, String)>) -> Seq<(Seq<char>, Seq<char>)> {
    pairs.map_values(|p: (String, String)| (p.0@, p.1@))
}

/// The entries and order after recording each pair of `pairs`, in order,
/// starting from `entries` and `order`.
pub open spec fn seen_after_all(
    entries: Map<Seq<char>, Seq<char>>,
    order: Seq<Seq<char>>,
    pairs: Seq<(Seq<char>, Seq<char>)>,
) -> (Map<Seq<char>, Seq<char>>, Seq<Seq<char>>)
    decreases pairs.len(),
{
    if pairs.len() == 0 {
        (entries, order)
    } else {
        let before = seen_after_all(entries, order, pairs.drop_last());
        seen_after_insert(before.0, before.1, pairs.last().0, pairs.last().1)
    }
}

/// The (id, fingerprint) pairs of a set, oldest id first.
pub open spec fn pairs_in_order(entries: Map<Seq<char>, Seq<char>>, order: Seq<Seq<char>>) -> Seq<
    (Seq<char>, Seq<char>),
> {
    order.map_values(|id: Seq<char>| (id, entries[id]))
}

impl BoundedSeenSet {
    /// The set that recording `pairs` in order into an empty set gives.
    pub fn from_pairs(pairs: &Vec<(String, String)>) -> (s: Self)
        ensures
            (s.entries(), s.order()) == seen_after_all(
                Map::empty(),
                Seq::empty(),
                pair_views(pairs@),
            ),
            s.consistent(),
    {
        let mut s = BoundedSeenSet::new();
        let mut i: usize = 0;
        assert(pair_views(pairs@).take(0) =~= Seq::<(Seq<char>, Seq<char>)>::empty());
        while i < pairs.len()
            invariant
                0 <= i <= pairs@.len(),
                (s.entries(), s.order()) == seen_after_all(
                    Map::empty(),
                    Seq::empty(),
                    pair_views(pairs@).take(i as int),
                ),
            decreases pairs.len() - i,
        {
            let ghost views = pair_views(pairs@);
            assert(views.take(i + 1).drop_last() =~= views.take(i as int));
            assert(views.take(i + 1).last() == views[i as int]);
            s.insert(pairs[i].0.clone(), pairs[i].1.clone());
            i += 1;
        }
        assert(pair_views(pairs@).take(i as int) =~= pair_views(pairs@));
        proof {
            use_type_invariant(&s);
            s.lemma_consistent();
        }
        s
    }

    /// The set that recording `ids` in order, each with the empty
    /// fingerprint, gives (the form older state files stored); the empty
    /// fingerprint makes the next poll re-sync each incident.
    pub fn from_ids(ids: &Vec<String>) -> (s: Self)
        ensures
            (s.entries(), s.order()) == seen_after_all(
                Map::empty(),
                Seq::empty(),
                ids@.map_values(|id: String| (id@, Seq::<char>::empty())),
            ),
            s.consistent(),
    {
        let ghost views = ids@.map_values(|id: String| (id@, Seq::<char>::empty()));
        let mut s = BoundedSeenSet::new();
        let mut i: usize = 0;
        assert(views.take(0) =~= Seq::<(Seq<char>, Seq<char>)>::empty());
        while i < ids.len()
            invariant
                0 <= i <= ids@.len(),
                views == ids@.map_values(|id: String| (id@, Seq::<char>::empty())),
                (s.entries(), s.order()) == seen_after_all(
                    Map::empty(),
                    Seq::empty(),
                    views.take(i as int),
                ),
            decreases ids.len() - i,
        {
            assert(views.take(i + 1).drop_last() =~= views.take(i as int));
            assert(views.take(i + 1).last() == views[i as int]);
            let empty = String::new();
            s.insert(ids[i].clone(), empty);
            i += 1;
        }
        assert(views.take(i as int) =~= views);
        proof {
            use_type_invariant(&s);
            s.lemma_consistent();
        }
        s
    }

    /// The (id, fingerprint) pairs, oldest id first.
    pub fn pairs(&self) -> (v: Vec<(String, String)>)
        ensures
            pair_views(v@) == pairs_in_order(self.entries(), self.order()),
            self.consistent(),
    {
        proof {
            use_type_invariant(self);
            self.lemma_consistent();
        }
        let mut v: Vec<(String, String)> = Vec::new();
        let mut i: usize = 0;
        while i < self.order.len()
            invariant
                parts_agree(self.fingerprints@, self.order@),
                0 <= i <= self.order@.len(),
                pair_views(v@) == pairs_in_order(self.entries(), self.order()).take(i as int),
            decreases self.order@.len() - i,
        {
            let id = &self.order[i];
            assert(ids_of(self.order@)[i as int] == id@);
            assert(ids_of(self.order@).to_set().contains(id@));
            match self.fingerprints.get(id.as_str()) {
                Some(fp) => {
                    let ghost before = pair_views(v@);
                    v.push((id.clone(), fp.clone()));
                    assert(pair_views(v@) =~= before.push((id@, fp@)));
                    assert(pairs_in_order(self.entries(), self.order()).take(i + 1) =~= before.push(
                        (id@, fp@),
                    ));
                },
                None => {
                    assert(false);
                },
            }
            i += 1;
        }
        assert(pairs_in_order(self.entries(), self.order()).take(i as int) =~= pairs_in_order(
            self.entries(),
            self.order(),
        ));
        v
    }
}

proof fn lemma_replay_prefix(entries: Map<Seq<char>, Seq<char>>, order: Seq<Seq<char>>, k: int)
    requires
        order.no_duplicates(),
        entries.dom() == order.to_set(),
        order.len() <= MAX_SEEN_IDS_PER_PROVIDER,
        0 <= k <= order.len(),
    ensures
        seen_after_all(Map::empty(), Seq::empty(), pairs_in_order(entries, order).take(k)) == (
            entries.restrict(order.take(k).to_set()),
            order.take(k),
        ),
    decreases k,
{
    let pairs = pairs_in_order(entries, order);
    if k == 0 {
        assert(pairs.take(0) =~= Seq::<(Seq<char>, Seq<char>)>::empty());
        assert(order.take(0) =~= Seq::<Seq<char>>::empty());
        assert(entries.restrict(order.take(0).to_set()) =~= Map::<Seq<char>, Seq<char>>::empty());
    } else {
        lemma_replay_prefix(entries, order, k - 1);
        assert(pairs.take(k).drop_last() =~= pairs.take(k - 1));
        let id = order[k - 1];
        let before = entries.restrict(order.take(k - 1).to_set());
        assert(!order.take(k - 1).contains(id)) by {
            if order.take(k - 1).contains(id) {
                let j = choose|j: int| 0 <= j < k - 1 && #[trigger] order.take(k - 1)[j] == id;
                assert(order[j] == order[k - 1]);
            }
        }
        assert(!before.contains_key(id));
        assert(order.take(k - 1).push(id) =~= order.take(k));
        assert(order.to_set().contains(id));
        assert(before.insert(id, entries[id]) =~= entries.restrict(order.take(k).to_set())) by {
            assert forall|x: Seq<char>| order.take(k).to_set().contains(x) <==> (order.take(
                k - 1,
            ).to_set().contains(x) || x == id) by {
                if order.take(k).to_set().contains(x) {
                    let j = choose|j: int| 0 <= j < k && #[trigger] order.take(k)[j] == x;
                    if j < k - 1 {
                        assert(order.take(k - 1)[j] == x);
                    }
                }
                if order.take(k - 1).to_set().contains(x) {
                    let j = choose|j: int| 0 <= j < k - 1 && #[trigger] order.take(k - 1)[j] == x;
                    assert(order.take(k)[j] == x);
                }
                if x == id {
                    assert(order.take(k)[k - 1] == x);
                }
            }
        }
    }
}

/// Recording a set's pairs, oldest first, into an empty set gives the set
/// back: the same ids, fingerprints and eviction order. (This is what makes
/// saving a set as its ordered pairs and loading it again lossless.)
pub proof fn lemma_pairs_roundtrip(s: BoundedSeenSet)
    requires
        s.consistent(),
    ensures
        seen_after_all(Map::empty(), Seq::empty(), pairs_in_order(s.entries(), s.order())) == (
            s.entries(),
            s.order(),
        ),
{
    let entries = s.entries();
    let order = s.order();
    lemma_replay_prefix(entries, order, order.len() as int);
    assert(pairs_in_order(entries, order).take(order.len() as int) =~= pairs_in_order(
        entries,
        order,
    ));
    assert(order.take(order.len() as int) =~= order);
    assert(entries.restrict(order.to_set()) =~= entries);
}

/// Recording a fingerprint in a set: the fingerprint can be looked up
/// afterwards and the other ids keep theirs; a known id keeps its place and
/// does not grow the set; a new id goes last, and when the set is full the
/// oldest id is the one forgotten; the set never holds more than
/// `MAX_SEEN_IDS_PER_PROVIDER` ids.
pub proof fn lemma_seen_insert(s: BoundedSeenSet, id: Seq<char>, fp: Seq<char>)
    requires
        s.consistent(),
    ensures
        ({
            let (entries, order) = seen_after_insert(s.entries(), s.order(), id, fp);
            &&& entries.contains_key(id) && entries[id] == fp
            &&& forall|k: Seq<char>|
                k != id && #[trigger] entries.contains_key(k) ==> s.entries().contains_key(k)
                    && entries[k] == s.entries()[k]
            &&& order.len() <= MAX_SEEN_IDS_PER_PROVIDER
            &&& s.entries().contains_key(id) ==> order == s.order() && entries.len()
                == s.entries().len()
            &&& !s.entries().contains_key(id) ==> order.last() == id
            &&& !s.entries().contains_key(id) && s.order().len() < MAX_SEEN_IDS_PER_PROVIDER
                ==> order == s.order().push(id) && forall|k: Seq<char>|
                #[trigger] s.entries().contains_key(k) ==> entries.contains_key(k)
            &&& !s.entries().contains_key(id) && s.order().len() == MAX_SEEN_IDS_PER_PROVIDER
                ==> order == s.order().drop_first().push(id) && !entries.contains_key(s.order()[0])
                && forall|k: Seq<char>|
                #[trigger] s.entries().contains_key(k) && k != s.order()[0] ==> entries.contains_key(
                    k,
                )
        }),
{
    let e = s.entries();
    let o = s.order();
    if e.contains_key(id) {
        assert(e.insert(id, fp).dom() =~= e.dom());
    } else if o.len() >= MAX_SEEN_IDS_PER_PROVIDER {
        assert(o.to_set().contains(o[0]));
        assert(o[0] != id);
    }
}

impl Default for BoundedSeenSet {
    fn default() -> (s: Self)
        ensures
            s.entries() == Map::<Seq<char>, Seq<char>>::empty(),
            s.order() == Seq::<Seq<char>>::empty(),
    {
        BoundedSeenSet::new()
    }
}

/// What is remembered about one provider between polls.
pub struct ProviderState {
    pub seen_ids: BoundedSeenSet,
    pub last_poll: Option<String>,
    /// Consecutive poll failures since last success. Resets to 0 on any successful poll.
    pub consecutive_failures: u32,
    /// Cycles remaining to skip before polling this provider again.
    pub backoff_cycles_remaining: u32,
}

impl ProviderState {
    /// Nothing seen, never polled, no failures, no backoff.
    pub open spec fn is_fresh(&self) -> bool {
        &&& self.seen_ids.entries() == Map::<Seq<char>, Seq<char>>::empty()
        &&& self.seen_ids.order() == Seq::<Seq<char>>::empty()
        &&& self.last_poll is None
        &&& self.consecutive_failures == 0
        &&& self.backoff_cycles_remaining == 0
    }

    /// A state with nothing seen, never polled, no failures and no backoff.
    pub fn new() -> (s: Self)
        ensures
            s.is_fresh(),
    {
        ProviderState {
            seen_ids: BoundedSeenSet::new(),
            last_poll: None,
            consecutive_failures: 0,
            backoff_cycles_remaining: 0,
        }
    }
}

impl Default for ProviderState {
    fn default() -> (s: Self)
        ensures
            s.is_fresh(),
    {
        ProviderState::new()
    }
}

/// Provider name to its state. The pairs are kept in a list with distinct
/// names, so that a state can be taken out by value and the names listed;
/// the view is the map from name to state.
pub struct ProviderStates {
    entries: Vec<(String, ProviderState)>,
}

spec fn names_distinct(entries: Seq<(String, ProviderState)>) -> bool {
    forall|i: int, j: int|
        0 <= i < entries.len() && 0 <= j < entries.len() && i != j ==> entries[i].0@
            != entries[j].0@
}

spec fn map_of(entries: Seq<(String, ProviderState)>) -> Map<Seq<char>, ProviderState>
    decreases entries.len(),
{
    if entries.len() == 0 {
        Map::empty()
    } else {
        map_of(entries.drop_last()).insert(entries.last().0@, entries.last().1)
    }
}

proof fn lemma_map_of(entries: Seq<(String, ProviderState)>)
    requires
        names_distinct(entries),
    ensures
        forall|k: Seq<char>|
            #![trigger map_of(entries).contains_key(k)]
            map_of(entries).contains_key(k) <==> exists|i: int|
                0 <= i < entries.len() && entries[i].0@ == k,
        forall|i: int|
            #![trigger entries[i]]
            0 <= i < entries.len() ==> map_of(entries).contains_key(entries[i].0@)
                && map_of(entries)[entries[i].0@] == entries[i].1,
        map_of(entries).dom().finite(),
        map_of(entries).len() == entries.len(),
    decreases entries.len(),
{
    if entries.len() > 0 {
        let init = entries.drop_last();
        assert(names_distinct(init));
        lemma_map_of(init);
        let last = entries.last();
        assert(!map_of(init).contains_key(last.0@)) by {
            if map_of(init).contains_key(last.0@) {
                let i = choose|i: int| 0 <= i < init.len() && init[i].0@ == last.0@;
                assert(entries[i].0@ == entries[entries.len() - 1].0@);
            }
        }
        assert forall|k: Seq<char>|
            map_of(entries).contains_key(k) <==> exists|i: int|
                0 <= i < entries.len() && entries[i].0@ == k by {
            if map_of(entries).contains_key(k) && k != last.0@ {
                let i = choose|i: int| 0 <= i < init.len() && init[i].0@ == k;
                assert(entries[i].0@ == k);
            }
            if exists|i: int| 0 <= i < entries.len() && entries[i].0@ == k {
                let i = choose|i: int| 0 <= i < entries.len() && entries[i].0@ == k;
                if i < entries.len() - 1 {
                    assert(init[i].0@ == k);
                }
            }
        }
        assert forall|i: int| 0 <= i < entries.len() implies map_of(entries).contains_key(
            entries[i].0@,
        ) && map_of(entries)[entries[i].0@] == entries[i].1 by {
            if i < entries.len() - 1 {
                assert(init[i] == entries[i]);
                assert(entries[i].0@ != last.0@);
            }
        }
    }
}

impl View for ProviderStates {
    type V = Map<Seq<char>, ProviderState>;

    closed spec fn view(&self) -> Map<Seq<char>, ProviderState> {
        map_of(self.entries@)
    }
}

impl ProviderStates {
    #[verifier::type_invariant]
    closed spec fn inv(self) -> bool {
        names_distinct(self.entries@)
    }

    /// No provider yet.
    pub fn new() -> (m: Self)
        ensures
            m@ == Map::<Seq<char>, ProviderState>::empty(),
    {
        let m = ProviderStates { entries: Vec::new() };
        assert(m@ =~= Map::<Seq<char>, ProviderState>::empty());
        m
    }

    fn position(&self, name: &str) -> (r: Option<usize>)
        ensures
            match r {
                Some(i) => i < self.entries@.len() && self.entries@[i as int].0@ == name@,
                None => forall|i: int|
                    0 <= i < self.entries@.len() ==> self.entries@[i].0@ != name@,
            },
    {
        let key = name.to_owned();
        let mut i: usize = 0;
        while i < self.entries.len()
            invariant
                0 <= i <= self.entries@.len(),
                key@ == name@,
                forall|j: int| 0 <= j < i ==> self.entries@[j].0@ != name@,
            decreases self.entries.len() - i,
        {
            if self.entries[i].0 == key {
                return Some(i);
            }
            i += 1;
        }
        None
    }

    /// The state of provider `name`, if it has one.
    pub fn get(&self, name: &str) -> (r: Option<&ProviderState>)
        ensures
            match r {
                Some(ps) => self@.contains_key(name@) && *ps == self@[name@],
                None => !self@.contains_key(name@),
            },
    {
        proof {
            use_type_invariant(self);
            lemma_map_of(self.entries@);
        }
        match self.position(name) {
            Some(i) => Some(&self.entries[i].1),
            None => None,
        }
    }

    /// How many providers have a state.
    pub fn len(&self) -> (n: usize)
        ensures
            n == self@.len(),
    {
        proof {
            use_type_invariant(self);
            lemma_map_of(self.entries@);
        }
        self.entries.len()
    }

    /// Whether no provider has a state.
    pub fn is_empty(&self) -> (b: bool)
        ensures
            b == (self@.len() == 0),
    {
        proof {
            use_type_invariant(self);
            lemma_map_of(self.entries@);
        }
        self.entries.len() == 0
    }

    /// Removes the state of `name` and hands it out, or a fresh one when it
    /// had none.
    pub fn take(&mut self, name: &str) -> (ps: ProviderState)
        ensures
            final(self)@ == old(self)@.remove(name@),
            old(self)@.contains_key(name@) ==> ps == old(self)@[name@],
            !old(self)@.contains_key(name@) ==> ps.is_fresh(),
    {
        proof {
            use_type_invariant(&*self);
            lemma_map_of(self.entries@);
        }
        match self.position(name) {
            Some(i) => {
                let mut taken = ProviderStates { entries: Vec::new() };
                std::mem::swap(self, &mut taken);
                let ProviderStates { entries: mut entries } = taken;
                let ghost before = entries@;
                let (_, ps) = entries.remove(i);
                proof {
                    assert forall|a: int, b: int|
                        0 <= a < entries@.len() && 0 <= b < entries@.len() && a != b implies entries@[a].0@
                        != entries@[b].0@ by {
                        let oa = if a < i { a } else { a + 1 };
                        let ob = if b < i { b } else { b + 1 };
                        assert(entries@[a] == before[oa]);
                        assert(entries@[b] == before[ob]);
                    }
                    lemma_map_of(entries@);
                    assert forall|k: Seq<char>| map_of(entries@).contains_key(k) <==> map_of(
                        before,
                    ).remove(name@).contains_key(k) by {
                        if map_of(entries@).contains_key(k) {
                            let a = choose|a: int| 0 <= a < entries@.len() && entries@[a].0@ == k;
                            let oa = if a < i { a } else { a + 1 };
                            assert(entries@[a] == before[oa]);
                            assert(oa != i);
                        }
                        if map_of(before).remove(name@).contains_key(k) {
                            let b = choose|b: int| 0 <= b < before.len() && before[b].0@ == k;
                            assert(b != i);
                            let nb = if b < i { b } else { b - 1 };
                            assert(entries@[nb] == before[b]);
                        }
                    }
                    assert forall|k: Seq<char>| #[trigger]
                        map_of(entries@).contains_key(k) implies map_of(entries@)[k] == map_of(
                        before,
                    )[k] by {
                        let a = choose|a: int| 0 <= a < entries@.len() && entries@[a].0@ == k;
                        let oa = if a < i { a } else { a + 1 };
                        assert(entries@[a] == before[oa]);
                    }
                    assert(map_of(entries@) =~= map_of(before).remove(name@));
                }
                *self = ProviderStates { entries };
                ps
            },
            None => {
                proof {
                    assert(self@ =~= self@.remove(name@));
                }
                ProviderState::new()
            },
        }
    }

    /// Stores `ps` as the state of `name`, which has none.
    pub fn put(&mut self, name: &str, ps: ProviderState)
        requires
            !old(self)@.contains_key(name@),
        ensures
            final(self)@ == old(self)@.insert(name@, ps),
    {
        proof {
            use_type_invariant(&*self);
            lemma_map_of(self.entries@);
        }
        let mut taken = ProviderStates { entries: Vec::new() };
        std::mem::swap(self, &mut taken);
        let ProviderStates { entries: mut entries } = taken;
        let ghost before = entries@;
        entries.push((name.to_owned(), ps));
        proof {
            assert(entries@.drop_last() =~= before);
            assert forall|a: int, b: int|
                0 <= a < entries@.len() && 0 <= b < entries@.len() && a != b implies entries@[a].0@
                != entries@[b].0@ by {
                if a < before.len() && b < before.len() {
                    assert(entries@[a] == before[a] && entries@[b] == before[b]);
                } else if a < before.len() {
                    assert(entries@[a] == before[a]);
                    assert(map_of(before).contains_key(before[a].0@));
                } else {
                    assert(entries@[b] == before[b]);
                    assert(map_of(before).contains_key(before[b].0@));
                }
            }
        }
        *self = ProviderStates { entries };
    }
}

impl ProviderStates {
    /// Stores `ps` as the state of `name`, replacing any it had.
    pub fn set(&mut self, name: &str, ps: ProviderState)
        ensures
            final(self)@ == old(self)@.insert(name@, ps),
    {
        let _ = self.take(name);
        self.put(name, ps);
        proof {
            assert(final(self)@ =~= old(self)@.insert(name@, ps));
        }
    }

    /// The names of the providers that have a state, each once.
    pub fn names(&self) -> (v: Vec<String>)
        ensures
            v@.len() == self@.len(),
            forall|i: int| 0 <= i < v@.len() ==> self@.contains_key(#[trigger] v@[i]@),
            forall|k: Seq<char>|
                self@.contains_key(k) ==> exists|i: int| 0 <= i < v@.len() && #[trigger] v@[i]@ == k,
            forall|i: int, j: int| 0 <= i < j < v@.len() ==> v@[i]@ != v@[j]@,
    {
        proof {
            use_type_invariant(self);
            lemma_map_of(self.entries@);
        }
        let mut v: Vec<String> = Vec::new();
        let mut i: usize = 0;
        while i < self.entries.len()
            invariant
                names_distinct(self.entries@),
                0 <= i <= self.entries@.len(),
                v@.len() == i,
                forall|j: int| 0 <= j < i ==> #[trigger] v@[j]@ == self.entries@[j].0@,
            decreases self.entries@.len() - i,
        {
            v.push(self.entries[i].0.clone());
            i += 1;
        }
        proof {
            assert forall|k: Seq<char>| self@.contains_key(k) implies exists|i: int|
                0 <= i < v@.len() && #[trigger] v@[i]@ == k by {
                let i = choose|i: int| 0 <= i < self.entries@.len() && self.entries@[i].0@ == k;
                assert(v@[i]@ == k);
            }
            assert forall|i: int| 0 <= i < v@.len() implies self@.contains_key(#[trigger] v@[i]@) by {
                assert(v@[i]@ == self.entries@[i].0@);
            }
        }
        v
    }
}

/// What the monitor remembers across polls and restarts.
pub struct AppState {
    pub providers: ProviderStates,
}

impl AppState {
    /// Ids seen for `provider` with their fingerprints (empty for an unknown provider).
    pub open spec fn seen_entries(&self, provider: Seq<char>) -> Map<Seq<char>, Seq<char>> {
        if self.providers@.contains_key(provider) {
            self.providers@[provider].seen_ids.entries()
        } else {
            Map::empty()
        }
    }

    /// Eviction order of the ids seen for `provider`.
    pub open spec fn seen_order(&self, provider: Seq<char>) -> Seq<Seq<char>> {
        if self.providers@.contains_key(provider) {
            self.providers@[provider].seen_ids.order()
        } else {
            Seq::empty()
        }
    }

    /// Consecutive failures of `provider` (0 for an unknown provider).
    pub open spec fn failures(&self, provider: Seq<char>) -> u32 {
        if self.providers@.contains_key(provider) {
            self.providers@[provider].consecutive_failures
        } else {
            0
        }
    }

    /// Remaining backoff cycles of `provider` (0 for an unknown provider).
    pub open spec fn backoff(&self, provider: Seq<char>) -> u32 {
        if self.providers@.contains_key(provider) {
            self.providers@[provider].backoff_cycles_remaining
        } else {
            0
        }
    }

    /// Last poll time of `provider`, if any.
    pub open spec fn last_poll(&self, provider: Seq<char>) -> Option<Seq<char>> {
        if self.providers@.contains_key(provider) {
            match self.providers@[provider].last_poll {
                Some(t) => Some(t@),
                None => None,
            }
        } else {
            None
        }
    }

    /// Every provider other than `provider` keeps its state, and `provider` has one.
    pub open spec fn only_touches(&self, before: &AppState, provider: Seq<char>) -> bool {
        &&& self.providers@.contains_key(provider)
        &&& self.providers@.remove(provider) == before.providers@.remove(provider)
    }

    /// An empty state: no provider known.
    pub fn new() -> (s: Self)
        ensures
            s.providers@ == Map::<Seq<char>, ProviderState>::empty(),
    {
        AppState { providers: ProviderStates::new() }
    }

    /// Whether incident `id` of `provider` has been seen.
    pub fn has_seen(&self, provider: &str, id: &str) -> (b: bool)
        ensures
            b == self.seen_entries(provider@).contains_key(id@),
    {
        match self.providers.get(provider) {
            Some(s) => s.seen_ids.contains(id),
            None => false,
        }
    }

    /// The fingerprint last recorded for an incident, or `None` if unseen.
    pub fn seen_fingerprint(&self, provider: &str, id: &str) -> (r: Option<&str>)
        ensures
            match r {
                Some(f) => self.seen_entries(provider@).contains_key(id@) && f@ == self.seen_entries(
                    provider@,
                )[id@],
                None => !self.seen_entries(provider@).contains_key(id@),
            },
    {
        match self.providers.get(provider) {
            Some(s) => s.seen_ids.fingerprint(id),
            None => None,
        }
    }

    /// Records `fingerprint` for incident `id` of `provider`.
    pub fn mark_seen(&mut self, provider: &str, id: String, fingerprint: String)
        ensures
            final(self).only_touches(old(self), provider@),
            (final(self).seen_entries(provider@), final(self).seen_order(provider@))
                == seen_after_insert(
                old(self).seen_entries(provider@),
                old(self).seen_order(provider@),
                id@,
                fingerprint@,
            ),
            final(self).last_poll(provider@) == old(self).last_poll(provider@),
            final(self).failures(provider@) == old(self).failures(provider@),
            final(self).backoff(provider@) == old(self).backoff(provider@),
    {
        let mut ps = self.providers.take(provider);
        ps.seen_ids.insert(id, fingerprint);
        self.providers.put(provider, ps);
        proof {
            assert(final(self).providers@.remove(provider@) =~= old(self).providers@.remove(
                provider@,
            ));
        }
    }

    /// Records when `provider` was last polled.
    pub fn set_poll_time(&mut self, provider: &str, time: String)
        ensures
            final(self).only_touches(old(self), provider@),
            final(self).last_poll(provider@) == Some(time@),
            final(self).seen_entries(provider@) == old(self).seen_entries(provider@),
            final(self).seen_order(provider@) == old(self).seen_order(provider@),
            final(self).failures(provider@) == old(self).failures(provider@),
            final(self).backoff(provider@) == old(self).backoff(provider@),
    {
        let mut ps = self.providers.take(provider);
        ps.last_poll = Some(time);
        self.providers.put(provider, ps);
        proof {
            assert(final(self).providers@.remove(provider@) =~= old(self).providers@.remove(
                provider@,
            ));
        }
    }

    /// Counts one more consecutive failure of `provider`.
    pub fn record_failure(&mut self, provider: &str)
        requires
            old(self).failures(provider@) < u32::MAX,
        ensures
            final(self).only_touches(old(self), provider@),
            final(self).failures(provider@) == old(self).failures(provider@) + 1,
            final(self).backoff(provider@) == old(self).backoff(provider@),
            final(self).last_poll(provider@) == old(self).last_poll(provider@),
            final(self).seen_entries(provider@) == old(self).seen_entries(provider@),
            final(self).seen_order(provider@) == old(self).seen_order(provider@),
    {
        let mut ps = self.providers.take(provider);
        ps.consecutive_failures = ps.consecutive_failures + 1;
        self.providers.put(provider, ps);
        proof {
            assert(final(self).providers@.remove(provider@) =~= old(self).providers@.remove(
                provider@,
            ));
        }
    }

    /// Resets the failure streak and clears any remaining backoff of `provider`.
    pub fn record_success(&mut self, provider: &str)
        ensures
            final(self).only_touches(old(self), provider@),
            final(self).failures(provider@) == 0,
            final(self).backoff(provider@) == 0,
            final(self).last_poll(provider@) == old(self).last_poll(provider@),
            final(self).seen_entries(provider@) == old(self).seen_entries(provider@),
            final(self).seen_order(provider@) == old(self).seen_order(provider@),
    {
        let mut ps = self.providers.take(provider);
        ps.consecutive_failures = 0;
        ps.backoff_cycles_remaining = 0;
        self.providers.put(provider, ps);
        proof {
            assert(final(self).providers@.remove(provider@) =~= old(self).providers@.remove(
                provider@,
            ));
        }
    }

    /// Sets how many cycles `provider` is skipped.
    pub fn set_backoff(&mut self, provider: &str, cycles: u32)
        ensures
            final(self).only_touches(old(self), provider@),
            final(self).backoff(provider@) == cycles,
            final(self).failures(provider@) == old(self).failures(provider@),
            final(self).last_poll(provider@) == old(self).last_poll(provider@),
            final(self).seen_entries(provider@) == old(self).seen_entries(provider@),
            final(self).seen_order(provider@) == old(self).seen_order(provider@),
    {
        let mut ps = self.providers.take(provider);
        ps.backoff_cycles_remaining = cycles;
        self.providers.put(provider, ps);
        proof {
            assert(final(self).providers@.remove(provider@) =~= old(self).providers@.remove(
                provider@,
            ));
        }
    }

    /// Takes one cycle off the backoff of a known `provider`, stopping at 0;
    /// an unknown provider is left alone.
    pub fn decrement_backoff(&mut self, provider: &str)
        ensures
            old(self).providers@.contains_key(provider@) ==> final(self).only_touches(
                old(self),
                provider@,
            ),
            !old(self).providers@.contains_key(provider@) ==> final(self).providers@ == old(
                self,
            ).providers@,
            final(self).backoff(provider@) == if old(self).backoff(provider@) > 0 {
                (old(self).backoff(provider@) - 1) as u32
            } else {
                0
            },
            final(self).failures(provider@) == old(self).failures(provider@),
            final(self).last_poll(provider@) == old(self).last_poll(provider@),
            final(self).seen_entries(provider@) == old(self).seen_entries(provider@),
            final(self).seen_order(provider@) == old(self).seen_order(provider@),
    {
        if self.providers.get(provider).is_some() {
            let mut ps = self.providers.take(provider);
            ps.backoff_cycles_remaining = ps.backoff_cycles_remaining.saturating_sub(1);
            self.providers.put(provider, ps);
            proof {
                assert(final(self).providers@.remove(provider@) =~= old(self).providers@.remove(
                    provider@,
                ));
            }
        }
    }

    /// Consecutive failures of `provider` (0 for an unknown provider).
    pub fn consecutive_failures(&self, provider: &str) -> (n: u32)
        ensures
            n == self.failures(provider@),
    {
        match self.providers.get(provider) {
            Some(s) => s.consecutive_failures,
            None => 0,
        }
    }

    /// Remaining backoff cycles of `provider` (0 for an unknown provider).
    pub fn backoff_cycles_remaining(&self, provider: &str) -> (n: u32)
        ensures
            n == self.backoff(provider@),
    {
        match self.providers.get(provider) {
            Some(s) => s.backoff_cycles_remaining,
            None => 0,
        }
    }
}

impl Default for AppState {
    fn default() -> (s: Self)
        ensures
            s.providers@ == Map::<Seq<char>, ProviderState>::empty(),
    {
        AppState::new()
    }
}

} // verus!
