//! The state that all processes share: who is ducking, and what is owed to whom.
//!
//! It is kept in a file of lines. A session identifier may hold spaces (it embeds the
//! path of an executable), so it always comes last in its line.
//!
//! ```text
//! V 2
//! X <end of the repair window, in ms>
//! M <identifier of a repaired session...>
//! D <instance> <pid> <heartbeat in ms> <ratio>
//! B <baseline> <ducked to> <last seen, in ms> <session identifier...>
//! ```
use vstd::prelude::*;

use crate::audio_ducking::named;
use crate::audio_ducking::named::Named;
use crate::single::Single;

verus! {

// ---------------------------------------------------------------------------
// What the state holds
// ---------------------------------------------------------------------------

/// An instance that asks for other applications to be ducked.
#[derive(Debug)]
pub struct DuckerEntry {
    pub instance: String,
    pub pid: u32,
    pub heartbeat_ms: u64,
    pub ratio: Single,
}

/// An instance that asks for other applications to be ducked.
pub struct DuckerView {
    pub instance: Seq<char>,
    pub pid: u32,
    pub heartbeat_ms: u64,
    pub ratio: Single,
}

impl View for DuckerEntry {
    type V = DuckerView;

    open spec fn view(&self) -> DuckerView {
        DuckerView {
            instance: self.instance@,
            pid: self.pid,
            heartbeat_ms: self.heartbeat_ms,
            ratio: self.ratio,
        }
    }
}

impl DuckerEntry {
    /// An entry like this one.
    pub fn copy(&self) -> (d: DuckerEntry)
        ensures
            d@ == self@,
    {
        DuckerEntry {
            instance: self.instance.clone(),
            pid: self.pid,
            heartbeat_ms: self.heartbeat_ms,
            ratio: self.ratio,
        }
    }
}

/// The original volume of one session identifier.
#[derive(Clone, Copy, Debug, PartialEq, Eq, Structural)]
pub struct Baseline {
    /// The user's volume, from before this session was ever touched.
    pub volume: Single,
    /// The value that was written last.
    pub ducked_to: Single,
    /// When a live session with this identifier was seen last.
    pub last_seen_ms: u64,
}

/// What the shared state holds.
#[verifier::ext_equal]
pub struct StateView {
    pub duckers: Seq<DuckerView>,
    pub baselines: Map<Seq<char>, Baseline>,
    /// The end of the time in which damage of older versions is repaired.
    pub migration_deadline_ms: Option<u64>,
    /// The session identifiers that were repaired in that time.
    pub migrated: Set<Seq<char>>,
}

impl StateView {
    /// The state that nobody has written to.
    pub open spec fn blank() -> StateView {
        StateView {
            duckers: Seq::empty(),
            baselines: Map::empty(),
            migration_deadline_ms: None,
            migrated: Set::empty(),
        }
    }

    pub open spec fn with_ducker(self, d: DuckerView) -> StateView {
        StateView { duckers: self.duckers.push(d), ..self }
    }

    pub open spec fn with_baseline(self, id: Seq<char>, b: Baseline) -> StateView {
        StateView { baselines: self.baselines.insert(id, b), ..self }
    }

    pub open spec fn without_baseline(self, id: Seq<char>) -> StateView {
        StateView { baselines: self.baselines.remove(id), ..self }
    }

    pub open spec fn with_migrated(self, id: Seq<char>) -> StateView {
        StateView { migrated: self.migrated.insert(id), ..self }
    }

    /// Only the baselines whose session was seen less than `ttl_ms` ago.
    pub open spec fn without_unseen(self, now_ms: u64, ttl_ms: u64) -> StateView {
        StateView {
            baselines: Map::new(
                |id: Seq<char>|
                    self.baselines.contains_key(id) && age_ms(
                        self.baselines[id].last_seen_ms,
                        now_ms,
                    ) < ttl_ms,
                |id: Seq<char>| self.baselines[id],
            ),
            ..self
        }
    }
}

/// How long before `now_ms` something was; 0 for what lies in the future.
pub open spec fn age_ms(then_ms: u64, now_ms: u64) -> int {
    if then_ms <= now_ms {
        now_ms - then_ms
    } else {
        0
    }
}

pub fn age(then_ms: u64, now_ms: u64) -> (res: u64)
    ensures
        res == age_ms(then_ms, now_ms),
{
    if then_ms <= now_ms {
        now_ms - then_ms
    } else {
        0
    }
}

/// The shared state. No session identifier occurs twice among the baselines, nor
/// among the repaired ones.
#[derive(Debug)]
pub struct SharedState {
    duckers: Vec<DuckerEntry>,
    baselines: Named<Baseline>,
    migration_deadline_ms: Option<u64>,
    migrated: Vec<String>,
}

spec fn listed(s: Seq<String>, id: Seq<char>) -> bool {
    exists|i: int| 0 <= i < s.len() && (#[trigger] s[i])@ == id
}

spec fn distinct_names(s: Seq<String>) -> bool {
    forall|i: int, j: int| 0 <= i < j < s.len() ==> (#[trigger] s[i])@ != (#[trigger] s[j])@
}

spec fn listing(s: Seq<String>) -> Set<Seq<char>> {
    Set::new(|id: Seq<char>| listed(s, id))
}

pub open spec fn ducker_views(s: Seq<DuckerEntry>) -> Seq<DuckerView> {
    s.map_values(|d: DuckerEntry| d@)
}

impl View for SharedState {
    type V = StateView;

    closed spec fn view(&self) -> StateView {
        StateView {
            duckers: ducker_views(self.duckers@),
            baselines: self.baselines@,
            migration_deadline_ms: self.migration_deadline_ms,
            migrated: listing(self.migrated@),
        }
    }
}

impl SharedState {
    pub closed spec fn wf(&self) -> bool {
        self.baselines.wf() && distinct_names(self.migrated@)
    }

    pub fn new() -> (state: Self)
        ensures
            state.wf(),
            state@ == StateView::blank(),
    {
        let state = SharedState {
            duckers: Vec::new(),
            baselines: Named::new(),
            migration_deadline_ms: None,
            migrated: Vec::new(),
        };
        assert(state@ =~= StateView::blank());
        state
    }

    /// The baseline on record for a session identifier.
    pub fn baseline(&self, id: &String) -> (res: Option<Baseline>)
        requires
            self.wf(),
        ensures
            res == (if self@.baselines.contains_key(id@) {
                Some(self@.baselines[id@])
            } else {
                None
            }),
    {
        self.baselines.get(id)
    }

    /// Puts a baseline on record, in place of the one that was there.
    pub fn set_baseline(&mut self, id: &String, b: Baseline)
        requires
            old(self).wf(),
        ensures
            final(self).wf(),
            final(self)@ == old(self)@.with_baseline(id@, b),
    {
        self.baselines.set(id, b);
    }

    /// Takes a baseline off the record.
    pub fn remove_baseline(&mut self, id: &String)
        requires
            old(self).wf(),
        ensures
            final(self).wf(),
            final(self)@ == old(self)@.without_baseline(id@),
    {
        self.baselines.remove(id);
    }

    /// Takes the baselines off the record whose session was not seen for `ttl_ms`.
    pub fn drop_unseen(&mut self, now_ms: u64, ttl_ms: u64)
        requires
            old(self).wf(),
        ensures
            final(self).wf(),
            final(self)@ == old(self)@.without_unseen(now_ms, ttl_ms),
    {
        let mut kept: Named<Baseline> = Named::new();
        let all = self.baselines.entries();
        let ghost fresh = old(self)@.without_unseen(now_ms, ttl_ms).baselines;
        let mut i: usize = 0;
        while i < all.len()
            invariant
                i <= all.len(),
                named::lists_entries(all@, old(self)@.baselines),
                fresh == old(self)@.without_unseen(now_ms, ttl_ms).baselines,
                kept.wf(),
                forall|id: Seq<char>|
                    #[trigger] kept@.contains_key(id) ==> fresh.contains_key(id) && kept@[id]
                        == fresh[id],
                forall|j: int|
                    0 <= j < i && fresh.contains_key((#[trigger] all@[j]).0@) ==> kept@.contains_key(
                        all@[j].0@,
                    ),
            decreases all.len() - i,
        {
            let b: Baseline = all[i].1;
            if age(b.last_seen_ms, now_ms) < ttl_ms {
                assert(fresh.contains_key(all@[i as int].0@));
                kept.set(&all[i].0, b);
            }
            i += 1;
        }
        assert forall|id: Seq<char>| fresh.contains_key(id) implies kept@.contains_key(id) by {
            assert(named::is_listed(all@, id));
        }
        assert(kept@ =~= fresh);
        self.baselines = kept;
    }

    /// The baselines on record, each with its session identifier.
    pub fn baselines(&self) -> (list: &Vec<(String, Baseline)>)
        requires
            self.wf(),
        ensures
            named::lists_entries(list@, self@.baselines),
    {
        self.baselines.entries()
    }

    /// The session identifiers that were repaired.
    pub fn migrated(&self) -> (list: &Vec<String>)
        requires
            self.wf(),
        ensures
            lists_names(list@, self@.migrated),
    {
        proof {
            lemma_listing_len(self.migrated@);
            assert forall|i: int| 0 <= i < self.migrated@.len() implies self@.migrated.contains(
                (#[trigger] self.migrated@[i])@,
            ) by {
                assert(listed(self.migrated@, self.migrated@[i]@));
            }
        }
        &self.migrated
    }

    /// Whether a session identifier was repaired already.
    pub fn is_migrated(&self, id: &String) -> (res: bool)
        ensures
            res == self@.migrated.contains(id@),
    {
        let mut i: usize = 0;
        while i < self.migrated.len()
            invariant
                i <= self.migrated.len(),
                forall|j: int| 0 <= j < i ==> (#[trigger] self.migrated@[j])@ != id@,
            decreases self.migrated.len() - i,
        {
            if self.migrated[i] == *id {
                return true;
            }
            i += 1;
        }
        false
    }

    /// Notes that a session identifier was repaired.
    pub fn mark_migrated(&mut self, id: &String)
        requires
            old(self).wf(),
        ensures
            final(self).wf(),
            final(self)@ == old(self)@.with_migrated(id@),
    {
        if !self.is_migrated(id) {
            let ghost before = self.migrated@;
            self.migrated.push(id.clone());
            proof {
                let now = self.migrated@;
                assert forall|k: Seq<char>| listed(now, k) == (listed(before, k) || k == id@) by {
                    if listed(before, k) {
                        let j = choose|j: int| 0 <= j < before.len() && (#[trigger] before[j])@ == k;
                        assert(now[j]@ == k);
                    }
                    if k == id@ {
                        assert(now[before.len() as int]@ == k);
                    }
                    if listed(now, k) {
                        let j = choose|j: int| 0 <= j < now.len() && (#[trigger] now[j])@ == k;
                        if j < before.len() {
                            assert(before[j]@ == k);
                        }
                    }
                }
            }
        }
        assert(final(self)@ =~= old(self)@.with_migrated(id@));
    }

    /// Forgets which session identifiers were repaired.
    pub fn clear_migrated(&mut self)
        requires
            old(self).wf(),
        ensures
            final(self).wf(),
            final(self)@ == (StateView { migrated: Set::empty(), ..old(self)@ }),
    {
        self.migrated = Vec::new();
        assert(final(self)@ =~= (StateView { migrated: Set::empty(), ..old(self)@ }));
    }

    /// The end of the repair window.
    pub fn migration_deadline_ms(&self) -> (res: Option<u64>)
        ensures
            res == self@.migration_deadline_ms,
    {
        self.migration_deadline_ms
    }

    /// Sets the end of the repair window.
    pub fn set_migration_deadline_ms(&mut self, deadline_ms: u64)
        requires
            old(self).wf(),
        ensures
            final(self).wf(),
            final(self)@ == (StateView { migration_deadline_ms: Some(deadline_ms), ..old(self)@ }),
    {
        self.migration_deadline_ms = Some(deadline_ms);
    }

    /// Everyone who asks for ducking.
    pub fn duckers(&self) -> (res: &Vec<DuckerEntry>)
        ensures
            ducker_views(res@) == self@.duckers,
    {
        &self.duckers
    }

    /// Enters the ones who ask for ducking, in place of those who did.
    pub fn set_duckers(&mut self, duckers: Vec<DuckerEntry>)
        requires
            old(self).wf(),
        ensures
            final(self).wf(),
            final(self)@ == (StateView { duckers: ducker_views(duckers@), ..old(self)@ }),
    {
        self.duckers = duckers;
    }

    /// Enters someone who asks for ducking.
    pub fn add_ducker(&mut self, d: DuckerEntry)
        requires
            old(self).wf(),
        ensures
            final(self).wf(),
            final(self)@ == old(self)@.with_ducker(d@),
    {
        self.duckers.push(d);
        assert(final(self)@ =~= old(self)@.with_ducker(d@));
    }
}

/// `list` holds each member of `names`, once.
pub open spec fn lists_names(list: Seq<String>, names: Set<Seq<char>>) -> bool {
    &&& names.finite()
    &&& list.len() == names.len()
    &&& forall|i: int| 0 <= i < list.len() ==> names.contains((#[trigger] list[i])@)
    &&& forall|i: int, j: int|
        0 <= i < j < list.len() ==> (#[trigger] list[i])@ != (#[trigger] list[j])@
}

proof fn lemma_listing_len(s: Seq<String>)
    requires
        distinct_names(s),
    ensures
        listing(s).finite(),
        listing(s).len() == s.len(),
    decreases s.len(),
{
    if s.len() == 0 {
        assert(listing(s) =~= Set::<Seq<char>>::empty());
    } else {
        let t = s.drop_last();
        lemma_listing_len(t);
        assert(!listed(t, s.last()@)) by {
            if listed(t, s.last()@) {
                let j = choose|j: int| 0 <= j < t.len() && (#[trigger] t[j])@ == s.last()@;
                assert(s[j]@ != s[s.len() - 1]@);
            }
        }
        assert forall|k: Seq<char>| listed(s, k) == (listed(t, k) || k == s.last()@) by {
            if listed(t, k) {
                let j = choose|j: int| 0 <= j < t.len() && (#[trigger] t[j])@ == k;
                assert(s[j]@ == k);
            }
            if listed(s, k) {
                let j = choose|j: int| 0 <= j < s.len() && (#[trigger] s[j])@ == k;
                if j < t.len() {
                    assert(t[j]@ == k);
                }
            }
        }
        assert(listing(s) =~= listing(t).insert(s.last()@));
    }
}

/// A list of names holds each of them in one place, and no other name.
pub proof fn law_names_are_listed(list: Seq<String>, names: Set<Seq<char>>, id: Seq<char>)
    requires
        lists_names(list, names),
    ensures
        names.contains(id) <==> exists|i: int| 0 <= i < list.len() && (#[trigger] list[i])@ == id,
        forall|i: int, j: int|
            0 <= i < list.len() && 0 <= j < list.len() && (#[trigger] list[i])@ == id && (
            #[trigger] list[j])@ == id ==> i == j,
{
    let order = list.map_values(|name: String| name@);
    assert(order.no_duplicates()) by {
        assert forall|i: int, j: int|
            0 <= i < order.len() && 0 <= j < order.len() && i != j implies order[i] != order[j] by {
            assert(order[i] == list[i]@ && order[j] == list[j]@);
        }
    }
    assert forall|name: Seq<char>| order.to_set().contains(name) implies names.contains(name) by {
        let i = choose|i: int| 0 <= i < order.len() && order[i] == name;
        assert(list[i]@ == name);
    }
    order.unique_seq_to_set();
    vstd::seq_lib::seq_to_set_is_finite(order);
    vstd::set_lib::lemma_subset_equality(order.to_set(), names);
    if names.contains(id) {
        assert(order.to_set().contains(id));
        let i = choose|i: int| 0 <= i < order.len() && order[i] == id;
        assert(list[i]@ == id);
    }
}

} // verus!
