//! One reconciliation pass: what the audio engine reports is brought in line with the
//! shared record.
//!
//! A pass goes through these steps, in this order:
//!
//! 1. [`Pass::begin`] refreshes the registry of duckers and decides whether to duck.
//! 2. [`Pass::capture`] takes the baselines that are still unknown. Where it took any,
//!    the state has to be saved before a volume is lowered; [`Pass::saved`] hears whether
//!    that worked, and [`Pass::replace_state`] gets what is on disk where it did not.
//! 3. [`Pass::plan`] says which session gets which volume.
//! 4. [`Pass::settle`] hears which of these writes succeeded and strikes off what was
//!    put back.
use vstd::prelude::*;

use crate::audio_ducking::session;
use crate::audio_ducking::session::{LiveSession, SessionView};
use crate::audio_ducking::state;
use crate::audio_ducking::state::{Baseline, DuckerEntry, DuckerView, SharedState, StateView};
use crate::single;
use crate::single::Single;

verus! {

/// A ducker whose heartbeat is older than this counts as dead, even if its process is
/// still there (it may hang, or its number may have been given to another).
pub const HEARTBEAT_STALE_MS: u64 = 6_000;

/// A baseline is given up after this long without its session being seen. Generous: an
/// application that plays a sound once a day must still be repaired.
pub const BASELINE_TTL_MS: u64 = 604_800_000;

/// How long the one-time repair of older damage stays open.
pub const MIGRATION_WINDOW_MS: u64 = 86_400_000;

/// The bit pattern of the volume under which a session counts as not at full volume:
/// 1 less the tolerance of 0.004.
pub const NEARLY_FULL_BITS: u32 = 0x3f7e_f9db;

// ---------------------------------------------------------------------------
// What a pass knows
// ---------------------------------------------------------------------------

/// What a pass finds around it.
#[derive(Clone, Copy, Debug, PartialEq, Eq, Structural)]
pub struct Surroundings {
    pub own_pid: u32,
    pub now_ms: u64,
    /// The pass holds the lock that keeps other processes from passing at the same time.
    pub have_lock: bool,
    /// The state file could be read, or there was none.
    pub state_readable: bool,
    /// The user has switched ducking off: this process lowers no volume.
    pub ducking_disabled: bool,
    /// The user has switched the repair of older damage off.
    pub migration_disabled: bool,
    /// There are traces of a version whose ducking could leave damage.
    pub legacy_present: bool,
}

/// A pass in progress.
#[derive(Debug)]
pub struct Pass {
    around: Surroundings,
    state: SharedState,
    should_duck: bool,
    ratio: Single,
    migration_active: bool,
    speakers: Vec<u32>,
    unsaved: bool,
}

#[verifier::ext_equal]
pub struct PassView {
    pub around: Surroundings,
    pub state: StateView,
    /// Someone asks for ducking.
    pub should_duck: bool,
    /// The smallest ratio that anyone asks for.
    pub ratio: Single,
    /// Sessions under full volume are raised, each identifier once.
    pub migration_active: bool,
    /// The processes that ask for ducking.
    pub speakers: Set<u32>,
    /// Baselines were taken that are not known to be on disk.
    pub unsaved: bool,
}

impl View for Pass {
    type V = PassView;

    closed spec fn view(&self) -> PassView {
        PassView {
            around: self.around,
            state: self.state@,
            should_duck: self.should_duck,
            ratio: self.ratio,
            migration_active: self.migration_active,
            speakers: self.speakers@.to_set(),
            unsaved: self.unsaved,
        }
    }
}

// ---------------------------------------------------------------------------
// Beginning: the registry of duckers
// ---------------------------------------------------------------------------

/// Another process's ducker is believed: its process is alive, and its heartbeat fresh.
pub open spec fn still_ducking(d: DuckerView, live_pids: Seq<u32>, around: Surroundings) -> bool {
    &&& d.pid != around.own_pid
    &&& live_pids.contains(d.pid)
    &&& state::age_ms(d.heartbeat_ms, around.now_ms) < HEARTBEAT_STALE_MS
}

/// The entry of an instance in this process.
pub open spec fn own_entry(instance: Seq<char>, ratio: Single, around: Surroundings) -> DuckerView {
    DuckerView {
        instance,
        pid: around.own_pid,
        heartbeat_ms: around.now_ms,
        ratio,
    }
}

/// The registry: other processes' duckers that are still believed, then the instances in
/// this process, unless ducking is switched off here.
pub open spec fn refreshed(
    duckers: Seq<DuckerView>,
    local: Seq<(String, Single)>,
    live_pids: Seq<u32>,
    around: Surroundings,
) -> Seq<DuckerView> {
    duckers.filter(|d: DuckerView| still_ducking(d, live_pids, around)) + if around.ducking_disabled {
        Seq::empty()
    } else {
        local.map_values(|l: (String, Single)| own_entry(l.0@, l.1, around))
    }
}

/// The smallest ratio that is asked for, 1 at most.
pub open spec fn smallest_ratio(duckers: Seq<DuckerView>) -> Single
    decreases duckers.len(),
{
    if duckers.len() == 0 {
        single::one_value()
    } else {
        smallest_ratio(duckers.drop_last()).smaller(duckers.last().ratio)
    }
}

/// The processes in the registry.
pub open spec fn ducking_pids(duckers: Seq<DuckerView>) -> Set<u32> {
    duckers.map_values(|d: DuckerView| d.pid).to_set()
}

/// The repair window opens with this pass.
pub open spec fn opens_window(state: StateView, around: Surroundings) -> bool {
    state.migration_deadline_ms is None && !around.migration_disabled && around.legacy_present
}

/// The pass that begins with a state, the instances of this process that ask for
/// ducking, and the processes that are alive.
pub open spec fn begun(
    state: StateView,
    local: Seq<(String, Single)>,
    live_pids: Seq<u32>,
    around: Surroundings,
) -> PassView {
    let duckers = refreshed(state.duckers, local, live_pids, around);
    let deadline = if opens_window(state, around) {
        Some((around.now_ms + MIGRATION_WINDOW_MS) as u64)
    } else {
        state.migration_deadline_ms
    };
    let active = !around.migration_disabled && around.have_lock && match deadline {
        Some(deadline) => around.now_ms < deadline,
        None => false,
    };
    PassView {
        around,
        state: StateView {
            duckers,
            baselines: state.baselines,
            migration_deadline_ms: deadline,
            migrated: if active {
                state.migrated
            } else {
                Set::empty()
            },
        },
        should_duck: duckers.len() > 0,
        ratio: smallest_ratio(duckers).unit(),
        migration_active: active,
        speakers: ducking_pids(duckers),
        unsaved: false,
    }
}

impl Pass {
    pub closed spec fn wf(&self) -> bool {
        self.state.wf()
    }

    /// Begins a pass. `local` holds the instances in this process that ask for ducking,
    /// each with its ratio; `live_pids` the processes that are alive, of those in the
    /// registry.
    pub fn begin(
        state: SharedState,
        local: &Vec<(String, Single)>,
        live_pids: &Vec<u32>,
        around: Surroundings,
    ) -> (pass: Pass)
        requires
            state.wf(),
            opens_window(state@, around) ==> around.now_ms + MIGRATION_WINDOW_MS <= u64::MAX,
        ensures
            pass.wf(),
            pass@ == begun(state@, local@, live_pids@, around),
    {
        let mut state = state;
        let ghost start = state@;
        let duckers = refresh_duckers(state.duckers(), local, live_pids, around);
        let ghost views = state::ducker_views(duckers@);
        let mut ratio = Single::one();
        let mut speakers: Vec<u32> = Vec::new();
        let mut i: usize = 0;
        while i < duckers.len()
            invariant
                i <= duckers.len(),
                views == state::ducker_views(duckers@),
                ratio == smallest_ratio(views.take(i as int)),
                speakers@ == views.take(i as int).map_values(|d: DuckerView| d.pid),
            decreases duckers.len() - i,
        {
            assert(views.take(i + 1).drop_last() == views.take(i as int));
            assert(views[i as int] == duckers@[i as int]@);
            ratio = ratio.min(duckers[i].ratio);
            speakers.push(duckers[i].pid);
            assert(speakers@ =~= views.take(i + 1).map_values(|d: DuckerView| d.pid));
            i += 1;
        }
        assert(views.take(i as int) == views);
        let should_duck = duckers.len() > 0;
        state.set_duckers(duckers);
        if state.migration_deadline_ms().is_none() && !around.migration_disabled
            && around.legacy_present {
            state.set_migration_deadline_ms(around.now_ms + MIGRATION_WINDOW_MS);
        }
        let open = match state.migration_deadline_ms() {
            Some(deadline) => around.now_ms < deadline,
            None => false,
        };
        let migration_active = !around.migration_disabled && around.have_lock && open;
        if !migration_active {
            state.clear_migrated();
        }
        let pass = Pass {
            around,
            state,
            should_duck,
            ratio: ratio.clamp_unit(),
            migration_active,
            speakers,
            unsaved: false,
        };
        assert(pass@ =~= begun(start, local@, live_pids@, around));
        pass
    }
}

fn refresh_duckers(
    duckers: &Vec<DuckerEntry>,
    local: &Vec<(String, Single)>,
    live_pids: &Vec<u32>,
    around: Surroundings,
) -> (res: Vec<DuckerEntry>)
    ensures
        state::ducker_views(res@) == refreshed(
            state::ducker_views(duckers@),
            local@,
            live_pids@,
            around,
        ),
{
    let ghost views = state::ducker_views(duckers@);
    let ghost keep = |d: DuckerView| still_ducking(d, live_pids@, around);
    let mut res: Vec<DuckerEntry> = Vec::new();
    let mut i: usize = 0;
    assert(state::ducker_views(res@) == views.take(0).filter(keep)) by {
        reveal(Seq::filter);
    }
    while i < duckers.len()
        invariant
            i <= duckers.len(),
            views == state::ducker_views(duckers@),
            keep == (|d: DuckerView| still_ducking(d, live_pids@, around)),
            state::ducker_views(res@) == views.take(i as int).filter(keep),
        decreases duckers.len() - i,
    {
        let d = &duckers[i];
        let ghost before = state::ducker_views(res@);
        if d.pid != around.own_pid && session::contains_pid(live_pids, d.pid) && state::age(
            d.heartbeat_ms,
            around.now_ms,
        ) < HEARTBEAT_STALE_MS {
            res.push(d.copy());
            assert(state::ducker_views(res@) =~= before.push(d@));
        }
        proof {
            reveal(Seq::filter);
            assert(views.take(i + 1).drop_last() == views.take(i as int));
            assert(views.take(i + 1).last() == d@);
        }
        i += 1;
    }
    assert(views.take(i as int) == views);
    let ghost others = state::ducker_views(res@);
    if around.ducking_disabled {
        assert(others + Seq::<DuckerView>::empty() == others);
        return res;
    }
    let ghost own = local@.map_values(|l: (String, Single)| own_entry(l.0@, l.1, around));
    let mut j: usize = 0;
    assert(others + own.take(0) == others);
    while j < local.len()
        invariant
            j <= local.len(),
            own == local@.map_values(|l: (String, Single)| own_entry(l.0@, l.1, around)),
            state::ducker_views(res@) == others + own.take(j as int),
        decreases local.len() - j,
    {
        let ghost before = state::ducker_views(res@);
        let entry = DuckerEntry {
            instance: local[j].0.clone(),
            pid: around.own_pid,
            heartbeat_ms: around.now_ms,
            ratio: local[j].1,
        };
        res.push(entry);
        assert(state::ducker_views(res@) =~= before.push(entry@));
        assert(own.take(j + 1) =~= own.take(j as int).push(own[j as int]));
        assert(state::ducker_views(res@) =~= others + own.take(j + 1));
        j += 1;
    }
    assert(own.take(j as int) == own);
    res
}

// ---------------------------------------------------------------------------
// Capturing baselines
// ---------------------------------------------------------------------------

/// Baselines may be taken: someone asks for ducking, and "no record" means "never
/// ducked" (the record could be read, and nobody else is changing it).
pub open spec fn may_capture(p: PassView) -> bool {
    p.should_duck && p.around.have_lock && p.around.state_readable
}

/// The identifier gets a baseline: it has a session, has no baseline yet, and none of its
/// sessions belongs to a process that is speaking.
pub open spec fn is_captured(p: PassView, sessions: Seq<SessionView>, id: Seq<char>) -> bool {
    &&& may_capture(p)
    &&& session::has_session(sessions, id)
    &&& !p.state.baselines.contains_key(id)
    &&& !session::belongs_to(sessions, id, p.speakers)
    &&& session::own_volume(sessions, id) is Some
}

/// The baseline that a captured identifier gets.
pub open spec fn new_baseline(p: PassView, sessions: Seq<SessionView>, id: Seq<char>) -> Baseline {
    let volume = session::own_volume(sessions, id)->0;
    Baseline { volume, ducked_to: volume, last_seen_ms: p.around.now_ms }
}

/// The record with the baselines added that are captured from the sessions in `seen`. What
/// was on record stays as it is.
pub open spec fn captured_from(
    p: PassView,
    sessions: Seq<SessionView>,
    seen: Seq<SessionView>,
) -> Map<Seq<char>, Baseline> {
    Map::new(
        |id: Seq<char>|
            p.state.baselines.contains_key(id) || (is_captured(p, sessions, id)
                && session::has_session(seen, id)),
        |id: Seq<char>|
            if p.state.baselines.contains_key(id) {
                p.state.baselines[id]
            } else {
                new_baseline(p, sessions, id)
            },
    )
}

/// The pass after capturing.
pub open spec fn captured(p: PassView, sessions: Seq<SessionView>) -> PassView {
    PassView {
        state: StateView { baselines: captured_from(p, sessions, sessions), ..p.state },
        unsaved: p.unsaved || exists|id: Seq<char>| is_captured(p, sessions, id),
        ..p
    }
}

impl Pass {
    /// Whether the sessions have to be looked at. With nobody ducking, nothing owed and
    /// no repair going on there is nothing to find.
    pub fn needs_scan(&self) -> (res: bool)
        requires
            self.wf(),
        ensures
            res == (self@.should_duck || self@.state.baselines != Map::<
                Seq<char>,
                Baseline,
            >::empty() || self@.migration_active),
    {
        self.should_duck || self.owes() || self.migration_active
    }

    fn owes(&self) -> (res: bool)
        requires
            self.wf(),
        ensures
            res == (self@.state.baselines != Map::<Seq<char>, Baseline>::empty()),
    {
        let list = self.state.baselines();
        proof {
            if list@.len() == 0 {
                assert(self@.state.baselines.dom() =~= Set::<Seq<char>>::empty());
                assert(self@.state.baselines =~= Map::<Seq<char>, Baseline>::empty());
            } else {
                assert(self@.state.baselines.contains_key(list@[0].0@));
            }
        }
        list.len() > 0
    }

    /// Takes the baselines that are not on record yet. Returns whether there were any;
    /// the state then has to be saved before a volume is lowered.
    pub fn capture(&mut self, sessions: &Vec<LiveSession>) -> (added: bool)
        requires
            old(self).wf(),
        ensures
            final(self).wf(),
            final(self)@ == captured(old(self)@, session::session_views(sessions@)),
            added == exists|id: Seq<char>|
                is_captured(old(self)@, session::session_views(sessions@), id),
    {
        let ghost p = self@;
        let ghost views = session::session_views(sessions@);
        let mut added = false;
        if self.should_duck && self.around.have_lock && self.around.state_readable {
            let mut i: usize = 0;
            assert(self@.state.baselines =~= captured_from(p, views, views.take(0)));
            while i < sessions.len()
                invariant
                    i <= sessions.len(),
                    views == session::session_views(sessions@),
                    self.wf(),
                    may_capture(p),
                    self@ == (PassView {
                        state: StateView { baselines: self@.state.baselines, ..p.state },
                        ..p
                    }),
                    self@.state.baselines == captured_from(p, views, views.take(i as int)),
                    added == exists|id: Seq<char>|
                        is_captured(p, views, id) && #[trigger] session::has_session(
                            views.take(i as int),
                            id,
                        ),
                decreases sessions.len() - i,
            {
                let id = &sessions[i].identifier;
                let ghost so_far = self@.state.baselines;
                let ghost was_added = added;
                proof {
                    assert(views[i as int].identifier == id@);
                    assert(session::has_session(views, id@));
                    assert forall|k: Seq<char>| #[trigger]
                        session::has_session(views.take(i + 1), k) == (session::has_session(
                            views.take(i as int),
                            k,
                        ) || k == id@) by {
                        session::lemma_take_has(views, i as int, k);
                    }
                }
                let known = self.state.baseline(id).is_some();
                if !known && !session::is_of_process(sessions, id, &self.speakers) {
                    match session::find_own_volume(sessions, id) {
                        Some(volume) => {
                            self.state.set_baseline(
                                id,
                                Baseline {
                                    volume,
                                    ducked_to: volume,
                                    last_seen_ms: self.around.now_ms,
                                },
                            );
                            added = true;
                            assert(is_captured(p, views, id@));
                            assert(session::has_session(views.take(i + 1), id@));
                        },
                        None => {},
                    }
                }
                proof {
                    assert(is_captured(p, views, id@) ==> self@.state.baselines.contains_key(id@));
                    assert(self@.state.baselines =~= captured_from(p, views, views.take(i + 1)));
                    if exists|k: Seq<char>|
                        is_captured(p, views, k) && #[trigger] session::has_session(
                            views.take(i + 1),
                            k,
                        ) {
                        let k = choose|k: Seq<char>|
                            is_captured(p, views, k) && #[trigger] session::has_session(
                                views.take(i + 1),
                                k,
                            );
                        if session::has_session(views.take(i as int), k) {
                            assert(was_added);
                        } else {
                            assert(k == id@);
                            assert(added);
                        }
                    }
                    if was_added {
                        let k = choose|k: Seq<char>|
                            is_captured(p, views, k) && #[trigger] session::has_session(
                                views.take(i as int),
                                k,
                            );
                        assert(session::has_session(views.take(i + 1), k));
                    }
                }
                i += 1;
            }
            assert(views.take(i as int) == views);
            if added {
                self.unsaved = true;
            }
        }
        proof {
            assert(self@.state.baselines =~= captured_from(p, views, views));
            if exists|id: Seq<char>| is_captured(p, views, id) {
                let id = choose|id: Seq<char>| is_captured(p, views, id);
                assert(session::has_session(views, id));
            }
            assert(self@ =~= captured(p, views));
        }
        added
    }
}

// ---------------------------------------------------------------------------
// Saving what was captured
// ---------------------------------------------------------------------------

/// The pass after an attempt to save the state.
pub open spec fn after_saving(p: PassView, durable: bool) -> PassView {
    PassView { unsaved: p.unsaved && !durable, ..p }
}

/// The pass with the state that is on disk in place of its own, as far as that could be
/// read.
pub open spec fn with_state(p: PassView, state: StateView, readable: bool) -> PassView {
    PassView {
        around: Surroundings { state_readable: readable, ..p.around },
        state,
        unsaved: false,
        ..p
    }
}

impl Pass {
    /// Hears whether the state was saved. Returns whether it has to be read again: what
    /// was captured but could not be saved must be forgotten, not ducked.
    pub fn saved(&mut self, durable: bool) -> (read_again: bool)
        requires
            old(self).wf(),
        ensures
            final(self).wf(),
            final(self)@ == after_saving(old(self)@, durable),
            read_again == (old(self)@.unsaved && !durable),
    {
        if durable {
            self.unsaved = false;
        }
        self.unsaved
    }

    /// Goes on with the state that is on disk. `readable` says whether the file could be
    /// read, or there was none.
    pub fn replace_state(&mut self, state: SharedState, readable: bool)
        requires
            old(self).wf(),
            state.wf(),
        ensures
            final(self).wf(),
            final(self)@ == with_state(old(self)@, state@, readable),
    {
        self.state = state;
        self.around.state_readable = readable;
        self.unsaved = false;
    }
}

// ---------------------------------------------------------------------------
// Deciding
// ---------------------------------------------------------------------------

/// What is done with the sessions of one identifier.
#[derive(Clone, Copy, Debug, PartialEq, Eq, Structural)]
pub enum Decision {
    /// Brought to the baseline times the ratio.
    Duck,
    /// Brought back to the baseline.
    Restore,
    /// Brought to full volume, to repair older damage.
    Raise,
    Leave,
}

/// What is done with the sessions of an identifier.
///
/// Someone who speaks is not ducked, whoever else asks for it: if its sessions were
/// ducked a moment ago, they are put back. Who speaks is read from the shared registry
/// alone, so all guardians decide alike.
pub open spec fn decide(p: PassView, sessions: Seq<SessionView>, id: Seq<char>) -> Decision {
    let recorded = p.state.baselines.contains_key(id);
    if p.should_duck && !session::belongs_to(sessions, id, p.speakers) {
        if recorded && !p.unsaved && !p.around.ducking_disabled {
            Decision::Duck
        } else {
            Decision::Leave
        }
    } else if recorded {
        Decision::Restore
    } else if p.migration_active && !p.should_duck && !p.around.ducking_disabled
        && !p.state.migrated.contains(id) {
        Decision::Raise
    } else {
        Decision::Leave
    }
}

impl Pass {
    /// Decides about the sessions of an identifier.
    pub fn decision(&self, sessions: &Vec<LiveSession>, id: &String) -> (res: Decision)
        requires
            self.wf(),
        ensures
            res == decide(self@, session::session_views(sessions@), id@),
    {
        let recorded = self.state.baseline(id).is_some();
        if self.should_duck && !session::is_of_process(sessions, id, &self.speakers) {
            if recorded && !self.unsaved && !self.around.ducking_disabled {
                Decision::Duck
            } else {
                Decision::Leave
            }
        } else if recorded {
            Decision::Restore
        } else if self.migration_active && !self.should_duck && !self.around.ducking_disabled
            && !self.state.is_migrated(id) {
            Decision::Raise
        } else {
            Decision::Leave
        }
    }
}

// ---------------------------------------------------------------------------
// Planning the writes
// ---------------------------------------------------------------------------

/// `f` multiplies as the function `times` does.
pub open spec fn multiplies_as<F: Fn(Single, Single) -> Single>(
    f: F,
    times: spec_fn(Single, Single) -> Single,
) -> bool {
    forall|a: Single, b: Single, r: Single| #[trigger] call_ensures(f, (a, b), r) ==> r == times(a, b)
}

/// `f` tells volumes apart as the function `differ` does.
pub open spec fn differs_as<F: Fn(Single, Single) -> bool>(
    f: F,
    differ: spec_fn(Single, Single) -> bool,
) -> bool {
    forall|a: Single, b: Single, r: bool| #[trigger] call_ensures(f, (a, b), r) ==> r == differ(a, b)
}

/// The volume that ducking brings a session to.
pub open spec fn ducked_volume(
    p: PassView,
    id: Seq<char>,
    times: spec_fn(Single, Single) -> Single,
) -> Single {
    times(p.state.baselines[id].volume, p.ratio).unit()
}

pub open spec fn nearly_full() -> Single {
    Single { bits: NEARLY_FULL_BITS }
}

/// The volume that session `i` is set to, if it is set at all. A session that is at its
/// goal already, within the tolerance, is left alone.
pub open spec fn write_for(
    p: PassView,
    sessions: Seq<SessionView>,
    i: int,
    times: spec_fn(Single, Single) -> Single,
    differ: spec_fn(Single, Single) -> bool,
) -> Option<Single> {
    let s = sessions[i];
    let goal = match decide(p, sessions, s.identifier) {
        Decision::Duck => Some(ducked_volume(p, s.identifier, times)),
        Decision::Restore => Some(p.state.baselines[s.identifier].volume),
        _ => None,
    };
    if decide(p, sessions, s.identifier) == Decision::Raise {
        if s.volume.lt(nearly_full()) {
            Some(single::one_value())
        } else {
            None
        }
    } else {
        match goal {
            Some(goal) => if differ(s.volume, goal) {
                Some(goal.unit())
            } else {
                None
            },
            None => None,
        }
    }
}

/// A baseline after its sessions were looked at: seen now, and ducked to where ducking
/// brings them.
pub open spec fn noted(
    p: PassView,
    sessions: Seq<SessionView>,
    id: Seq<char>,
    times: spec_fn(Single, Single) -> Single,
) -> Baseline {
    let b = p.state.baselines[id];
    Baseline {
        volume: b.volume,
        ducked_to: if decide(p, sessions, id) == Decision::Duck {
            ducked_volume(p, id, times)
        } else {
            b.ducked_to
        },
        last_seen_ms: p.around.now_ms,
    }
}

/// The baselines after the sessions in `seen` were looked at.
pub open spec fn noted_baselines(
    p: PassView,
    sessions: Seq<SessionView>,
    seen: Seq<SessionView>,
    times: spec_fn(Single, Single) -> Single,
) -> Map<Seq<char>, Baseline> {
    Map::new(
        |id: Seq<char>| p.state.baselines.contains_key(id),
        |id: Seq<char>|
            if session::has_session(seen, id) {
                noted(p, sessions, id, times)
            } else {
                p.state.baselines[id]
            },
    )
}

/// The pass after planning.
pub open spec fn planned(
    p: PassView,
    sessions: Seq<SessionView>,
    times: spec_fn(Single, Single) -> Single,
) -> PassView {
    PassView {
        state: StateView {
            baselines: noted_baselines(p, sessions, sessions, times),
            ..p.state
        },
        ..p
    }
}

/// `q` differs from `p` in what the baselines on record say, not in which there are, nor in
/// the volumes that they hold.
pub open spec fn same_records(p: PassView, q: PassView) -> bool {
    &&& q == (PassView {
        state: StateView { baselines: q.state.baselines, ..p.state },
        ..p
    })
    &&& forall|id: Seq<char>|
        #![trigger q.state.baselines.contains_key(id)]
        q.state.baselines.contains_key(id) == p.state.baselines.contains_key(id)
    &&& forall|id: Seq<char>|
        #![trigger q.state.baselines[id]]
        p.state.baselines.contains_key(id) ==> q.state.baselines[id].volume
            == p.state.baselines[id].volume
}

impl Pass {
    /// Says which session is to be set to which volume: one entry for each session. What
    /// is left to the caller is floating-point work: `scale` multiplies a volume by a
    /// ratio, and `apart` tells whether two volumes differ by more than the tolerance.
    pub fn plan<F: Fn(Single, Single) -> Single, G: Fn(Single, Single) -> bool>(
        &mut self,
        sessions: &Vec<LiveSession>,
        scale: &F,
        apart: &G,
    ) -> (writes: Vec<Option<Single>>)
        requires
            old(self).wf(),
            forall|a: Single, b: Single| call_requires(*scale, (a, b)),
            forall|a: Single, b: Single| call_requires(*apart, (a, b)),
        ensures
            final(self).wf(),
            writes.len() == sessions.len(),
            same_records(old(self)@, final(self)@),
            forall|times: spec_fn(Single, Single) -> Single| #[trigger]
                multiplies_as(*scale, times) ==> final(self)@ == planned(
                    old(self)@,
                    session::session_views(sessions@),
                    times,
                ),
            forall|
                times: spec_fn(Single, Single) -> Single,
                differ: spec_fn(Single, Single) -> bool,
            | #[trigger]
                multiplies_as(*scale, times) && #[trigger] differs_as(*apart, differ) ==> forall|
                    i: int,
                |
                    0 <= i < writes.len() ==> #[trigger] writes@[i] == write_for(
                        old(self)@,
                        session::session_views(sessions@),
                        i,
                        times,
                        differ,
                    ),
    {
        let ghost p = self@;
        let ghost views = session::session_views(sessions@);
        let mut writes: Vec<Option<Single>> = Vec::new();
        let mut i: usize = 0;
        proof {
            assert forall|times: spec_fn(Single, Single) -> Single| #[trigger]
                multiplies_as(*scale, times) implies self@.state.baselines == noted_baselines(
                p,
                views,
                views.take(0),
                times,
            ) by {
                assert(self@.state.baselines =~= noted_baselines(p, views, views.take(0), times));
            }
        }
        while i < sessions.len()
            invariant
                i <= sessions.len(),
                views == session::session_views(sessions@),
                self.wf(),
                forall|a: Single, b: Single| call_requires(*scale, (a, b)),
                forall|a: Single, b: Single| call_requires(*apart, (a, b)),
                same_records(p, self@),
                writes.len() == i,
                forall|times: spec_fn(Single, Single) -> Single| #[trigger]
                    multiplies_as(*scale, times) ==> self@.state.baselines == noted_baselines(
                        p,
                        views,
                        views.take(i as int),
                        times,
                    ),
                forall|
                    times: spec_fn(Single, Single) -> Single,
                    differ: spec_fn(Single, Single) -> bool,
                | #[trigger]
                    multiplies_as(*scale, times) && #[trigger] differs_as(*apart, differ)
                        ==> forall|j: int|
                        0 <= j < writes.len() ==> #[trigger] writes@[j] == write_for(
                            p,
                            views,
                            j,
                            times,
                            differ,
                        ),
            decreases sessions.len() - i,
        {
            let id = &sessions[i].identifier;
            let volume: Single = sessions[i].volume;
            let ghost q = self@;
            assert(views[i as int] == sessions@[i as int]@);
            let decision = self.decision(sessions, id);
            assert(decision == decide(p, views, id@));
            let record = self.state.baseline(id);
            let mut write: Option<Single> = None;
            let mut new_record: Option<Baseline> = None;
            match record {
                Some(b) => {
                    let goal: Single = match decision {
                        Decision::Duck => scale(b.volume, self.ratio).clamp_unit(),
                        _ => b.volume,
                    };
                    let ducked_to: Single = match decision {
                        Decision::Duck => goal,
                        _ => b.ducked_to,
                    };
                    let moves = match decision {
                        Decision::Duck | Decision::Restore => true,
                        _ => false,
                    };
                    if moves {
                        if apart(volume, goal) {
                            write = Some(goal.clamp_unit());
                        }
                    }
                    let noted_now = Baseline {
                        volume: b.volume,
                        ducked_to,
                        last_seen_ms: self.around.now_ms,
                    };
                    self.state.set_baseline(id, noted_now);
                    new_record = Some(noted_now);
                },
                None => {
                    let raise = match decision {
                        Decision::Raise => true,
                        _ => false,
                    };
                    if raise && volume.is_less(Single::from_bits(NEARLY_FULL_BITS)) {
                        write = Some(Single::one());
                    }
                },
            }
            writes.push(write);
            proof {
                let r = self@;
                assert(r =~= (PassView {
                    state: StateView { baselines: r.state.baselines, ..p.state },
                    ..p
                }));
                assert(same_records(p, r));
                assert forall|k: Seq<char>| #[trigger]
                    session::has_session(views.take(i + 1), k) == (session::has_session(
                        views.take(i as int),
                        k,
                    ) || k == id@) by {
                    session::lemma_take_has(views, i as int, k);
                }
                assert forall|times: spec_fn(Single, Single) -> Single| #[trigger]
                    multiplies_as(*scale, times) implies r.state.baselines == noted_baselines(
                    p,
                    views,
                    views.take(i + 1),
                    times,
                ) by {
                    assert(q.state.baselines == noted_baselines(
                        p,
                        views,
                        views.take(i as int),
                        times,
                    ));
                    if new_record is Some {
                        assert(new_record->0 == noted(p, views, id@, times));
                    }
                    assert(r.state.baselines =~= noted_baselines(
                        p,
                        views,
                        views.take(i + 1),
                        times,
                    ));
                }
                assert forall|
                    times: spec_fn(Single, Single) -> Single,
                    differ: spec_fn(Single, Single) -> bool,
                | #[trigger]
                    multiplies_as(*scale, times) && #[trigger] differs_as(
                    *apart,
                    differ,
                ) implies forall|j: int|
                    0 <= j < writes.len() ==> #[trigger] writes@[j] == write_for(
                        p,
                        views,
                        j,
                        times,
                        differ,
                    ) by {
                    assert(write == write_for(p, views, i as int, times, differ));
                }
            }
            i += 1;
        }
        assert(views.take(i as int) == views);
        proof {
            assert forall|times: spec_fn(Single, Single) -> Single| #[trigger]
                multiplies_as(*scale, times) implies self@ == planned(p, views, times) by {
                assert(self@ =~= planned(p, views, times));
            }
        }
        writes
    }
}

// ---------------------------------------------------------------------------
// Settling
// ---------------------------------------------------------------------------

/// No write to a session of the identifier failed.
pub open spec fn none_failed(
    sessions: Seq<SessionView>,
    writes: Seq<Option<Single>>,
    succeeded: Seq<bool>,
    id: Seq<char>,
) -> bool {
    forall|i: int|
        0 <= i < sessions.len() && (#[trigger] sessions[i]).identifier == id && writes[i] is Some
            ==> succeeded[i]
}

/// The sessions of the identifier were treated as decided, without a failure.
pub open spec fn done_without_failure(
    p: PassView,
    sessions: Seq<SessionView>,
    writes: Seq<Option<Single>>,
    succeeded: Seq<bool>,
    id: Seq<char>,
    decision: Decision,
) -> bool {
    &&& session::has_session(sessions, id)
    &&& decide(p, sessions, id) == decision
    &&& none_failed(sessions, writes, succeeded, id)
}

/// What is owed once the sessions in `seen` are settled: a baseline that was put back is
/// struck off.
pub open spec fn owed_after(
    p: PassView,
    sessions: Seq<SessionView>,
    writes: Seq<Option<Single>>,
    succeeded: Seq<bool>,
    seen: Seq<SessionView>,
) -> Map<Seq<char>, Baseline> {
    Map::new(
        |id: Seq<char>|
            p.state.baselines.contains_key(id) && !(done_without_failure(
                p,
                sessions,
                writes,
                succeeded,
                id,
                Decision::Restore,
            ) && session::has_session(seen, id)),
        |id: Seq<char>| p.state.baselines[id],
    )
}

/// Who counts as repaired once the sessions in `seen` are settled: an identifier that was
/// raised is noted.
pub open spec fn raised_after(
    p: PassView,
    sessions: Seq<SessionView>,
    writes: Seq<Option<Single>>,
    succeeded: Seq<bool>,
    seen: Seq<SessionView>,
) -> Set<Seq<char>> {
    Set::new(
        |id: Seq<char>|
            p.state.migrated.contains(id) || (done_without_failure(
                p,
                sessions,
                writes,
                succeeded,
                id,
                Decision::Raise,
            ) && session::has_session(seen, id)),
    )
}

/// The state once the outcome of the writes is known.
pub open spec fn after_writes(
    p: PassView,
    sessions: Seq<SessionView>,
    writes: Seq<Option<Single>>,
    succeeded: Seq<bool>,
) -> StateView {
    StateView {
        baselines: owed_after(p, sessions, writes, succeeded, sessions),
        migrated: raised_after(p, sessions, writes, succeeded, sessions),
        ..p.state
    }
}

/// The pass at its end: baselines whose session has not been seen for very long are
/// given up too.
pub open spec fn settled(
    p: PassView,
    sessions: Seq<SessionView>,
    writes: Seq<Option<Single>>,
    succeeded: Seq<bool>,
) -> PassView {
    PassView {
        state: after_writes(p, sessions, writes, succeeded).without_unseen(
            p.around.now_ms,
            BASELINE_TTL_MS,
        ),
        ..p
    }
}

/// The pass may publish its state: it holds the lock, and its state is what was on disk,
/// brought up to date. A state that could not be read is not overwritten, for what is owed
/// would be lost with it.
pub open spec fn may_publish(p: PassView) -> bool {
    p.around.have_lock && p.around.state_readable
}

fn no_write_failed(
    sessions: &Vec<LiveSession>,
    writes: &Vec<Option<Single>>,
    succeeded: &Vec<bool>,
    id: &String,
) -> (res: bool)
    requires
        writes.len() == sessions.len(),
        succeeded.len() == sessions.len(),
    ensures
        res == none_failed(session::session_views(sessions@), writes@, succeeded@, id@),
{
    let ghost views = session::session_views(sessions@);
    let mut i: usize = 0;
    while i < sessions.len()
        invariant
            i <= sessions.len(),
            writes.len() == sessions.len(),
            succeeded.len() == sessions.len(),
            views == session::session_views(sessions@),
            forall|j: int|
                0 <= j < i && (#[trigger] views[j]).identifier == id@ && writes@[j] is Some
                    ==> succeeded@[j],
        decreases sessions.len() - i,
    {
        assert(views[i as int] == sessions@[i as int]@);
        if sessions[i].identifier == *id && writes[i].is_some() && !succeeded[i] {
            return false;
        }
        i += 1;
    }
    true
}

impl Pass {
    /// Hears which writes succeeded, and brings the state up to date. The entry of a
    /// session that was not written counts for nothing.
    pub fn settle(
        &mut self,
        sessions: &Vec<LiveSession>,
        writes: &Vec<Option<Single>>,
        succeeded: &Vec<bool>,
    )
        requires
            old(self).wf(),
            writes.len() == sessions.len(),
            succeeded.len() == sessions.len(),
        ensures
            final(self).wf(),
            final(self)@ == settled(
                old(self)@,
                session::session_views(sessions@),
                writes@,
                succeeded@,
            ),
    {
        let ghost p = self@;
        let ghost views = session::session_views(sessions@);
        let mut restored: Vec<bool> = Vec::new();
        let mut raised: Vec<bool> = Vec::new();
        let mut i: usize = 0;
        while i < sessions.len()
            invariant
                i <= sessions.len(),
                *self == *old(self),
                self.wf(),
                p == self@,
                views == session::session_views(sessions@),
                writes.len() == sessions.len(),
                succeeded.len() == sessions.len(),
                restored.len() == i,
                raised.len() == i,
                forall|j: int|
                    0 <= j < i ==> #[trigger] restored@[j] == done_without_failure(
                        p,
                        views,
                        writes@,
                        succeeded@,
                        views[j].identifier,
                        Decision::Restore,
                    ),
                forall|j: int|
                    0 <= j < i ==> #[trigger] raised@[j] == done_without_failure(
                        p,
                        views,
                        writes@,
                        succeeded@,
                        views[j].identifier,
                        Decision::Raise,
                    ),
            decreases sessions.len() - i,
        {
            let id = &sessions[i].identifier;
            assert(views[i as int].identifier == id@);
            assert(session::has_session(views, id@));
            let decision = self.decision(sessions, id);
            let ok = no_write_failed(sessions, writes, succeeded, id);
            let (restore, raise) = match decision {
                Decision::Restore => (ok, false),
                Decision::Raise => (false, ok),
                _ => (false, false),
            };
            restored.push(restore);
            raised.push(raise);
            i += 1;
        }
        let mut k: usize = 0;
        assert(self@.state.baselines =~= owed_after(
            p,
            views,
            writes@,
            succeeded@,
            views.take(0),
        ));
        assert(self@.state.migrated =~= raised_after(
            p,
            views,
            writes@,
            succeeded@,
            views.take(0),
        ));
        while k < sessions.len()
            invariant
                k <= sessions.len(),
                self.wf(),
                self@ == (PassView {
                    state: StateView {
                        baselines: self@.state.baselines,
                        migrated: self@.state.migrated,
                        ..p.state
                    },
                    ..p
                }),
                views == session::session_views(sessions@),
                restored.len() == sessions.len(),
                raised.len() == sessions.len(),
                forall|j: int|
                    0 <= j < sessions.len() ==> #[trigger] restored@[j] == done_without_failure(
                        p,
                        views,
                        writes@,
                        succeeded@,
                        views[j].identifier,
                        Decision::Restore,
                    ),
                forall|j: int|
                    0 <= j < sessions.len() ==> #[trigger] raised@[j] == done_without_failure(
                        p,
                        views,
                        writes@,
                        succeeded@,
                        views[j].identifier,
                        Decision::Raise,
                    ),
                self@.state.baselines == owed_after(
                    p,
                    views,
                    writes@,
                    succeeded@,
                    views.take(k as int),
                ),
                self@.state.migrated == raised_after(
                    p,
                    views,
                    writes@,
                    succeeded@,
                    views.take(k as int),
                ),
            decreases sessions.len() - k,
        {
            let id = &sessions[k].identifier;
            assert(views[k as int].identifier == id@);
            if restored[k] {
                self.state.remove_baseline(id);
            }
            if raised[k] {
                self.state.mark_migrated(id);
            }
            proof {
                assert forall|n: Seq<char>| #[trigger]
                    session::has_session(views.take(k + 1), n) == (session::has_session(
                        views.take(k as int),
                        n,
                    ) || n == id@) by {
                    session::lemma_take_has(views, k as int, n);
                }
                assert(self@.state.baselines =~= owed_after(
                    p,
                    views,
                    writes@,
                    succeeded@,
                    views.take(k + 1),
                ));
                assert(self@.state.migrated =~= raised_after(
                    p,
                    views,
                    writes@,
                    succeeded@,
                    views.take(k + 1),
                ));
            }
            k += 1;
        }
        proof {
            assert(views.take(k as int) == views);
            let end = after_writes(p, views, writes@, succeeded@);
            assert(self@.state.baselines =~= end.baselines);
            assert(self@.state.migrated =~= end.migrated);
            assert(self@.state =~= end);
        }
        self.state.drop_unseen(self.around.now_ms, BASELINE_TTL_MS);
        assert(self@ =~= settled(p, views, writes@, succeeded@));
    }

    /// Whether the state is published.
    pub fn publishes(&self) -> (res: bool)
        ensures
            res == may_publish(self@),
    {
        self.around.have_lock && self.around.state_readable
    }

    /// Whether there is work left: someone ducks, or something is owed.
    pub fn is_active(&self) -> (res: bool)
        requires
            self.wf(),
        ensures
            res == (self@.should_duck || self@.state.baselines != Map::<
                Seq<char>,
                Baseline,
            >::empty()),
    {
        self.should_duck || self.owes()
    }

    /// The state as it stands.
    pub fn state(&self) -> (state: &SharedState)
        requires
            self.wf(),
        ensures
            state.wf(),
            state@ == self@.state,
    {
        &self.state
    }

    /// The ratio that other applications are ducked by.
    pub fn ratio(&self) -> (ratio: Single)
        ensures
            ratio == self@.ratio,
    {
        self.ratio
    }

    /// Whether someone asks for ducking.
    pub fn should_duck(&self) -> (res: bool)
        ensures
            res == self@.should_duck,
    {
        self.should_duck
    }
}

} // verus!
