//! Ducking: other applications play quieter while this one speaks, and get their
//! own volumes back afterwards.
//!
//! Reading a volume, multiplying it and writing the saved value back is not enough.
//! The audio engine names an application, not a stream, and remembers its volume
//! after the stream has ended. A volume that could not be put back would be read as
//! the original the next time, and multiplied again. So originals ("baselines") are
//! recorded once for each session identifier, in a state file that all processes
//! share, and stay there until they have been put back. A guardian in each process
//! compares, again and again, what the audio engine reports with that record.
pub mod coordination;
pub mod effects;
pub mod guardian;
pub mod laws;
pub mod named;
pub mod pass;
pub mod session;
pub mod state;
pub mod state_file;
pub mod store;

use vstd::prelude::*;

use crate::audio_ducking::guardian::{Ask, GuardianView};
use crate::audio_ducking::session::{LiveSession, SessionView};
use crate::audio_ducking::state::{SharedState, StateView};
use crate::single;
use crate::single::Single;

verus! {

/// How long [`AudioDucker::duck`] waits to be carried out, in milliseconds. Short: it runs
/// on the playback thread, and ducking a moment late is cosmetic.
pub const DUCK_WAIT_MS: u64 = 300;

/// How long [`AudioDucker::restore`] waits to be carried out, in milliseconds. Longer than
/// the wait for the lock, so that a pass that had to wait for it still counts.
pub const RESTORE_WAIT_MS: u64 = 1_500;

// ---------------------------------------------------------------------------
// One instance
// ---------------------------------------------------------------------------

/// Something to ask of the guardian on behalf of an instance.
#[derive(Clone, Copy, Debug, PartialEq, Eq, Structural)]
pub struct Request {
    pub ask: Ask,
    /// How long to wait until it is carried out.
    pub wait_ms: u64,
    /// Whether to run a pass oneself where no pass has carried it out by then. Whoever
    /// restores may be about to exit, so the volumes must be back.
    pub insist: bool,
}

/// Lowers the volume of other applications while this one is speaking, and puts it back
/// afterwards.
#[derive(Debug)]
pub struct AudioDucker {
    enabled: bool,
    duck_ratio: Single,
    ducked: bool,
    instance_id: String,
}

pub struct AudioDuckerView {
    pub enabled: bool,
    /// The part of their own volume that other applications play at while ducked.
    pub ratio: Single,
    pub ducked: bool,
    pub instance: Seq<char>,
}

impl View for AudioDucker {
    type V = AudioDuckerView;

    closed spec fn view(&self) -> AudioDuckerView {
        AudioDuckerView {
            enabled: self.enabled,
            ratio: self.duck_ratio,
            ducked: self.ducked,
            instance: self.instance_id@,
        }
    }
}

/// The request to duck.
pub open spec fn duck_request(ratio: Single) -> Request {
    Request { ask: Ask::Duck(ratio), wait_ms: DUCK_WAIT_MS, insist: false }
}

/// The request to duck no more.
pub open spec fn release_request() -> Request {
    Request { ask: Ask::Release, wait_ms: RESTORE_WAIT_MS, insist: true }
}

/// The request to go on ducking to another ratio. It is not waited for.
pub open spec fn retune_request(ratio: Single) -> Request {
    Request { ask: Ask::Retune(ratio), wait_ms: 0, insist: false }
}

impl AudioDuckerView {
    /// The ratio is one that can be asked for: within 0 and 1, or not a number.
    pub open spec fn wf(self) -> bool {
        self.ratio == self.ratio.unit()
    }

    pub open spec fn after_duck(self) -> (Self, Option<Request>) {
        if self.enabled && !self.ducked {
            (AudioDuckerView { ducked: true, ..self }, Some(duck_request(self.ratio)))
        } else {
            (self, None)
        }
    }

    pub open spec fn after_restore(self) -> (Self, Option<Request>) {
        if self.enabled {
            self.after_restore_force()
        } else {
            (self, None)
        }
    }

    pub open spec fn after_restore_force(self) -> (Self, Option<Request>) {
        if self.ducked {
            (AudioDuckerView { ducked: false, ..self }, Some(release_request()))
        } else {
            (self, None)
        }
    }

    pub open spec fn after_set_enabled(self, enabled: bool) -> (Self, Option<Request>) {
        let now = AudioDuckerView { enabled, ..self };
        if enabled {
            (now, None)
        } else {
            now.after_restore_force()
        }
    }

    pub open spec fn after_set_ratio(self, ratio: Single) -> (Self, Option<Request>) {
        (AudioDuckerView { ratio: ratio.unit(), ..self }, Some(retune_request(ratio.unit())))
    }
}

impl AudioDucker {
    /// Creates an instance under a name. `None` leaves ducking off; `Some(ratio)` turns it
    /// on, with the part of their own volume that other applications play at meanwhile.
    pub fn new(duck_level: Option<Single>, instance_id: String) -> (d: Self)
        ensures
            d@.wf(),
            d@ == (AudioDuckerView {
                enabled: duck_level is Some,
                ratio: match duck_level {
                    Some(ratio) => ratio.unit(),
                    None => single::one_value(),
                },
                ducked: false,
                instance: instance_id@,
            }),
    {
        let (enabled, duck_ratio) = match duck_level {
            Some(ratio) => (true, ratio.clamp_unit()),
            None => (false, Single::one()),
        };
        AudioDucker { enabled, duck_ratio, ducked: false, instance_id }
    }

    /// Ducks other applications. Idempotent.
    pub fn duck(&mut self) -> (request: Option<Request>)
        ensures
            (final(self)@, request) == old(self)@.after_duck(),
    {
        if self.enabled && !self.ducked {
            self.ducked = true;
            Some(
                Request { ask: Ask::Duck(self.duck_ratio), wait_ms: DUCK_WAIT_MS, insist: false },
            )
        } else {
            None
        }
    }

    /// Restores other applications' volumes. Idempotent.
    pub fn restore(&mut self) -> (request: Option<Request>)
        ensures
            (final(self)@, request) == old(self)@.after_restore(),
    {
        if self.enabled {
            self.restore_force()
        } else {
            None
        }
    }

    /// Restores other applications' volumes, even if ducking was turned off meanwhile.
    pub fn restore_force(&mut self) -> (request: Option<Request>)
        ensures
            (final(self)@, request) == old(self)@.after_restore_force(),
    {
        if self.ducked {
            self.ducked = false;
            Some(Request { ask: Ask::Release, wait_ms: RESTORE_WAIT_MS, insist: true })
        } else {
            None
        }
    }

    pub fn is_ducked(&self) -> (res: bool)
        ensures
            res == self@.ducked,
    {
        self.ducked
    }

    /// Turns ducking on or off. Whoever is ducked when it is turned off is restored.
    pub fn set_enabled(&mut self, enabled: bool) -> (request: Option<Request>)
        ensures
            (final(self)@, request) == old(self)@.after_set_enabled(enabled),
    {
        self.enabled = enabled;
        if enabled {
            None
        } else {
            self.restore_force()
        }
    }

    pub fn is_enabled(&self) -> (res: bool)
        ensures
            res == self@.enabled,
    {
        self.enabled
    }

    /// Sets the part of their own volume that other applications play at while ducked.
    pub fn set_duck_ratio(&mut self, ratio: Single) -> (request: Option<Request>)
        ensures
            (final(self)@, request) == old(self)@.after_set_ratio(ratio),
    {
        self.duck_ratio = ratio.clamp_unit();
        Some(Request { ask: Ask::Retune(self.duck_ratio), wait_ms: 0, insist: false })
    }

    pub fn get_duck_ratio(&self) -> (ratio: Single)
        ensures
            ratio == self@.ratio,
    {
        self.duck_ratio
    }

    /// The name of the instance.
    pub fn instance_id(&self) -> (id: &String)
        ensures
            id@ == self@.instance,
    {
        &self.instance_id
    }

    /// For an instance that goes away, after it was restored: if the guardian still has
    /// it, it is to be released.
    pub fn leave(&self, still_registered: bool) -> (request: Option<Request>)
        ensures
            request == (if still_registered {
                Some(release_request())
            } else {
                None
            }),
    {
        if still_registered {
            Some(Request { ask: Ask::Release, wait_ms: RESTORE_WAIT_MS, insist: true })
        } else {
            None
        }
    }
}

// ---------------------------------------------------------------------------
// Laws
// ---------------------------------------------------------------------------

/// Ducking again changes nothing and asks nothing, and neither does restoring again.
pub proof fn law_duck_and_restore_are_idempotent(d: AudioDuckerView)
    ensures
        d.after_duck().0.after_duck() == (d.after_duck().0, None::<Request>),
        d.after_restore().0.after_restore() == (d.after_restore().0, None::<Request>),
        d.after_restore_force().0.after_restore_force() == (
            d.after_restore_force().0,
            None::<Request>,
        ),
{
}

/// An instance that is off does nothing when it is told to duck or to restore; and turning
/// it off leaves nothing ducked.
pub proof fn law_disabled_is_inert(d: AudioDuckerView)
    ensures
        !d.enabled ==> d.after_duck() == (d, None::<Request>) && d.after_restore() == (
            d,
            None::<Request>,
        ),
        !d.after_set_enabled(false).0.ducked,
{
}

/// What can be done with an instance.
pub enum DuckerCall {
    Duck,
    Restore,
    RestoreForce,
    SetEnabled(bool),
    SetRatio(Single),
}

pub open spec fn after_call(d: AudioDuckerView, call: DuckerCall) -> (
    AudioDuckerView,
    Option<Request>,
) {
    match call {
        DuckerCall::Duck => d.after_duck(),
        DuckerCall::Restore => d.after_restore(),
        DuckerCall::RestoreForce => d.after_restore_force(),
        DuckerCall::SetEnabled(enabled) => d.after_set_enabled(enabled),
        DuckerCall::SetRatio(ratio) => d.after_set_ratio(ratio),
    }
}

/// The guardian knows what the instance wants: it ducks for it exactly while it is ducked,
/// and to its ratio.
pub open spec fn in_step(d: AudioDuckerView, g: GuardianView) -> bool {
    &&& g.local.contains_key(d.instance) == d.ducked
    &&& d.ducked ==> g.local[d.instance] == d.ratio
}

/// Whatever is done with an instance, the guardian stays in step with it once it has heard
/// the request, the other instances are not affected, and the ratio stays within bounds.
pub proof fn law_guardian_stays_in_step(d: AudioDuckerView, g: GuardianView, call: DuckerCall)
    requires
        d.wf(),
        in_step(d, g),
    ensures
        ({
            let (now, request) = after_call(d, call);
            let heard = match request {
                Some(request) => g.with_request(d.instance, request.ask),
                None => g,
            };
            &&& now.wf()
            &&& now.instance == d.instance
            &&& in_step(now, heard)
            &&& forall|other: Seq<char>|
                other != d.instance ==> {
                    &&& (#[trigger] heard.local.contains_key(other)) == g.local.contains_key(other)
                    &&& heard.local.contains_key(other) ==> heard.local[other] == g.local[other]
                }
        }),
{
    match call {
        DuckerCall::SetRatio(ratio) => {
            assert(ratio.unit().unit() == ratio.unit());
        },
        _ => {},
    }
}

// ---------------------------------------------------------------------------
// Emergency repair
// ---------------------------------------------------------------------------

/// A session is under full volume.
pub open spec fn is_raised(s: SessionView) -> bool {
    s.volume.lt(pass::nearly_full())
}

/// How many sessions were raised: those under full volume whose write succeeded.
pub open spec fn count_raised(sessions: Seq<SessionView>, succeeded: Seq<bool>) -> nat
    decreases sessions.len(),
{
    if sessions.len() == 0 {
        0
    } else {
        count_raised(sessions.drop_last(), succeeded) + if is_raised(sessions.last())
            && succeeded[sessions.len() - 1] {
            1nat
        } else {
            0nat
        }
    }
}

/// A session identifier was reached: it has sessions, and none of them is left under full
/// volume.
pub open spec fn is_reached(
    sessions: Seq<SessionView>,
    succeeded: Seq<bool>,
    id: Seq<char>,
) -> bool {
    &&& session::has_session(sessions, id)
    &&& forall|i: int|
        0 <= i < sessions.len() && (#[trigger] sessions[i]).identifier == id && is_raised(
            sessions[i],
        ) ==> succeeded[i]
}

/// The record after the repair: what is owed to those that were reached is forgotten, and
/// so is who was repaired before. What is owed to the others stays, so that they are put
/// back when they show up.
pub open spec fn repaired(
    state: StateView,
    sessions: Seq<SessionView>,
    succeeded: Seq<bool>,
) -> StateView {
    StateView {
        baselines: Map::new(
            |id: Seq<char>|
                state.baselines.contains_key(id) && !is_reached(sessions, succeeded, id),
            |id: Seq<char>| state.baselines[id],
        ),
        migrated: Set::empty(),
        ..state
    }
}

impl AudioDucker {
    /// Emergency repair, first half: which sessions are to be set to full volume.
    pub fn plan_restore_all_to_full(sessions: &Vec<LiveSession>) -> (plan: Vec<bool>)
        ensures
            plan.len() == sessions.len(),
            forall|i: int|
                0 <= i < plan.len() ==> #[trigger] plan@[i] == is_raised(sessions@[i]@),
    {
        let mut plan: Vec<bool> = Vec::new();
        let mut i: usize = 0;
        while i < sessions.len()
            invariant
                i <= sessions.len(),
                plan.len() == i,
                forall|j: int| 0 <= j < i ==> #[trigger] plan@[j] == is_raised(sessions@[j]@),
            decreases sessions.len() - i,
        {
            plan.push(sessions[i].volume.is_less(Single::from_bits(pass::NEARLY_FULL_BITS)));
            i += 1;
        }
        plan
    }

    /// Emergency repair, second half: the record is brought in line with the writes that
    /// succeeded. Returns how many sessions were raised, and the record to publish. A record
    /// that could not be read is not replaced.
    pub fn restore_all_to_full(
        sessions: &Vec<LiveSession>,
        succeeded: &Vec<bool>,
        state: SharedState,
        readable: bool,
    ) -> (res: (usize, Option<SharedState>))
        requires
            state.wf(),
            succeeded.len() == sessions.len(),
        ensures
            res.0 == count_raised(session::session_views(sessions@), succeeded@),
            match res.1 {
                Some(now) => readable && now.wf() && now@ == repaired(
                    state@,
                    session::session_views(sessions@),
                    succeeded@,
                ),
                None => !readable,
            },
    {
        let ghost views = session::session_views(sessions@);
        let ghost start = state@;
        let mut state = state;
        let mut raised: usize = 0;
        let mut i: usize = 0;
        while i < sessions.len()
            invariant
                i <= sessions.len(),
                succeeded.len() == sessions.len(),
                views == session::session_views(sessions@),
                raised == count_raised(views.take(i as int), succeeded@),
                raised <= i,
                state.wf(),
                state@.duckers == start.duckers,
                state@.migration_deadline_ms == start.migration_deadline_ms,
                forall|id: Seq<char>|
                    #[trigger] state@.baselines.contains_key(id) <==> start.baselines.contains_key(id)
                        && !(session::has_session(views.take(i as int), id) && is_reached(
                        views,
                        succeeded@,
                        id,
                    )),
                forall|id: Seq<char>| #[trigger]
                    state@.baselines.contains_key(id) ==> state@.baselines[id]
                        == start.baselines[id],
            decreases sessions.len() - i,
        {
            let s = &sessions[i];
            let ghost before = state@;
            assert(views[i as int] == s@);
            assert(views.take(i + 1).drop_last() == views.take(i as int));
            if s.volume.is_less(Single::from_bits(pass::NEARLY_FULL_BITS)) && succeeded[i] {
                raised += 1;
            }
            if all_raised(sessions, succeeded, &s.identifier) {
                state.remove_baseline(&s.identifier);
                assert(session::has_session(views, s.identifier@));
                assert(is_reached(views, succeeded@, s.identifier@));
            }
            assert forall|id: Seq<char>|
                session::has_session(views.take(i + 1), id) == (session::has_session(
                    views.take(i as int),
                    id,
                ) || id == s.identifier@) by {
                session::lemma_take_has(views, i as int, id);
            }
            i += 1;
        }
        assert(views.take(views.len() as int) == views);
        state.clear_migrated();
        assert(state@ =~= repaired(start, views, succeeded@));
        if readable {
            (raised, Some(state))
        } else {
            (raised, None)
        }
    }
}

/// Whether no session of an identifier is left under full volume.
fn all_raised(sessions: &Vec<LiveSession>, succeeded: &Vec<bool>, id: &String) -> (res: bool)
    requires
        succeeded.len() == sessions.len(),
    ensures
        ({
            let views = session::session_views(sessions@);
            res == (forall|i: int|
                0 <= i < views.len() && (#[trigger] views[i]).identifier == id@ && is_raised(
                    views[i],
                ) ==> succeeded@[i])
        }),
{
    let ghost views = session::session_views(sessions@);
    let mut i: usize = 0;
    while i < sessions.len()
        invariant
            i <= sessions.len(),
            succeeded.len() == sessions.len(),
            views == session::session_views(sessions@),
            forall|j: int|
                0 <= j < i && (#[trigger] views[j]).identifier == id@ && is_raised(views[j])
                    ==> succeeded@[j],
        decreases sessions.len() - i,
    {
        let s = &sessions[i];
        assert(views[i as int] == s@);
        if s.identifier == *id && s.volume.is_less(Single::from_bits(pass::NEARLY_FULL_BITS))
            && !succeeded[i] {
            return false;
        }
        i += 1;
    }
    true
}

/// The emergency repair forgets nothing that it has not put right: what is owed to an
/// application without a session, or one whose volume could not be set, stays owed.
pub proof fn law_unreached_stays_owed(
    state: StateView,
    sessions: Seq<SessionView>,
    succeeded: Seq<bool>,
    id: Seq<char>,
)
    requires
        state.baselines.contains_key(id),
        !is_reached(sessions, succeeded, id),
    ensures
        repaired(state, sessions, succeeded).baselines.contains_key(id),
        repaired(state, sessions, succeeded).baselines[id] == state.baselines[id],
{
}

/// What an instance does: it ducks when it is on and does not, to its ratio, and is waited
/// for briefly; it restores when it is on and ducks, or is forced to, and insists on that; it
/// is turned on and off, and off restores; and its ratio is what was set, clamped to 0 and 1.
/// Nothing else of it changes.
pub proof fn law_instance_asks_for_what_it_does(d: AudioDuckerView, ratio: Single)
    ensures
        d.enabled && !d.ducked ==> d.after_duck() == (
            AudioDuckerView { ducked: true, ..d },
            Some(Request { ask: Ask::Duck(d.ratio), wait_ms: 300, insist: false }),
        ),
        d.ducked ==> d.after_duck() == (d, None::<Request>),
        d.ducked ==> d.after_restore_force() == (
            AudioDuckerView { ducked: false, ..d },
            Some(Request { ask: Ask::Release, wait_ms: 1_500, insist: true }),
        ),
        !d.ducked ==> d.after_restore_force() == (d, None::<Request>),
        d.enabled ==> d.after_restore() == d.after_restore_force(),
        !d.enabled ==> d.after_restore() == (d, None::<Request>),
        d.after_set_enabled(true) == (AudioDuckerView { enabled: true, ..d }, None::<Request>),
        d.after_set_enabled(false).0 == (AudioDuckerView { enabled: false, ducked: false, ..d }),
        d.after_set_enabled(false).1 == d.after_restore_force().1,
        d.after_set_ratio(ratio).1 == Some(
            Request {
                ask: Ask::Retune(d.after_set_ratio(ratio).0.ratio),
                wait_ms: 0,
                insist: false,
            },
        ),
        d.after_set_ratio(ratio).0 == (AudioDuckerView {
            ratio: d.after_set_ratio(ratio).0.ratio,
            ..d
        }),
        ratio.bits <= 0x3f80_0000 ==> d.after_set_ratio(ratio).0.ratio == ratio,
        0x3f80_0000 < ratio.bits <= 0x7f80_0000 ==> d.after_set_ratio(ratio).0.ratio.bits
            == 0x3f80_0000,
        0x8000_0000 < ratio.bits <= 0xff80_0000 ==> d.after_set_ratio(ratio).0.ratio.bits == 0,
        release_request() == (Request { ask: Ask::Release, wait_ms: 1_500, insist: true }),
{
}

/// After the planned writes of the emergency repair have succeeded, no session is under full
/// volume by more than 0.004: a session is to be raised exactly when it is.
pub proof fn law_repair_leaves_nothing_quiet(s: SessionView)
    ensures
        is_raised(s) <==> s.volume.lt(Single { bits: 0x3f7e_f9db }),
        s.volume.bits < 0x3f7e_f9db ==> is_raised(s),
        0x3f7e_f9db <= s.volume.bits <= 0x7f80_0000 ==> !is_raised(s),
{
}

/// A baseline is struck off in the emergency repair exactly when its application has a
/// session and each of its sessions was at full volume, within 0.004, or was set to it. What
/// stays, stays as it was; so do the registry and the deadline; and who was repaired before
/// is forgotten.
pub proof fn law_repaired_is_struck_off(
    state: StateView,
    sessions: Seq<SessionView>,
    succeeded: Seq<bool>,
    id: Seq<char>,
)
    ensures
        ({
            let now = repaired(state, sessions, succeeded);
            let present = exists|i: int|
                0 <= i < sessions.len() && (#[trigger] sessions[i]).identifier == id;
            let full = forall|i: int|
                0 <= i < sessions.len() && (#[trigger] sessions[i]).identifier == id
                    && sessions[i].volume.lt(Single { bits: 0x3f7e_f9db }) ==> succeeded[i];
            &&& now.baselines.contains_key(id) <==> state.baselines.contains_key(id) && !(present
                && full)
            &&& now.baselines.contains_key(id) ==> now.baselines[id] == state.baselines[id]
            &&& now.duckers == state.duckers
            &&& now.migration_deadline_ms == state.migration_deadline_ms
            &&& now.migrated == Set::<Seq<char>>::empty()
        }),
{
    assert(is_reached(sessions, succeeded, id) == ((exists|i: int|
        0 <= i < sessions.len() && (#[trigger] sessions[i]).identifier == id) && (forall|i: int|
        0 <= i < sessions.len() && (#[trigger] sessions[i]).identifier == id
            && sessions[i].volume.lt(Single { bits: 0x3f7e_f9db }) ==> succeeded[i])));
}

/// Every session that was under full volume and was set to it counts once, and no other
/// counts: one more session adds one or none to the count.
pub proof fn law_raised_sessions_are_counted(
    sessions: Seq<SessionView>,
    succeeded: Seq<bool>,
    s: SessionView,
    ok: bool,
)
    requires
        succeeded.len() == sessions.len(),
    ensures
        count_raised(Seq::<SessionView>::empty(), succeeded) == 0,
        count_raised(sessions.push(s), succeeded.push(ok)) == count_raised(sessions, succeeded)
            + (if ok && s.volume.lt(Single { bits: 0x3f7e_f9db }) {
            1nat
        } else {
            0nat
        }),
{
    assert(sessions.push(s).drop_last() == sessions);
    lemma_count_looks_no_further(sessions, succeeded.push(ok), succeeded);
}

proof fn lemma_count_looks_no_further(
    sessions: Seq<SessionView>,
    a: Seq<bool>,
    b: Seq<bool>,
)
    requires
        forall|i: int| 0 <= i < sessions.len() ==> #[trigger] a[i] == b[i],
    ensures
        count_raised(sessions, a) == count_raised(sessions, b),
    decreases sessions.len(),
{
    if sessions.len() > 0 {
        lemma_count_looks_no_further(sessions.drop_last(), a, b);
        assert(a[sessions.len() - 1] == b[sessions.len() - 1]);
    }
}

} // verus!
