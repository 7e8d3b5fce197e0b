//! The audio sessions of other applications.
use vstd::prelude::*;

use crate::single::Single;

verus! {

/// A session that the audio engine reports. An application can own several at once on
/// one endpoint; they share one identifier, and each has a volume of its own.
#[derive(Debug)]
pub struct LiveSession {
    pub identifier: String,
    pub pid: u32,
    pub volume: Single,
    /// The stream has ended but is still reported. Its volume may be one that ducking
    /// left behind.
    pub expired: bool,
    /// The number under which the caller keeps the session's volume control.
    pub handle: usize,
}

pub struct SessionView {
    pub identifier: Seq<char>,
    pub pid: u32,
    pub volume: Single,
    pub expired: bool,
    pub handle: usize,
}

impl View for LiveSession {
    type V = SessionView;

    open spec fn view(&self) -> SessionView {
        SessionView {
            identifier: self.identifier@,
            pid: self.pid,
            volume: self.volume,
            expired: self.expired,
            handle: self.handle,
        }
    }
}

pub open spec fn session_views(s: Seq<LiveSession>) -> Seq<SessionView> {
    s.map_values(|x: LiveSession| x@)
}

/// What the audio engine answered about one session; nothing where it failed to.
#[derive(Debug)]
pub struct SessionReading {
    pub identifier: Option<String>,
    pub pid: Option<u32>,
    pub volume: Option<Single>,
    pub expired: Option<bool>,
    pub handle: usize,
}

/// The session that a reading tells of. One without an identifier or a volume is of no
/// use. One whose process or state could not be read counts as the system's own, and as
/// alive.
pub open spec fn session_of(r: SessionReading) -> Option<SessionView> {
    match (r.identifier, r.volume) {
        (Some(identifier), Some(volume)) => Some(
            SessionView {
                identifier: identifier@,
                pid: match r.pid {
                    Some(pid) => pid,
                    None => 0,
                },
                volume,
                expired: match r.expired {
                    Some(expired) => expired,
                    None => false,
                },
                handle: r.handle,
            },
        ),
        _ => None,
    }
}

/// The sessions of one endpoint, in the order of their readings.
pub open spec fn endpoint_sessions(rs: Seq<SessionReading>) -> Seq<SessionView>
    decreases rs.len(),
{
    if rs.len() == 0 {
        Seq::empty()
    } else {
        let earlier = endpoint_sessions(rs.drop_last());
        match session_of(rs.last()) {
            Some(session) => earlier.push(session),
            None => earlier,
        }
    }
}

/// The sessions of all endpoints. One whose sessions could not be enumerated adds none.
pub open spec fn all_sessions(endpoints: Seq<Option<Vec<SessionReading>>>) -> Seq<SessionView>
    decreases endpoints.len(),
{
    if endpoints.len() == 0 {
        Seq::empty()
    } else {
        all_sessions(endpoints.drop_last()) + match endpoints.last() {
            Some(rs) => endpoint_sessions(rs@),
            None => Seq::empty(),
        }
    }
}

fn read_session(r: &SessionReading) -> (res: Option<LiveSession>)
    ensures
        match res {
            Some(s) => session_of(*r) == Some(s@),
            None => session_of(*r) is None,
        },
{
    match (&r.identifier, r.volume) {
        (Some(identifier), Some(volume)) => {
            let pid: u32 = match r.pid {
                Some(pid) => pid,
                None => 0,
            };
            let expired: bool = match r.expired {
                Some(expired) => expired,
                None => false,
            };
            Some(
                LiveSession {
                    identifier: identifier.clone(),
                    pid,
                    volume,
                    expired,
                    handle: r.handle,
                },
            )
        },
        _ => None,
    }
}

/// Collects the sessions of every active endpoint, not of the default one alone: a
/// session identifier embeds the endpoint, so one that was ducked on another device
/// would be out of sight after the user switches devices.
pub fn collect_sessions(endpoints: &Vec<Option<Vec<SessionReading>>>) -> (out: Vec<LiveSession>)
    ensures
        session_views(out@) == all_sessions(endpoints@),
{
    let mut out: Vec<LiveSession> = Vec::new();
    let mut e: usize = 0;
    assert(session_views(out@) == all_sessions(endpoints@.take(0)));
    while e < endpoints.len()
        invariant
            e <= endpoints.len(),
            session_views(out@) == all_sessions(endpoints@.take(e as int)),
        decreases endpoints.len() - e,
    {
        assert(endpoints@.take(e + 1).drop_last() == endpoints@.take(e as int));
        let ghost before = session_views(out@);
        match &endpoints[e] {
            Some(readings) => {
                let mut i: usize = 0;
                assert(readings@.take(0) == Seq::<SessionReading>::empty());
                assert(before + endpoint_sessions(readings@.take(0)) == before);
                while i < readings.len()
                    invariant
                        i <= readings.len(),
                        session_views(out@) == before + endpoint_sessions(readings@.take(i as int)),
                    decreases readings.len() - i,
                {
                    assert(readings@.take(i + 1).drop_last() == readings@.take(i as int));
                    let ghost so_far = session_views(out@);
                    match read_session(&readings[i]) {
                        Some(session) => {
                            out.push(session);
                            assert(session_views(out@) == so_far.push(session@));
                        },
                        None => {},
                    }
                    assert(session_views(out@) == before + endpoint_sessions(
                        readings@.take(i + 1),
                    ));
                    i += 1;
                }
                assert(readings@.take(i as int) == readings@);
            },
            None => {
                assert(before + Seq::<SessionView>::empty() == before);
            },
        }
        e += 1;
    }
    assert(endpoints@.take(e as int) == endpoints@);
    out
}

// ---------------------------------------------------------------------------
// Groups of sessions
// ---------------------------------------------------------------------------

/// Some session has the identifier.
pub open spec fn has_session(sessions: Seq<SessionView>, id: Seq<char>) -> bool {
    exists|i: int| 0 <= i < sessions.len() && (#[trigger] sessions[i]).identifier == id
}

/// Some session with the identifier belongs to one of the processes.
pub open spec fn belongs_to(sessions: Seq<SessionView>, id: Seq<char>, pids: Set<u32>) -> bool {
    exists|i: int|
        0 <= i < sessions.len() && (#[trigger] sessions[i]).identifier == id && pids.contains(
            sessions[i].pid,
        )
}

/// The largest volume among the sessions with the identifier, of all or of those that
/// have not expired; minus infinity where there is none.
pub open spec fn loudest(sessions: Seq<SessionView>, id: Seq<char>, expired_too: bool) -> Single
    decreases sessions.len(),
{
    if sessions.len() == 0 {
        crate::single::neg_infinity_value()
    } else {
        let earlier = loudest(sessions.drop_last(), id, expired_too);
        let s = sessions.last();
        if s.identifier == id && (expired_too || !s.expired) {
            earlier.larger(s.volume)
        } else {
            earlier
        }
    }
}

/// The volume that counts as an application's own: the loudest among its live streams,
/// since one still at the user's volume is louder than one that was ducked; among all of
/// its streams where none is alive.
pub open spec fn own_volume(sessions: Seq<SessionView>, id: Seq<char>) -> Option<Single> {
    if loudest(sessions, id, false).finite() {
        Some(loudest(sessions, id, false))
    } else if loudest(sessions, id, true).finite() {
        Some(loudest(sessions, id, true))
    } else {
        None
    }
}

pub fn find_loudest(sessions: &Vec<LiveSession>, id: &String, expired_too: bool) -> (res: Single)
    ensures
        res == loudest(session_views(sessions@), id@, expired_too),
{
    let ghost views = session_views(sessions@);
    let mut best = Single::neg_infinity();
    let mut i: usize = 0;
    while i < sessions.len()
        invariant
            i <= sessions.len(),
            views == session_views(sessions@),
            best == loudest(views.take(i as int), id@, expired_too),
        decreases sessions.len() - i,
    {
        assert(views.take(i + 1).drop_last() == views.take(i as int));
        assert(views[i as int] == sessions@[i as int]@);
        if sessions[i].identifier == *id && (expired_too || !sessions[i].expired) {
            best = best.max(sessions[i].volume);
        }
        i += 1;
    }
    assert(views.take(i as int) == views);
    best
}

pub fn find_own_volume(sessions: &Vec<LiveSession>, id: &String) -> (res: Option<Single>)
    ensures
        res == own_volume(session_views(sessions@), id@),
{
    let live = find_loudest(sessions, id, false);
    if live.is_finite() {
        return Some(live);
    }
    let any = find_loudest(sessions, id, true);
    if any.is_finite() {
        Some(any)
    } else {
        None
    }
}

/// Whether a session with the identifier belongs to one of the processes.
pub fn is_of_process(sessions: &Vec<LiveSession>, id: &String, pids: &Vec<u32>) -> (res: bool)
    ensures
        res == belongs_to(session_views(sessions@), id@, pids@.to_set()),
{
    let ghost views = session_views(sessions@);
    let mut i: usize = 0;
    while i < sessions.len()
        invariant
            i <= sessions.len(),
            views == session_views(sessions@),
            forall|j: int|
                0 <= j < i ==> !((#[trigger] views[j]).identifier == id@ && pids@.to_set().contains(
                    views[j].pid,
                )),
        decreases sessions.len() - i,
    {
        assert(views[i as int] == sessions@[i as int]@);
        if sessions[i].identifier == *id && contains_pid(pids, sessions[i].pid) {
            return true;
        }
        i += 1;
    }
    false
}

pub fn contains_pid(pids: &Vec<u32>, pid: u32) -> (res: bool)
    ensures
        res == pids@.contains(pid),
{
    let mut i: usize = 0;
    while i < pids.len()
        invariant
            i <= pids.len(),
            forall|j: int| 0 <= j < i ==> pids@[j] != pid,
        decreases pids.len() - i,
    {
        if pids[i] == pid {
            return true;
        }
        i += 1;
    }
    false
}

pub proof fn lemma_take_has(views: Seq<SessionView>, i: int, k: Seq<char>)
    requires
        0 <= i < views.len(),
    ensures
        has_session(views.take(i + 1), k) == (has_session(views.take(i), k)
            || k == views[i].identifier),
{
    let a = views.take(i);
    let b = views.take(i + 1);
    if has_session(a, k) {
        let j = choose|j: int| 0 <= j < a.len() && (#[trigger] a[j]).identifier == k;
        assert(b[j].identifier == k);
    }
    if k == views[i].identifier {
        assert(b[i].identifier == k);
    }
    if has_session(b, k) {
        let j = choose|j: int| 0 <= j < b.len() && (#[trigger] b[j]).identifier == k;
        if j < i {
            assert(a[j].identifier == k);
        }
    }
}

/// A volume that counts as an application's own is that of one of its sessions, and none
/// of its live sessions is louder.
pub proof fn law_own_volume(sessions: Seq<SessionView>, id: Seq<char>) -> (k: int)
    requires
        own_volume(sessions, id) is Some,
    ensures
        0 <= k < sessions.len(),
        sessions[k].identifier == id,
        sessions[k].volume == own_volume(sessions, id)->0,
        loudest(sessions, id, false).finite() ==> !sessions[k].expired,
        loudest(sessions, id, false).finite() ==> forall|i: int|
            0 <= i < sessions.len() && (#[trigger] sessions[i]).identifier == id
                && !sessions[i].expired ==> !own_volume(sessions, id)->0.lt(sessions[i].volume),
{
    let live = loudest(sessions, id, false).finite();
    lemma_loudest(sessions, id, !live)
}

proof fn lemma_loudest(sessions: Seq<SessionView>, id: Seq<char>, expired_too: bool) -> (k: int)
    ensures
        !loudest(sessions, id, expired_too).is_nan(),
        forall|i: int|
            0 <= i < sessions.len() && (#[trigger] sessions[i]).identifier == id && (expired_too
                || !sessions[i].expired) ==> !loudest(sessions, id, expired_too).lt(
                sessions[i].volume,
            ),
        loudest(sessions, id, expired_too).finite() ==> 0 <= k < sessions.len()
            && sessions[k].identifier == id && (expired_too || !sessions[k].expired)
            && sessions[k].volume == loudest(sessions, id, expired_too),
    decreases sessions.len(),
{
    if sessions.len() == 0 {
        0
    } else {
        let t = sessions.drop_last();
        let k = lemma_loudest(t, id, expired_too);
        let best = loudest(sessions, id, expired_too);
        assert forall|i: int|
            0 <= i < sessions.len() && (#[trigger] sessions[i]).identifier == id && (expired_too
                || !sessions[i].expired) implies !best.lt(sessions[i].volume) by {
            if i < t.len() {
                assert(t[i] == sessions[i]);
            }
        }
        if best == loudest(t, id, expired_too) {
            if best.finite() {
                assert(t[k] == sessions[k]);
            }
            k
        } else {
            sessions.len() - 1
        }
    }
}

} // verus!
