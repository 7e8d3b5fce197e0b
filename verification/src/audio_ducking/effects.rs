//! What a pass does, said of what it is given and what it gives.
//!
//! The laws here name the bounds and tolerances by their values, and speak of registry,
//! record and sessions member by member.
use vstd::prelude::*;

use crate::audio_ducking::laws;
use crate::audio_ducking::pass;
use crate::audio_ducking::pass::{Decision, PassView, Surroundings};
use crate::audio_ducking::session;
use crate::audio_ducking::session::SessionView;
use crate::audio_ducking::state;
use crate::audio_ducking::state::{Baseline, DuckerView, StateView};
use crate::single;
use crate::single::Single;

verus! {

// ---------------------------------------------------------------------------
// Who ducks
// ---------------------------------------------------------------------------

/// `d` is what an instance of this process that asks for ducking is entered as.
pub open spec fn is_own_entry(
    d: DuckerView,
    local: Seq<(String, Single)>,
    around: Surroundings,
) -> bool {
    exists|k: int|
        0 <= k < local.len() && d.instance == (#[trigger] local[k]).0@ && d.ratio == local[k].1
            && d.pid == around.own_pid && d.heartbeat_ms == around.now_ms
}

/// The registry of a pass holds the instances of this process that ask for ducking, unless
/// ducking is switched off here, and of other processes' entries exactly those of processes
/// that are alive and have shown so within six seconds. It holds no other.
pub proof fn law_registry_is_who_asks(
    read: StateView,
    local: Seq<(String, Single)>,
    live_pids: Seq<u32>,
    around: Surroundings,
    d: DuckerView,
)
    ensures
        pass::begun(read, local, live_pids, around).state.duckers.contains(d) <==> {
            ||| {
                &&& d.pid != around.own_pid
                &&& exists|i: int| 0 <= i < read.duckers.len() && #[trigger] read.duckers[i] == d
                &&& exists|j: int| 0 <= j < live_pids.len() && #[trigger] live_pids[j] == d.pid
                &&& d.heartbeat_ms > around.now_ms || around.now_ms - d.heartbeat_ms < 6_000
            }
            ||| !around.ducking_disabled && is_own_entry(d, local, around)
        },
{
    let keep = |x: DuckerView| pass::still_ducking(x, live_pids, around);
    let others = read.duckers.filter(keep);
    let own = if around.ducking_disabled {
        Seq::<DuckerView>::empty()
    } else {
        local.map_values(|l: (String, Single)| pass::own_entry(l.0@, l.1, around))
    };
    let all = pass::refreshed(read.duckers, local, live_pids, around);
    laws::lemma_filter_members(read.duckers, keep, d);
    assert(all =~= others + own);
    if others.contains(d) {
        let i = choose|i: int| 0 <= i < others.len() && others[i] == d;
        assert(all[i] == d);
    }
    if own.contains(d) {
        let i = choose|i: int| 0 <= i < own.len() && own[i] == d;
        assert(all[others.len() + i] == d);
        assert(d.instance == local[i].0@);
    }
    if all.contains(d) {
        let i = choose|i: int| 0 <= i < all.len() && all[i] == d;
        if i < others.len() {
            assert(others[i] == d);
        } else {
            assert(own[i - others.len()] == d);
        }
    }
    if !around.ducking_disabled && is_own_entry(d, local, around) {
        let k = choose|k: int|
            0 <= k < local.len() && d.instance == (#[trigger] local[k]).0@ && d.ratio == local[k].1
                && d.pid == around.own_pid && d.heartbeat_ms == around.now_ms;
        assert(own[k] == d);
    }
}

/// Another process's entry that is read last comes last among those that stay, and one that
/// does not stay changes nothing; the instances of this process follow, each once and in
/// their order.
pub proof fn law_registry_keeps_its_order(
    read: StateView,
    d: DuckerView,
    local: Seq<(String, Single)>,
    live_pids: Seq<u32>,
    around: Surroundings,
)
    ensures
        ({
            let more = StateView { duckers: read.duckers.push(d), ..read };
            let none = Seq::<(String, Single)>::empty();
            let before = pass::begun(read, none, live_pids, around).state.duckers;
            let after = pass::begun(more, none, live_pids, around).state.duckers;
            after == (if d.pid != around.own_pid && live_pids.contains(d.pid) && (d.heartbeat_ms
                > around.now_ms || around.now_ms - d.heartbeat_ms < 6_000) {
                before.push(d)
            } else {
                before
            })
        }),
        ({
            let none = Seq::<(String, Single)>::empty();
            let others = pass::begun(read, none, live_pids, around).state.duckers;
            let all = pass::begun(read, local, live_pids, around).state.duckers;
            &&& around.ducking_disabled ==> all == others
            &&& !around.ducking_disabled ==> all.len() == others.len() + local.len()
            &&& !around.ducking_disabled ==> all.take(others.len() as int) == others
            &&& !around.ducking_disabled ==> forall|k: int|
                0 <= k < local.len() ==> {
                    let own = all[others.len() + k];
                    &&& own.instance == (#[trigger] local[k]).0@
                    &&& own.ratio == local[k].1
                    &&& own.pid == around.own_pid
                    &&& own.heartbeat_ms == around.now_ms
                }
        }),
        pass::begun(
            StateView { duckers: Seq::empty(), ..read },
            Seq::<(String, Single)>::empty(),
            live_pids,
            around,
        ).state.duckers.len() == 0,
{
    reveal(Seq::filter);
    let none = Seq::<(String, Single)>::empty();
    let keep = |x: DuckerView| pass::still_ducking(x, live_pids, around);
    let more = read.duckers.push(d);
    assert(more.drop_last() == read.duckers);
    let others = read.duckers.filter(keep);
    assert(pass::refreshed(read.duckers, none, live_pids, around) =~= others);
    assert(pass::refreshed(more, none, live_pids, around) =~= more.filter(keep));
    let all = pass::refreshed(read.duckers, local, live_pids, around);
    if !around.ducking_disabled {
        assert(all.take(others.len() as int) =~= others);
    } else {
        assert(all =~= others);
    }
}

/// Ducking goes on exactly while the registry holds someone, and those who speak are the
/// processes in it: all of them, and no other.
pub proof fn law_speakers_are_the_registry(
    read: StateView,
    local: Seq<(String, Single)>,
    live_pids: Seq<u32>,
    around: Surroundings,
    pid: u32,
)
    ensures
        ({
            let p = pass::begun(read, local, live_pids, around);
            &&& p.should_duck <==> p.state.duckers.len() > 0
            &&& p.speakers.contains(pid) <==> exists|i: int|
                0 <= i < p.state.duckers.len() && (#[trigger] p.state.duckers[i]).pid == pid
        }),
{
    let p = pass::begun(read, local, live_pids, around);
    let pids = p.state.duckers.map_values(|d: DuckerView| d.pid);
    if p.speakers.contains(pid) {
        let i = choose|i: int| 0 <= i < pids.len() && pids[i] == pid;
        assert(p.state.duckers[i].pid == pid);
    }
    if exists|i: int| 0 <= i < p.state.duckers.len() && (#[trigger] p.state.duckers[i]).pid == pid {
        let i = choose|i: int|
            0 <= i < p.state.duckers.len() && (#[trigger] p.state.duckers[i]).pid == pid;
        assert(pids[i] == pid);
        assert(pids.contains(pid));
    }
}

/// This process speaks while an instance of it asks for ducking, and ducking is not
/// switched off here.
pub proof fn law_own_process_speaks(
    read: StateView,
    local: Seq<(String, Single)>,
    live_pids: Seq<u32>,
    around: Surroundings,
)
    ensures
        pass::begun(read, local, live_pids, around).speakers.contains(around.own_pid) <==>
            !around.ducking_disabled && local.len() > 0,
{
    let p = pass::begun(read, local, live_pids, around);
    law_speakers_are_the_registry(read, local, live_pids, around, around.own_pid);
    if !around.ducking_disabled && local.len() > 0 {
        let d = DuckerView {
            instance: local[0].0@,
            pid: around.own_pid,
            heartbeat_ms: around.now_ms,
            ratio: local[0].1,
        };
        law_registry_is_who_asks(read, local, live_pids, around, d);
        assert(is_own_entry(d, local, around));
        let i = choose|i: int| 0 <= i < p.state.duckers.len() && p.state.duckers[i] == d;
        assert(p.state.duckers[i].pid == around.own_pid);
    }
    if p.speakers.contains(around.own_pid) {
        let i = choose|i: int|
            0 <= i < p.state.duckers.len() && (#[trigger] p.state.duckers[i]).pid
                == around.own_pid;
        law_registry_is_who_asks(read, local, live_pids, around, p.state.duckers[i]);
        assert(p.state.duckers.contains(p.state.duckers[i]));
    }
}

/// The ratio of a pass is one that is asked for, and none that is asked for is smaller:
/// where every ratio in the registry is within 0 and 1, it is that of a ducker in it, and its
/// pattern is the least. Whatever the ratios are, it lies within 0 and 1, is 1 or what
/// someone asks for, clamped, and no one asks for less.
pub proof fn law_ratio_is_asked_for(
    read: StateView,
    local: Seq<(String, Single)>,
    live_pids: Seq<u32>,
    around: Surroundings,
)
    ensures
        ({
            let p = pass::begun(read, local, live_pids, around);
            let duckers = p.state.duckers;
            let within = forall|i: int|
                0 <= i < duckers.len() ==> (#[trigger] duckers[i]).ratio.bits <= 0x3f80_0000;
            &&& duckers.len() > 0 && within ==> (exists|i: int|
                0 <= i < duckers.len() && (#[trigger] duckers[i]).ratio == p.ratio) && (forall|
                i: int,
            |
                0 <= i < duckers.len() ==> p.ratio.bits <= (#[trigger] duckers[i]).ratio.bits)
            &&& duckers.len() == 0 ==> p.ratio.bits == 0x3f80_0000
            &&& p.ratio.bits <= 0x3f80_0000 || p.ratio.bits == 0x8000_0000
            &&& p.ratio.bits == 0x3f80_0000 || exists|i: int|
                0 <= i < duckers.len() && (#[trigger] duckers[i]).ratio.unit() == p.ratio
            &&& forall|i: int|
                0 <= i < duckers.len() ==> !(#[trigger] duckers[i]).ratio.unit().lt(p.ratio)
        }),
{
    let p = pass::begun(read, local, live_pids, around);
    let duckers = p.state.duckers;
    lemma_smallest(duckers);
    let least = pass::smallest_ratio(duckers);
    single::law_unit_keeps_what_is_within(least);
    assert forall|i: int| 0 <= i < duckers.len() implies !(#[trigger] duckers[i]).ratio.unit().lt(
        p.ratio,
    ) by {
        let r = duckers[i].ratio;
        single::law_unit_keeps_what_is_within(r);
        assert(!r.lt(least));
    }
    let within = forall|i: int|
        0 <= i < duckers.len() ==> (#[trigger] duckers[i]).ratio.bits <= 0x3f80_0000;
    if duckers.len() > 0 && within {
        assert(duckers[0].ratio.bits <= 0x3f80_0000);
        assert(!duckers[0].ratio.lt(least));
        if least == single::one_value() {
            assert(duckers[0].ratio == p.ratio);
        } else {
            let i = choose|i: int|
                0 <= i < duckers.len() && (#[trigger] duckers[i]).ratio == least;
            assert(duckers[i].ratio == p.ratio);
        }
        assert forall|i: int| 0 <= i < duckers.len() implies p.ratio.bits <= (
        #[trigger] duckers[i]).ratio.bits by {
            assert(!duckers[i].ratio.lt(least));
        }
    }
}

proof fn lemma_smallest(duckers: Seq<DuckerView>)
    ensures
        !pass::smallest_ratio(duckers).is_nan(),
        pass::smallest_ratio(duckers) == single::one_value() || exists|i: int|
            0 <= i < duckers.len() && (#[trigger] duckers[i]).ratio == pass::smallest_ratio(duckers),
        forall|i: int|
            0 <= i < duckers.len() ==> !(#[trigger] duckers[i]).ratio.lt(
                pass::smallest_ratio(duckers),
            ),
        !single::one_value().lt(pass::smallest_ratio(duckers)),
    decreases duckers.len(),
{
    if duckers.len() > 0 {
        let rest = duckers.drop_last();
        lemma_smallest(rest);
        let before = pass::smallest_ratio(rest);
        let now = pass::smallest_ratio(duckers);
        assert forall|i: int| 0 <= i < duckers.len() implies !(#[trigger] duckers[i]).ratio.lt(
            now,
        ) by {
            if i < rest.len() {
                assert(rest[i] == duckers[i]);
            }
        }
        if now == before && before != single::one_value() {
            let i = choose|i: int| 0 <= i < rest.len() && (#[trigger] rest[i]).ratio == before;
            assert(duckers[i].ratio == now);
        } else if now != before {
            assert(duckers[duckers.len() - 1].ratio == now);
        }
    }
}

/// Where one instance alone asks for ducking, to a ratio within 0 and 1, that is the ratio
/// of the pass.
pub proof fn law_only_ratio_counts(
    read: StateView,
    local: Seq<(String, Single)>,
    live_pids: Seq<u32>,
    around: Surroundings,
)
    requires
        !around.ducking_disabled,
        local.len() == 1,
        local[0].1.bits <= 0x3f80_0000,
        forall|i: int| 0 <= i < read.duckers.len() ==> (#[trigger] read.duckers[i]).pid == around.own_pid,
    ensures
        pass::begun(read, local, live_pids, around).should_duck,
        pass::begun(read, local, live_pids, around).ratio == local[0].1,
{
    let p = pass::begun(read, local, live_pids, around);
    let duckers = p.state.duckers;
    law_ratio_is_asked_for(read, local, live_pids, around);
    law_speakers_are_the_registry(read, local, live_pids, around, around.own_pid);
    law_own_process_speaks(read, local, live_pids, around);
    assert forall|i: int| 0 <= i < duckers.len() implies (#[trigger] duckers[i]).ratio
        == local[0].1 by {
        assert(duckers.contains(duckers[i]));
        law_registry_is_who_asks(read, local, live_pids, around, duckers[i]);
        if !is_own_entry(duckers[i], local, around) {
            let k = choose|k: int|
                0 <= k < read.duckers.len() && #[trigger] read.duckers[k] == duckers[i];
            assert(read.duckers[k].pid == around.own_pid);
        }
    }
}

/// What a pass takes over as it is: the baselines on record, and what is around it. Nothing
/// counts as captured yet.
pub proof fn law_pass_begins_with_the_record(
    read: StateView,
    local: Seq<(String, Single)>,
    live_pids: Seq<u32>,
    around: Surroundings,
)
    ensures
        pass::begun(read, local, live_pids, around).state.baselines == read.baselines,
        pass::begun(read, local, live_pids, around).around == around,
        !pass::begun(read, local, live_pids, around).unsaved,
{
}

/// The repair of older damage opens once, for a day, where there are traces of it and it is
/// wanted; while the window is open it goes on in passes that hold the lock, and who was
/// repaired is remembered; otherwise that is forgotten.
pub proof fn law_repair_window(
    read: StateView,
    local: Seq<(String, Single)>,
    live_pids: Seq<u32>,
    around: Surroundings,
)
    requires
        around.now_ms + 86_400_000 <= u64::MAX,
    ensures
        ({
            let p = pass::begun(read, local, live_pids, around);
            let deadline = p.state.migration_deadline_ms;
            &&& read.migration_deadline_ms is Some ==> deadline == read.migration_deadline_ms
            &&& read.migration_deadline_ms is None ==> deadline == (if around.legacy_present
                && !around.migration_disabled {
                Some((around.now_ms + 86_400_000) as u64)
            } else {
                None::<u64>
            })
            &&& p.migration_active <==> !around.migration_disabled && around.have_lock
                && deadline is Some && around.now_ms < deadline->0
            &&& p.migration_active ==> p.state.migrated == read.migrated
            &&& !p.migration_active ==> p.state.migrated == Set::<Seq<char>>::empty()
        }),
{
}

// ---------------------------------------------------------------------------
// What is captured
// ---------------------------------------------------------------------------

/// Some session has the identifier.
pub open spec fn is_present(sessions: Seq<SessionView>, id: Seq<char>) -> bool {
    exists|k: int| 0 <= k < sessions.len() && (#[trigger] sessions[k]).identifier == id
}

/// Some session with the identifier belongs to a process that speaks.
pub open spec fn is_speaking(p: PassView, sessions: Seq<SessionView>, id: Seq<char>) -> bool {
    exists|k: int|
        0 <= k < sessions.len() && (#[trigger] sessions[k]).identifier == id && p.speakers.contains(
            sessions[k].pid,
        )
}

/// The volume is a finite number.
pub open spec fn is_volume(x: Single) -> bool {
    x.bits % 0x8000_0000 < 0x7f80_0000
}

/// No session with the identifier is infinitely loud.
pub open spec fn none_infinite(sessions: Seq<SessionView>, id: Seq<char>) -> bool {
    forall|k: int|
        0 <= k < sessions.len() && (#[trigger] sessions[k]).identifier == id
            ==> sessions[k].volume.bits != 0x7f80_0000
}

/// Some session with the identifier has a volume.
pub open spec fn has_volume(sessions: Seq<SessionView>, id: Seq<char>) -> bool {
    exists|k: int|
        0 <= k < sessions.len() && (#[trigger] sessions[k]).identifier == id && is_volume(
            sessions[k].volume,
        )
}

/// Some session with the identifier has a volume and has not expired.
pub open spec fn is_alive(sessions: Seq<SessionView>, id: Seq<char>) -> bool {
    exists|k: int|
        0 <= k < sessions.len() && (#[trigger] sessions[k]).identifier == id && is_volume(
            sessions[k].volume,
        ) && !sessions[k].expired
}

/// An application's own volume is the loudest of its live sessions, or of all its sessions
/// where none is alive; it has one where one of its sessions has a volume.
pub proof fn law_own_volume_is_the_loudest(sessions: Seq<SessionView>, id: Seq<char>)
    requires
        none_infinite(sessions, id),
    ensures
        session::own_volume(sessions, id) is Some <==> has_volume(sessions, id),
        session::own_volume(sessions, id) matches Some(volume) ==> {
            let alive = is_alive(sessions, id);
            &&& is_volume(volume)
            &&& exists|k: int|
                0 <= k < sessions.len() && (#[trigger] sessions[k]).identifier == id && (alive
                    ==> !sessions[k].expired) && sessions[k].volume == volume
            &&& forall|k: int|
                0 <= k < sessions.len() && (#[trigger] sessions[k]).identifier == id && (alive
                    ==> !sessions[k].expired) ==> !volume.lt(sessions[k].volume)
        },
{
    lemma_loudest(sessions, id, false);
    lemma_loudest(sessions, id, true);
    let live = session::loudest(sessions, id, false);
    let any = session::loudest(sessions, id, true);
    if is_alive(sessions, id) {
        let k = choose|k: int|
            0 <= k < sessions.len() && (#[trigger] sessions[k]).identifier == id && is_volume(
                sessions[k].volume,
            ) && !sessions[k].expired;
        assert(!live.lt(sessions[k].volume));
        assert(live.finite());
    } else if live.finite() {
        let k = choose|k: int|
            0 <= k < sessions.len() && (#[trigger] sessions[k]).identifier == id
                && !sessions[k].expired && sessions[k].volume == live;
        assert(is_volume(sessions[k].volume));
    }
    if has_volume(sessions, id) {
        let k = choose|k: int|
            0 <= k < sessions.len() && (#[trigger] sessions[k]).identifier == id && is_volume(
                sessions[k].volume,
            );
        assert(!any.lt(sessions[k].volume));
        assert(any.finite());
    } else if any.finite() {
        let k = choose|k: int|
            0 <= k < sessions.len() && (#[trigger] sessions[k]).identifier == id
                && sessions[k].volume == any;
        assert(is_volume(sessions[k].volume));
    }
}

proof fn lemma_loudest(sessions: Seq<SessionView>, id: Seq<char>, expired_too: bool)
    ensures
        ({
            let best = session::loudest(sessions, id, expired_too);
            &&& !best.is_nan()
            &&& best == single::neg_infinity_value() || exists|k: int|
                0 <= k < sessions.len() && (#[trigger] sessions[k]).identifier == id && (expired_too
                    || !sessions[k].expired) && sessions[k].volume == best
            &&& forall|k: int|
                0 <= k < sessions.len() && (#[trigger] sessions[k]).identifier == id && (expired_too
                    || !sessions[k].expired) ==> !best.lt(sessions[k].volume)
        }),
    decreases sessions.len(),
{
    if sessions.len() > 0 {
        let t = sessions.drop_last();
        lemma_loudest(t, id, expired_too);
        let before = session::loudest(t, id, expired_too);
        let best = session::loudest(sessions, id, expired_too);
        assert forall|k: int|
            0 <= k < sessions.len() && (#[trigger] sessions[k]).identifier == id && (expired_too
                || !sessions[k].expired) implies !best.lt(sessions[k].volume) by {
            if k < t.len() {
                assert(t[k] == sessions[k]);
            }
        }
        if best == before {
            if best != single::neg_infinity_value() {
                let k = choose|k: int|
                    0 <= k < t.len() && (#[trigger] t[k]).identifier == id && (expired_too
                        || !t[k].expired) && t[k].volume == best;
                assert(sessions[k].volume == best);
            }
        } else {
            assert(sessions[sessions.len() - 1].volume == best);
        }
    }
}

/// What is captured: where someone asks for ducking, the lock is held and the record could
/// be read, every application that has a volume, is not on record and does not speak gets
/// its own volume on record, seen now; no other does. What was on record stays, and nothing
/// else of the pass changes. Whatever was captured is still to be saved.
pub proof fn law_own_volumes_are_captured(p: PassView, sessions: Seq<SessionView>, id: Seq<char>)
    requires
        none_infinite(sessions, id),
    ensures
        ({
            let c = pass::captured(p, sessions);
            let new = {
                &&& p.should_duck
                &&& p.around.have_lock
                &&& p.around.state_readable
                &&& has_volume(sessions, id)
                &&& !is_speaking(p, sessions, id)
                &&& !p.state.baselines.contains_key(id)
            };
            &&& c.state.baselines.contains_key(id) <==> p.state.baselines.contains_key(id) || new
            &&& p.state.baselines.contains_key(id) ==> c.state.baselines[id]
                == p.state.baselines[id]
            &&& new ==> session::own_volume(sessions, id) is Some && c.state.baselines[id] == (
            Baseline {
                volume: session::own_volume(sessions, id)->0,
                ducked_to: session::own_volume(sessions, id)->0,
                last_seen_ms: p.around.now_ms,
            })
            &&& new ==> c.unsaved
            &&& p.unsaved ==> c.unsaved
            &&& c == (PassView {
                state: StateView { baselines: c.state.baselines, ..p.state },
                unsaved: c.unsaved,
                ..p
            })
        }),
{
    law_own_volume_is_the_loudest(sessions, id);
    if p.should_duck && p.around.have_lock && p.around.state_readable && has_volume(sessions, id)
        && !is_speaking(p, sessions, id) && !p.state.baselines.contains_key(id) {
        assert(pass::is_captured(p, sessions, id));
    }
}

/// A pass that captured nothing has nothing to save.
pub proof fn law_saved_when_nothing_was_captured(p: PassView, sessions: Seq<SessionView>)
    requires
        !p.unsaved,
        pass::captured(p, sessions).state.baselines == p.state.baselines,
    ensures
        !pass::captured(p, sessions).unsaved,
{
    if pass::captured(p, sessions).unsaved {
        let id = choose|id: Seq<char>| pass::is_captured(p, sessions, id);
        assert(pass::captured(p, sessions).state.baselines.contains_key(id));
    }
}

/// Saving makes what was captured count, and failing to save leaves all as it is; going on
/// with another state replaces the state, and nothing else but whether it could be read.
pub proof fn law_saving(p: PassView, state: StateView, readable: bool)
    ensures
        pass::after_saving(p, true) == (PassView { unsaved: false, ..p }),
        pass::after_saving(p, false) == p,
        pass::with_state(p, state, readable) == (PassView {
            state,
            unsaved: false,
            around: Surroundings { state_readable: readable, ..p.around },
            ..p
        }),
        pass::may_publish(p) <==> p.around.have_lock && p.around.state_readable,
{
}

// ---------------------------------------------------------------------------
// What is written
// ---------------------------------------------------------------------------

/// While someone ducks, every session of an application that is on record and does not speak
/// is brought to the ratio of its original volume, within the tolerance, unless ducking is
/// switched off here; one that is not on record is left alone.
pub proof fn law_others_are_ducked(
    p: PassView,
    sessions: Seq<SessionView>,
    i: int,
    times: spec_fn(Single, Single) -> Single,
    differ: spec_fn(Single, Single) -> bool,
)
    requires
        0 <= i < sessions.len(),
        p.should_duck,
        !is_speaking(p, sessions, sessions[i].identifier),
    ensures
        ({
            let id = sessions[i].identifier;
            let goal = times(p.state.baselines[id].volume, p.ratio).unit();
            pass::write_for(p, sessions, i, times, differ) == (if p.state.baselines.contains_key(id)
                && !p.unsaved && !p.around.ducking_disabled && differ(sessions[i].volume, goal) {
                Some(goal)
            } else {
                None
            })
        }),
{
    let id = sessions[i].identifier;
    single::law_unit_is_idempotent(times(p.state.baselines[id].volume, p.ratio));
}

/// To whoever speaks, and to all when nobody does, the original volume is given back, where
/// one is on record and the session is away from it.
pub proof fn law_originals_are_written_back(
    p: PassView,
    sessions: Seq<SessionView>,
    i: int,
    times: spec_fn(Single, Single) -> Single,
    differ: spec_fn(Single, Single) -> bool,
)
    requires
        0 <= i < sessions.len(),
        !p.should_duck || is_speaking(p, sessions, sessions[i].identifier),
        p.state.baselines.contains_key(sessions[i].identifier),
    ensures
        ({
            let original = p.state.baselines[sessions[i].identifier].volume;
            pass::write_for(p, sessions, i, times, differ) == (if differ(
                sessions[i].volume,
                original,
            ) {
                Some(original.unit())
            } else {
                None
            })
        }),
{
}

/// A session that nothing is owed to, and that is not ducked, is set to full volume while
/// older damage is repaired: when nobody ducks, it was not repaired before, ducking is not
/// switched off here, and it is under 1 by more than 0.004. In all other cases it is left
/// alone.
pub proof fn law_older_damage_is_repaired(
    p: PassView,
    sessions: Seq<SessionView>,
    i: int,
    times: spec_fn(Single, Single) -> Single,
    differ: spec_fn(Single, Single) -> bool,
)
    requires
        0 <= i < sessions.len(),
        !p.should_duck || is_speaking(p, sessions, sessions[i].identifier),
        !p.state.baselines.contains_key(sessions[i].identifier),
    ensures
        pass::write_for(p, sessions, i, times, differ) == (if p.migration_active && !p.should_duck
            && !p.around.ducking_disabled && !p.state.migrated.contains(sessions[i].identifier)
            && sessions[i].volume.lt(Single { bits: 0x3f7e_f9db }) {
            Some(Single { bits: 0x3f80_0000 })
        } else {
            None
        }),
{
}

/// From the request to the write: where an instance of this process asks for ducking, with
/// the lock held and the record readable, an application that was never ducked and does not
/// speak has its own volume recorded, and, once that is saved, each of its sessions is set to
/// the ratio of it. The ratio is what is asked for.
pub proof fn law_asking_ducks_the_others(
    read: StateView,
    local: Seq<(String, Single)>,
    live_pids: Seq<u32>,
    around: Surroundings,
    sessions: Seq<SessionView>,
    i: int,
    times: spec_fn(Single, Single) -> Single,
    differ: spec_fn(Single, Single) -> bool,
)
    requires
        local.len() > 0,
        around.have_lock,
        around.state_readable,
        !around.ducking_disabled,
        0 <= i < sessions.len(),
        none_infinite(sessions, sessions[i].identifier),
        has_volume(sessions, sessions[i].identifier),
        !read.baselines.contains_key(sessions[i].identifier),
        forall|k: int|
            0 <= k < sessions.len() && (#[trigger] sessions[k]).identifier
                == sessions[i].identifier ==> !pass::begun(
                read,
                local,
                live_pids,
                around,
            ).speakers.contains(sessions[k].pid),
    ensures
        ({
            let id = sessions[i].identifier;
            let p = pass::begun(read, local, live_pids, around);
            let saved = pass::after_saving(pass::captured(p, sessions), true);
            let own = session::own_volume(sessions, id);
            let goal = times(own->0, p.ratio).unit();
            &&& own is Some
            &&& pass::captured(p, sessions).unsaved
            &&& saved.state.baselines.contains_key(id)
            &&& saved.state.baselines[id].volume == own->0
            &&& saved.ratio == p.ratio
            &&& pass::write_for(saved, sessions, i, times, differ) == (if differ(
                sessions[i].volume,
                goal,
            ) {
                Some(goal)
            } else {
                None
            })
        }),
{
    let id = sessions[i].identifier;
    let p = pass::begun(read, local, live_pids, around);
    law_own_process_speaks(read, local, live_pids, around);
    law_speakers_are_the_registry(read, local, live_pids, around, around.own_pid);
    law_pass_begins_with_the_record(read, local, live_pids, around);
    law_own_volumes_are_captured(p, sessions, id);
    let saved = pass::after_saving(pass::captured(p, sessions), true);
    law_saving(pass::captured(p, sessions), read, true);
    law_others_are_ducked(saved, sessions, i, times, differ);
}

/// A tool does not duck its own voice: where this process asks for ducking, no session of an
/// identifier that it has a session of is captured or lowered.
pub proof fn law_own_voice_is_not_ducked(
    read: StateView,
    local: Seq<(String, Single)>,
    live_pids: Seq<u32>,
    around: Surroundings,
    sessions: Seq<SessionView>,
    i: int,
    times: spec_fn(Single, Single) -> Single,
    differ: spec_fn(Single, Single) -> bool,
)
    requires
        local.len() > 0,
        !around.ducking_disabled,
        0 <= i < sessions.len(),
        sessions[i].pid == around.own_pid,
        !read.baselines.contains_key(sessions[i].identifier),
    ensures
        ({
            let p = pass::begun(read, local, live_pids, around);
            let c = pass::captured(p, sessions);
            &&& !c.state.baselines.contains_key(sessions[i].identifier)
            &&& pass::write_for(c, sessions, i, times, differ) is None
            &&& pass::write_for(pass::after_saving(c, true), sessions, i, times, differ) is None
        }),
{
    law_own_process_speaks(read, local, live_pids, around);
    law_speakers_are_the_registry(read, local, live_pids, around, around.own_pid);
    let p = pass::begun(read, local, live_pids, around);
    let c = pass::captured(p, sessions);
    let id = sessions[i].identifier;
    assert(is_speaking(p, sessions, id));
    assert(is_speaking(c, sessions, id));
    assert(session::belongs_to(sessions, id, p.speakers));
    law_older_damage_is_repaired(c, sessions, i, times, differ);
    law_older_damage_is_repaired(pass::after_saving(c, true), sessions, i, times, differ);
}

// ---------------------------------------------------------------------------
// What is noted and struck off
// ---------------------------------------------------------------------------

/// Planning notes what it sees, and keeps every original: a baseline whose application has a
/// session was seen now, and one that is ducked is noted with the volume it is ducked to; the
/// others stay as they are, and so does all else.
pub proof fn law_sightings_are_noted(
    p: PassView,
    sessions: Seq<SessionView>,
    times: spec_fn(Single, Single) -> Single,
    id: Seq<char>,
)
    ensures
        ({
            let q = pass::planned(p, sessions, times);
            let ducked = p.should_duck && !is_speaking(p, sessions, id) && !p.unsaved
                && !p.around.ducking_disabled;
            &&& q.state.baselines.contains_key(id) <==> p.state.baselines.contains_key(id)
            &&& p.state.baselines.contains_key(id) ==> {
                let b = p.state.baselines[id];
                q.state.baselines[id] == (if is_present(sessions, id) {
                    Baseline {
                        volume: b.volume,
                        ducked_to: if ducked {
                            times(b.volume, p.ratio).unit()
                        } else {
                            b.ducked_to
                        },
                        last_seen_ms: p.around.now_ms,
                    }
                } else {
                    b
                })
            }
            &&& q == (PassView {
                state: StateView { baselines: q.state.baselines, ..p.state },
                ..p
            })
        }),
{
}

/// No write to a session of the identifier failed.
pub open spec fn all_written(
    sessions: Seq<SessionView>,
    writes: Seq<Option<Single>>,
    succeeded: Seq<bool>,
    id: Seq<char>,
) -> bool {
    forall|k: int|
        0 <= k < sessions.len() && (#[trigger] sessions[k]).identifier == id && writes[k] is Some
            ==> succeeded[k]
}

/// What is owed at the end of a pass: a baseline is struck off when its application has a
/// session, is given its volume back and no write to it failed, or when it was not seen for
/// seven days; otherwise it stays, as it was. Who was raised without a failure is noted. The
/// registry, the deadline and all else stay.
pub proof fn law_debts_are_settled(
    p: PassView,
    sessions: Seq<SessionView>,
    writes: Seq<Option<Single>>,
    succeeded: Seq<bool>,
    id: Seq<char>,
)
    ensures
        ({
            let e = pass::settled(p, sessions, writes, succeeded);
            let recorded = p.state.baselines.contains_key(id);
            let idle = !p.should_duck || is_speaking(p, sessions, id);
            let handled = is_present(sessions, id) && all_written(sessions, writes, succeeded, id);
            let seen = p.state.baselines[id].last_seen_ms;
            let fresh = seen > p.around.now_ms || p.around.now_ms - seen < 604_800_000;
            &&& e.state.baselines.contains_key(id) <==> recorded && !(idle && handled) && fresh
            &&& e.state.baselines.contains_key(id) ==> e.state.baselines[id]
                == p.state.baselines[id]
            &&& e.state.migrated.contains(id) <==> p.state.migrated.contains(id) || (!recorded
                && !p.should_duck && p.migration_active && !p.around.ducking_disabled && handled)
            &&& e == (PassView {
                state: StateView {
                    baselines: e.state.baselines,
                    migrated: e.state.migrated,
                    ..p.state
                },
                ..p
            })
        }),
{
    let e = pass::settled(p, sessions, writes, succeeded);
    assert(session::has_session(sessions, id) == is_present(sessions, id));
    assert(session::belongs_to(sessions, id, p.speakers) == is_speaking(p, sessions, id));
    assert(pass::none_failed(sessions, writes, succeeded, id) == all_written(
        sessions,
        writes,
        succeeded,
        id,
    ));
}

/// What a caller's functions have to do for the contracts to speak of them: to compute what
/// `times` and `differ` say, and no more.
pub proof fn law_functions_are_taken_as_they_are<
    F: Fn(Single, Single) -> Single,
    G: Fn(Single, Single) -> bool,
>(
    scale: F,
    apart: G,
    times: spec_fn(Single, Single) -> Single,
    differ: spec_fn(Single, Single) -> bool,
)
    requires
        forall|a: Single, b: Single, r: Single| #[trigger]
            call_ensures(scale, (a, b), r) ==> r == times(a, b),
        forall|a: Single, b: Single, r: bool| #[trigger]
            call_ensures(apart, (a, b), r) ==> r == differ(a, b),
    ensures
        pass::multiplies_as(scale, times),
        pass::differs_as(apart, differ),
{
}

/// The waits fit together: a pass that had to wait for the lock still counts for whoever
/// restores, ducking is waited for less than restoring, a process that passes at its slowest
/// is not taken for dead, and a session is remembered for longer than a repair lasts. Who
/// restores waits for two turns at the lock, a turn is a hundred and fifty tries, and a process
/// is taken for dead once it has missed three slow passes, or forty fast ones.
pub proof fn law_waits_fit_together()
    ensures
        crate::audio_ducking::RESTORE_WAIT_MS == 2
            * crate::audio_ducking::coordination::LOCK_WAIT_MS,
        crate::audio_ducking::coordination::LOCK_WAIT_MS == 150
            * crate::audio_ducking::coordination::LOCK_RETRY_MS,
        pass::HEARTBEAT_STALE_MS == 3 * crate::audio_ducking::guardian::TICK_IDLE_MS,
        pass::HEARTBEAT_STALE_MS == 40 * crate::audio_ducking::guardian::TICK_ACTIVE_MS,
        crate::audio_ducking::coordination::LOCK_WAIT_MS
            < crate::audio_ducking::RESTORE_WAIT_MS,
        crate::audio_ducking::DUCK_WAIT_MS < crate::audio_ducking::RESTORE_WAIT_MS,
        crate::audio_ducking::coordination::LOCK_RETRY_MS
            < crate::audio_ducking::coordination::LOCK_WAIT_MS,
        crate::audio_ducking::guardian::TICK_ACTIVE_MS
            < crate::audio_ducking::guardian::TICK_IDLE_MS,
        crate::audio_ducking::guardian::TICK_IDLE_MS
            + crate::audio_ducking::coordination::LOCK_WAIT_MS < pass::HEARTBEAT_STALE_MS,
        pass::BASELINE_TTL_MS == 7 * pass::MIGRATION_WINDOW_MS,
        pass::MIGRATION_WINDOW_MS == 24 * 60 * 60 * 1000,
{
}

// ---------------------------------------------------------------------------
// Sessions
// ---------------------------------------------------------------------------

/// The views of sessions, and of duckers, are theirs one by one.
pub proof fn law_views(sessions: Seq<session::LiveSession>, duckers: Seq<state::DuckerEntry>)
    ensures
        session::session_views(sessions).len() == sessions.len(),
        forall|i: int|
            0 <= i < sessions.len() ==> {
                let v = #[trigger] session::session_views(sessions)[i];
                &&& v.identifier == sessions[i].identifier@
                &&& v.pid == sessions[i].pid
                &&& v.volume == sessions[i].volume
                &&& v.expired == sessions[i].expired
                &&& v.handle == sessions[i].handle
            },
        state::ducker_views(duckers).len() == duckers.len(),
        forall|i: int|
            0 <= i < duckers.len() ==> {
                let v = #[trigger] state::ducker_views(duckers)[i];
                &&& v.instance == duckers[i].instance@
                &&& v.pid == duckers[i].pid
                &&& v.heartbeat_ms == duckers[i].heartbeat_ms
                &&& v.ratio == duckers[i].ratio
            },
{
}

/// A reading that has an identifier and a volume gives a session with these, with its
/// process, or 0, whether it has expired, or that it has not, and the handle it came with.
/// Any other reading gives none.
pub proof fn law_reading_gives_a_session(r: session::SessionReading)
    ensures
        session::session_of(r) is Some <==> r.identifier is Some && r.volume is Some,
        session::session_of(r) matches Some(s) ==> {
            &&& s.identifier == r.identifier->0@
            &&& s.volume == r.volume->0
            &&& r.pid matches Some(pid) ==> s.pid == pid
            &&& r.pid is None ==> s.pid == 0
            &&& r.expired matches Some(expired) ==> s.expired == expired
            &&& r.expired is None ==> !s.expired
            &&& s.handle == r.handle
        },
{
}

/// The sessions of an endpoint are those that its readings give, in their order; a reading
/// that gives none takes none away.
pub proof fn law_sessions_of_an_endpoint(
    rs: Seq<session::SessionReading>,
    r: session::SessionReading,
)
    ensures
        session::endpoint_sessions(Seq::<session::SessionReading>::empty()).len() == 0,
        session::session_of(r) matches Some(s) ==> session::endpoint_sessions(rs.push(r))
            == session::endpoint_sessions(rs).push(s),
        session::session_of(r) is None ==> session::endpoint_sessions(rs.push(r))
            == session::endpoint_sessions(rs),
{
    assert(rs.push(r).drop_last() == rs);
}

/// Every endpoint counts: the sessions of some endpoints and of one more are theirs and then
/// its own; one that could not be enumerated adds none and takes none away.
pub proof fn law_sessions_of_all_endpoints(
    endpoints: Seq<Option<Vec<session::SessionReading>>>,
    endpoint: Option<Vec<session::SessionReading>>,
)
    ensures
        session::all_sessions(Seq::<Option<Vec<session::SessionReading>>>::empty()).len() == 0,
        endpoint matches Some(rs) ==> session::all_sessions(endpoints.push(endpoint))
            == session::all_sessions(endpoints) + session::endpoint_sessions(rs@),
        endpoint is None ==> session::all_sessions(endpoints.push(endpoint))
            == session::all_sessions(endpoints),
{
    assert(endpoints.push(endpoint).drop_last() == endpoints);
    assert(session::all_sessions(endpoints) + Seq::<SessionView>::empty()
        =~= session::all_sessions(endpoints));
}

// ---------------------------------------------------------------------------
// The record
// ---------------------------------------------------------------------------

/// A blank state holds nothing, and each change of a state changes that one thing.
pub proof fn law_state_changes(s: StateView, d: DuckerView, id: Seq<char>, b: Baseline)
    ensures
        StateView::blank().duckers.len() == 0,
        StateView::blank().baselines == Map::<Seq<char>, Baseline>::empty(),
        StateView::blank().migration_deadline_ms is None,
        StateView::blank().migrated == Set::<Seq<char>>::empty(),
        s.with_ducker(d) == (StateView { duckers: s.duckers.push(d), ..s }),
        s.with_baseline(id, b) == (StateView { baselines: s.baselines.insert(id, b), ..s }),
        s.without_baseline(id) == (StateView { baselines: s.baselines.remove(id), ..s }),
        s.with_migrated(id) == (StateView { migrated: s.migrated.insert(id), ..s }),
{
}

/// Age is the time since, and nothing for what lies ahead; what is dropped for its age is
/// exactly what has reached the limit.
pub proof fn law_age(s: StateView, then_ms: u64, now_ms: u64, ttl_ms: u64, id: Seq<char>)
    ensures
        then_ms <= now_ms ==> state::age_ms(then_ms, now_ms) + then_ms == now_ms,
        then_ms > now_ms ==> state::age_ms(then_ms, now_ms) == 0,
        s.without_unseen(now_ms, ttl_ms).baselines.contains_key(id) <==> s.baselines.contains_key(id)
            && (s.baselines[id].last_seen_ms > now_ms && ttl_ms > 0
            || s.baselines[id].last_seen_ms <= now_ms && now_ms - s.baselines[id].last_seen_ms
            < ttl_ms),
        s.without_unseen(now_ms, ttl_ms).baselines.contains_key(id) ==> s.without_unseen(
            now_ms,
            ttl_ms,
        ).baselines[id] == s.baselines[id],
        s.without_unseen(now_ms, ttl_ms).duckers == s.duckers,
        s.without_unseen(now_ms, ttl_ms).migrated == s.migrated,
        s.without_unseen(now_ms, ttl_ms).migration_deadline_ms == s.migration_deadline_ms,
{
}

} // verus!
