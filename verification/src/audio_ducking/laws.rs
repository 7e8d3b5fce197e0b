//! What holds of reconciliation as a whole.
use vstd::prelude::*;

use crate::audio_ducking::pass;
use crate::audio_ducking::pass::{Decision, PassView, Surroundings};
use crate::audio_ducking::session;
use crate::audio_ducking::session::SessionView;
use crate::audio_ducking::state;
use crate::audio_ducking::state::{DuckerView, StateView};
use crate::single::Single;

verus! {

/// How the saving of captured baselines went: whether it worked, and, where it did not, what
/// it left on disk and what a second read gave of that. A write in place can fail when it
/// has begun, so what is left need not be what was there.
pub struct Saving {
    pub durable: bool,
    pub left: StateView,
    pub reread: StateView,
    pub reread_readable: bool,
}

/// How the publication at the end of a pass went, and what a failure left on disk.
pub struct Publishing {
    pub durable: bool,
    pub left: StateView,
}

/// A pass with its captured baselines dealt with: saved where that worked, and otherwise
/// replaced by what is on disk.
pub open spec fn after_capture(p: PassView, sessions: Seq<SessionView>, saving: Saving) -> PassView {
    let c = pass::captured(p, sessions);
    if !c.unsaved {
        c
    } else if saving.durable {
        pass::after_saving(c, true)
    } else {
        pass::with_state(c, saving.reread, saving.reread_readable)
    }
}

/// The state on disk at that point, where `disk` was there before.
pub open spec fn disk_after_capture(
    disk: StateView,
    p: PassView,
    sessions: Seq<SessionView>,
    saving: Saving,
) -> StateView {
    let c = pass::captured(p, sessions);
    if !c.unsaved {
        disk
    } else if saving.durable {
        c.state
    } else {
        saving.left
    }
}

/// What is read is what is on disk, or nothing where it could not be read.
pub open spec fn is_read_of(read: StateView, readable: bool, disk: StateView) -> bool {
    read == (if readable {
        disk
    } else {
        StateView::blank()
    })
}

/// The end of a pass that goes on from `p`, with the writes that were planned.
pub open spec fn pass_end(
    p: PassView,
    sessions: Seq<SessionView>,
    times: spec_fn(Single, Single) -> Single,
    writes: Seq<Option<Single>>,
    succeeded: Seq<bool>,
) -> PassView {
    pass::settled(pass::planned(p, sessions, times), sessions, writes, succeeded)
}

/// No volume is lowered whose original is not on disk: where a session is ducked, or set to
/// less than it is at, the file holds the baseline of its identifier at that moment, with
/// the volume that the pass goes by.
pub proof fn law_lowered_only_when_recorded(
    disk: StateView,
    read: StateView,
    local: Seq<(String, Single)>,
    live_pids: Seq<u32>,
    around: Surroundings,
    sessions: Seq<SessionView>,
    saving: Saving,
    times: spec_fn(Single, Single) -> Single,
    differ: spec_fn(Single, Single) -> bool,
    i: int,
)
    requires
        is_read_of(read, around.state_readable, disk),
        is_read_of(saving.reread, saving.reread_readable, saving.left),
        0 <= i < sessions.len(),
        ({
            let q = after_capture(pass::begun(read, local, live_pids, around), sessions, saving);
            ||| pass::decide(q, sessions, sessions[i].identifier) == Decision::Duck
            ||| pass::write_for(q, sessions, i, times, differ) matches Some(volume) && volume.lt(
                sessions[i].volume,
            )
        }),
    ensures
        ({
            let p = pass::begun(read, local, live_pids, around);
            let now_on_disk = disk_after_capture(disk, p, sessions, saving);
            let q = after_capture(p, sessions, saving);
            let id = sessions[i].identifier;
            now_on_disk.baselines.contains_key(id) && now_on_disk.baselines[id].volume
                == q.state.baselines[id].volume
        }),
{
    let p = pass::begun(read, local, live_pids, around);
    let c = pass::captured(p, sessions);
    let id = sessions[i].identifier;
    if !c.unsaved {
        assert(!pass::is_captured(p, sessions, id));
    }
}

/// Planning and settling never change which decision is taken.
proof fn lemma_planned_decides_alike(
    p: PassView,
    sessions: Seq<SessionView>,
    times: spec_fn(Single, Single) -> Single,
    id: Seq<char>,
)
    ensures
        pass::decide(pass::planned(p, sessions, times), sessions, id) == pass::decide(
            p,
            sessions,
            id,
        ),
{
}

/// Capturing adds baselines and touches none that is on record. It adds none unless the
/// lock is held and the record could be read.
pub proof fn law_capture_keeps_records(p: PassView, sessions: Seq<SessionView>, id: Seq<char>)
    ensures
        p.state.baselines.contains_key(id) ==> pass::captured(p, sessions).state.baselines.contains_key(
            id,
        ) && pass::captured(p, sessions).state.baselines[id] == p.state.baselines[id],
        !p.state.baselines.contains_key(id) && pass::captured(
            p,
            sessions,
        ).state.baselines.contains_key(id) ==> p.around.have_lock && p.around.state_readable,
{
}

/// An original is never replaced: through a whole pass a baseline keeps its volume. It
/// leaves the record only when it was put back without a failure, or when no session of
/// its identifier was seen, in this pass or for the time it is kept.
pub proof fn law_baseline_is_kept(
    p: PassView,
    sessions: Seq<SessionView>,
    times: spec_fn(Single, Single) -> Single,
    writes: Seq<Option<Single>>,
    succeeded: Seq<bool>,
    id: Seq<char>,
)
    requires
        p.state.baselines.contains_key(id),
    ensures
        ({
            let e = pass_end(p, sessions, times, writes, succeeded).state;
            if e.baselines.contains_key(id) {
                e.baselines[id].volume == p.state.baselines[id].volume
            } else {
                ||| pass::done_without_failure(
                    p,
                    sessions,
                    writes,
                    succeeded,
                    id,
                    Decision::Restore,
                )
                ||| !session::has_session(sessions, id) && state::age_ms(
                    p.state.baselines[id].last_seen_ms,
                    p.around.now_ms,
                ) >= pass::BASELINE_TTL_MS
            }
        }),
{
    lemma_planned_decides_alike(p, sessions, times, id);
}

/// What a whole pass leaves on disk, where `disk` was there before. The state is published
/// at its end, unless that fails.
pub open spec fn disk_after_pass(
    disk: StateView,
    p: PassView,
    sessions: Seq<SessionView>,
    saving: Saving,
    times: spec_fn(Single, Single) -> Single,
    writes: Seq<Option<Single>>,
    succeeded: Seq<bool>,
    publishing: Publishing,
) -> StateView {
    let q = after_capture(p, sessions, saving);
    if !pass::may_publish(q) {
        disk_after_capture(disk, p, sessions, saving)
    } else if publishing.durable {
        pass_end(q, sessions, times, writes, succeeded).state
    } else {
        publishing.left
    }
}

/// A baseline that is on disk before a pass and after it has the same volume: what is
/// captured is never overwritten. Left out is a write in place that fails and leaves another
/// volume under the identifier; one that merely loses the record is not.
pub proof fn law_record_on_disk_is_not_overwritten(
    disk: StateView,
    read: StateView,
    local: Seq<(String, Single)>,
    live_pids: Seq<u32>,
    around: Surroundings,
    sessions: Seq<SessionView>,
    saving: Saving,
    times: spec_fn(Single, Single) -> Single,
    writes: Seq<Option<Single>>,
    succeeded: Seq<bool>,
    publishing: Publishing,
    id: Seq<char>,
)
    requires
        is_read_of(read, around.state_readable, disk),
        is_read_of(saving.reread, saving.reread_readable, saving.left),
        disk.baselines.contains_key(id),
        saving.left.baselines.contains_key(id) ==> saving.left.baselines[id].volume
            == disk.baselines[id].volume,
        publishing.left.baselines.contains_key(id) ==> publishing.left.baselines[id].volume
            == disk.baselines[id].volume,
    ensures
        ({
            let p = pass::begun(read, local, live_pids, around);
            let after = disk_after_pass(
                disk,
                p,
                sessions,
                saving,
                times,
                writes,
                succeeded,
                publishing,
            );
            after.baselines.contains_key(id) ==> after.baselines[id].volume
                == disk.baselines[id].volume
        }),
{
    let p = pass::begun(read, local, live_pids, around);
    let q = after_capture(p, sessions, saving);
    lemma_unsaved_only_if_readable(p, sessions);
    if pass::may_publish(q) && publishing.durable && q.state.baselines.contains_key(id) {
        law_baseline_is_kept(q, sessions, times, writes, succeeded, id);
    }
}

/// What is owed is not lost: a baseline that was on disk is on disk after a pass, with its
/// volume, unless the pass has put the volume back, or the session had not been seen for the
/// time a baseline is kept. Left out is a write in place that fails and damages the record
/// in doing so.
pub proof fn law_record_on_disk_is_kept(
    disk: StateView,
    read: StateView,
    local: Seq<(String, Single)>,
    live_pids: Seq<u32>,
    around: Surroundings,
    sessions: Seq<SessionView>,
    saving: Saving,
    times: spec_fn(Single, Single) -> Single,
    writes: Seq<Option<Single>>,
    succeeded: Seq<bool>,
    publishing: Publishing,
    id: Seq<char>,
)
    requires
        is_read_of(read, around.state_readable, disk),
        is_read_of(saving.reread, saving.reread_readable, saving.left),
        disk.baselines.contains_key(id),
        !saving.durable ==> saving.left.baselines.contains_key(id) && saving.left.baselines[id]
            == disk.baselines[id],
        !publishing.durable ==> publishing.left.baselines.contains_key(id)
            && publishing.left.baselines[id].volume == disk.baselines[id].volume,
    ensures
        ({
            let p = pass::begun(read, local, live_pids, around);
            let q = after_capture(p, sessions, saving);
            let after = disk_after_pass(
                disk,
                p,
                sessions,
                saving,
                times,
                writes,
                succeeded,
                publishing,
            );
            if after.baselines.contains_key(id) {
                after.baselines[id].volume == disk.baselines[id].volume
            } else {
                ||| pass::done_without_failure(
                    q,
                    sessions,
                    writes,
                    succeeded,
                    id,
                    Decision::Restore,
                )
                ||| !session::has_session(sessions, id) && state::age_ms(
                    disk.baselines[id].last_seen_ms,
                    around.now_ms,
                ) >= pass::BASELINE_TTL_MS
            }
        }),
{
    let p = pass::begun(read, local, live_pids, around);
    let q = after_capture(p, sessions, saving);
    lemma_unsaved_only_if_readable(p, sessions);
    if pass::may_publish(q) && publishing.durable {
        law_baseline_is_kept(q, sessions, times, writes, succeeded, id);
    }
}

/// Nothing is captured from a record that could not be read.
proof fn lemma_unsaved_only_if_readable(p: PassView, sessions: Seq<SessionView>)
    requires
        !p.unsaved,
    ensures
        pass::captured(p, sessions).unsaved ==> p.around.state_readable,
{
    if !p.around.state_readable {
        assert forall|k: Seq<char>| !pass::is_captured(p, sessions, k) by {}
    }
}

// ---------------------------------------------------------------------------
// Ducking does not compound
// ---------------------------------------------------------------------------

/// The volume of session `i` after a pass whose writes succeed.
pub open spec fn volume_after(
    p: PassView,
    sessions: Seq<SessionView>,
    i: int,
    times: spec_fn(Single, Single) -> Single,
    differ: spec_fn(Single, Single) -> bool,
) -> Single {
    match pass::write_for(p, sessions, i, times, differ) {
        Some(volume) => volume,
        None => sessions[i].volume,
    }
}

/// The sessions after a pass whose writes succeed.
pub open spec fn moved(
    p: PassView,
    sessions: Seq<SessionView>,
    times: spec_fn(Single, Single) -> Single,
    differ: spec_fn(Single, Single) -> bool,
) -> Seq<SessionView> {
    Seq::new(
        sessions.len(),
        |i: int|
            SessionView { volume: volume_after(p, sessions, i, times, differ), ..sessions[i] },
    )
}

/// No volume differs from itself.
pub open spec fn tells_apart(differ: spec_fn(Single, Single) -> bool) -> bool {
    forall|x: Single| !#[trigger] differ(x, x)
}

/// A session is ducked to the ratio of its original volume, and not again: one that is away
/// from that goal is set to it, one that is there is left alone, and a pass that finds the
/// session where an earlier one has brought it, with the same original and the same ratio,
/// writes nothing.
pub proof fn law_ducked_once(
    p: PassView,
    sessions: Seq<SessionView>,
    i: int,
    later: PassView,
    later_sessions: Seq<SessionView>,
    j: int,
    times: spec_fn(Single, Single) -> Single,
    differ: spec_fn(Single, Single) -> bool,
)
    requires
        tells_apart(differ),
        0 <= i < sessions.len(),
        pass::decide(p, sessions, sessions[i].identifier) == Decision::Duck,
        0 <= j < later_sessions.len(),
        later_sessions[j].identifier == sessions[i].identifier,
        later_sessions[j].volume == volume_after(p, sessions, i, times, differ),
        pass::decide(later, later_sessions, sessions[i].identifier) == Decision::Duck,
        later.ratio == p.ratio,
        later.state.baselines[sessions[i].identifier].volume
            == p.state.baselines[sessions[i].identifier].volume,
    ensures
        ({
            let goal = times(
                p.state.baselines[sessions[i].identifier].volume,
                p.ratio,
            ).unit();
            pass::write_for(p, sessions, i, times, differ) == (if differ(sessions[i].volume, goal) {
                Some(goal)
            } else {
                None
            })
        }),
        pass::write_for(later, later_sessions, j, times, differ) is None,
{
}

/// A pass whose writes have succeeded can be repeated: it decides to duck the same
/// identifiers, finds every session of theirs where it has to be, and writes nothing.
pub proof fn law_repeated_pass_changes_nothing(
    p: PassView,
    sessions: Seq<SessionView>,
    times: spec_fn(Single, Single) -> Single,
    differ: spec_fn(Single, Single) -> bool,
    writes: Seq<Option<Single>>,
    succeeded: Seq<bool>,
    i: int,
)
    requires
        tells_apart(differ),
        0 <= i < sessions.len(),
        pass::decide(p, sessions, sessions[i].identifier) == Decision::Duck,
    ensures
        ({
            let now = moved(p, sessions, times, differ);
            let planned = pass::planned(p, sessions, times);
            let end = pass_end(p, sessions, times, writes, succeeded);
            &&& pass::decide(planned, now, sessions[i].identifier) == Decision::Duck
            &&& pass::write_for(planned, now, i, times, differ) is None
            &&& pass::decide(end, now, sessions[i].identifier) == Decision::Duck
            &&& pass::write_for(end, now, i, times, differ) is None
        }),
{
    let id = sessions[i].identifier;
    let now = moved(p, sessions, times, differ);
    let planned = pass::planned(p, sessions, times);
    let end = pass_end(p, sessions, times, writes, succeeded);
    assert(session::has_session(sessions, id));
    assert(session::belongs_to(now, id, p.speakers) == session::belongs_to(
        sessions,
        id,
        p.speakers,
    )) by {
        if session::belongs_to(now, id, p.speakers) {
            let k = choose|k: int|
                0 <= k < now.len() && (#[trigger] now[k]).identifier == id && p.speakers.contains(
                    now[k].pid,
                );
            assert(sessions[k].identifier == id && p.speakers.contains(sessions[k].pid));
        }
    }
    lemma_planned_decides_alike(p, sessions, times, id);
    law_baseline_is_kept(p, sessions, times, writes, succeeded, id);
    law_ducked_once(p, sessions, i, planned, now, i, times, differ);
    law_ducked_once(p, sessions, i, end, now, i, times, differ);
}

/// One pass over a session: the pass, the sessions it found, and which of them it is.
pub struct Round {
    pub pass: PassView,
    pub sessions: Seq<SessionView>,
    pub i: int,
}

/// A round ducks a session of `id` from the volume `original` to `ratio`.
pub open spec fn ducks(round: Round, id: Seq<char>, original: Single, ratio: Single) -> bool {
    &&& 0 <= round.i < round.sessions.len()
    &&& round.sessions[round.i].identifier == id
    &&& pass::decide(round.pass, round.sessions, id) == Decision::Duck
    &&& round.pass.state.baselines[id].volume == original
    &&& round.pass.ratio == ratio
}

/// Round `n` finds the session where round `n - 1` has left it.
pub open spec fn follows_on(
    rounds: Seq<Round>,
    n: int,
    times: spec_fn(Single, Single) -> Single,
    differ: spec_fn(Single, Single) -> bool,
) -> bool {
    rounds[n].sessions[rounds[n].i].volume == volume_after(
        rounds[n - 1].pass,
        rounds[n - 1].sessions,
        rounds[n - 1].i,
        times,
        differ,
    )
}

/// Attenuation never compounds: however many passes duck a session, it stays at the volume
/// that the first of them has brought it to, and none after the first writes anything.
pub proof fn law_ducking_does_not_compound(
    rounds: Seq<Round>,
    id: Seq<char>,
    original: Single,
    ratio: Single,
    times: spec_fn(Single, Single) -> Single,
    differ: spec_fn(Single, Single) -> bool,
    n: int,
)
    requires
        tells_apart(differ),
        0 < n < rounds.len(),
        forall|k: int| 0 <= k <= n ==> ducks(#[trigger] rounds[k], id, original, ratio),
        forall|k: int| 0 < k <= n ==> #[trigger] follows_on(rounds, k, times, differ),
    ensures
        pass::write_for(rounds[n].pass, rounds[n].sessions, rounds[n].i, times, differ) is None,
        rounds[n].sessions[rounds[n].i].volume == volume_after(
            rounds[0].pass,
            rounds[0].sessions,
            rounds[0].i,
            times,
            differ,
        ),
    decreases n,
{
    let before = rounds[n - 1];
    let now = rounds[n];
    assert(ducks(before, id, original, ratio));
    assert(follows_on(rounds, n, times, differ));
    law_ducked_once(
        before.pass,
        before.sessions,
        before.i,
        now.pass,
        now.sessions,
        now.i,
        times,
        differ,
    );
    if n > 1 {
        law_ducking_does_not_compound(rounds, id, original, ratio, times, differ, n - 1);
    }
}

/// When nobody ducks, or to someone who speaks, what is owed is given back: each session
/// of the identifier is either at its original volume, within the tolerance, or set to
/// it; and once no write has failed, nothing is owed any more.
pub proof fn law_original_is_put_back(
    p: PassView,
    sessions: Seq<SessionView>,
    times: spec_fn(Single, Single) -> Single,
    differ: spec_fn(Single, Single) -> bool,
    writes: Seq<Option<Single>>,
    succeeded: Seq<bool>,
    i: int,
)
    requires
        0 <= i < sessions.len(),
        p.state.baselines.contains_key(sessions[i].identifier),
        !p.should_duck || session::belongs_to(sessions, sessions[i].identifier, p.speakers),
    ensures
        ({
            let id = sessions[i].identifier;
            let original = p.state.baselines[id].volume;
            &&& pass::write_for(p, sessions, i, times, differ) == (if differ(
                sessions[i].volume,
                original,
            ) {
                Some(original.unit())
            } else {
                None
            })
            &&& pass::none_failed(sessions, writes, succeeded, id) ==> !pass_end(
                p,
                sessions,
                times,
                writes,
                succeeded,
            ).state.baselines.contains_key(id)
        }),
{
    let id = sessions[i].identifier;
    assert(session::has_session(sessions, id));
    lemma_planned_decides_alike(p, sessions, times, id);
}

/// Someone who speaks is never ducked: a session of theirs is left alone, or set to its
/// original volume.
pub proof fn law_speaker_is_not_ducked(
    p: PassView,
    sessions: Seq<SessionView>,
    times: spec_fn(Single, Single) -> Single,
    differ: spec_fn(Single, Single) -> bool,
    i: int,
)
    requires
        0 <= i < sessions.len(),
        p.should_duck,
        p.speakers.contains(sessions[i].pid),
    ensures
        pass::write_for(p, sessions, i, times, differ) is Some ==> p.state.baselines.contains_key(
            sessions[i].identifier,
        ) && pass::write_for(p, sessions, i, times, differ) == Some(
            p.state.baselines[sessions[i].identifier].volume.unit(),
        ),
{
    assert(session::belongs_to(sessions, sessions[i].identifier, p.speakers));
}

/// Two guardians with the same registry, record and switches decide alike about every
/// session, whichever process they run in and whenever they look.
pub proof fn law_guardians_agree(
    p: PassView,
    q: PassView,
    sessions: Seq<SessionView>,
    id: Seq<char>,
)
    requires
        p.state == q.state,
        p.should_duck == q.should_duck,
        p.speakers == q.speakers,
        p.unsaved == q.unsaved,
        p.migration_active == q.migration_active,
        p.around.ducking_disabled == q.around.ducking_disabled,
    ensures
        pass::decide(p, sessions, id) == pass::decide(q, sessions, id),
{
}

/// An identifier is raised once: after it was raised without a failure it is noted, and
/// one that is noted is not raised. None is raised while anyone ducks.
pub proof fn law_raised_once(
    p: PassView,
    sessions: Seq<SessionView>,
    times: spec_fn(Single, Single) -> Single,
    writes: Seq<Option<Single>>,
    succeeded: Seq<bool>,
    id: Seq<char>,
)
    ensures
        pass::done_without_failure(p, sessions, writes, succeeded, id, Decision::Raise)
            ==> pass_end(p, sessions, times, writes, succeeded).state.migrated.contains(id),
        p.state.migrated.contains(id) ==> pass::decide(p, sessions, id) != Decision::Raise,
        p.should_duck ==> pass::decide(p, sessions, id) != Decision::Raise,
{
    lemma_planned_decides_alike(p, sessions, times, id);
}

/// With ducking switched off this process lowers nothing and raises nothing: what it
/// still does is to put originals back.
pub proof fn law_switch_stops_ducking(p: PassView, sessions: Seq<SessionView>, id: Seq<char>)
    requires
        p.around.ducking_disabled,
    ensures
        pass::decide(p, sessions, id) == Decision::Leave || pass::decide(p, sessions, id)
            == Decision::Restore,
{
}

/// Who ducks: the instances in this process, and of other processes' entries exactly
/// those whose process is alive and whose heartbeat is fresh.
pub proof fn law_registry(
    read: StateView,
    local: Seq<(String, Single)>,
    live_pids: Seq<u32>,
    around: Surroundings,
    d: DuckerView,
)
    requires
        d.pid != around.own_pid,
    ensures
        pass::begun(read, local, live_pids, around).state.duckers.contains(d) <==> (
        read.duckers.contains(d) && live_pids.contains(d.pid) && state::age_ms(
            d.heartbeat_ms,
            around.now_ms,
        ) < pass::HEARTBEAT_STALE_MS),
{
    let keep = |x: DuckerView| pass::still_ducking(x, live_pids, around);
    let others = read.duckers.filter(keep);
    let all = pass::refreshed(read.duckers, local, live_pids, around);
    lemma_filter_members(read.duckers, keep, d);
    if others.contains(d) {
        let i = choose|i: int| 0 <= i < others.len() && others[i] == d;
        assert(all[i] == d);
    }
    if all.contains(d) {
        let i = choose|i: int| 0 <= i < all.len() && all[i] == d;
        assert(i < others.len());
        assert(others[i] == d);
    }
}

/// What a filtered sequence holds.
pub proof fn lemma_filter_members(
    s: Seq<DuckerView>,
    keep: spec_fn(DuckerView) -> bool,
    d: DuckerView,
)
    ensures
        s.filter(keep).contains(d) <==> s.contains(d) && keep(d),
        s.filter(keep).len() <= s.len(),
    decreases s.len(),
{
    reveal(Seq::filter);
    if s.len() > 0 {
        let rest = s.drop_last();
        lemma_filter_members(rest, keep, d);
        assert(s == rest.push(s.last()));
        if s.contains(d) && d != s.last() {
            let i = choose|i: int| 0 <= i < s.len() && s[i] == d;
            assert(rest[i] == d);
        }
        if rest.contains(d) {
            let i = choose|i: int| 0 <= i < rest.len() && rest[i] == d;
            assert(s[i] == d);
        }
        let kept = rest.filter(keep);
        if keep(s.last()) {
            assert(s.filter(keep) == kept.push(s.last()));
            assert(kept.push(s.last())[kept.len() as int] == s.last());
            if kept.contains(d) {
                let i = choose|i: int| 0 <= i < kept.len() && kept[i] == d;
                assert(kept.push(s.last())[i] == d);
            }
            if kept.push(s.last()).contains(d) && d != s.last() {
                let i = choose|i: int| 0 <= i < kept.push(s.last()).len() && kept.push(
                    s.last(),
                )[i] == d;
                assert(kept[i] == d);
            }
        }
    }
}

/// When nobody is left to duck for, nobody is ducked: where no instance here asks for it,
/// and every other entry belongs to this process, to one that is gone, or to one that has
/// fallen silent, all that is owed is put back. So a process that dies while it ducks is
/// made good for by any other.
pub proof fn law_dead_duckers_are_made_good_for(
    read: StateView,
    local: Seq<(String, Single)>,
    live_pids: Seq<u32>,
    around: Surroundings,
    sessions: Seq<SessionView>,
    id: Seq<char>,
)
    requires
        local.len() == 0,
        forall|i: int|
            0 <= i < read.duckers.len() ==> !pass::still_ducking(
                #[trigger] read.duckers[i],
                live_pids,
                around,
            ),
        read.baselines.contains_key(id),
    ensures
        !pass::begun(read, local, live_pids, around).should_duck,
        pass::decide(
            pass::captured(pass::begun(read, local, live_pids, around), sessions),
            sessions,
            id,
        ) == Decision::Restore,
{
    let keep = |x: DuckerView| pass::still_ducking(x, live_pids, around);
    lemma_filter_empty(read.duckers, keep);
    assert(pass::refreshed(read.duckers, local, live_pids, around).len() == 0);
}

proof fn lemma_filter_empty(s: Seq<DuckerView>, keep: spec_fn(DuckerView) -> bool)
    requires
        forall|i: int| 0 <= i < s.len() ==> !keep(#[trigger] s[i]),
    ensures
        s.filter(keep).len() == 0,
    decreases s.len(),
{
    reveal(Seq::filter);
    if s.len() > 0 {
        assert forall|i: int| 0 <= i < s.drop_last().len() implies !keep(
            #[trigger] s.drop_last()[i],
        ) by {
            assert(s.drop_last()[i] == s[i]);
        }
        lemma_filter_empty(s.drop_last(), keep);
    }
}

/// What is ducked gets its own volume back: the volume that is captured in one pass is what
/// any later pass puts back, as long as the record is there, however often the session was
/// ducked in between and whatever its volume is by then.
pub proof fn law_captured_volume_is_put_back(
    p: PassView,
    sessions: Seq<SessionView>,
    times: spec_fn(Single, Single) -> Single,
    writes: Seq<Option<Single>>,
    succeeded: Seq<bool>,
    id: Seq<char>,
    later: PassView,
    later_sessions: Seq<SessionView>,
    differ: spec_fn(Single, Single) -> bool,
    i: int,
)
    requires
        pass::is_captured(p, sessions, id),
        !later.should_duck,
        later.state.baselines.contains_key(id),
        later.state.baselines[id].volume == pass_end(
            pass::after_saving(pass::captured(p, sessions), true),
            sessions,
            times,
            writes,
            succeeded,
        ).state.baselines[id].volume,
        0 <= i < later_sessions.len(),
        later_sessions[i].identifier == id,
    ensures
        pass_end(
            pass::after_saving(pass::captured(p, sessions), true),
            sessions,
            times,
            writes,
            succeeded,
        ).state.baselines.contains_key(id),
        session::own_volume(sessions, id) is Some,
        pass::write_for(later, later_sessions, i, times, differ) == (if differ(
            later_sessions[i].volume,
            session::own_volume(sessions, id)->0,
        ) {
            Some((session::own_volume(sessions, id)->0).unit())
        } else {
            None
        }),
{
    let q = pass::after_saving(pass::captured(p, sessions), true);
    lemma_planned_decides_alike(q, sessions, times, id);
    law_baseline_is_kept(q, sessions, times, writes, succeeded, id);
    law_original_is_put_back(later, later_sessions, times, differ, writes, succeeded, i);
}

/// Every volume that is written is one that clamping to 0 and 1 leaves as it is.
pub proof fn law_written_volumes_are_clamped(
    p: PassView,
    sessions: Seq<SessionView>,
    i: int,
    times: spec_fn(Single, Single) -> Single,
    differ: spec_fn(Single, Single) -> bool,
)
    ensures
        pass::write_for(p, sessions, i, times, differ) matches Some(volume) ==> volume.unit()
            == volume,
{
}

/// Where several ask for ducking, the smallest ratio counts: none that is asked for is
/// smaller.
pub proof fn law_smallest_ratio_counts(duckers: Seq<DuckerView>, i: int)
    requires
        0 <= i < duckers.len(),
    ensures
        !pass::smallest_ratio(duckers).is_nan(),
        !duckers[i].ratio.lt(pass::smallest_ratio(duckers)),
    decreases duckers.len(),
{
    lemma_smallest_is_number(duckers.drop_last());
    if i < duckers.len() - 1 {
        law_smallest_ratio_counts(duckers.drop_last(), i);
    }
}

proof fn lemma_smallest_is_number(duckers: Seq<DuckerView>)
    ensures
        !pass::smallest_ratio(duckers).is_nan(),
    decreases duckers.len(),
{
    if duckers.len() > 0 {
        lemma_smallest_is_number(duckers.drop_last());
    }
}

} // verus!
