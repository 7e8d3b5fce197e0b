use speakstream::audio_ducking::pass::{
    Decision, Pass, Surroundings, BASELINE_TTL_MS, NEARLY_FULL_BITS,
};
use speakstream::audio_ducking::session::{collect_sessions, LiveSession, SessionReading};
use speakstream::audio_ducking::state::{Baseline, DuckerEntry, SharedState};
use speakstream::audio_ducking::state_file::{parse, render};
use speakstream::audio_ducking::store::{
    read_from, write_to, FileRead, IoOutcome, Publication, PublishStep,
};
use speakstream::audio_ducking::AudioDucker;
use speakstream::single::Single;

fn single(x: f32) -> Single {
    Single::from_bits(x.to_bits())
}

fn value(x: Single) -> f32 {
    f32::from_bits(x.to_bits())
}

fn read_single(s: &str) -> Option<Single> {
    s.parse::<f32>().ok().map(single)
}

fn write_single(x: Single) -> String {
    value(x).to_string()
}

fn times(a: Single, b: Single) -> Single {
    single(value(a) * value(b))
}

fn apart(a: Single, b: Single) -> bool {
    (value(a) - value(b)).abs() > 0.004
}

const OWN: u32 = 10;
const NOW: u64 = 1_000_000_000;

fn around() -> Surroundings {
    Surroundings {
        own_pid: OWN,
        now_ms: NOW,
        have_lock: true,
        state_readable: true,
        ducking_disabled: false,
        migration_disabled: false,
        legacy_present: false,
    }
}

fn session(id: &str, pid: u32, volume: f32) -> LiveSession {
    LiveSession {
        identifier: id.to_string(),
        pid,
        volume: single(volume),
        expired: false,
        handle: 0,
    }
}

fn half() -> Vec<(String, Single)> {
    vec![("10:0".to_string(), single(0.5))]
}

fn baseline(volume: f32, ducked_to: f32, last_seen_ms: u64) -> Baseline {
    Baseline { volume: single(volume), ducked_to: single(ducked_to), last_seen_ms }
}

fn ducker(instance: &str, pid: u32, heartbeat_ms: u64, ratio: f32) -> DuckerEntry {
    DuckerEntry { instance: instance.to_string(), pid, heartbeat_ms, ratio: single(ratio) }
}

/// Runs a whole pass over sessions, with all writes and saves working, and applies the
/// writes. Returns the state it leaves.
fn pass_over(
    state: SharedState,
    local: &Vec<(String, Single)>,
    live: &Vec<u32>,
    around: Surroundings,
    sessions: &mut Vec<LiveSession>,
) -> SharedState {
    let mut pass = Pass::begin(state, local, live, around);
    if pass.capture(sessions) {
        assert!(!pass.saved(true));
    }
    let writes = pass.plan(sessions, &times, &apart);
    let succeeded = vec![true; sessions.len()];
    pass.settle(sessions, &writes, &succeeded);
    for (s, w) in sessions.iter_mut().zip(&writes) {
        if let Some(volume) = w {
            s.volume = *volume;
        }
    }
    let content = render(pass.state(), &write_single);
    parse(&content, &read_single)
}

fn volumes(sessions: &[LiveSession]) -> Vec<f32> {
    sessions.iter().map(|s| value(s.volume)).collect()
}

// -- The state file ----------------------------------------------------------

#[test]
fn shared_state_roundtrips_identifiers_with_spaces() {
    let id = r"{0.0.0.00000000}.{guid}|\Device\HarddiskVolume5\Program Files\A B\app.exe%b{0}"
        .to_string();
    let mut state = SharedState::new();
    state.set_baseline(&id, baseline(0.85, 0.425, 1234));
    state.add_ducker(ducker("1234:0", 1234, 99, 0.5));
    let content = match write_to(&state, &write_single) {
        Publication::Replace(content) => content,
        other => panic!("{:?}", other),
    };
    let (loaded, ok) = read_from(&FileRead::Content(content), &read_single);
    assert!(ok);
    assert_eq!(loaded.duckers().len(), 1);
    assert_eq!(loaded.duckers()[0].instance, "1234:0");
    assert_eq!(loaded.baselines().len(), 1);
    let (id, b) = &loaded.baselines()[0];
    assert!(id.contains("Program Files\\A B\\app.exe"));
    assert!((value(b.volume) - 0.85).abs() < 0.001);
    assert_eq!(*b, baseline(0.85, 0.425, 1234));
}

#[test]
fn the_state_file_is_lines() {
    let mut state = SharedState::new();
    state.set_migration_deadline_ms(77);
    state.mark_migrated(&"an app".to_string());
    state.add_ducker(ducker("1:0", 1, 2, 0.25));
    state.set_baseline(&"b app".to_string(), baseline(1.0, 0.25, 3));
    assert_eq!(
        render(&state, &write_single),
        "V 2\nX 77\nM an app\nD 1:0 1 2 0.25\nB 1 0.25 3 b app\n"
    );
}

#[test]
fn broken_lines_are_passed_over() {
    let content = "V 2\nD 1:0 1 2\nD 1:1 x 2 0.5\nD 1:2 1 2 0.5\r\nB 1 0.5 9\nB 1 0.5 9 the app\n\
                   B a 0.5 9 other\nX  42 \nX no\nM \nM it\nwhat is this\n\nD 2:0 2 3 0.5 rest";
    let state = parse(content, &read_single);
    let instances: Vec<&str> = state.duckers().iter().map(|d| d.instance.as_str()).collect();
    assert_eq!(instances, vec!["1:2"]);
    assert_eq!(state.baselines().len(), 1);
    assert_eq!(state.baseline(&"the app".to_string()), Some(baseline(1.0, 0.5, 9)));
    assert_eq!(state.migration_deadline_ms(), Some(42));
    assert_eq!(state.migrated().len(), 1);
    assert!(state.is_migrated(&"it".to_string()));
}

#[test]
fn the_last_line_of_an_identifier_counts() {
    let state = parse("B 1 0.5 9 app\nB 0.25 0.5 10 app\n", &read_single);
    assert_eq!(state.baselines().len(), 1);
    assert_eq!(state.baseline(&"app".to_string()), Some(baseline(0.25, 0.5, 10)));
}

#[test]
fn missing_and_unreadable_files() {
    let (state, ok) = read_from(&FileRead::Missing, &read_single);
    assert!(ok && state.duckers().is_empty() && state.baselines().is_empty());
    let (state, ok) = read_from(&FileRead::Unreadable, &read_single);
    assert!(!ok && state.duckers().is_empty() && state.baselines().is_empty());
}

#[test]
fn nothing_to_keep_removes_the_file() {
    let mut state = SharedState::new();
    state.mark_migrated(&"app".to_string());
    assert!(matches!(write_to(&state, &write_single), Publication::Remove));
    state.set_migration_deadline_ms(1);
    assert!(matches!(write_to(&state, &write_single), Publication::Replace(_)));
}

#[test]
fn the_file_is_replaced_by_way_of_a_temporary_one() {
    let remove = Publication::Remove.first_step();
    assert_eq!(remove, PublishStep::RemoveFile);
    assert_eq!(remove.next(IoOutcome::Done), PublishStep::Finished(true));
    assert_eq!(remove.next(IoOutcome::NotFound), PublishStep::Finished(true));
    assert_eq!(remove.next(IoOutcome::Failed), PublishStep::Finished(false));
    let mut step = Publication::Replace(String::new()).first_step();
    let mut seen = Vec::new();
    while !matches!(step, PublishStep::Finished(_)) {
        seen.push(step);
        step = step.next(IoOutcome::Done);
    }
    assert_eq!(
        seen,
        vec![
            PublishStep::CreateTemp,
            PublishStep::WriteTemp,
            PublishStep::SyncTemp,
            PublishStep::RenameTemp
        ]
    );
    assert_eq!(step, PublishStep::Finished(true));
    for failing in seen {
        let step = failing.next(IoOutcome::Failed);
        assert_eq!(step, PublishStep::DiscardTemp);
        assert_eq!(step.next(IoOutcome::Failed), PublishStep::WriteInPlace);
    }
    assert_eq!(PublishStep::WriteInPlace.next(IoOutcome::Done), PublishStep::Finished(true));
    assert_eq!(PublishStep::WriteInPlace.next(IoOutcome::Failed), PublishStep::Finished(false));
}

// -- Sessions ----------------------------------------------------------------

#[test]
fn sessions_of_all_endpoints_are_collected() {
    let reading = |id: Option<&str>, volume: Option<f32>| SessionReading {
        identifier: id.map(|s| s.to_string()),
        pid: None,
        volume: volume.map(single),
        expired: None,
        handle: 7,
    };
    let endpoints = vec![
        Some(vec![reading(Some("a"), Some(0.5)), reading(None, Some(1.0))]),
        None,
        Some(vec![reading(Some("b"), None), reading(Some("c"), Some(0.25))]),
    ];
    let sessions = collect_sessions(&endpoints);
    let ids: Vec<&str> = sessions.iter().map(|s| s.identifier.as_str()).collect();
    assert_eq!(ids, vec!["a", "c"]);
    assert_eq!((sessions[0].pid, sessions[0].expired, sessions[0].handle), (0, false, 7));
}

// -- Passes ------------------------------------------------------------------

#[test]
fn duck_and_restore() {
    let mut sessions = vec![session("app", 2, 0.8), session("app", 3, 0.3), session("other", 4, 1.0)];
    let state = pass_over(SharedState::new(), &half(), &vec![], around(), &mut sessions);
    assert_eq!(volumes(&sessions), vec![0.4, 0.4, 0.5]);
    assert_eq!(value(state.baseline(&"app".to_string()).unwrap().volume), 0.8);
    let state = pass_over(state, &vec![], &vec![], around(), &mut sessions);
    // The group is brought to its loudest member.
    assert_eq!(volumes(&sessions), vec![0.8, 0.8, 1.0]);
    assert!(state.baselines().is_empty());
}

#[test]
fn ducking_again_does_not_compound() {
    let mut sessions = vec![session("app", 2, 1.0)];
    let mut state = SharedState::new();
    for _ in 0..4 {
        for _ in 0..3 {
            state = pass_over(state, &half(), &vec![], around(), &mut sessions);
            assert_eq!(volumes(&sessions), vec![0.5]);
        }
        // The stream ends while it is ducked, and the pass sees nothing to restore.
        state = pass_over(state, &vec![], &vec![], around(), &mut Vec::new());
        assert_eq!(state.baselines().len(), 1);
    }
    // The stream comes back with the ducked volume, and is repaired.
    state = pass_over(state, &vec![], &vec![], around(), &mut sessions);
    assert_eq!(volumes(&sessions), vec![1.0]);
    assert!(state.baselines().is_empty());
}

#[test]
fn a_repeated_pass_writes_nothing() {
    let mut sessions = vec![session("app", 2, 0.8), session("app", 3, 0.401), session("b", 4, 0.3)];
    let state = pass_over(SharedState::new(), &half(), &vec![], around(), &mut sessions);
    assert_eq!(volumes(&sessions), vec![0.4, 0.401, 0.15]);
    let mut pass = Pass::begin(state, &half(), &vec![], around());
    assert!(!pass.capture(&sessions));
    assert_eq!(pass.plan(&sessions, &times, &apart), vec![None, None, None]);
}

#[test]
fn the_smallest_ratio_wins() {
    let mut sessions = vec![session("app", 2, 1.0)];
    let local = vec![("10:0".to_string(), single(0.5)), ("10:1".to_string(), single(0.25))];
    pass_over(SharedState::new(), &local, &vec![], around(), &mut sessions);
    assert_eq!(volumes(&sessions), vec![0.25]);
    let mut pass = Pass::begin(SharedState::new(), &local, &vec![], around());
    assert_eq!(value(pass.ratio()), 0.25);
    assert!(pass.should_duck());
    assert!(pass.capture(&vec![session("app", 2, 1.0)]));
}

#[test]
fn speakers_are_not_ducked() {
    let mut state = SharedState::new();
    state.add_ducker(ducker("20:0", 20, NOW, 0.5));
    let live = vec![20];
    let mut sessions = vec![session("tool", 20, 1.0), session("me", OWN, 1.0), session("app", 2, 1.0)];
    let state = pass_over(state, &vec![], &live, around(), &mut sessions);
    assert_eq!(volumes(&sessions), vec![1.0, 0.5, 0.5]);
    // Now this process speaks too: what it was lowered by is put back.
    let state = pass_over(state, &half(), &live, around(), &mut sessions);
    assert_eq!(volumes(&sessions), vec![1.0, 1.0, 0.5]);
    assert!(state.baseline(&"me".to_string()).is_none());
    assert!(state.baseline(&"app".to_string()).is_some());
}

#[test]
fn dead_and_silent_duckers_are_dropped() {
    let recorded = || {
        let mut state = SharedState::new();
        state.add_ducker(ducker("20:0", 20, NOW - 5_999, 0.5));
        state.set_baseline(&"app".to_string(), baseline(1.0, 0.5, NOW));
        state
    };
    let mut sessions = vec![session("app", 2, 0.5)];
    pass_over(recorded(), &vec![], &vec![20], around(), &mut sessions);
    assert_eq!(volumes(&sessions), vec![0.5]);
    let mut late = around();
    late.now_ms = NOW + 1;
    pass_over(recorded(), &vec![], &vec![20], late, &mut sessions);
    assert_eq!(volumes(&sessions), vec![1.0]);
    let mut sessions = vec![session("app", 2, 0.5)];
    let state = pass_over(recorded(), &vec![], &vec![], around(), &mut sessions);
    assert_eq!(volumes(&sessions), vec![1.0]);
    assert!(state.duckers().is_empty());
}

#[test]
fn baselines_are_taken_from_live_streams() {
    let mut ended = session("app", 2, 0.9);
    ended.expired = true;
    let mut pass = Pass::begin(SharedState::new(), &half(), &vec![], around());
    let sessions = vec![ended, session("app", 3, 0.6)];
    assert!(pass.capture(&sessions));
    assert_eq!(value(pass.state().baseline(&"app".to_string()).unwrap().volume), 0.6);
    let mut ended = session("app", 2, 0.9);
    ended.expired = true;
    let mut pass = Pass::begin(SharedState::new(), &half(), &vec![], around());
    assert!(pass.capture(&vec![ended]));
    assert_eq!(value(pass.state().baseline(&"app".to_string()).unwrap().volume), 0.9);
    let mut pass = Pass::begin(SharedState::new(), &half(), &vec![], around());
    assert!(!pass.capture(&vec![session("app", 2, f32::NAN)]));
}

#[test]
fn nothing_is_captured_without_the_lock_or_the_record() {
    let sessions = vec![session("app", 2, 1.0)];
    let mut without_lock = around();
    without_lock.have_lock = false;
    let mut unreadable = around();
    unreadable.state_readable = false;
    for around in [without_lock, unreadable] {
        let mut pass = Pass::begin(SharedState::new(), &half(), &vec![], around);
        assert!(!pass.capture(&sessions));
        assert_eq!(pass.plan(&sessions, &times, &apart), vec![None]);
        assert!(!pass.publishes());
    }
    // What is on record is ducked without the lock.
    let mut state = SharedState::new();
    state.set_baseline(&"app".to_string(), baseline(1.0, 1.0, NOW));
    let mut pass = Pass::begin(state, &half(), &vec![], without_lock);
    assert_eq!(pass.plan(&sessions, &times, &apart), vec![Some(single(0.5))]);
}

#[test]
fn what_cannot_be_saved_is_not_ducked() {
    let sessions = vec![session("app", 2, 1.0)];
    let mut pass = Pass::begin(SharedState::new(), &half(), &vec![], around());
    assert!(pass.capture(&sessions));
    assert_eq!(pass.decision(&sessions, &"app".to_string()), Decision::Leave);
    assert!(pass.saved(false));
    pass.replace_state(SharedState::new(), true);
    assert_eq!(pass.plan(&sessions, &times, &apart), vec![None]);
    assert!(pass.publishes());
    let mut pass = Pass::begin(SharedState::new(), &half(), &vec![], around());
    pass.capture(&sessions);
    assert!(!pass.saved(true));
    assert_eq!(pass.decision(&sessions, &"app".to_string()), Decision::Duck);
    let mut pass = Pass::begin(SharedState::new(), &half(), &vec![], around());
    pass.capture(&sessions);
    pass.saved(false);
    pass.replace_state(SharedState::new(), false);
    assert!(!pass.publishes());
}

#[test]
fn a_failed_restore_stays_owed() {
    let mut state = SharedState::new();
    state.set_baseline(&"app".to_string(), baseline(1.0, 0.5, NOW - 10));
    let sessions = vec![session("app", 2, 0.5), session("app", 3, 1.0)];
    let mut pass = Pass::begin(state, &vec![], &vec![], around());
    assert!(!pass.capture(&sessions));
    let writes = pass.plan(&sessions, &times, &apart);
    assert_eq!(writes, vec![Some(single(1.0)), None]);
    pass.settle(&sessions, &writes, &vec![false, false]);
    assert_eq!(pass.state().baseline(&"app".to_string()), Some(baseline(1.0, 0.5, NOW)));
    assert!(pass.is_active());
    assert!(pass.publishes());
}

#[test]
fn unseen_baselines_are_given_up_after_a_week() {
    let mut state = SharedState::new();
    state.set_baseline(&"young".to_string(), baseline(1.0, 0.5, NOW - BASELINE_TTL_MS + 1));
    state.set_baseline(&"old".to_string(), baseline(1.0, 0.5, NOW - BASELINE_TTL_MS));
    let state = pass_over(state, &vec![], &vec![], around(), &mut Vec::new());
    assert!(state.baseline(&"young".to_string()).is_some());
    assert!(state.baseline(&"old".to_string()).is_none());
}

#[test]
fn the_switch_stops_ducking_and_keeps_restoring() {
    let mut off = around();
    off.ducking_disabled = true;
    let mut sessions = vec![session("app", 2, 1.0)];
    let state = pass_over(SharedState::new(), &half(), &vec![], off, &mut sessions);
    assert_eq!(volumes(&sessions), vec![1.0]);
    assert!(state.duckers().is_empty());
    let mut state = SharedState::new();
    state.set_baseline(&"app".to_string(), baseline(1.0, 0.5, NOW));
    let mut sessions = vec![session("app", 2, 0.5)];
    pass_over(state, &half(), &vec![], off, &mut sessions);
    assert_eq!(volumes(&sessions), vec![1.0]);
}

#[test]
fn older_damage_is_repaired_once() {
    let mut repairing = around();
    repairing.legacy_present = true;
    let mut sessions = vec![session("app", 2, 0.25), session("full", 3, 1.0)];
    let mut state = pass_over(SharedState::new(), &vec![], &vec![], repairing, &mut sessions);
    assert_eq!(volumes(&sessions), vec![1.0, 1.0]);
    assert_eq!(state.migration_deadline_ms(), Some(NOW + 86_400_000));
    assert!(state.is_migrated(&"app".to_string()) && state.is_migrated(&"full".to_string()));
    // The user turns it down again; it stays so.
    sessions[0].volume = single(0.25);
    state = pass_over(state, &vec![], &vec![], repairing, &mut sessions);
    assert_eq!(volumes(&sessions), vec![0.25, 1.0]);
    // When the window has closed, who was repaired is forgotten and nobody is raised.
    let mut later = repairing;
    later.now_ms = NOW + 86_400_000;
    state = pass_over(state, &vec![], &vec![], later, &mut sessions);
    assert!(state.migrated().is_empty());
    assert_eq!(volumes(&sessions), vec![0.25, 1.0]);
    // No traces, or no wish: no repair.
    let mut sessions = vec![session("app", 2, 0.25)];
    pass_over(SharedState::new(), &vec![], &vec![], around(), &mut sessions);
    let mut unwanted = repairing;
    unwanted.migration_disabled = true;
    pass_over(SharedState::new(), &vec![], &vec![], unwanted, &mut sessions);
    let mut off = repairing;
    off.ducking_disabled = true;
    pass_over(SharedState::new(), &vec![], &vec![], off, &mut sessions);
    assert_eq!(volumes(&sessions), vec![0.25]);
}

#[test]
fn idle_passes_scan_nothing() {
    let pass = Pass::begin(SharedState::new(), &vec![], &vec![], around());
    assert!(!pass.needs_scan());
    assert!(!pass.is_active());
    assert!(Pass::begin(SharedState::new(), &half(), &vec![], around()).needs_scan());
    let mut state = SharedState::new();
    state.set_baseline(&"app".to_string(), baseline(1.0, 0.5, NOW));
    assert!(Pass::begin(state, &vec![], &vec![], around()).needs_scan());
    let mut repairing = around();
    repairing.legacy_present = true;
    assert!(Pass::begin(SharedState::new(), &vec![], &vec![], repairing).needs_scan());
}

#[test]
fn volumes_within_the_tolerance_are_left_alone() {
    let mut state = SharedState::new();
    state.set_baseline(&"app".to_string(), baseline(0.8, 0.4, NOW));
    let sessions = vec![session("app", 2, 0.803), session("app", 3, 0.81)];
    let mut pass = Pass::begin(state, &vec![], &vec![], around());
    assert_eq!(pass.plan(&sessions, &times, &apart), vec![None, Some(single(0.8))]);
}

#[test]
fn nearly_full_is_one_less_the_tolerance() {
    assert_eq!(NEARLY_FULL_BITS, (1.0f32 - 0.004f32).to_bits());
}

// -- Emergency repair --------------------------------------------------------

#[test]
fn emergency_repair_keeps_what_it_could_not_reach() {
    let mut state = SharedState::new();
    for id in ["reached", "gone", "stuck"] {
        state.set_baseline(&id.to_string(), baseline(0.9, 0.45, NOW));
    }
    state.mark_migrated(&"x".to_string());
    state.add_ducker(ducker("20:0", 20, NOW, 0.5));
    let sessions = vec![
        session("reached", 2, 0.45),
        session("reached", 3, 0.999),
        session("stuck", 4, 0.45),
        session("stuck", 5, 0.45),
        session("stranger", 6, 0.1),
    ];
    let plan = AudioDucker::plan_restore_all_to_full(&sessions);
    assert_eq!(plan, vec![true, false, true, true, true]);
    let succeeded = vec![true, false, true, false, true];
    let (raised, state) = AudioDucker::restore_all_to_full(&sessions, &succeeded, state, true);
    assert_eq!(raised, 3);
    let state = state.expect("a record to publish");
    assert!(state.baseline(&"reached".to_string()).is_none());
    assert_eq!(state.baseline(&"gone".to_string()), Some(baseline(0.9, 0.45, NOW)));
    assert_eq!(state.baseline(&"stuck".to_string()), Some(baseline(0.9, 0.45, NOW)));
    assert!(state.migrated().is_empty());
    assert_eq!(state.duckers().len(), 1);
}

#[test]
fn emergency_repair_does_not_replace_an_unreadable_record() {
    let sessions = vec![session("app", 2, 0.45)];
    let (raised, state) =
        AudioDucker::restore_all_to_full(&sessions, &vec![true], SharedState::new(), false);
    assert_eq!(raised, 1);
    assert!(state.is_none());
}
