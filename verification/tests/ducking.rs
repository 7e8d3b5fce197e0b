use speakstream::audio_ducking::coordination::{
    after_lock_try, state_dir, tail, InstanceNames, LockStep, StateDir, LOCK_WAIT_MS,
};
use speakstream::audio_ducking::guardian::{tick_ms, Ask, Guardian};
use speakstream::audio_ducking::{AudioDucker, Request};
use speakstream::single::Single;

fn single(x: f32) -> Single {
    Single::from_bits(x.to_bits())
}

fn value(x: Single) -> f32 {
    f32::from_bits(x.to_bits())
}

fn ducker(level: Option<f32>) -> AudioDucker {
    let mut names = InstanceNames::new(77);
    AudioDucker::new(level.map(single), names.generate_instance_id())
}

#[test]
fn disabled_ducker_is_inert() {
    let mut d = ducker(None);
    assert!(d.duck().is_none());
    assert!(!d.is_ducked());
    assert!(d.restore().is_none());
    assert!(!d.is_ducked());
}

#[test]
fn duck_and_restore_are_idempotent() {
    let mut d = ducker(Some(0.5));
    assert!(!d.is_ducked());
    assert!(d.duck().is_some());
    assert!(d.is_ducked());
    assert!(d.duck().is_none());
    assert!(d.is_ducked());
    assert!(d.restore().is_some());
    assert!(!d.is_ducked());
    assert!(d.restore().is_none());
    assert!(!d.is_ducked());
}

#[test]
fn restore_force_clears_state() {
    let mut d = ducker(Some(0.5));
    d.duck();
    assert!(d.is_ducked());
    assert!(d.restore_force().is_some());
    assert!(!d.is_ducked());
    assert!(d.restore_force().is_none());
    assert!(!d.is_ducked());
}

#[test]
fn ratio_is_clamped() {
    let mut d = ducker(Some(5.0));
    assert!((value(d.get_duck_ratio()) - 1.0).abs() < f32::EPSILON);
    d.set_duck_ratio(single(-2.0));
    assert!((value(d.get_duck_ratio()) - 0.0).abs() < f32::EPSILON);
}

#[test]
fn requests_say_how_long_to_wait() {
    let mut d = ducker(Some(0.5));
    assert_eq!(
        d.duck(),
        Some(Request { ask: Ask::Duck(single(0.5)), wait_ms: 300, insist: false })
    );
    assert_eq!(
        d.set_duck_ratio(single(0.25)),
        Some(Request { ask: Ask::Retune(single(0.25)), wait_ms: 0, insist: false })
    );
    let release = Some(Request { ask: Ask::Release, wait_ms: 1500, insist: true });
    assert_eq!(d.restore(), release);
    assert_eq!(d.leave(true), release);
    assert_eq!(d.leave(false), None);
}

#[test]
fn turning_off_restores() {
    let mut d = ducker(Some(0.5));
    d.duck();
    assert_eq!(d.set_enabled(false).map(|r| r.ask), Some(Ask::Release));
    assert!(!d.is_ducked());
    assert!(!d.is_enabled());
    assert!(d.set_enabled(false).is_none());
    assert!(d.set_enabled(true).is_none());
    assert!(d.is_enabled());
}

#[test]
fn instance_ids_are_unique() {
    let mut names = InstanceNames::new(1234);
    let first = names.generate_instance_id();
    let second = names.generate_instance_id();
    assert_ne!(first, second);
    assert_eq!(first, "1234:0");
    assert_eq!(second, "1234:1");
    assert_ne!(InstanceNames::new(1).generate_instance_id(), InstanceNames::new(2).generate_instance_id());
}

#[test]
fn guardian_stays_in_step() {
    let mut g = Guardian::new();
    let mut d = ducker(Some(0.5));
    let id = d.instance_id().clone();
    assert_eq!(id, "77:0");
    let request = d.duck().expect("a request");
    g.request(&id, request.ask);
    assert!(g.is_registered(&id));
    let request = d.set_duck_ratio(single(0.2)).expect("a request");
    g.request(&id, request.ask);
    let (local, _) = g.begin_pass();
    assert_eq!(local, vec![(id.clone(), single(0.2))]);
    let request = d.restore().expect("a request");
    g.request(&id, request.ask);
    assert!(!g.is_registered(&id));
    // A ratio alone registers nobody.
    let request = d.set_duck_ratio(single(0.9)).expect("a request");
    g.request(&id, request.ask);
    assert!(g.begin_pass().0.is_empty());
}

#[test]
fn a_pass_is_credited_with_what_it_saw() {
    let mut g = Guardian::new();
    let a = "1:0".to_string();
    let first = g.request(&a, Ask::Duck(single(0.5)));
    assert!(!g.is_serviced(first));
    let (local, target) = g.begin_pass();
    assert_eq!(local.len(), 1);
    // A request that comes while the pass runs.
    let second = g.request(&a, Ask::Release);
    assert!(!g.may_sleep(target));
    g.finish_pass(target);
    assert!(g.is_serviced(first));
    assert!(!g.is_serviced(second));
    let (local, target) = g.begin_pass();
    assert!(local.is_empty());
    assert!(g.may_sleep(target));
    g.finish_pass(target);
    assert!(g.is_serviced(second));
    // An older pass that ends late takes nothing back.
    g.finish_pass(first);
    assert!(g.is_serviced(second));
}

#[test]
fn the_guardian_ticks_faster_while_there_is_work() {
    assert_eq!(tick_ms(true), 150);
    assert_eq!(tick_ms(false), 2000);
}

#[test]
fn the_lock_is_tried_until_the_time_is_up() {
    assert_eq!(after_lock_try(true, 0, LOCK_WAIT_MS), LockStep::Held);
    assert_eq!(after_lock_try(true, 9999, LOCK_WAIT_MS), LockStep::Held);
    assert_eq!(after_lock_try(false, 0, LOCK_WAIT_MS), LockStep::RetryAfter(5));
    assert_eq!(after_lock_try(false, 749, LOCK_WAIT_MS), LockStep::RetryAfter(5));
    assert_eq!(after_lock_try(false, 750, LOCK_WAIT_MS), LockStep::GiveUp);
}

#[test]
fn the_state_is_kept_out_of_the_temporary_files() {
    assert_eq!(state_dir(true, true), StateDir::Custom);
    assert_eq!(state_dir(true, false), StateDir::Custom);
    assert_eq!(state_dir(false, true), StateDir::UnderLocalData);
    assert_eq!(state_dir(false, false), StateDir::UnderTemp);
}

#[test]
fn the_tail_of_an_identifier() {
    assert_eq!(tail(r"{0.0.0.00000000}.{guid}|\Device\Program Files\A B\app.exe%b{0}"), "app.exe%b{0}");
    assert_eq!(tail("no backslash"), "no backslash");
    assert_eq!(tail(r"ends\"), "");
    assert_eq!(tail(""), "");
}

#[test]
fn singles_compare_as_numbers() {
    let values = [
        0.0, -0.0, 1.0, -1.0, 0.5, 0.004, 0.996, 1.5, -2.0, 1e-42, -1e-42, f32::MAX, f32::MIN,
        f32::INFINITY, f32::NEG_INFINITY, f32::NAN,
    ];
    for a in values {
        assert_eq!(single(a).is_finite(), a.is_finite());
        let clamped = value(single(a).clamp_unit());
        if a.is_nan() {
            assert!(clamped.is_nan());
        } else {
            assert_eq!(clamped, a.clamp(0.0, 1.0));
        }
        for b in values {
            assert_eq!(single(a).is_less(single(b)), a < b, "{} {}", a, b);
            for (ours, theirs) in [
                (single(a).max(single(b)), a.max(b)),
                (single(a).min(single(b)), a.min(b)),
            ] {
                if theirs.is_nan() {
                    assert!(value(ours).is_nan());
                } else {
                    assert_eq!(value(ours), theirs, "{} {}", a, b);
                }
            }
        }
    }
    assert_eq!(value(Single::zero()), 0.0);
    assert_eq!(value(Single::one()), 1.0);
    assert_eq!(value(Single::neg_infinity()), f32::NEG_INFINITY);
}
