use speakstream::ss::race::{Race, RaceStep};

/// Runs a race on a clock that jumps to whatever happens next. `plan` says of each attempt
/// how long it takes, in seconds, and how it ends. Returns how the race ended and how many
/// attempts were started.
fn run(
    plan: &dyn Fn(usize) -> (u64, Result<u32, String>),
    max_attempts: usize,
    hedge_delay: u64,
) -> (Result<u32, String>, usize) {
    let mut race = Race::new(max_attempts);
    let mut started = 0;
    let mut lanes: Vec<(u64, usize)> = Vec::new();
    let launch = |lanes: &mut Vec<(u64, usize)>, started: &mut usize, now: u64| {
        lanes.push((now + plan(*started).0, *started));
        *started += 1;
    };
    let mut now = 0;
    launch(&mut lanes, &mut started, now);
    loop {
        assert_eq!(race.launched(), started);
        assert_eq!(race.in_flight(), lanes.len());
        let next = (0..lanes.len()).min_by_key(|i| lanes[*i]).expect("a lane is in flight");
        let due = lanes[next].0;
        if race.hedge_armed() && hedge_delay <= due {
            now = hedge_delay;
            if race.hedge_due() {
                launch(&mut lanes, &mut started, now);
            }
            continue;
        }
        now = due;
        let (_, number) = lanes.remove(next);
        match race.finished(plan(number).1) {
            RaceStep::Launch => launch(&mut lanes, &mut started, now),
            RaceStep::Wait => {}
            RaceStep::Won(value) => return (Ok(value), started),
            RaceStep::Lost(err) => return (Err(err), started),
        }
    }
}

#[test]
fn first_attempt_succeeds_uses_one_attempt() {
    let (res, attempts) = run(&|_| (0, Ok(42)), 3, 4);
    assert_eq!(res, Ok(42));
    assert_eq!(attempts, 1);
}

#[test]
fn retries_until_success() {
    let plan = |n: usize| {
        if n < 2 {
            (0, Err(format!("fail {n}")))
        } else {
            (0, Ok(7))
        }
    };
    let (res, attempts) = run(&plan, 5, 4);
    assert_eq!(res, Ok(7));
    assert_eq!(attempts, 3);
}

#[test]
fn gives_up_after_max_attempts() {
    let (res, attempts) = run(&|_| (0, Err("always fails".to_string())), 3, 4);
    assert!(res.is_err());
    assert_eq!(attempts, 3);
}

#[test]
fn gives_up_with_the_last_error() {
    let (res, _) = run(&|n| (0, Err(format!("fail {n}"))), 3, 4);
    assert_eq!(res, Err("fail 2".to_string()));
}

#[test]
fn hedges_a_slow_attempt() {
    let plan = |n: usize| if n == 0 { (100, Ok(1)) } else { (0, Ok(2)) };
    let (res, attempts) = run(&plan, 3, 4);
    assert_eq!(res, Ok(2));
    assert_eq!(attempts, 2);
}

#[test]
fn zero_max_attempts_is_clamped() {
    let (res, attempts) = run(&|_| (0, Ok(5)), 0, 4);
    assert_eq!(res, Ok(5));
    assert_eq!(attempts, 1);
}

#[test]
fn a_failed_hedge_is_replaced_while_the_first_is_in_flight() {
    let plan = |n: usize| match n {
        0 => (100, Ok(1)),
        1 => (1, Err("hedge failed".to_string())),
        _ => (1, Ok(3)),
    };
    let (res, attempts) = run(&plan, 3, 4);
    assert_eq!(res, Ok(3));
    assert_eq!(attempts, 3);
}

#[test]
fn the_hedge_comes_once_and_within_the_budget() {
    let mut race = Race::new(2);
    assert!(race.hedge_armed());
    assert!(race.hedge_due());
    assert!(!race.hedge_armed());
    assert!(!race.hedge_due());
    assert_eq!(race.launched(), 2);
    let mut single = Race::new(1);
    assert!(!single.hedge_due());
    assert_eq!(single.launched(), 1);
}

#[test]
fn with_the_budget_spent_the_others_are_waited_for() {
    let mut race = Race::new(2);
    assert!(race.hedge_due());
    assert!(matches!(race.finished::<u32, &str>(Err("one")), RaceStep::Wait));
    assert_eq!(race.in_flight(), 1);
    assert!(matches!(race.finished::<u32, &str>(Err("two")), RaceStep::Lost("two")));
    assert_eq!(race.in_flight(), 0);
}
