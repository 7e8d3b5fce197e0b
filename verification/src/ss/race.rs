//! Attempts raced against each other: hedged, retried, and within a budget.
//!
//! One attempt starts at once. When the hedge delay is over, a second one is raced
//! alongside it. Whenever an attempt fails, a fresh one is started, as long as the budget
//! allows. The first success wins; the race is lost when the budget is spent and every
//! attempt has failed.
use vstd::prelude::*;

verus! {

/// A race in progress.
#[derive(Debug)]
pub struct Race {
    max_attempts: usize,
    launched: usize,
    in_flight: usize,
    hedge_armed: bool,
}

pub struct RaceView {
    /// The budget: how many attempts may be started.
    pub max_attempts: nat,
    /// How many were started.
    pub launched: nat,
    /// How many of those have not finished.
    pub in_flight: nat,
    /// The hedge delay is not over.
    pub hedge_armed: bool,
}

/// What follows when an attempt has finished.
#[derive(Debug)]
pub enum RaceStep<T, E> {
    /// Start a fresh attempt.
    Launch,
    /// Wait for those in flight.
    Wait,
    /// The race is over: this attempt succeeded.
    Won(T),
    /// The race is over: every attempt failed, this one last.
    Lost(E),
}

impl View for Race {
    type V = RaceView;

    closed spec fn view(&self) -> RaceView {
        RaceView {
            max_attempts: self.max_attempts as nat,
            launched: self.launched as nat,
            in_flight: self.in_flight as nat,
            hedge_armed: self.hedge_armed,
        }
    }
}

/// The budget that a race has: at least one attempt.
pub open spec fn budget(max_attempts: nat) -> nat {
    if max_attempts == 0 {
        1
    } else {
        max_attempts
    }
}

/// The race with its first attempt started.
pub open spec fn begun(max_attempts: nat) -> RaceView {
    RaceView {
        max_attempts: budget(max_attempts),
        launched: 1,
        in_flight: 1,
        hedge_armed: true,
    }
}

impl RaceView {
    /// The counts fit together: while the budget is not spent, an attempt is in flight.
    pub open spec fn wf(self) -> bool {
        &&& 1 <= self.launched <= self.max_attempts
        &&& self.in_flight <= self.launched
        &&& self.launched < self.max_attempts ==> self.in_flight > 0
    }

    /// Another attempt may be started.
    pub open spec fn has_budget(self) -> bool {
        self.launched < self.max_attempts
    }

    /// The race when the hedge delay is over.
    pub open spec fn hedged(self) -> Self {
        if self.hedge_armed && self.has_budget() {
            RaceView {
                launched: self.launched + 1,
                in_flight: self.in_flight + 1,
                hedge_armed: false,
                ..self
            }
        } else {
            RaceView { hedge_armed: false, ..self }
        }
    }

    /// The race when an attempt has failed, and a fresh one was started if the budget
    /// allowed it.
    pub open spec fn failed(self) -> Self {
        if self.has_budget() {
            RaceView { launched: self.launched + 1, ..self }
        } else {
            RaceView { in_flight: (self.in_flight - 1) as nat, ..self }
        }
    }

    /// What follows when an attempt has finished.
    pub open spec fn step<T, E>(self, result: Result<T, E>) -> RaceStep<T, E> {
        match result {
            Ok(value) => RaceStep::Won(value),
            Err(err) => if self.has_budget() {
                RaceStep::Launch
            } else if self.in_flight > 1 {
                RaceStep::Wait
            } else {
                RaceStep::Lost(err)
            },
        }
    }
}

impl Race {
    /// Begins a race. One attempt is to be started with it.
    pub fn new(max_attempts: usize) -> (race: Self)
        ensures
            race@.wf(),
            race@ == begun(max_attempts as nat),
    {
        let max_attempts: usize = if max_attempts == 0 {
            1
        } else {
            max_attempts
        };
        Race { max_attempts, launched: 1, in_flight: 1, hedge_armed: true }
    }

    /// Whether the hedge delay is still to be waited for.
    pub fn hedge_armed(&self) -> (res: bool)
        ensures
            res == self@.hedge_armed,
    {
        self.hedge_armed
    }

    /// How many attempts were started.
    pub fn launched(&self) -> (res: usize)
        ensures
            res == self@.launched,
    {
        self.launched
    }

    /// How many attempts have not finished.
    pub fn in_flight(&self) -> (res: usize)
        ensures
            res == self@.in_flight,
    {
        self.in_flight
    }

    /// The hedge delay is over. Returns whether another attempt is to be started.
    pub fn hedge_due(&mut self) -> (launch: bool)
        requires
            old(self)@.wf(),
        ensures
            final(self)@.wf(),
            final(self)@ == old(self)@.hedged(),
            launch == (old(self)@.hedge_armed && old(self)@.has_budget()),
    {
        let launch = self.hedge_armed && self.launched < self.max_attempts;
        self.hedge_armed = false;
        if launch {
            self.launched = self.launched + 1;
            self.in_flight = self.in_flight + 1;
        }
        launch
    }

    /// An attempt has finished. Returns what follows; after a success nothing counts any
    /// more, so nothing is counted.
    pub fn finished<T, E>(&mut self, result: Result<T, E>) -> (step: RaceStep<T, E>)
        requires
            old(self)@.wf(),
            old(self)@.in_flight > 0,
        ensures
            final(self)@.wf(),
            step == old(self)@.step(result),
            final(self)@ == (if result is Ok {
                old(self)@
            } else {
                old(self)@.failed()
            }),
    {
        match result {
            Ok(value) => RaceStep::Won(value),
            Err(err) => {
                if self.launched < self.max_attempts {
                    self.launched = self.launched + 1;
                    RaceStep::Launch
                } else {
                    self.in_flight = self.in_flight - 1;
                    if self.in_flight > 0 {
                        RaceStep::Wait
                    } else {
                        RaceStep::Lost(err)
                    }
                }
            },
        }
    }
}

// ---------------------------------------------------------------------------
// Laws
// ---------------------------------------------------------------------------

/// What can happen to a race that goes on.
pub enum RaceEvent {
    HedgeDue,
    Failed,
}

/// A race after some events.
pub open spec fn after(max_attempts: nat, events: Seq<RaceEvent>) -> RaceView
    decreases events.len(),
{
    if events.len() == 0 {
        begun(max_attempts)
    } else {
        let before = after(max_attempts, events.drop_last());
        match events.last() {
            RaceEvent::HedgeDue => before.hedged(),
            RaceEvent::Failed => before.failed(),
        }
    }
}

/// Only what is in flight fails.
pub open spec fn possible(max_attempts: nat, events: Seq<RaceEvent>) -> bool
    decreases events.len(),
{
    events.len() > 0 ==> {
        &&& possible(max_attempts, events.drop_last())
        &&& events.last() is Failed ==> after(max_attempts, events.drop_last()).in_flight > 0
    }
}

/// How many of the events are failures.
pub open spec fn failures(events: Seq<RaceEvent>) -> nat
    decreases events.len(),
{
    if events.len() == 0 {
        0
    } else {
        failures(events.drop_last()) + if events.last() is Failed {
            1nat
        } else {
            0nat
        }
    }
}

/// Whatever happens, no more attempts are started than the budget has, and none is in
/// flight exactly when as many have failed as the budget has.
pub proof fn law_budget_is_kept(max_attempts: nat, events: Seq<RaceEvent>)
    requires
        possible(max_attempts, events),
    ensures
        ({
            let r = after(max_attempts, events);
            &&& r.wf()
            &&& r.max_attempts == budget(max_attempts)
            &&& r.launched == r.in_flight + failures(events)
            &&& r.in_flight == 0 <==> failures(events) == budget(max_attempts)
        }),
    decreases events.len(),
{
    if events.len() > 0 {
        law_budget_is_kept(max_attempts, events.drop_last());
    }
}

/// A race is lost exactly when the failure is the last one that the budget allows, with
/// the error of that failure; a success wins it at any time.
pub proof fn law_race_is_decided<T, E>(
    max_attempts: nat,
    events: Seq<RaceEvent>,
    result: Result<T, E>,
)
    requires
        possible(max_attempts, events),
        after(max_attempts, events).in_flight > 0,
    ensures
        match result {
            Ok(value) => after(max_attempts, events).step(result) == RaceStep::<T, E>::Won(value),
            Err(err) => if failures(events) + 1 == budget(max_attempts) {
                after(max_attempts, events).step(result) == RaceStep::<T, E>::Lost(err)
            } else {
                !(after(max_attempts, events).step(result) is Lost || after(
                    max_attempts,
                    events,
                ).step(result) is Won)
            },
        },
{
    law_budget_is_kept(max_attempts, events);
}

/// While the budget is not spent, a failure is followed by a fresh attempt, and so is the
/// end of the hedge delay.
pub proof fn law_attempts_are_replaced(r: RaceView)
    requires
        r.wf(),
        r.has_budget(),
    ensures
        r.failed().launched == r.launched + 1,
        r.failed().in_flight == r.in_flight,
        r.hedge_armed ==> r.hedged().launched == r.launched + 1 && r.hedged().in_flight
            == r.in_flight + 1,
        !r.hedge_armed ==> r.hedged() == r,
{
}

/// What a race has before it: it goes down with every failure and with the end of the
/// hedge delay, so every race ends.
pub open spec fn ahead(r: RaceView) -> nat {
    (2 * (r.max_attempts - r.launched) + r.in_flight + if r.hedge_armed {
        1int
    } else {
        0int
    }) as nat
}

/// Every race ends.
pub proof fn law_race_ends(r: RaceView)
    requires
        r.wf(),
    ensures
        r.in_flight > 0 ==> ahead(r.failed()) < ahead(r),
        r.hedge_armed ==> ahead(r.hedged()) < ahead(r),
{
}

/// A race begins with one attempt in flight, with the hedge to come, and with the budget it
/// was given, which is one attempt where it was given none.
pub proof fn law_race_begins(max_attempts: nat)
    ensures
        begun(max_attempts).launched == 1,
        begun(max_attempts).in_flight == 1,
        begun(max_attempts).hedge_armed,
        max_attempts > 0 ==> begun(max_attempts).max_attempts == max_attempts,
        max_attempts == 0 ==> begun(max_attempts).max_attempts == 1,
{
}

/// What is told after a failure is what is counted: an attempt is to be started exactly when
/// one more counts as started, and the race is waited for exactly when there are fewer
/// attempts in flight and still some. Neither the budget nor the hedge is touched by a
/// failure, and the hedge comes once.
pub proof fn law_steps_are_counted<T, E>(r: RaceView, err: E)
    requires
        r.wf(),
        r.in_flight > 0,
    ensures
        r.step(Err::<T, E>(err)) is Launch <==> r.launched < r.max_attempts,
        r.step(Err::<T, E>(err)) is Wait <==> r.launched == r.max_attempts && r.in_flight > 1,
        r.launched < r.max_attempts ==> r.failed().launched == r.launched + 1
            && r.failed().in_flight == r.in_flight,
        r.launched == r.max_attempts ==> r.failed().launched == r.launched
            && r.failed().in_flight == r.in_flight - 1,
        r.failed().max_attempts == r.max_attempts,
        r.failed().hedge_armed == r.hedge_armed,
        r.hedged().max_attempts == r.max_attempts,
        !r.hedged().hedge_armed,
        !r.hedge_armed || r.launched == r.max_attempts ==> r.hedged().launched == r.launched
            && r.hedged().in_flight == r.in_flight,
{
}

} // verus!
