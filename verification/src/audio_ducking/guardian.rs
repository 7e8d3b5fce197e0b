//! The guardian's bookkeeping: which instances in this process ask for ducking, and which
//! of their requests a pass has carried out.
//!
//! Requests are counted. A pass is credited with those that had been made when it began,
//! and with no later one: a pass in flight took its list of instances before they were
//! made. The counters may wrap around; a request is carried out when the credited count
//! is not behind the request's own.
use vstd::prelude::*;

use crate::audio_ducking::named;
use crate::audio_ducking::named::Named;
use crate::single::Single;

verus! {

/// The time between two passes while something is ducked or owed, in milliseconds.
pub const TICK_ACTIVE_MS: u64 = 150;

/// The time between two passes while there is nothing to do, in milliseconds.
pub const TICK_IDLE_MS: u64 = 2_000;

/// Half of the counters' range.
pub const HALF_RANGE: u64 = 0x7fff_ffff_ffff_ffff;

/// What an instance asks of the guardian.
#[derive(Clone, Copy, Debug, PartialEq, Eq, Structural)]
pub enum Ask {
    /// Duck, to this ratio.
    Duck(Single),
    /// Duck no more.
    Release,
    /// If you duck for this instance, then to this ratio from now on.
    Retune(Single),
}

/// The instances that ask for ducking, after one of them has asked for something.
pub open spec fn asked(
    local: Map<Seq<char>, Single>,
    instance: Seq<char>,
    ask: Ask,
) -> Map<Seq<char>, Single> {
    match ask {
        Ask::Duck(ratio) => local.insert(instance, ratio),
        Ask::Release => local.remove(instance),
        Ask::Retune(ratio) => if local.contains_key(instance) {
            local.insert(instance, ratio)
        } else {
            local
        },
    }
}

/// The counter `a` is behind the counter `b`, going round the range.
pub open spec fn behind(a: u64, b: u64) -> bool {
    (if a >= b {
        a - b
    } else {
        a - b + u64::MAX + 1
    }) > HALF_RANGE
}

fn is_behind(a: u64, b: u64) -> (res: bool)
    ensures
        res == behind(a, b),
{
    a.wrapping_sub(b) > HALF_RANGE
}

/// The bookkeeping of the guardian in this process.
#[derive(Debug)]
pub struct Guardian {
    local: Named<Single>,
    requested: u64,
    serviced: u64,
}

#[verifier::ext_equal]
pub struct GuardianView {
    /// The instances in this process that ask for ducking, each with its ratio.
    pub local: Map<Seq<char>, Single>,
    /// How many requests were made.
    pub requested: u64,
    /// How many of them a completed pass had seen when it began.
    pub serviced: u64,
}

impl GuardianView {
    /// Nobody has asked for anything.
    pub open spec fn idle() -> Self {
        GuardianView { local: Map::empty(), requested: 0, serviced: 0 }
    }

    /// A request is made.
    pub open spec fn with_request(self, instance: Seq<char>, ask: Ask) -> Self {
        GuardianView {
            local: asked(self.local, instance, ask),
            requested: self.requested.wrapping_add(1),
            ..self
        }
    }

    /// A pass is completed that began when `target` requests had been made.
    pub open spec fn with_pass(self, target: u64) -> Self {
        GuardianView {
            serviced: if behind(self.serviced, target) {
                target
            } else {
                self.serviced
            },
            ..self
        }
    }

    /// The request after which `want` requests had been made is carried out.
    pub open spec fn has_serviced(self, want: u64) -> bool {
        !behind(self.serviced, want)
    }
}

impl View for Guardian {
    type V = GuardianView;

    closed spec fn view(&self) -> GuardianView {
        GuardianView { local: self.local@, requested: self.requested, serviced: self.serviced }
    }
}

impl Guardian {
    pub closed spec fn wf(&self) -> bool {
        self.local.wf()
    }

    pub fn new() -> (g: Self)
        ensures
            g.wf(),
            g@ == GuardianView::idle(),
    {
        Guardian { local: Named::new(), requested: 0, serviced: 0 }
    }

    /// Makes a request. Returns the count by which [`Guardian::is_serviced`] finds it.
    pub fn request(&mut self, instance: &String, ask: Ask) -> (want: u64)
        requires
            old(self).wf(),
        ensures
            final(self).wf(),
            final(self)@ == old(self)@.with_request(instance@, ask),
            want == final(self)@.requested,
    {
        match ask {
            Ask::Duck(ratio) => {
                self.local.set(instance, ratio);
            },
            Ask::Release => {
                self.local.remove(instance);
            },
            Ask::Retune(ratio) => {
                if self.local.contains(instance) {
                    self.local.set(instance, ratio);
                }
            },
        }
        self.requested = self.requested.wrapping_add(1);
        self.requested
    }

    /// Whether the request with this count is carried out.
    pub fn is_serviced(&self, want: u64) -> (res: bool)
        ensures
            res == self@.has_serviced(want),
    {
        !is_behind(self.serviced, want)
    }

    /// What a pass begins with: the instances that ask for ducking, and the number of
    /// requests that it will be credited with.
    pub fn begin_pass(&self) -> (res: (Vec<(String, Single)>, u64))
        requires
            self.wf(),
        ensures
            named::lists_entries(res.0@, self@.local),
            res.1 == self@.requested,
    {
        let entries = self.local.entries();
        let mut list: Vec<(String, Single)> = Vec::new();
        let mut i: usize = 0;
        while i < entries.len()
            invariant
                i <= entries.len(),
                list.len() == i,
                forall|j: int|
                    0 <= j < i ==> (#[trigger] list@[j]).0@ == entries@[j].0@ && list@[j].1
                        == entries@[j].1,
            decreases entries.len() - i,
        {
            list.push((entries[i].0.clone(), entries[i].1));
            i += 1;
        }
        assert forall|id: Seq<char>| #[trigger]
            self@.local.contains_key(id) implies named::is_listed(
            list@,
            id,
        ) by {
            assert(named::is_listed(entries@, id));
            let j = choose|j: int| 0 <= j < entries.len() && (#[trigger] entries@[j]).0@ == id;
            assert(list@[j].0@ == id);
        }
        (list, self.requested)
    }

    /// A pass is completed that began with `target`.
    pub fn finish_pass(&mut self, target: u64)
        requires
            old(self).wf(),
        ensures
            final(self).wf(),
            final(self)@ == old(self)@.with_pass(target),
    {
        if is_behind(self.serviced, target) {
            self.serviced = target;
        }
    }

    /// Whether nothing was asked since the pass began that started with `target`; if
    /// something was, the next pass begins at once.
    pub fn may_sleep(&self, target: u64) -> (res: bool)
        ensures
            res == (self@.requested == target),
    {
        self.requested == target
    }

    /// Whether an instance asks for ducking.
    pub fn is_registered(&self, instance: &String) -> (res: bool)
        requires
            self.wf(),
        ensures
            res == self@.local.contains_key(instance@),
    {
        self.local.contains(instance)
    }
}

/// How long to wait before the next pass.
pub fn tick_ms(active: bool) -> (ms: u64)
    ensures
        ms == (if active {
            TICK_ACTIVE_MS
        } else {
            TICK_IDLE_MS
        }),
{
    if active {
        TICK_ACTIVE_MS
    } else {
        TICK_IDLE_MS
    }
}

// ---------------------------------------------------------------------------
// Laws
// ---------------------------------------------------------------------------

/// What happens to a guardian.
pub enum GuardianEvent {
    /// An instance asks for something.
    Request(Seq<char>, Ask),
    /// A pass begins.
    Begin,
    /// The pass is completed that began with the event of this number.
    Finish(int),
}

/// Every pass that is completed began before.
pub open spec fn sound(events: Seq<GuardianEvent>) -> bool {
    forall|j: int|
        0 <= j < events.len() ==> match #[trigger] events[j] {
            GuardianEvent::Finish(b) => 0 <= b < j && events[b] is Begin,
            _ => true,
        }
}

/// The guardian after some events.
pub open spec fn after(events: Seq<GuardianEvent>) -> GuardianView
    decreases events.len(),
{
    if events.len() == 0 {
        GuardianView::idle()
    } else {
        let before = after(events.drop_last());
        match events.last() {
            GuardianEvent::Request(instance, ask) => before.with_request(instance, ask),
            GuardianEvent::Begin => before,
            GuardianEvent::Finish(b) => if 0 <= b < events.len() {
                before.with_pass(after(events.take(b)).requested)
            } else {
                before
            },
        }
    }
}

/// How many of the events are requests.
pub open spec fn requests(events: Seq<GuardianEvent>) -> nat
    decreases events.len(),
{
    if events.len() == 0 {
        0
    } else {
        requests(events.drop_last()) + if events.last() is Request {
            1nat
        } else {
            0nat
        }
    }
}

proof fn lemma_requests_grow(events: Seq<GuardianEvent>, i: int, j: int)
    requires
        0 <= i <= j <= events.len(),
    ensures
        requests(events.take(i)) <= requests(events.take(j)),
    decreases j - i,
{
    if i < j {
        lemma_requests_grow(events, i, j - 1);
        assert(events.take(j).drop_last() == events.take(j - 1));
    }
}

proof fn lemma_prefix_is_sound(events: Seq<GuardianEvent>, n: int)
    requires
        sound(events),
        0 <= n <= events.len(),
    ensures
        sound(events.take(n)),
{
    let prefix = events.take(n);
    assert forall|j: int| 0 <= j < prefix.len() implies match #[trigger] prefix[j] {
        GuardianEvent::Finish(b) => 0 <= b < j && prefix[b] is Begin,
        _ => true,
    } by {
        assert(prefix[j] == events[j]);
    }
}

/// The counters count, as long as they do not wrap around, and what is credited is what
/// some completed pass had seen when it began.
proof fn lemma_counters(events: Seq<GuardianEvent>) -> (pass: int)
    requires
        sound(events),
        requests(events) <= HALF_RANGE,
    ensures
        after(events).requested == requests(events),
        after(events).serviced <= requests(events),
        after(events).serviced > 0 ==> {
            &&& 0 <= pass < events.len()
            &&& events[pass] is Finish
            &&& after(events).serviced == requests(events.take(events[pass]->Finish_0))
        },
        forall|j: int|
            0 <= j < events.len() && (#[trigger] events[j]) is Finish ==> requests(
                events.take(events[j]->Finish_0),
            ) <= after(events).serviced,
    decreases events.len(),
{
    if events.len() == 0 {
        0
    } else {
        let n = events.len() - 1;
        let rest = events.drop_last();
        assert(rest == events.take(n));
        lemma_prefix_is_sound(events, n);
        let pass = lemma_counters(rest);
        assert forall|j: int| 0 <= j < rest.len() && (#[trigger] rest[j]) is Finish implies rest.take(
            rest[j]->Finish_0,
        ) == events.take(events[j]->Finish_0) by {
            assert(rest[j] == events[j]);
        }
        assert(events.take(events.len() as int) == events);
        if let GuardianEvent::Finish(b) = events[n] {
            let begun = events.take(b);
            lemma_prefix_is_sound(events, b);
            lemma_requests_grow(events, b, events.len() as int);
            lemma_counters(begun);
            let target = after(begun).requested;
            assert(target == requests(begun));
            assert forall|j: int| 0 <= j < events.len() && (#[trigger] events[j]) is Finish implies requests(
                events.take(events[j]->Finish_0),
            ) <= after(events).serviced by {
                if j < n {
                    assert(rest[j] == events[j]);
                }
            }
            if behind(after(rest).serviced, target) {
                n
            } else {
                assert(after(rest).serviced > 0 ==> rest[pass] == events[pass]);
                pass
            }
        } else {
            assert forall|j: int| 0 <= j < events.len() && (#[trigger] events[j]) is Finish implies requests(
                events.take(events[j]->Finish_0),
            ) <= after(events).serviced by {
                assert(j < n);
                assert(rest[j] == events[j]);
            }
            assert(after(rest).serviced > 0 ==> rest[pass] == events[pass]);
            pass
        }
    }
}

/// A pass is credited only with what it has seen: where a request counts as carried out,
/// a pass is completed that began after the request was made. And once such a pass is
/// completed, the request does count as carried out.
pub proof fn law_credited_pass_saw_the_request(events: Seq<GuardianEvent>, k: int)
    requires
        sound(events),
        requests(events) <= HALF_RANGE,
        0 <= k < events.len(),
        events[k] is Request,
    ensures
        after(events).has_serviced(after(events.take(k + 1)).requested) <==> exists|j: int|
            0 <= j < events.len() && (#[trigger] events[j]) is Finish && k < events[j]->Finish_0,
{
    let made = events.take(k + 1);
    lemma_prefix_is_sound(events, k + 1);
    assert(events.take(events.len() as int) == events);
    lemma_requests_grow(events, k + 1, events.len() as int);
    lemma_counters(made);
    let pass = lemma_counters(events);
    let want = requests(made);
    assert(made.drop_last() == events.take(k));
    if after(events).serviced >= want {
        let b = events[pass]->Finish_0;
        if b <= k {
            lemma_requests_grow(events, b, k);
        }
        assert(events[pass] is Finish && k < b);
    }
    if exists|j: int|
        0 <= j < events.len() && (#[trigger] events[j]) is Finish && k < events[j]->Finish_0 {
        let j = choose|j: int|
            0 <= j < events.len() && (#[trigger] events[j]) is Finish && k < events[j]->Finish_0;
        lemma_requests_grow(events, k + 1, events[j]->Finish_0);
    }
}

/// An instance that was released is not ducked for until it asks again.
pub proof fn law_released_is_forgotten(g: GuardianView, instance: Seq<char>)
    ensures
        !g.with_request(instance, Ask::Release).local.contains_key(instance),
        forall|other: Seq<char>, ask: Ask|
            !g.local.contains_key(instance) && #[trigger] g.with_request(
                other,
                ask,
            ).local.contains_key(instance) ==> other == instance && ask is Duck,
{
}

/// A request changes what it asks for, and nothing else: ducking enters the instance with its
/// ratio, releasing takes it out, and another ratio counts for one that is in. Each request
/// is counted once, and being counted carries nothing out.
pub proof fn law_request_changes_one_instance(
    g: GuardianView,
    instance: Seq<char>,
    ratio: Single,
    other: Seq<char>,
    ask: Ask,
)
    ensures
        g.with_request(instance, Ask::Duck(ratio)).local.contains_key(instance),
        g.with_request(instance, Ask::Duck(ratio)).local[instance] == ratio,
        !g.with_request(instance, Ask::Release).local.contains_key(instance),
        g.with_request(instance, Ask::Retune(ratio)).local.contains_key(instance)
            <==> g.local.contains_key(instance),
        g.local.contains_key(instance) ==> g.with_request(
            instance,
            Ask::Retune(ratio),
        ).local[instance] == ratio,
        other != instance ==> {
            &&& g.with_request(instance, ask).local.contains_key(other) <==> g.local.contains_key(
                other,
            )
            &&& g.local.contains_key(other) ==> g.with_request(instance, ask).local[other]
                == g.local[other]
        },
        g.requested < u64::MAX ==> g.with_request(instance, ask).requested == g.requested + 1,
        g.requested == u64::MAX ==> g.with_request(instance, ask).requested == 0,
        g.with_request(instance, ask).serviced == g.serviced,
{
}

/// The counters go round: which of two is behind depends on the way between them alone. A
/// counter is not behind itself, and is behind all that lie up to half the range ahead.
pub proof fn law_counters_go_round(a: u64, b: u64)
    ensures
        behind(a.wrapping_add(1), b.wrapping_add(1)) == behind(a, b),
        !behind(a, a),
        a < b ==> (behind(a, b) <==> b - a <= 0x8000_0000_0000_0000),
        a > b ==> (behind(a, b) <==> a - b > 0x7fff_ffff_ffff_ffff),
{
}

/// A pass that is completed is credited with the requests it began with, and takes nothing
/// back; it changes neither the instances nor the count of requests.
pub proof fn law_pass_is_credited(g: GuardianView, target: u64)
    ensures
        g.with_pass(target).has_serviced(target),
        g.has_serviced(target) ==> g.with_pass(target) == g,
        !g.has_serviced(target) ==> g.with_pass(target).serviced == target,
        g.with_pass(target).local == g.local,
        g.with_pass(target).requested == g.requested,
        GuardianView::idle().local == Map::<Seq<char>, Single>::empty(),
        GuardianView::idle().requested == 0,
        GuardianView::idle().serviced == 0,
{
}

} // verus!
