//! From a converted sentence to the loudspeaker, and the ticking until then.
//!
//! Three loops do the work: one takes finished conversions, one plays them, one ticks
//! while there is nothing to hear yet. What each of them does next is decided here.
use vstd::prelude::*;

verus! {

/// How long the loops wait before they look again, in milliseconds.
pub const POLL_MS: u64 = 100;

/// How many conversions, and how many converted sentences, may be waiting.
pub const AI_VOICE_SINK_BUFFER_SIZE: usize = 10;

/// What a stream is doing. The loops tell each other.
#[derive(Clone, Copy, Debug, PartialEq, Eq, Structural)]
pub enum SpeakState {
    Idle,
    Converting,
    ConvertingFinished,
    Reset,
    Playing,
}

// ---------------------------------------------------------------------------
// Finished conversions
// ---------------------------------------------------------------------------

/// How a conversion ended. It carries the generation of its sentence.
#[derive(Clone, Copy, Debug, PartialEq, Eq, Structural)]
pub enum Conversion {
    /// It was aborted, or died.
    Aborted,
    Converted(u64),
    Failed(u64),
}

/// What is done with a finished conversion, in order.
#[derive(Clone, Copy, Debug, PartialEq, Eq, Structural)]
pub enum DeliveryStep {
    /// Report that the sentence could not be turned into speech.
    Report,
    /// Hand the speech to the playback.
    Play(u64),
    /// Hand the sound of a failure to the playback.
    PlayFailure(u64),
    /// Count the conversion as finished.
    FinishOne,
    Notify(SpeakState),
}

/// What is done with a finished conversion. `stopped` says that speech was stopped in the
/// meantime: then what was converted is not played.
pub open spec fn delivery(conversion: Conversion, stopped: bool) -> Seq<DeliveryStep> {
    match conversion {
        Conversion::Aborted => seq![
            DeliveryStep::FinishOne,
            DeliveryStep::Notify(SpeakState::ConvertingFinished),
        ],
        Conversion::Converted(generation) => if stopped {
            seq![
                DeliveryStep::FinishOne,
                DeliveryStep::Notify(SpeakState::ConvertingFinished),
            ]
        } else {
            seq![
                DeliveryStep::Play(generation),
                DeliveryStep::FinishOne,
                DeliveryStep::Notify(SpeakState::ConvertingFinished),
            ]
        },
        Conversion::Failed(generation) => seq![
            DeliveryStep::Report,
            DeliveryStep::PlayFailure(generation),
            DeliveryStep::FinishOne,
            DeliveryStep::Notify(SpeakState::ConvertingFinished),
            DeliveryStep::Notify(SpeakState::Idle),
        ],
    }
}

/// Says what to do with a finished conversion.
pub fn deliver(conversion: Conversion, stopped: bool) -> (steps: Vec<DeliveryStep>)
    ensures
        steps@ == delivery(conversion, stopped),
{
    let mut steps: Vec<DeliveryStep> = Vec::new();
    let mut failed = false;
    match conversion {
        Conversion::Aborted => {},
        Conversion::Converted(generation) => {
            if !stopped {
                steps.push(DeliveryStep::Play(generation));
            }
        },
        Conversion::Failed(generation) => {
            failed = true;
            steps.push(DeliveryStep::Report);
            steps.push(DeliveryStep::PlayFailure(generation));
        },
    }
    steps.push(DeliveryStep::FinishOne);
    steps.push(DeliveryStep::Notify(SpeakState::ConvertingFinished));
    if failed {
        steps.push(DeliveryStep::Notify(SpeakState::Idle));
    }
    steps
}

// ---------------------------------------------------------------------------
// Playback
// ---------------------------------------------------------------------------

/// What the playback is handed.
#[derive(Clone, Copy, Debug, PartialEq, Eq, Structural)]
pub enum AudioTask {
    Speech,
    Error,
}

/// What the playback does, in order.
#[derive(Clone, Copy, Debug, PartialEq, Eq, Structural)]
pub enum PlaybackStep {
    Notify(SpeakState),
    /// Open the task's file.
    Open,
    /// Silence what is playing.
    StopSink,
    /// Play the file.
    Append,
    Duck,
    Restore,
    /// Forget the signals to stop that have come.
    DrainStops,
    /// Look whether there is a signal to stop.
    CheckStop,
    Sleep(u64),
    /// Look whether something is still playing.
    Poll,
    /// Take the next task.
    NextTask,
}

/// A task is from before speech was stopped last.
pub open spec fn is_stale(task_generation: u64, generation: u64) -> bool {
    task_generation < generation
}

/// What the playback does with a task, in the current generation. The sound of a failure
/// is played when the others have been ducked; speech begins at once.
pub open spec fn opening(task: AudioTask, task_generation: u64, generation: u64) -> Seq<
    PlaybackStep,
> {
    if is_stale(task_generation, generation) {
        seq![PlaybackStep::NextTask]
    } else {
        match task {
            AudioTask::Speech => seq![
                PlaybackStep::Notify(SpeakState::Playing),
                PlaybackStep::Open,
                PlaybackStep::StopSink,
                PlaybackStep::Append,
                PlaybackStep::Duck,
                PlaybackStep::DrainStops,
                PlaybackStep::Poll,
            ],
            AudioTask::Error => seq![
                PlaybackStep::Notify(SpeakState::Playing),
                PlaybackStep::Open,
                PlaybackStep::StopSink,
                PlaybackStep::Duck,
                PlaybackStep::Append,
                PlaybackStep::DrainStops,
                PlaybackStep::Poll,
            ],
        }
    }
}

/// Says what to do with a task.
pub fn open_task(
    task: AudioTask,
    task_generation: u64,
    generation: u64,
) -> (steps: Vec<PlaybackStep>)
    ensures
        steps@ == opening(task, task_generation, generation),
{
    let mut steps: Vec<PlaybackStep> = Vec::new();
    if task_generation < generation {
        steps.push(PlaybackStep::NextTask);
        return steps;
    }
    steps.push(PlaybackStep::Notify(SpeakState::Playing));
    steps.push(PlaybackStep::Open);
    steps.push(PlaybackStep::StopSink);
    match task {
        AudioTask::Speech => {
            steps.push(PlaybackStep::Append);
            steps.push(PlaybackStep::Duck);
        },
        AudioTask::Error => {
            steps.push(PlaybackStep::Duck);
            steps.push(PlaybackStep::Append);
        },
    }
    steps.push(PlaybackStep::DrainStops);
    steps.push(PlaybackStep::Poll);
    steps
}

/// What the playback does after it has looked whether something is still playing. The
/// others are restored when nothing more is to come.
pub open spec fn polled(sink_empty: bool, pending: nat, queue_empty: bool) -> Seq<PlaybackStep> {
    if !sink_empty {
        seq![PlaybackStep::CheckStop]
    } else if pending == 0 && queue_empty {
        seq![
            PlaybackStep::Restore,
            PlaybackStep::Notify(SpeakState::Idle),
            PlaybackStep::NextTask,
        ]
    } else {
        seq![PlaybackStep::Notify(SpeakState::Idle), PlaybackStep::NextTask]
    }
}

/// Says what to do after a look whether something is still playing.
pub fn after_poll(
    sink_empty: bool,
    pending: usize,
    queue_empty: bool,
) -> (steps: Vec<PlaybackStep>)
    ensures
        steps@ == polled(sink_empty, pending as nat, queue_empty),
{
    let mut steps: Vec<PlaybackStep> = Vec::new();
    if !sink_empty {
        steps.push(PlaybackStep::CheckStop);
        return steps;
    }
    if pending == 0 && queue_empty {
        steps.push(PlaybackStep::Restore);
    }
    steps.push(PlaybackStep::Notify(SpeakState::Idle));
    steps.push(PlaybackStep::NextTask);
    steps
}

/// What the playback does after it has looked for a signal to stop.
pub open spec fn stop_checked(signalled: bool) -> Seq<PlaybackStep> {
    if signalled {
        seq![
            PlaybackStep::DrainStops,
            PlaybackStep::StopSink,
            PlaybackStep::Notify(SpeakState::Idle),
            PlaybackStep::NextTask,
        ]
    } else {
        seq![PlaybackStep::Sleep(POLL_MS), PlaybackStep::Poll]
    }
}

/// Says what to do after a look for a signal to stop.
pub fn after_stop_check(signalled: bool) -> (steps: Vec<PlaybackStep>)
    ensures
        steps@ == stop_checked(signalled),
{
    let mut steps: Vec<PlaybackStep> = Vec::new();
    if signalled {
        steps.push(PlaybackStep::DrainStops);
        steps.push(PlaybackStep::StopSink);
        steps.push(PlaybackStep::Notify(SpeakState::Idle));
        steps.push(PlaybackStep::NextTask);
    } else {
        steps.push(PlaybackStep::Sleep(POLL_MS));
        steps.push(PlaybackStep::Poll);
    }
    steps
}

// ---------------------------------------------------------------------------
// Ticking
// ---------------------------------------------------------------------------

/// What the ticking loop hears.
#[derive(Clone, Copy, Debug, PartialEq, Eq, Structural)]
pub enum TickEvent {
    State(SpeakState),
    /// Nothing, for a while.
    Timeout,
    /// The stream is gone.
    Disconnected,
}

/// What the ticking loop does, in order.
#[derive(Clone, Copy, Debug, PartialEq, Eq, Structural)]
pub enum TickStep {
    /// Silence the tick.
    StopSink,
    /// Tick, unless a tick is still to be heard.
    TickIfSilent,
    Exit,
}

/// The ticking loop's memory: speech is playing.
#[derive(Debug)]
pub struct Ticker {
    playing: bool,
}

impl View for Ticker {
    type V = bool;

    closed spec fn view(&self) -> bool {
        self.playing
    }
}

/// Whether speech is playing, after something was heard.
pub open spec fn playing_after(playing: bool, event: TickEvent) -> bool {
    match event {
        TickEvent::State(SpeakState::Playing) => true,
        TickEvent::State(SpeakState::Idle) => false,
        TickEvent::State(SpeakState::Reset) => false,
        _ => playing,
    }
}

/// What is heard silences the tick.
pub open spec fn silences(event: TickEvent) -> bool {
    match event {
        TickEvent::State(SpeakState::Playing) => true,
        TickEvent::State(SpeakState::Idle) => true,
        TickEvent::State(SpeakState::Reset) => true,
        _ => false,
    }
}

/// What the ticking loop does when it has heard something.
pub open spec fn tick_steps(
    playing: bool,
    event: TickEvent,
    enabled: bool,
    pending: nat,
) -> Seq<TickStep> {
    if event is Disconnected {
        seq![TickStep::Exit]
    } else {
        (if silences(event) {
            seq![TickStep::StopSink]
        } else {
            Seq::<TickStep>::empty()
        }) + if !enabled {
            seq![TickStep::StopSink]
        } else if !playing_after(playing, event) && pending > 0 {
            seq![TickStep::TickIfSilent]
        } else {
            Seq::<TickStep>::empty()
        }
    }
}

impl Ticker {
    pub fn new() -> (ticker: Self)
        ensures
            !ticker@,
    {
        Ticker { playing: false }
    }

    /// Says what to do when something was heard, given whether ticking is on and how many
    /// conversions are pending.
    pub fn hear(&mut self, event: TickEvent, enabled: bool, pending: usize) -> (steps: Vec<TickStep>)
        ensures
            final(self)@ == playing_after(old(self)@, event),
            steps@ == tick_steps(old(self)@, event, enabled, pending as nat),
    {
        let mut steps: Vec<TickStep> = Vec::new();
        match event {
            TickEvent::State(SpeakState::Playing) => {
                self.playing = true;
                steps.push(TickStep::StopSink);
            },
            TickEvent::State(SpeakState::Idle) | TickEvent::State(SpeakState::Reset) => {
                self.playing = false;
                steps.push(TickStep::StopSink);
            },
            TickEvent::State(SpeakState::Converting) => {},
            TickEvent::State(SpeakState::ConvertingFinished) => {},
            TickEvent::Timeout => {},
            TickEvent::Disconnected => {
                steps.push(TickStep::Exit);
                return steps;
            },
        }
        if !enabled {
            steps.push(TickStep::StopSink);
        } else if !self.playing && pending > 0 {
            steps.push(TickStep::TickIfSilent);
        }
        steps
    }
}

// ---------------------------------------------------------------------------
// Laws
// ---------------------------------------------------------------------------

/// A conversion is counted as finished once, and what it gave is handed to the playback
/// before that: whoever finds nothing pending finds everything delivered.
pub proof fn law_delivered_before_finished(conversion: Conversion, stopped: bool, i: int)
    requires
        0 <= i < delivery(conversion, stopped).len(),
        delivery(conversion, stopped)[i] == DeliveryStep::FinishOne,
    ensures
        forall|j: int|
            0 <= j < delivery(conversion, stopped).len() ==> match #[trigger] delivery(
                conversion,
                stopped,
            )[j] {
                DeliveryStep::Play(_) => j < i && !stopped && conversion is Converted,
                DeliveryStep::PlayFailure(_) => j < i && conversion is Failed,
                DeliveryStep::FinishOne => j == i,
                _ => true,
            },
        delivery(conversion, stopped).contains(DeliveryStep::FinishOne),
        delivery(conversion, stopped).contains(DeliveryStep::Notify(SpeakState::ConvertingFinished)),
{
    let steps = delivery(conversion, stopped);
    assert(steps[i + 1] == DeliveryStep::Notify(SpeakState::ConvertingFinished));
}

/// Nothing from before speech was stopped is played or ducked for; whatever belongs to the
/// current generation is.
pub proof fn law_only_current_speech_is_played(
    task: AudioTask,
    task_generation: u64,
    generation: u64,
)
    ensures
        opening(task, task_generation, generation).contains(PlaybackStep::Append) <==>
            task_generation >= generation,
        opening(task, task_generation, generation).contains(PlaybackStep::Duck) <==>
            task_generation >= generation,
{
    let steps = opening(task, task_generation, generation);
    if task_generation >= generation {
        assert(steps[3] == PlaybackStep::Append || steps[4] == PlaybackStep::Append);
        assert(steps[3] == PlaybackStep::Duck || steps[4] == PlaybackStep::Duck);
    }
}

/// Others are restored by the playback exactly when it has fallen silent with nothing more
/// to come; and whenever a task ends, that is told.
pub proof fn law_restored_when_nothing_is_to_come(
    sink_empty: bool,
    pending: nat,
    queue_empty: bool,
)
    ensures
        polled(sink_empty, pending, queue_empty).contains(PlaybackStep::Restore) <==> sink_empty
            && pending == 0 && queue_empty,
        polled(sink_empty, pending, queue_empty).contains(PlaybackStep::NextTask) <==> sink_empty,
        polled(sink_empty, pending, queue_empty).contains(
            PlaybackStep::Notify(SpeakState::Idle),
        ) <==> sink_empty,
{
    let steps = polled(sink_empty, pending, queue_empty);
    if sink_empty {
        assert(steps[steps.len() - 1] == PlaybackStep::NextTask);
        assert(steps[steps.len() - 2] == PlaybackStep::Notify(SpeakState::Idle));
        if pending == 0 && queue_empty {
            assert(steps[0] == PlaybackStep::Restore);
        }
    }
}

/// There is no tick while speech plays, while ticking is off, or while nothing is pending.
pub proof fn law_ticks_only_while_waiting(
    playing: bool,
    event: TickEvent,
    enabled: bool,
    pending: nat,
)
    ensures
        tick_steps(playing, event, enabled, pending).contains(TickStep::TickIfSilent) <==> enabled
            && pending > 0 && !playing_after(playing, event) && !(event is Disconnected),
{
    let steps = tick_steps(playing, event, enabled, pending);
    if enabled && pending > 0 && !playing_after(playing, event) && !(event is Disconnected) {
        assert(steps[steps.len() - 1] == TickStep::TickIfSilent);
    }
}

/// What plays is replaced, never joined: a task is appended once, and only after what was
/// playing before was silenced; and a task that was begun is left only when it has fallen
/// silent or is silenced.
pub proof fn law_one_at_a_time(task: AudioTask, task_generation: u64, generation: u64, i: int)
    requires
        0 <= i < opening(task, task_generation, generation).len(),
        opening(task, task_generation, generation)[i] == PlaybackStep::Append,
    ensures
        opening(task, task_generation, generation).take(i).contains(PlaybackStep::StopSink),
        forall|j: int|
            0 <= j < opening(task, task_generation, generation).len() && #[trigger] opening(
                task,
                task_generation,
                generation,
            )[j] == PlaybackStep::Append ==> j == i,
        forall|pending: nat, queue_empty: bool|
            !#[trigger] polled(false, pending, queue_empty).contains(PlaybackStep::NextTask),
        !stop_checked(false).contains(PlaybackStep::NextTask),
        stop_checked(true).contains(PlaybackStep::StopSink),
{
    let steps = opening(task, task_generation, generation);
    assert(steps.take(i)[2] == PlaybackStep::StopSink);
    assert(stop_checked(true)[1] == PlaybackStep::StopSink);
}

// ---------------------------------------------------------------------------
// The order of playback
// ---------------------------------------------------------------------------

/// `order` picks some of `n` things, each at most once and in their order.
pub open spec fn picks(order: Seq<int>, n: int) -> bool {
    &&& forall|a: int| 0 <= a < order.len() ==> 0 <= #[trigger] order[a] < n
    &&& forall|a: int, b: int|
        0 <= a < b < order.len() ==> #[trigger] order[a] < #[trigger] order[b]
}

/// The task that a step hands to the playback, with its generation.
pub open spec fn handed(step: DeliveryStep) -> Option<(AudioTask, u64)> {
    match step {
        DeliveryStep::Play(generation) => Some((AudioTask::Speech, generation)),
        DeliveryStep::PlayFailure(generation) => Some((AudioTask::Error, generation)),
        _ => None,
    }
}

/// The tasks that some steps hand to the playback, one after the other.
pub open spec fn tasks_of(steps: Seq<DeliveryStep>) -> Seq<(AudioTask, u64)>
    decreases steps.len(),
{
    if steps.len() == 0 {
        Seq::empty()
    } else {
        match handed(steps.last()) {
            Some(task) => tasks_of(steps.drop_last()).push(task),
            None => tasks_of(steps.drop_last()),
        }
    }
}

/// What is done with some conversions, one after the other.
pub open spec fn deliveries(conversions: Seq<Conversion>, stopped: Seq<bool>) -> Seq<DeliveryStep>
    decreases conversions.len(),
{
    if conversions.len() == 0 {
        Seq::empty()
    } else {
        deliveries(conversions.drop_last(), stopped.drop_last()) + delivery(
            conversions.last(),
            stopped.last(),
        )
    }
}

/// The task that a conversion ends in: its speech, or the sound of its failure.
pub open spec fn task_of(conversion: Conversion, stopped: bool) -> Option<(AudioTask, u64)> {
    match conversion {
        Conversion::Aborted => None,
        Conversion::Converted(generation) => if stopped {
            None
        } else {
            Some((AudioTask::Speech, generation))
        },
        Conversion::Failed(generation) => Some((AudioTask::Error, generation)),
    }
}

proof fn lemma_tasks_concat(a: Seq<DeliveryStep>, b: Seq<DeliveryStep>)
    ensures
        tasks_of(a + b) == tasks_of(a) + tasks_of(b),
    decreases b.len(),
{
    if b.len() == 0 {
        assert(a + b == a);
    } else {
        lemma_tasks_concat(a, b.drop_last());
        assert((a + b).drop_last() == a + b.drop_last());
    }
}

proof fn lemma_tasks_of_delivery(conversion: Conversion, stopped: bool)
    ensures
        tasks_of(delivery(conversion, stopped)) == (match task_of(conversion, stopped) {
            Some(task) => seq![task],
            None => Seq::empty(),
        }),
{
    let steps = delivery(conversion, stopped);
    let n = steps.len() as int;
    lemma_tasks_take(steps, n);
    lemma_tasks_take(steps, n - 1);
    if n > 2 {
        lemma_tasks_take(steps, n - 2);
    }
    if n > 3 {
        lemma_tasks_take(steps, n - 3);
        lemma_tasks_take(steps, n - 4);
    }
    assert(steps.take(n) == steps);
    assert(steps.take(0) == Seq::<DeliveryStep>::empty());
}

proof fn lemma_tasks_take(steps: Seq<DeliveryStep>, n: int)
    requires
        0 < n <= steps.len(),
    ensures
        tasks_of(steps.take(n)) == (match handed(steps[n - 1]) {
            Some(task) => tasks_of(steps.take(n - 1)).push(task),
            None => tasks_of(steps.take(n - 1)),
        }),
{
    assert(steps.take(n).drop_last() == steps.take(n - 1));
}

/// Conversions are handed to the playback in their order, each at its own place: those that
/// end in a task give that task, speech or the sound of a failure, and no other does.
pub proof fn law_delivered_in_order(conversions: Seq<Conversion>, stopped: Seq<bool>) -> (order: Seq<
    int,
>)
    requires
        stopped.len() == conversions.len(),
    ensures
        picks(order, conversions.len() as int),
        tasks_of(deliveries(conversions, stopped)).len() == order.len(),
        forall|j: int|
            0 <= j < order.len() ==> task_of(conversions[#[trigger] order[j]], stopped[order[j]])
                == Some(tasks_of(deliveries(conversions, stopped))[j]),
        forall|k: int|
            0 <= k < conversions.len() && task_of(#[trigger] conversions[k], stopped[k]) is Some
                ==> order.contains(k),
    decreases conversions.len(),
{
    if conversions.len() == 0 {
        Seq::empty()
    } else {
        let n = conversions.len() - 1;
        let earlier = conversions.drop_last();
        let flags = stopped.drop_last();
        let before = law_delivered_in_order(earlier, flags);
        lemma_tasks_concat(deliveries(earlier, flags), delivery(conversions[n], stopped[n]));
        lemma_tasks_of_delivery(conversions[n], stopped[n]);
        let order = match task_of(conversions[n], stopped[n]) {
            Some(_) => before.push(n),
            None => before,
        };
        let tasks = tasks_of(deliveries(conversions, stopped));
        assert forall|j: int| 0 <= j < order.len() implies task_of(
            conversions[#[trigger] order[j]],
            stopped[order[j]],
        ) == Some(tasks[j]) by {
            if j < before.len() {
                assert(before[j] == order[j]);
                assert(earlier[order[j]] == conversions[order[j]]);
            }
        }
        assert forall|k: int|
            0 <= k < conversions.len() && task_of(
                #[trigger] conversions[k],
                stopped[k],
            ) is Some implies order.contains(k) by {
            if k < n {
                assert(earlier[k] == conversions[k]);
                assert(before.contains(k));
                let j = choose|j: int| 0 <= j < before.len() && before[j] == k;
                assert(order[j] == k);
            } else {
                assert(order[before.len() as int] == k);
            }
        }
        order
    }
}

/// Which of the tasks that are taken up are played, where `current[j]` is the generation
/// when task `j` is taken up.
pub open spec fn played(tasks: Seq<(AudioTask, u64)>, current: Seq<u64>) -> Seq<int>
    decreases tasks.len(),
{
    if tasks.len() == 0 {
        Seq::empty()
    } else {
        let earlier = played(tasks.drop_last(), current.drop_last());
        if opening(tasks.last().0, tasks.last().1, current.last()).contains(PlaybackStep::Append) {
            earlier.push(tasks.len() - 1)
        } else {
            earlier
        }
    }
}

/// Tasks are played in the order in which they are taken up: those from before speech was
/// stopped last are left out, and only those.
pub proof fn law_current_tasks_are_played_in_order(
    tasks: Seq<(AudioTask, u64)>,
    current: Seq<u64>,
)
    requires
        current.len() == tasks.len(),
    ensures
        picks(played(tasks, current), tasks.len() as int),
        forall|j: int|
            0 <= j < tasks.len() ==> (played(tasks, current).contains(j) <==> !is_stale(
                (#[trigger] tasks[j]).1,
                current[j],
            )),
    decreases tasks.len(),
{
    if tasks.len() > 0 {
        let n = tasks.len() - 1;
        let rest = tasks.drop_last();
        let flags = current.drop_last();
        law_current_tasks_are_played_in_order(rest, flags);
        law_only_current_speech_is_played(tasks[n].0, tasks[n].1, current[n]);
        let earlier = played(rest, flags);
        let all = played(tasks, current);
        assert forall|j: int| 0 <= j < tasks.len() implies (all.contains(j) <==> !is_stale(
            (#[trigger] tasks[j]).1,
            current[j],
        )) by {
            if j < n {
                assert(rest[j] == tasks[j]);
                if earlier.contains(j) {
                    let a = choose|a: int| 0 <= a < earlier.len() && earlier[a] == j;
                    assert(all[a] == j);
                }
                if all.contains(j) {
                    let a = choose|a: int| 0 <= a < all.len() && all[a] == j;
                    assert(earlier[a] == j);
                }
            } else {
                if !is_stale(tasks[n].1, current[n]) {
                    assert(all[earlier.len() as int] == n);
                }
                if all.contains(n) && is_stale(tasks[n].1, current[n]) {
                    let a = choose|a: int| 0 <= a < all.len() && all[a] == n;
                    assert(earlier[a] < n);
                }
            }
        }
    }
}

/// The items that `order` picks.
pub open spec fn picked<A>(items: Seq<A>, order: Seq<int>) -> Seq<A> {
    order.map_values(|k: int| items[k])
}

/// A conversion is of a sentence of this generation.
pub open spec fn is_of(conversion: Conversion, generation: u64) -> bool {
    match conversion {
        Conversion::Aborted => true,
        Conversion::Converted(g) => g == generation,
        Conversion::Failed(g) => g == generation,
    }
}

/// Sentences are played in the order in which they were sent, whatever order their
/// conversions finish in. `sent` are the generations of the sentences; `begun` picks those
/// whose conversion is waited for, in their order, and `taken` those of the tasks handed to
/// the playback that it takes up; the others were dropped when speech was stopped.
///
/// The result lists, for each task that is played, which conversion it comes from. So what
/// is played is a subsequence of what was sent; a sentence that could not be converted is
/// heard as a failure in its place; and nothing stale is played.
pub proof fn law_played_in_order(
    sent: Seq<u64>,
    begun: Seq<int>,
    conversions: Seq<Conversion>,
    stopped: Seq<bool>,
    taken: Seq<int>,
    current: Seq<u64>,
) -> (from: Seq<int>)
    requires
        picks(begun, sent.len() as int),
        conversions.len() == begun.len(),
        stopped.len() == begun.len(),
        forall|k: int|
            0 <= k < begun.len() ==> is_of(#[trigger] conversions[k], sent[begun[k]]),
        picks(taken, tasks_of(deliveries(conversions, stopped)).len() as int),
        current.len() == taken.len(),
    ensures
        ({
            let tasks = picked(tasks_of(deliveries(conversions, stopped)), taken);
            let heard = played(tasks, current);
            &&& from.len() == heard.len()
            &&& picks(from, begun.len() as int)
            &&& picks(picked(begun, from), sent.len() as int)
            &&& forall|j: int|
                0 <= j < from.len() ==> {
                    let k = #[trigger] from[j];
                    &&& task_of(conversions[k], stopped[k]) == Some(tasks[heard[j]])
                    &&& tasks[heard[j]].1 == sent[begun[k]]
                    &&& !is_stale(sent[begun[k]], current[heard[j]])
                }
        }),
{
    let all = tasks_of(deliveries(conversions, stopped));
    let tasks = picked(all, taken);
    let heard = played(tasks, current);
    let order = law_delivered_in_order(conversions, stopped);
    law_current_tasks_are_played_in_order(tasks, current);
    let from = heard.map_values(|h: int| order[taken[h]]);
    assert forall|j: int| 0 <= j < from.len() implies {
        let k = #[trigger] from[j];
        &&& 0 <= k < begun.len()
        &&& task_of(conversions[k], stopped[k]) == Some(tasks[heard[j]])
        &&& tasks[heard[j]].1 == sent[begun[k]]
        &&& !is_stale(sent[begun[k]], current[heard[j]])
    } by {
        let h = heard[j];
        assert(heard.contains(h));
        let t = taken[h];
        assert(tasks[h] == all[t]);
        assert(from[j] == order[t]);
        assert(is_of(conversions[order[t]], sent[begun[order[t]]]));
    }
    assert forall|a: int, b: int| 0 <= a < b < from.len() implies #[trigger] from[a]
        < #[trigger] from[b] by {
        assert(heard[a] < heard[b]);
        assert(taken[heard[a]] < taken[heard[b]]);
    }
    let chosen = picked(begun, from);
    assert forall|a: int| 0 <= a < chosen.len() implies 0 <= #[trigger] chosen[a] < sent.len() by {
        assert(chosen[a] == begun[from[a]]);
    }
    assert forall|a: int, b: int| 0 <= a < b < chosen.len() implies #[trigger] chosen[a]
        < #[trigger] chosen[b] by {
        assert(from[a] < from[b]);
        assert(begun[from[a]] < begun[from[b]]);
    }
    from
}

// ---------------------------------------------------------------------------
// What is heard and told
// ---------------------------------------------------------------------------

/// Every conversion is heard of: one that gave speech is played, unless speech was stopped
/// meanwhile; one that failed is reported, played as a failure and leaves the stream idle.
/// Its generation is the one that it was begun in. Whatever it gave, it is counted as
/// finished, and that is told.
pub proof fn law_conversions_are_heard_of(generation: u64, stopped: bool)
    ensures
        delivery(Conversion::Converted(generation), false).contains(DeliveryStep::Play(generation)),
        forall|g: u64|
            !(#[trigger] delivery(Conversion::Converted(generation), true).contains(
                DeliveryStep::Play(g),
            )),
        forall|g: u64|
            #[trigger] delivery(Conversion::Converted(generation), stopped).contains(
                DeliveryStep::Play(g),
            ) ==> g == generation,
        delivery(Conversion::Failed(generation), stopped).contains(
            DeliveryStep::PlayFailure(generation),
        ),
        forall|g: u64|
            #[trigger] delivery(Conversion::Failed(generation), stopped).contains(
                DeliveryStep::PlayFailure(g),
            ) ==> g == generation,
        delivery(Conversion::Failed(generation), stopped).contains(DeliveryStep::Report),
        delivery(Conversion::Failed(generation), stopped).last() == DeliveryStep::Notify(
            SpeakState::Idle,
        ),
        forall|c: Conversion| #[trigger]
            delivery(c, stopped).contains(DeliveryStep::FinishOne),
        forall|c: Conversion| #[trigger]
            delivery(c, stopped).contains(DeliveryStep::Notify(SpeakState::ConvertingFinished)),
        forall|c: Conversion| #[trigger]
            delivery(c, stopped).contains(DeliveryStep::Report) ==> c is Failed,
        forall|c: Conversion| #[trigger]
            delivery(c, stopped).contains(DeliveryStep::Notify(SpeakState::Idle)) ==> c is Failed,
        forall|c: Conversion|
            !(#[trigger] delivery(c, stopped).contains(DeliveryStep::Notify(SpeakState::Playing))),
        forall|c: Conversion|
            !(#[trigger] delivery(c, stopped).contains(DeliveryStep::Notify(SpeakState::Reset))),
        forall|c: Conversion|
            !(#[trigger] delivery(c, stopped).contains(
                DeliveryStep::Notify(SpeakState::Converting),
            )),
{
    let speech = delivery(Conversion::Converted(generation), false);
    assert(speech[0] == DeliveryStep::Play(generation));
    let failure = delivery(Conversion::Failed(generation), stopped);
    assert(failure[0] == DeliveryStep::Report);
    assert(failure[1] == DeliveryStep::PlayFailure(generation));
    assert forall|c: Conversion| #[trigger]
        delivery(c, stopped).contains(DeliveryStep::FinishOne) by {
        lemma_every_delivery_finishes(c, stopped);
    }
    assert forall|c: Conversion| #[trigger]
        delivery(c, stopped).contains(DeliveryStep::Notify(SpeakState::ConvertingFinished)) by {
        lemma_every_delivery_finishes(c, stopped);
    }
}

proof fn lemma_every_delivery_finishes(c: Conversion, stopped: bool)
    ensures
        delivery(c, stopped).contains(DeliveryStep::FinishOne),
        delivery(c, stopped).contains(DeliveryStep::Notify(SpeakState::ConvertingFinished)),
{
    let steps = delivery(c, stopped);
    let i: int = match c {
        Conversion::Aborted => 0,
        Conversion::Converted(_) => if stopped {
            0
        } else {
            1
        },
        Conversion::Failed(_) => 2,
    };
    assert(steps[i] == DeliveryStep::FinishOne);
    assert(steps[i + 1] == DeliveryStep::Notify(SpeakState::ConvertingFinished));
}

/// `a` comes before `b` among some steps, and both do come.
pub open spec fn comes_before(steps: Seq<PlaybackStep>, a: PlaybackStep, b: PlaybackStep) -> bool {
    exists|i: int, j: int|
        0 <= i < j < steps.len() && #[trigger] steps[i] == a && #[trigger] steps[j] == b
}

/// How a current task is begun: the stream is said to play, the file is opened, what played
/// is silenced, the file is played, signals to stop that came before are forgotten, and then
/// it is watched. Speech is heard before the others are ducked; the sound of a failure only
/// after that. A stale task is passed over, with nothing said.
pub proof fn law_task_is_begun(task: AudioTask, task_generation: u64, generation: u64)
    ensures
        task_generation >= generation ==> {
            let steps = opening(task, task_generation, generation);
            &&& comes_before(
                steps,
                PlaybackStep::Notify(SpeakState::Playing),
                PlaybackStep::StopSink,
            )
            &&& comes_before(steps, PlaybackStep::Open, PlaybackStep::StopSink)
            &&& comes_before(steps, PlaybackStep::StopSink, PlaybackStep::Append)
            &&& task is Speech ==> comes_before(steps, PlaybackStep::Append, PlaybackStep::Duck)
            &&& task is Error ==> comes_before(steps, PlaybackStep::Duck, PlaybackStep::Append)
            &&& comes_before(steps, PlaybackStep::Append, PlaybackStep::DrainStops)
            &&& comes_before(steps, PlaybackStep::Duck, PlaybackStep::DrainStops)
            &&& steps.last() == PlaybackStep::Poll
            &&& steps.len() == 7
        },
        task_generation < generation ==> opening(task, task_generation, generation) == seq![
            PlaybackStep::NextTask,
        ],
{
    let steps = opening(task, task_generation, generation);
    if task_generation >= generation {
        assert(steps[0] == PlaybackStep::Notify(SpeakState::Playing));
        assert(steps[1] == PlaybackStep::Open);
        assert(steps[2] == PlaybackStep::StopSink);
        assert(steps[5] == PlaybackStep::DrainStops);
        match task {
            AudioTask::Speech => {
                assert(steps[3] == PlaybackStep::Append && steps[4] == PlaybackStep::Duck);
            },
            AudioTask::Error => {
                assert(steps[3] == PlaybackStep::Duck && steps[4] == PlaybackStep::Append);
            },
        }
    }
}

/// How a task is watched: while it plays, a signal to stop is looked for, and without one it
/// is looked at again a tenth of a second later. A signal silences it. However it ends, the
/// stream is said to be idle before the next task is taken.
pub proof fn law_task_is_watched(sink_empty: bool, pending: nat, queue_empty: bool)
    ensures
        polled(false, pending, queue_empty) == seq![PlaybackStep::CheckStop],
        comes_before(
            polled(true, pending, queue_empty),
            PlaybackStep::Notify(SpeakState::Idle),
            PlaybackStep::NextTask,
        ),
        !polled(sink_empty, pending, queue_empty).contains(PlaybackStep::StopSink),
        !polled(sink_empty, pending, queue_empty).contains(PlaybackStep::Duck),
        polled(true, 0, true) == seq![PlaybackStep::Restore] + polled(true, 1, true),
        stop_checked(false) == seq![PlaybackStep::Sleep(100), PlaybackStep::Poll],
        comes_before(stop_checked(true), PlaybackStep::DrainStops, PlaybackStep::StopSink),
        comes_before(
            stop_checked(true),
            PlaybackStep::StopSink,
            PlaybackStep::Notify(SpeakState::Idle),
        ),
        stop_checked(true).last() == PlaybackStep::NextTask,
        !stop_checked(true).contains(PlaybackStep::Restore),
{
    let done = polled(true, pending, queue_empty);
    assert(done[done.len() - 2] == PlaybackStep::Notify(SpeakState::Idle));
    assert(done[done.len() - 1] == PlaybackStep::NextTask);
    let stopped = stop_checked(true);
    assert(stopped[0] == PlaybackStep::DrainStops);
    assert(stopped[1] == PlaybackStep::StopSink);
    assert(stopped[2] == PlaybackStep::Notify(SpeakState::Idle));
    assert(polled(true, 0, true) =~= seq![PlaybackStep::Restore] + polled(true, 1, true));
}

/// What the ticking loop makes of what it hears: it knows speech to play from the moment
/// that is said until the stream is said to be idle or reset, and these three silence the
/// tick. So does turning it off. Nothing else does, and only the end of the stream ends the
/// loop.
pub proof fn law_ticker_hears(playing: bool, event: TickEvent, enabled: bool, pending: nat)
    ensures
        event == TickEvent::State(SpeakState::Playing) ==> playing_after(playing, event),
        event == TickEvent::State(SpeakState::Idle) || event == TickEvent::State(SpeakState::Reset)
            ==> !playing_after(playing, event),
        event == TickEvent::State(SpeakState::Converting) || event == TickEvent::State(
            SpeakState::ConvertingFinished,
        ) || event is Timeout || event is Disconnected ==> playing_after(playing, event) == playing,
        tick_steps(playing, event, enabled, pending).contains(TickStep::StopSink) <==> !(
        event is Disconnected) && (!enabled || event == TickEvent::State(SpeakState::Playing)
            || event == TickEvent::State(SpeakState::Idle) || event == TickEvent::State(
            SpeakState::Reset,
        )),
        tick_steps(playing, event, enabled, pending).contains(TickStep::Exit) <==>
            event is Disconnected,
        event is Disconnected ==> tick_steps(playing, event, enabled, pending).len() == 1,
{
    let steps = tick_steps(playing, event, enabled, pending);
    if event is Disconnected {
        assert(steps[0] == TickStep::Exit);
    } else if silences(event) {
        assert(steps[0] == TickStep::StopSink);
    } else if !enabled {
        assert(steps[steps.len() - 1] == TickStep::StopSink);
    }
}

} // verus!
