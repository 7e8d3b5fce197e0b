//! Speech from a stream of tokens.
//!
//! A [`SpeakStream`] cuts the tokens it is fed into sentences. The sentences are turned into
//! speech, several at a time, and played in order, while other applications are ducked.
//! Stopping advances the stream's generation, so that whatever was under way is recognised
//! as stale wherever it turns up.
pub mod playback;
pub mod race;
pub mod sentence;
pub mod speech;

pub use crate::ss::playback::SpeakState;

use vstd::prelude::*;

use async_openai::types::Voice;

use crate::audio_ducking::{AudioDucker, AudioDuckerView, Request};
use crate::single;
use crate::single::Single;
use crate::ss::sentence::SentenceAccumulator;
use crate::text;

verus! {

/// The derived `Clone` of `Voice` gives an equal voice.
pub assume_specification[ <Voice as Clone>::clone ](voice: &Voice) -> (res: Voice)
    ensures
        res == *voice,
;

/// A sentence to be spoken.
#[derive(Debug)]
pub struct Job {
    pub text: String,
    /// The generation that it belongs to.
    pub generation: u64,
}

/// A sentence to be spoken.
pub struct JobView {
    pub text: Seq<char>,
    pub generation: u64,
}

impl View for Job {
    type V = JobView;

    open spec fn view(&self) -> JobView {
        JobView { text: self.text@, generation: self.generation }
    }
}

pub open spec fn job_views(jobs: Seq<Job>) -> Seq<JobView> {
    jobs.map_values(|job: Job| job@)
}

/// Sentences to be spoken in a generation.
pub open spec fn jobs_of(sentences: Seq<Seq<char>>, generation: u64) -> Seq<JobView> {
    sentences.map_values(|text: Seq<char>| JobView { text, generation })
}

/// What is done to stop speech, in order.
#[derive(Clone, Copy, Debug, PartialEq, Eq, Structural)]
pub enum StopStep {
    /// Forget the sentences that wait to be converted.
    DrainJobs,
    /// Abort the conversions under way.
    AbortConversions,
    /// Forget what waits to be played.
    DrainAudio,
    /// Silence what is playing.
    StopPlayback,
    /// Restore the others: [`SpeakStream::restore_volumes`].
    RestoreVolumes,
    /// Count nothing as pending: [`SpeakStream::clear_pending`].
    ClearPending,
    Notify(SpeakState),
}

/// How speech is stopped. What is pending is cleared only after the queues were emptied:
/// what was taken from them before is no longer counted, and nothing old is counted anew.
pub open spec fn stop_steps() -> Seq<StopStep> {
    seq![
        StopStep::DrainJobs,
        StopStep::AbortConversions,
        StopStep::DrainAudio,
        StopStep::StopPlayback,
        StopStep::RestoreVolumes,
        StopStep::ClearPending,
        StopStep::Notify(SpeakState::Reset),
        StopStep::Notify(SpeakState::Idle),
    ]
}

/// A stream of tokens that is spoken.
#[derive(Debug)]
pub struct SpeakStream {
    sentence_accumulator: SentenceAccumulator,
    speech_speed: Single,
    voice: Voice,
    pending_conversions: usize,
    generation: u64,
    audio_ducker: AudioDucker,
    tick_enabled: bool,
    muted: bool,
}

pub struct StreamView {
    /// What was fed and is not part of a complete sentence yet.
    pub buffer: Seq<char>,
    pub speed: Single,
    pub voice: Voice,
    /// How many sentences are being converted.
    pub pending: usize,
    /// How often speech was stopped.
    pub generation: u64,
    pub ducker: AudioDuckerView,
    pub tick_enabled: bool,
    pub muted: bool,
}

impl View for SpeakStream {
    type V = StreamView;

    closed spec fn view(&self) -> StreamView {
        StreamView {
            buffer: self.sentence_accumulator@,
            speed: self.speech_speed,
            voice: self.voice,
            pending: self.pending_conversions,
            generation: self.generation,
            ducker: self.audio_ducker@,
            tick_enabled: self.tick_enabled,
            muted: self.muted,
        }
    }
}

impl StreamView {
    /// A token is fed. A muted stream ignores it.
    pub open spec fn fed(self, token: Seq<char>) -> (Self, Seq<JobView>) {
        if self.muted {
            (self, Seq::empty())
        } else {
            let (pieces, rest) = sentence::cut(self.buffer, token);
            (
                StreamView { buffer: rest, ..self },
                jobs_of(sentence::spoken(pieces), self.generation),
            )
        }
    }

    /// What is left in the buffer is a sentence. A muted stream forgets it.
    pub open spec fn completed(self) -> (Self, Seq<JobView>) {
        (
            StreamView { buffer: Seq::empty(), ..self },
            if self.muted {
                Seq::empty()
            } else {
                jobs_of(sentence::spoken(seq![self.buffer]), self.generation)
            },
        )
    }

    /// Speech is stopped; the steps are still to be done.
    pub open spec fn stopped(self) -> Self {
        StreamView {
            buffer: Seq::empty(),
            generation: self.generation.wrapping_add(1),
            ..self
        }
    }

    /// The stream after a step of stopping.
    pub open spec fn after_step(self, step: StopStep) -> Self {
        match step {
            StopStep::RestoreVolumes => StreamView {
                ducker: self.ducker.after_restore_force().0,
                ..self
            },
            StopStep::ClearPending => StreamView { pending: 0, ..self },
            _ => self,
        }
    }

    pub open spec fn after_steps(self, steps: Seq<StopStep>) -> Self
        decreases steps.len(),
    {
        if steps.len() == 0 {
            self
        } else {
            self.after_steps(steps.drop_last()).after_step(steps.last())
        }
    }

    pub open spec fn with_ducker(self, ducker: AudioDuckerView) -> Self {
        StreamView { ducker, ..self }
    }
}

impl SpeakStream {
    /// Nothing that should have been cut out as a sentence is in the buffer, and the duck
    /// ratio is within bounds.
    pub closed spec fn wf(&self) -> bool {
        self.sentence_accumulator.wf() && self.audio_ducker@.wf()
    }

    /// Creates a stream, under an instance name for its ducking. `None` leaves ducking off;
    /// `Some(ratio)` turns it on, with the part of their own volume that other applications
    /// play at while speech is heard.
    pub fn new(
        voice: Voice,
        speech_speed: Single,
        tick: bool,
        duck_level: Option<Single>,
        instance_id: String,
    ) -> (stream: Self)
        ensures
            stream.wf(),
            stream@ == (StreamView {
                buffer: Seq::empty(),
                speed: speech_speed,
                voice,
                pending: 0,
                generation: 0,
                ducker: AudioDuckerView {
                    enabled: duck_level is Some,
                    ratio: match duck_level {
                        Some(ratio) => ratio.unit(),
                        None => single::one_value(),
                    },
                    ducked: false,
                    instance: instance_id@,
                },
                tick_enabled: tick,
                muted: false,
            }),
    {
        SpeakStream {
            sentence_accumulator: SentenceAccumulator::new(),
            speech_speed,
            voice,
            pending_conversions: 0,
            generation: 0,
            audio_ducker: AudioDucker::new(duck_level, instance_id),
            tick_enabled: tick,
            muted: false,
        }
    }

    // -- Tokens ------------------------------------------------------------

    /// Feeds a token. Returns the sentences that it completes, to be spoken in this order.
    pub fn add_token(&mut self, token: &str) -> (jobs: Vec<Job>)
        requires
            old(self).wf(),
        ensures
            final(self).wf(),
            (final(self)@, job_views(jobs@)) == old(self)@.fed(token@),
    {
        let mut jobs: Vec<Job> = Vec::new();
        assert(job_views(jobs@) == Seq::<JobView>::empty());
        if self.muted {
            return jobs;
        }
        let generation: u64 = self.generation;
        let sentences = self.sentence_accumulator.add_token(token);
        let ghost texts = sentence::texts(sentences@);
        let mut i: usize = 0;
        while i < sentences.len()
            invariant
                i <= sentences.len(),
                texts == sentence::texts(sentences@),
                job_views(jobs@) == jobs_of(texts.take(i as int), generation),
            decreases sentences.len() - i,
        {
            let text = sentences[i].clone();
            assert(texts[i as int] == text@);
            let ghost before = jobs@;
            jobs.push(Job { text, generation });
            assert(job_views(jobs@) == job_views(before).push(JobView { text: text@, generation }));
            assert(jobs_of(texts.take(i + 1), generation) == jobs_of(
                texts.take(i as int),
                generation,
            ).push(JobView { text: text@, generation }));
            i += 1;
        }
        assert(texts.take(texts.len() as int) == texts);
        jobs
    }

    /// Takes what is left in the buffer as a sentence. Returns it, to be spoken, unless it
    /// is white space alone.
    pub fn complete_sentence(&mut self) -> (job: Option<Job>)
        requires
            old(self).wf(),
        ensures
            final(self).wf(),
            final(self)@ == old(self)@.completed().0,
            match job {
                Some(job) => old(self)@.completed().1 == seq![job@],
                None => old(self)@.completed().1.len() == 0,
            },
    {
        proof {
            reveal_with_fuel(sentence::spoken, 2);
            let one = seq![self@.buffer];
            assert(one.drop_last() == Seq::<Seq<char>>::empty());
        }
        if self.muted {
            self.sentence_accumulator.clear_buffer();
            return None;
        }
        match self.sentence_accumulator.complete_sentence() {
            Some(text) => Some(Job { text, generation: self.generation }),
            None => None,
        }
    }

    // -- Stopping ----------------------------------------------------------

    /// Stops speech. The generation advances at once, so that all that is under way is
    /// stale from now on; the steps that are returned are to be done in their order.
    pub fn stop_speech(&mut self) -> (steps: Vec<StopStep>)
        requires
            old(self).wf(),
        ensures
            final(self).wf(),
            final(self)@ == old(self)@.stopped(),
            steps@ == stop_steps(),
    {
        self.generation = self.generation.wrapping_add(1);
        self.sentence_accumulator.clear_buffer();
        let mut steps: Vec<StopStep> = Vec::new();
        steps.push(StopStep::DrainJobs);
        steps.push(StopStep::AbortConversions);
        steps.push(StopStep::DrainAudio);
        steps.push(StopStep::StopPlayback);
        steps.push(StopStep::RestoreVolumes);
        steps.push(StopStep::ClearPending);
        steps.push(StopStep::Notify(SpeakState::Reset));
        steps.push(StopStep::Notify(SpeakState::Idle));
        steps
    }

    /// The step of stopping that restores the others.
    pub fn restore_volumes(&mut self) -> (request: Option<Request>)
        requires
            old(self).wf(),
        ensures
            final(self).wf(),
            final(self)@ == old(self)@.after_step(StopStep::RestoreVolumes),
            request == old(self)@.ducker.after_restore_force().1,
    {
        self.audio_ducker.restore_force()
    }

    /// The step of stopping that counts nothing as pending.
    pub fn clear_pending(&mut self)
        requires
            old(self).wf(),
        ensures
            final(self).wf(),
            final(self)@ == old(self)@.after_step(StopStep::ClearPending),
    {
        self.pending_conversions = 0;
    }

    /// Mutes the stream, and stops speech.
    pub fn mute(&mut self) -> (steps: Vec<StopStep>)
        requires
            old(self).wf(),
        ensures
            final(self).wf(),
            final(self)@ == (StreamView { muted: true, ..old(self)@.stopped() }),
            steps@ == stop_steps(),
    {
        self.muted = true;
        self.stop_speech()
    }

    pub fn unmute(&mut self)
        requires
            old(self).wf(),
        ensures
            final(self).wf(),
            final(self)@ == (StreamView { muted: false, ..old(self)@ }),
    {
        self.muted = false;
    }

    pub fn is_muted(&self) -> (res: bool)
        ensures
            res == self@.muted,
    {
        self.muted
    }

    // -- Conversions -------------------------------------------------------

    /// A sentence begins to be converted.
    pub fn conversion_started(&mut self)
        requires
            old(self).wf(),
        ensures
            final(self).wf(),
            final(self)@ == (StreamView {
                pending: old(self)@.pending.wrapping_add(1),
                ..old(self)@
            }),
    {
        self.pending_conversions = self.pending_conversions.wrapping_add(1);
    }

    /// A conversion has finished. One that was under way when speech was stopped is not
    /// counted any more.
    pub fn conversion_finished(&mut self)
        requires
            old(self).wf(),
        ensures
            final(self).wf(),
            final(self)@ == (StreamView {
                pending: old(self)@.pending.saturating_sub(1),
                ..old(self)@
            }),
    {
        self.pending_conversions = self.pending_conversions.saturating_sub(1);
    }

    /// How many sentences are being converted.
    pub fn pending_conversions(&self) -> (pending: usize)
        ensures
            pending == self@.pending,
    {
        self.pending_conversions
    }

    pub fn generation(&self) -> (generation: u64)
        ensures
            generation == self@.generation,
    {
        self.generation
    }

    // -- Settings ----------------------------------------------------------

    pub fn set_speech_speed(&mut self, speed: Single)
        requires
            old(self).wf(),
        ensures
            final(self).wf(),
            final(self)@ == (StreamView { speed, ..old(self)@ }),
    {
        self.speech_speed = speed;
    }

    pub fn get_speech_speed(&self) -> (speed: Single)
        ensures
            speed == self@.speed,
    {
        self.speech_speed
    }

    pub fn set_voice(&mut self, voice: Voice)
        requires
            old(self).wf(),
        ensures
            final(self).wf(),
            final(self)@ == (StreamView { voice, ..old(self)@ }),
    {
        self.voice = voice;
    }

    pub fn get_voice(&self) -> (voice: Voice)
        ensures
            voice == self@.voice,
    {
        self.voice.clone()
    }

    pub fn set_tick_enabled(&mut self, enabled: bool)
        requires
            old(self).wf(),
        ensures
            final(self).wf(),
            final(self)@ == (StreamView { tick_enabled: enabled, ..old(self)@ }),
    {
        self.tick_enabled = enabled;
    }

    pub fn is_tick_enabled(&self) -> (res: bool)
        ensures
            res == self@.tick_enabled,
    {
        self.tick_enabled
    }

    // -- Ducking -----------------------------------------------------------

    /// Turns ducking on or off.
    pub fn set_audio_ducking_enabled(&mut self, enabled: bool) -> (request: Option<Request>)
        requires
            old(self).wf(),
        ensures
            final(self).wf(),
            final(self)@ == old(self)@.with_ducker(old(self)@.ducker.after_set_enabled(enabled).0),
            request == old(self)@.ducker.after_set_enabled(enabled).1,
    {
        self.audio_ducker.set_enabled(enabled)
    }

    pub fn is_audio_ducking_enabled(&self) -> (res: bool)
        ensures
            res == self@.ducker.enabled,
    {
        self.audio_ducker.is_enabled()
    }

    /// Sets the part of their own volume that other applications play at while speech is
    /// heard.
    pub fn set_duck_ratio(&mut self, ratio: Single) -> (request: Option<Request>)
        requires
            old(self).wf(),
        ensures
            final(self).wf(),
            final(self)@ == old(self)@.with_ducker(old(self)@.ducker.after_set_ratio(ratio).0),
            request == old(self)@.ducker.after_set_ratio(ratio).1,
    {
        self.audio_ducker.set_duck_ratio(ratio)
    }

    pub fn get_duck_ratio(&self) -> (ratio: Single)
        ensures
            ratio == self@.ducker.ratio,
    {
        self.audio_ducker.get_duck_ratio()
    }

    /// Ducks other applications, whether or not speech is heard. For push-to-talk and the
    /// like.
    pub fn start_audio_ducking(&mut self) -> (request: Option<Request>)
        requires
            old(self).wf(),
        ensures
            final(self).wf(),
            final(self)@ == old(self)@.with_ducker(old(self)@.ducker.after_duck().0),
            request == old(self)@.ducker.after_duck().1,
    {
        self.audio_ducker.duck()
    }

    /// Restores other applications after [`SpeakStream::start_audio_ducking`].
    pub fn stop_audio_ducking(&mut self) -> (request: Option<Request>)
        requires
            old(self).wf(),
        ensures
            final(self).wf(),
            final(self)@ == old(self)@.with_ducker(old(self)@.ducker.after_restore().0),
            request == old(self)@.ducker.after_restore().1,
    {
        self.audio_ducker.restore()
    }

    /// The stream's instance of ducking.
    pub fn audio_ducker(&self) -> (ducker: &AudioDucker)
        ensures
            ducker@ == self@.ducker,
    {
        &self.audio_ducker
    }
}

// ---------------------------------------------------------------------------
// Laws
// ---------------------------------------------------------------------------

/// A muted stream speaks nothing: it ignores tokens, and forgets what is left in the
/// buffer.
pub proof fn law_muted_is_silent(s: StreamView, token: Seq<char>)
    requires
        s.muted,
    ensures
        s.fed(token) == (s, Seq::<JobView>::empty()),
        s.completed().1 == Seq::<JobView>::empty(),
        s.completed().0.buffer == Seq::<char>::empty(),
{
}

/// When speech is stopped, every sentence from before is stale, at whatever point it turns
/// up; and no sentence that is fed afterwards is.
pub proof fn law_stop_makes_stale(s: StreamView, before: Seq<char>, later: Seq<char>, i: int)
    requires
        s.generation < u64::MAX,
    ensures
        0 <= i < s.fed(before).1.len() ==> playback::is_stale(
            s.fed(before).1[i].generation,
            s.fed(before).0.stopped().generation,
        ),
        0 <= i < s.stopped().fed(later).1.len() ==> !playback::is_stale(
            s.stopped().fed(later).1[i].generation,
            s.stopped().generation,
        ),
{
}

/// When speech was stopped and the steps are done, nothing is buffered, nothing counts as
/// pending and nobody is ducked; the settings are as they were.
pub proof fn law_stop_leaves_nothing(s: StreamView)
    ensures
        s.stopped().after_steps(stop_steps()) == (StreamView {
            buffer: Seq::empty(),
            pending: 0,
            generation: s.generation.wrapping_add(1),
            ducker: AudioDuckerView { ducked: false, ..s.ducker },
            ..s
        }),
{
    let t = s.stopped();
    let steps = stop_steps();
    lemma_steps(t, steps, 8);
    lemma_steps(t, steps, 7);
    lemma_steps(t, steps, 6);
    lemma_steps(t, steps, 5);
    lemma_steps(t, steps, 4);
    lemma_steps(t, steps, 3);
    lemma_steps(t, steps, 2);
    lemma_steps(t, steps, 1);
    assert(steps.take(8) == steps);
    assert(steps.take(0) == Seq::<StopStep>::empty());
}

proof fn lemma_steps(s: StreamView, steps: Seq<StopStep>, n: int)
    requires
        0 < n <= steps.len(),
    ensures
        s.after_steps(steps.take(n)) == s.after_steps(steps.take(n - 1)).after_step(steps[n - 1]),
{
    assert(steps.take(n).drop_last() == steps.take(n - 1));
}

/// Feeding a text in one token or in two gives the same sentences.
pub proof fn law_feeding_is_continuous(s: StreamView, first: Seq<char>, second: Seq<char>)
    ensures
        s.fed(first + second).0 == s.fed(first).0.fed(second).0,
        s.fed(first + second).1 == s.fed(first).1 + s.fed(first).0.fed(second).1,
{
    sentence::law_tokens_make_no_difference(s.buffer, first, second);
    let (pieces, rest) = sentence::cut(s.buffer, first);
    let (more, _) = sentence::cut(rest, second);
    if !s.muted {
        assert(jobs_of(sentence::spoken(pieces + more), s.generation) == jobs_of(
            sentence::spoken(pieces),
            s.generation,
        ) + jobs_of(sentence::spoken(more), s.generation));
    }
}

/// What is fed is spoken: the sentences that a token completes become jobs in their order,
/// each with the current generation, and what does not complete one stays in the buffer.
/// Nothing else of the stream changes.
pub proof fn law_fed_sentences_become_jobs(s: StreamView, token: Seq<char>)
    requires
        !s.muted,
    ensures
        ({
            let sentences = sentence::spoken(sentence::cut(s.buffer, token).0);
            let (now, jobs) = s.fed(token);
            &&& jobs.len() == sentences.len()
            &&& forall|i: int|
                0 <= i < jobs.len() ==> (#[trigger] jobs[i]).text == sentences[i]
                    && jobs[i].generation == s.generation
            &&& now == (StreamView { buffer: sentence::cut(s.buffer, token).1, ..s })
        }),
{
}

/// What is left at the end of a conversation is spoken: if anything but white space is in
/// the buffer, completing gives exactly one job, of the buffer without the white space around
/// it, in the current generation; if not, it gives none. The buffer is emptied either way,
/// and nothing else changes.
pub proof fn law_rest_is_spoken(s: StreamView)
    ensures
        s.completed().0 == (StreamView { buffer: Seq::empty(), ..s }),
        !s.muted && (exists|i: int|
            0 <= i < s.buffer.len() && !text::white_space(#[trigger] s.buffer[i]))
            ==> s.completed().1 == seq![
            JobView { text: text::trimmed(s.buffer), generation: s.generation },
        ],
        (forall|i: int| 0 <= i < s.buffer.len() ==> text::white_space(#[trigger] s.buffer[i]))
            ==> s.completed().1.len() == 0,
{
    let none = Seq::<Seq<char>>::empty();
    sentence::law_pieces_are_spoken(none, s.buffer);
    assert(none.push(s.buffer) =~= seq![s.buffer]);
    assert(sentence::spoken(none) =~= none);
    if !s.muted && exists|i: int|
        0 <= i < s.buffer.len() && !text::white_space(#[trigger] s.buffer[i]) {
        assert(sentence::spoken(seq![s.buffer]) =~= seq![text::trimmed(s.buffer)]);
        assert(s.completed().1 =~= seq![
            JobView { text: text::trimmed(s.buffer), generation: s.generation },
        ]);
    }
}

/// Whatever is fed is spoken once the conversation ends: the jobs of a token and of the
/// completion after it are the sentences that the whole text is cut into, the rest last.
pub proof fn law_conversation_is_spoken(s: StreamView, token: Seq<char>)
    requires
        !s.muted,
    ensures
        ({
            let (pieces, rest) = sentence::cut(s.buffer, token);
            let (fed, jobs) = s.fed(token);
            let (done, last) = fed.completed();
            &&& jobs + last == jobs_of(sentence::spoken(pieces.push(rest)), s.generation)
            &&& sentence::joined(pieces.push(rest)) == s.buffer + token
            &&& done.buffer.len() == 0
        }),
{
    let (pieces, rest) = sentence::cut(s.buffer, token);
    let none = Seq::<Seq<char>>::empty();
    sentence::law_no_text_is_lost(s.buffer, token);
    sentence::law_pieces_are_spoken(pieces, rest);
    sentence::law_pieces_are_spoken(none, rest);
    assert(none.push(rest) =~= seq![rest]);
    assert(pieces.push(rest).drop_last() =~= pieces);
    let (fed, jobs) = s.fed(token);
    let (done, last) = fed.completed();
    if exists|i: int| 0 <= i < rest.len() && !text::white_space(#[trigger] rest[i]) {
        assert(sentence::spoken(seq![rest]) =~= seq![text::trimmed(rest)]);
    } else {
        assert(sentence::spoken(seq![rest]) =~= none);
    }
    assert(jobs + last =~= jobs_of(sentence::spoken(pieces.push(rest)), s.generation));
}

/// The views of jobs are those of the jobs, one by one.
pub proof fn law_job_views(jobs: Seq<Job>)
    ensures
        job_views(jobs).len() == jobs.len(),
        forall|i: int|
            0 <= i < jobs.len() ==> (#[trigger] job_views(jobs)[i]).text == jobs[i].text@
                && job_views(jobs)[i].generation == jobs[i].generation,
{
}

/// Stopping goes one generation on and empties the buffer, and leaves the settings, the
/// muting, the count of what is pending and the ducking to the steps. In these, the queues
/// are emptied and what plays is silenced before the count is cleared, the volumes are
/// restored, and at last the stream is said to be reset and idle.
pub proof fn law_stopping(s: StreamView)
    ensures
        s.generation < u64::MAX ==> s.stopped().generation == s.generation + 1,
        s.stopped().buffer.len() == 0,
        s.stopped().speed == s.speed,
        s.stopped().voice == s.voice,
        s.stopped().pending == s.pending,
        s.stopped().ducker == s.ducker,
        s.stopped().tick_enabled == s.tick_enabled,
        s.stopped().muted == s.muted,
        stop_steps().len() == 8,
        stop_steps().take(5).contains(StopStep::DrainJobs),
        stop_steps().take(5).contains(StopStep::AbortConversions),
        stop_steps().take(5).contains(StopStep::DrainAudio),
        stop_steps().take(5).contains(StopStep::StopPlayback),
        stop_steps().take(6).contains(StopStep::RestoreVolumes),
        stop_steps()[5] == StopStep::ClearPending,
        stop_steps()[6] == StopStep::Notify(SpeakState::Reset),
        stop_steps()[7] == StopStep::Notify(SpeakState::Idle),
{
    let early = stop_steps().take(5);
    assert(early[0] == StopStep::DrainJobs);
    assert(early[1] == StopStep::AbortConversions);
    assert(early[2] == StopStep::DrainAudio);
    assert(early[3] == StopStep::StopPlayback);
    assert(stop_steps().take(6)[4] == StopStep::RestoreVolumes);
}

/// A change of the stream's ducking changes nothing else of it, and counting nothing as
/// pending changes that count alone.
pub proof fn law_changes_stay_apart(s: StreamView, ducker: AudioDuckerView)
    ensures
        s.with_ducker(ducker) == (StreamView { ducker, ..s }),
        s.after_step(StopStep::ClearPending) == (StreamView { pending: 0, ..s }),
        s.after_step(StopStep::RestoreVolumes) == (StreamView {
            ducker: AudioDuckerView { ducked: false, ..s.ducker },
            ..s
        }),
        s.after_step(StopStep::DrainJobs) == s,
        s.after_step(StopStep::AbortConversions) == s,
        s.after_step(StopStep::DrainAudio) == s,
        s.after_step(StopStep::StopPlayback) == s,
        s.after_step(StopStep::Notify(SpeakState::Reset)) == s,
        s.after_step(StopStep::Notify(SpeakState::Idle)) == s,
{
}

} // verus!
