use async_openai::types::{SpeechModel, Voice};
use speakstream::audio_ducking::guardian::Ask;
use speakstream::single::Single;
use speakstream::ss::playback::{
    after_poll, after_stop_check, deliver, open_task, AudioTask, Conversion, DeliveryStep,
    PlaybackStep, TickEvent, TickStep, Ticker,
};
use speakstream::ss::speech::{
    adjusting_arguments, after_adjusting, after_create, after_request, after_save, begin_attempt,
    failure_notice, AttemptError, AttemptStep, AudioFile, Awaited, CommandOutcome,
};
use speakstream::ss::{SpeakState, SpeakStream, StopStep};

fn single(x: f32) -> Single {
    Single::from_bits(x.to_bits())
}

fn stream(duck_level: Option<f32>) -> SpeakStream {
    SpeakStream::new(Voice::Echo, single(1.0), false, duck_level.map(single), "1:0".to_string())
}

#[test]
fn test_manual_ducking_no_panic() {
    let mut speak = stream(None);
    assert!(speak.start_audio_ducking().is_none());
    assert!(speak.stop_audio_ducking().is_none());
}

#[test]
fn manual_ducking_asks_the_guardian() {
    let mut speak = stream(Some(0.25));
    let request = speak.start_audio_ducking().expect("a request");
    assert_eq!(request.ask, Ask::Duck(single(0.25)));
    assert!(!request.insist);
    assert!(speak.start_audio_ducking().is_none());
    let request = speak.stop_audio_ducking().expect("a request");
    assert_eq!(request.ask, Ask::Release);
    assert!(request.insist);
    assert!(speak.stop_audio_ducking().is_none());
}

#[test]
fn sentences_carry_the_generation() {
    let mut speak = stream(None);
    let jobs = speak.add_token("This is a sentence. And this is another one! Rest");
    assert_eq!(jobs.len(), 2);
    assert_eq!(jobs[0].text, "This is a sentence.");
    assert_eq!(jobs[1].text, "And this is another one!");
    assert_eq!((jobs[0].generation, jobs[1].generation), (0, 0));
    let steps = speak.stop_speech();
    assert_eq!(
        steps,
        vec![
            StopStep::DrainJobs,
            StopStep::AbortConversions,
            StopStep::DrainAudio,
            StopStep::StopPlayback,
            StopStep::RestoreVolumes,
            StopStep::ClearPending,
            StopStep::Notify(SpeakState::Reset),
            StopStep::Notify(SpeakState::Idle),
        ]
    );
    assert_eq!(speak.generation(), 1);
    // What was in the buffer is gone.
    assert!(speak.complete_sentence().is_none());
    speak.add_token("New words");
    let job = speak.complete_sentence().expect("a job");
    assert_eq!((job.text.as_str(), job.generation), ("New words", 1));
    assert_eq!(open_task(AudioTask::Speech, 0, speak.generation()), vec![PlaybackStep::NextTask]);
    assert!(open_task(AudioTask::Speech, 1, speak.generation()).contains(&PlaybackStep::Append));
}

#[test]
fn muted_streams_are_silent() {
    let mut speak = stream(None);
    speak.add_token("Half a sen");
    assert!(!speak.is_muted());
    assert_eq!(speak.mute().len(), 8);
    assert!(speak.is_muted());
    assert_eq!(speak.generation(), 1);
    assert!(speak.add_token("A sentence that nobody hears. ").is_empty());
    assert!(speak.complete_sentence().is_none());
    speak.unmute();
    assert!(!speak.is_muted());
    assert!(speak.complete_sentence().is_none());
    assert_eq!(speak.add_token("A sentence that is heard. ").len(), 1);
}

#[test]
fn stopping_restores_and_clears() {
    let mut speak = stream(Some(0.5));
    speak.start_audio_ducking();
    speak.conversion_started();
    speak.conversion_started();
    assert_eq!(speak.pending_conversions(), 2);
    for step in speak.stop_speech() {
        match step {
            StopStep::RestoreVolumes => {
                assert_eq!(speak.restore_volumes().expect("a request").ask, Ask::Release)
            }
            StopStep::ClearPending => speak.clear_pending(),
            _ => {}
        }
    }
    assert!(!speak.audio_ducker().is_ducked());
    assert_eq!(speak.pending_conversions(), 0);
    speak.conversion_finished();
    assert_eq!(speak.pending_conversions(), 0);
    speak.conversion_started();
    speak.conversion_finished();
    assert_eq!(speak.pending_conversions(), 0);
}

#[test]
fn settings() {
    let mut speak = SpeakStream::new(
        Voice::Ash,
        single(1.5),
        true,
        Some(single(7.0)),
        "1:0".to_string(),
    );
    assert_eq!(speak.get_voice(), Voice::Ash);
    speak.set_voice(Voice::Sage);
    assert_eq!(speak.get_voice(), Voice::Sage);
    assert_eq!(speak.get_speech_speed(), single(1.5));
    speak.set_speech_speed(single(0.75));
    assert_eq!(speak.get_speech_speed(), single(0.75));
    assert!(speak.is_tick_enabled());
    speak.set_tick_enabled(false);
    assert!(!speak.is_tick_enabled());
    assert_eq!(speak.get_duck_ratio(), single(1.0));
    assert_eq!(speak.set_duck_ratio(single(0.2)).expect("a request").ask, Ask::Retune(single(0.2)));
    assert_eq!(speak.get_duck_ratio(), single(0.2));
    assert!(speak.is_audio_ducking_enabled());
    assert!(speak.set_audio_ducking_enabled(false).is_none());
    assert!(!speak.is_audio_ducking_enabled());
    assert!(speak.start_audio_ducking().is_none());
    speak.set_audio_ducking_enabled(true);
    assert!(speak.start_audio_ducking().is_some());
    assert_eq!(
        speak.set_audio_ducking_enabled(false).expect("a request").ask,
        Ask::Release
    );
}

#[test]
fn an_attempt_asks_for_the_text_in_the_voice() {
    match begin_attempt("Say this.", Voice::Nova) {
        AttemptStep::Request(request) => {
            assert_eq!(request.input, "Say this.");
            assert_eq!(request.voice, Voice::Nova);
            assert_eq!(request.model, SpeechModel::Tts1);
            assert!(request.instructions.is_none());
            assert!(request.response_format.is_none());
            assert!(request.speed.is_none());
        }
        other => panic!("{:?}", other),
    }
    assert!(matches!(begin_attempt("", Voice::Echo), AttemptStep::Request(_)));
}

#[test]
fn an_attempt_goes_through_its_steps() {
    assert!(matches!(after_request(Awaited::Done), AttemptStep::Create(AudioFile::Segment)));
    assert!(matches!(after_create(AudioFile::Segment, Ok(())), AttemptStep::Save));
    assert!(matches!(
        after_save(Awaited::Done, single(1.0)),
        AttemptStep::Done(AudioFile::Segment)
    ));
    for speed in [0.5, 1.0000001, 2.0, -1.0, f32::NAN] {
        assert!(matches!(
            after_save(Awaited::Done, single(speed)),
            AttemptStep::Create(AudioFile::SpedUp)
        ));
    }
    assert!(matches!(after_create(AudioFile::SpedUp, Ok(())), AttemptStep::AdjustSpeed));
    assert!(matches!(
        after_adjusting(CommandOutcome::Succeeded),
        AttemptStep::Done(AudioFile::SpedUp)
    ));
}

fn failure(step: AttemptStep) -> AttemptError {
    match step {
        AttemptStep::Failed(err) => err,
        other => panic!("{:?}", other),
    }
}

fn fatal(outcome: CommandOutcome) -> String {
    match after_adjusting(outcome) {
        AttemptStep::Fatal(message) => message,
        other => panic!("{:?}", other),
    }
}

#[test]
fn failures_say_what_failed() {
    let why = || "why".to_string();
    assert_eq!(
        AttemptError::Build(why()).message(),
        "Failed to build speech request: why"
    );
    let err = failure(after_request(Awaited::Failed(why())));
    assert_eq!(err.message(), "speech request failed: why");
    assert_eq!(
        failure_notice(&err),
        "Failed to turn text to speech after up to 3 attempts: speech request failed: why"
    );
    let err = failure(after_request(Awaited::TimedOut));
    assert_eq!(err.message(), "speech request timed out after 15s");
    for file in [AudioFile::Segment, AudioFile::SpedUp] {
        let err = failure(after_create(file, Err(why())));
        assert_eq!(err.message(), "Failed to create temp file: why");
    }
    let err = failure(after_save(Awaited::Failed(why()), single(1.0)));
    assert_eq!(err.message(), "Failed to save ai speech to file: why");
    let err = failure(after_save(Awaited::TimedOut, single(2.0)));
    assert_eq!(err.message(), "Saving ai speech to file timed out after 10s");
    assert_eq!(
        fatal(CommandOutcome::NotFound),
        "ffmpeg not found. Please install ffmpeg and add it to your PATH"
    );
    assert_eq!(fatal(CommandOutcome::Unsuccessful), "ffmpeg failed to adjust audio speed");
    assert_eq!(fatal(CommandOutcome::CouldNotRun), "ffmpeg failed to adjust audio speed");
}

#[test]
fn the_speed_is_adjusted_by_a_command() {
    assert_eq!(
        adjusting_arguments("in.mp3", "out.mp3", &1.25f32.to_string()).join(" "),
        "-y -i in.mp3 -codec:a libmp3lame -b:a 160k -filter:a atempo=1.25 -vn out.mp3"
    );
}

#[test]
fn conversions_are_delivered_before_they_are_finished() {
    let finished = DeliveryStep::Notify(SpeakState::ConvertingFinished);
    assert_eq!(
        deliver(Conversion::Converted(3), false),
        vec![DeliveryStep::Play(3), DeliveryStep::FinishOne, finished]
    );
    assert_eq!(
        deliver(Conversion::Converted(3), true),
        vec![DeliveryStep::FinishOne, finished]
    );
    for stopped in [false, true] {
        assert_eq!(
            deliver(Conversion::Failed(4), stopped),
            vec![
                DeliveryStep::Report,
                DeliveryStep::PlayFailure(4),
                DeliveryStep::FinishOne,
                finished,
                DeliveryStep::Notify(SpeakState::Idle),
            ]
        );
        assert_eq!(
            deliver(Conversion::Aborted, stopped),
            vec![DeliveryStep::FinishOne, finished]
        );
    }
}

#[test]
fn playback_steps() {
    assert_eq!(
        open_task(AudioTask::Speech, 2, 2),
        vec![
            PlaybackStep::Notify(SpeakState::Playing),
            PlaybackStep::Open,
            PlaybackStep::StopSink,
            PlaybackStep::Append,
            PlaybackStep::Duck,
            PlaybackStep::DrainStops,
            PlaybackStep::Poll,
        ]
    );
    assert_eq!(
        open_task(AudioTask::Error, 3, 2),
        vec![
            PlaybackStep::Notify(SpeakState::Playing),
            PlaybackStep::Open,
            PlaybackStep::StopSink,
            PlaybackStep::Duck,
            PlaybackStep::Append,
            PlaybackStep::DrainStops,
            PlaybackStep::Poll,
        ]
    );
    assert_eq!(after_poll(false, 0, true), vec![PlaybackStep::CheckStop]);
    assert_eq!(
        after_poll(true, 0, true),
        vec![
            PlaybackStep::Restore,
            PlaybackStep::Notify(SpeakState::Idle),
            PlaybackStep::NextTask
        ]
    );
    for (pending, queue_empty) in [(1, true), (0, false)] {
        assert_eq!(
            after_poll(true, pending, queue_empty),
            vec![PlaybackStep::Notify(SpeakState::Idle), PlaybackStep::NextTask]
        );
    }
    assert_eq!(
        after_stop_check(true),
        vec![
            PlaybackStep::DrainStops,
            PlaybackStep::StopSink,
            PlaybackStep::Notify(SpeakState::Idle),
            PlaybackStep::NextTask
        ]
    );
    assert_eq!(
        after_stop_check(false),
        vec![PlaybackStep::Sleep(100), PlaybackStep::Poll]
    );
}

#[test]
fn ticks_while_waiting_for_speech() {
    let mut ticker = Ticker::new();
    assert_eq!(ticker.hear(TickEvent::Timeout, true, 0), vec![]);
    assert_eq!(
        ticker.hear(TickEvent::State(SpeakState::Converting), true, 1),
        vec![TickStep::TickIfSilent]
    );
    assert_eq!(
        ticker.hear(TickEvent::State(SpeakState::Playing), true, 1),
        vec![TickStep::StopSink]
    );
    assert_eq!(ticker.hear(TickEvent::Timeout, true, 1), vec![]);
    assert_eq!(
        ticker.hear(TickEvent::State(SpeakState::ConvertingFinished), true, 1),
        vec![]
    );
    assert_eq!(
        ticker.hear(TickEvent::State(SpeakState::Idle), true, 1),
        vec![TickStep::StopSink, TickStep::TickIfSilent]
    );
    assert_eq!(ticker.hear(TickEvent::Timeout, false, 1), vec![TickStep::StopSink]);
    assert_eq!(
        ticker.hear(TickEvent::State(SpeakState::Reset), true, 0),
        vec![TickStep::StopSink]
    );
    assert_eq!(ticker.hear(TickEvent::Disconnected, true, 1), vec![TickStep::Exit]);
}

/// Plays what some conversions give, each taken up in the generation beside it. Returns
/// the tasks that are played.
fn heard(conversions: &[(Conversion, u64)]) -> Vec<(AudioTask, u64)> {
    let mut out = Vec::new();
    for (conversion, current) in conversions {
        for step in deliver(*conversion, false) {
            let (task, generation) = match step {
                DeliveryStep::Play(generation) => (AudioTask::Speech, generation),
                DeliveryStep::PlayFailure(generation) => (AudioTask::Error, generation),
                _ => continue,
            };
            if open_task(task, generation, *current).contains(&PlaybackStep::Append) {
                out.push((task, generation));
            }
        }
    }
    out
}

#[test]
fn sentences_are_heard_in_the_order_they_were_sent() {
    assert_eq!(
        heard(&[
            (Conversion::Converted(0), 0),
            (Conversion::Failed(0), 0),
            (Conversion::Aborted, 0),
            (Conversion::Converted(0), 1),
            (Conversion::Failed(0), 1),
            (Conversion::Converted(1), 1),
            (Conversion::Converted(2), 2),
        ]),
        vec![
            (AudioTask::Speech, 0),
            (AudioTask::Error, 0),
            (AudioTask::Speech, 1),
            (AudioTask::Speech, 2),
        ]
    );
}
