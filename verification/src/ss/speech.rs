//! One attempt to turn a sentence into speech, step by step.
//!
//! The speech endpoint is asked for the audio, the audio is saved to a file, and a second
//! file is made of it where it is to be played at another speed. Whoever runs the attempt
//! does the waiting and the file work; what comes next is decided here.
use vstd::prelude::*;

use async_openai::types::{CreateSpeechRequest, CreateSpeechRequestArgs, SpeechModel, Voice};

use crate::single;
use crate::single::Single;
use crate::ss::sentence;
use crate::text;

verus! {

/// How many attempts are started for one sentence before it is given up: the first one,
/// the hedge, and those that replace failed ones.
pub const TTS_MAX_ATTEMPTS: usize = 3;

/// How long the first attempt is waited for before a second one is raced alongside it, in
/// seconds.
pub const TTS_HEDGE_DELAY_S: u64 = 4;

/// How long a request is waited for, in seconds.
pub const REQUEST_TIMEOUT_S: u64 = 15;

/// How long the saving of the audio is waited for, in seconds.
pub const SAVE_TIMEOUT_S: u64 = 10;

// ---------------------------------------------------------------------------
// The request
// ---------------------------------------------------------------------------

/// The voice that a sentence is spoken with. It is handed on as it is.
#[verifier::external_type_specification]
#[verifier::external_body]
pub struct ExVoice(async_openai::types::Voice);

/// The model that speaks.
#[verifier::external_type_specification]
pub struct ExSpeechModel(async_openai::types::SpeechModel);

/// The format of the audio. It is left at its default.
#[verifier::external_type_specification]
#[verifier::external_body]
pub struct ExSpeechResponseFormat(async_openai::types::SpeechResponseFormat);

/// A request to the speech endpoint. All its fields are public.
#[verifier::external_type_specification]
pub struct ExCreateSpeechRequest(async_openai::types::CreateSpeechRequest);

/// `CreateSpeechRequestArgs::build`, with the text, the voice and the model set. The builder
/// has a default for every field and checks none, so it builds a request of every text: the
/// three fields are as they were set, and the others are absent.
#[verifier::external_body]
fn build_request(
    text: &str,
    voice: Voice,
    model: SpeechModel,
) -> (res: Result<CreateSpeechRequest, String>)
    ensures
        res is Ok,
        res->Ok_0.input@ == text@,
        res->Ok_0.voice == voice,
        res->Ok_0.model == model,
        res->Ok_0.instructions is None,
        res->Ok_0.response_format is None,
        res->Ok_0.speed is None,
{
    let request = CreateSpeechRequestArgs::default().input(text).voice(voice).model(model).build();
    request.map_err(|err| format!("{:?}", err))
}

/// The request asks for `text` in `voice`, spoken by the small model, and for nothing
/// beyond that.
pub open spec fn asks_for(request: CreateSpeechRequest, text: Seq<char>, voice: Voice) -> bool {
    &&& request.input@ == text
    &&& request.voice == voice
    &&& request.model == SpeechModel::Tts1
    &&& request.instructions is None
    &&& request.response_format is None
    &&& request.speed is None
}

/// Begins an attempt: the speech endpoint is asked for the text in the voice.
pub fn begin_attempt(text: &str, voice: Voice) -> (step: AttemptStep)
    ensures
        step matches AttemptStep::Request(request) && asks_for(request, text@, voice),
{
    match build_request(text, voice, SpeechModel::Tts1) {
        Ok(request) => AttemptStep::Request(request),
        Err(cause) => AttemptStep::Failed(AttemptError::Build(cause)),
    }
}

// ---------------------------------------------------------------------------
// The steps
// ---------------------------------------------------------------------------

/// Why an attempt failed. The causes are the texts of the errors below.
#[derive(Debug)]
pub enum AttemptError {
    Build(String),
    Request(String),
    RequestTimedOut,
    TempFile(String),
    Save(String),
    SaveTimedOut,
}

/// The file that is played.
#[derive(Clone, Copy, Debug, PartialEq, Eq, Structural)]
pub enum AudioFile {
    /// The audio as it came.
    Segment,
    /// The audio at another speed.
    SpedUp,
}

/// What comes next in an attempt.
#[derive(Debug)]
pub enum AttemptStep {
    /// Send this request, and wait for the answer.
    Request(CreateSpeechRequest),
    /// Create this file.
    Create(AudioFile),
    /// Save the answer to the segment's file.
    Save,
    /// Make the second file of the first.
    AdjustSpeed,
    /// The attempt succeeded; play this file.
    Done(AudioFile),
    /// The attempt failed.
    Failed(AttemptError),
    /// The attempt cannot go on, nor can any other: panic with this message.
    Fatal(String),
}

/// How something went that is waited for only so long.
#[derive(Debug)]
pub enum Awaited {
    Done,
    Failed(String),
    TimedOut,
}

/// How the command that adjusts the speed went.
#[derive(Clone, Copy, Debug, PartialEq, Eq, Structural)]
pub enum CommandOutcome {
    Succeeded,
    /// It ran, and reported a failure.
    Unsuccessful,
    /// There is no such command.
    NotFound,
    /// It could not be run.
    CouldNotRun,
}

/// After the request.
pub fn after_request(outcome: Awaited) -> (step: AttemptStep)
    ensures
        step == (match outcome {
            Awaited::Done => AttemptStep::Create(AudioFile::Segment),
            Awaited::Failed(cause) => AttemptStep::Failed(AttemptError::Request(cause)),
            Awaited::TimedOut => AttemptStep::Failed(AttemptError::RequestTimedOut),
        }),
{
    match outcome {
        Awaited::Done => AttemptStep::Create(AudioFile::Segment),
        Awaited::Failed(cause) => AttemptStep::Failed(AttemptError::Request(cause)),
        Awaited::TimedOut => AttemptStep::Failed(AttemptError::RequestTimedOut),
    }
}

/// After a file was created, or could not be.
pub fn after_create(file: AudioFile, created: Result<(), String>) -> (step: AttemptStep)
    ensures
        step == (match created {
            Ok(_) => match file {
                AudioFile::Segment => AttemptStep::Save,
                AudioFile::SpedUp => AttemptStep::AdjustSpeed,
            },
            Err(cause) => AttemptStep::Failed(AttemptError::TempFile(cause)),
        }),
{
    match created {
        Ok(_) => match file {
            AudioFile::Segment => AttemptStep::Save,
            AudioFile::SpedUp => AttemptStep::AdjustSpeed,
        },
        Err(cause) => AttemptStep::Failed(AttemptError::TempFile(cause)),
    }
}

/// After the audio was saved: at speed 1 it is played as it is.
pub fn after_save(outcome: Awaited, speed: Single) -> (step: AttemptStep)
    ensures
        step == (match outcome {
            Awaited::Done => if speed == single::one_value() {
                AttemptStep::Done(AudioFile::Segment)
            } else {
                AttemptStep::Create(AudioFile::SpedUp)
            },
            Awaited::Failed(cause) => AttemptStep::Failed(AttemptError::Save(cause)),
            Awaited::TimedOut => AttemptStep::Failed(AttemptError::SaveTimedOut),
        }),
{
    match outcome {
        Awaited::Done => if speed == Single::one() {
            AttemptStep::Done(AudioFile::Segment)
        } else {
            AttemptStep::Create(AudioFile::SpedUp)
        },
        Awaited::Failed(cause) => AttemptStep::Failed(AttemptError::Save(cause)),
        Awaited::TimedOut => AttemptStep::Failed(AttemptError::SaveTimedOut),
    }
}

/// After the speed was adjusted. Without the command there is no speech at any speed but
/// 1, so its failure is fatal.
pub fn after_adjusting(outcome: CommandOutcome) -> (step: AttemptStep)
    ensures
        match outcome {
            CommandOutcome::Succeeded => step == AttemptStep::Done(AudioFile::SpedUp),
            CommandOutcome::NotFound => step matches AttemptStep::Fatal(message) && message@
                == "ffmpeg not found. Please install ffmpeg and add it to your PATH"@,
            CommandOutcome::Unsuccessful | CommandOutcome::CouldNotRun => step matches
                AttemptStep::Fatal(message) && message@ == "ffmpeg failed to adjust audio speed"@,
        },
{
    match outcome {
        CommandOutcome::Succeeded => AttemptStep::Done(AudioFile::SpedUp),
        CommandOutcome::NotFound => AttemptStep::Fatal(
            "ffmpeg not found. Please install ffmpeg and add it to your PATH".to_owned(),
        ),
        CommandOutcome::Unsuccessful | CommandOutcome::CouldNotRun => AttemptStep::Fatal(
            "ffmpeg failed to adjust audio speed".to_owned(),
        ),
    }
}

/// The arguments that make a copy of `input` at another speed, in `output`. The codec and
/// the bit rate are given because the quality goes down without them.
pub fn adjusting_arguments(input: &str, output: &str, speed: &str) -> (args: Vec<String>)
    ensures
        sentence::texts(args@) == seq![
            "-y"@,
            "-i"@,
            input@,
            "-codec:a"@,
            "libmp3lame"@,
            "-b:a"@,
            "160k"@,
            "-filter:a"@,
            "atempo="@ + speed@,
            "-vn"@,
            output@,
        ],
{
    let mut tempo = "atempo=".to_owned();
    tempo.append(speed);
    let mut args: Vec<String> = Vec::new();
    args.push("-y".to_owned());
    args.push("-i".to_owned());
    args.push(input.to_owned());
    args.push("-codec:a".to_owned());
    args.push("libmp3lame".to_owned());
    args.push("-b:a".to_owned());
    args.push("160k".to_owned());
    args.push("-filter:a".to_owned());
    args.push(tempo);
    args.push("-vn".to_owned());
    args.push(output.to_owned());
    args
}

// ---------------------------------------------------------------------------
// Messages
// ---------------------------------------------------------------------------

/// What is said of a failed attempt.
pub open spec fn error_text(err: AttemptError) -> Seq<char> {
    match err {
        AttemptError::Build(cause) => "Failed to build speech request: "@ + cause@,
        AttemptError::Request(cause) => "speech request failed: "@ + cause@,
        AttemptError::RequestTimedOut => "speech request timed out after 15s"@,
        AttemptError::TempFile(cause) => "Failed to create temp file: "@ + cause@,
        AttemptError::Save(cause) => "Failed to save ai speech to file: "@ + cause@,
        AttemptError::SaveTimedOut => "Saving ai speech to file timed out after 10s"@,
    }
}

/// What is said when a sentence is given up.
pub open spec fn notice_text(err: AttemptError) -> Seq<char> {
    "Failed to turn text to speech after up to "@ + text::decimal(TTS_MAX_ATTEMPTS as nat)
        + " attempts: "@ + error_text(err)
}

fn with_cause(message: &str, cause: &str) -> (out: String)
    ensures
        out@ == message@ + cause@,
{
    let mut out = message.to_owned();
    out.append(cause);
    out
}

impl AttemptError {
    /// The error as a text.
    pub fn message(&self) -> (out: String)
        ensures
            out@ == error_text(*self),
    {
        match self {
            AttemptError::Build(cause) => with_cause(
                "Failed to build speech request: ",
                cause.as_str(),
            ),
            AttemptError::Request(cause) => with_cause("speech request failed: ", cause.as_str()),
            AttemptError::RequestTimedOut => "speech request timed out after 15s".to_owned(),
            AttemptError::TempFile(cause) => with_cause(
                "Failed to create temp file: ",
                cause.as_str(),
            ),
            AttemptError::Save(cause) => with_cause(
                "Failed to save ai speech to file: ",
                cause.as_str(),
            ),
            AttemptError::SaveTimedOut => "Saving ai speech to file timed out after 10s".to_owned(),
        }
    }
}

/// The notice of a sentence that is given up, with the error of the last attempt.
pub fn failure_notice(err: &AttemptError) -> (out: String)
    ensures
        out@ == notice_text(*err),
{
    let mut out = "Failed to turn text to speech after up to ".to_owned();
    text::push_decimal(&mut out, TTS_MAX_ATTEMPTS as u64);
    out.append(" attempts: ");
    let message = err.message();
    out.append(message.as_str());
    out
}

// ---------------------------------------------------------------------------
// Laws
// ---------------------------------------------------------------------------

/// A request asks for one text in one voice: the text that is spoken is the whole of it, the
/// voice is the one that was chosen, and neither can be another's.
pub proof fn law_request_is_for_the_text(
    request: CreateSpeechRequest,
    text: Seq<char>,
    voice: Voice,
)
    requires
        asks_for(request, text, voice),
    ensures
        request.input@ == text,
        request.voice == voice,
        request.model == SpeechModel::Tts1,
        request.speed is None,
        request.instructions is None,
        request.response_format is None,
        forall|other: Seq<char>, other_voice: Voice| #[trigger]
            asks_for(request, other, other_voice) ==> other == text && other_voice == voice,
{
}

/// `text` ends with `end`.
pub open spec fn ends_with(text: Seq<char>, end: Seq<char>) -> bool {
    end.len() <= text.len() && text.skip(text.len() - end.len()) == end
}

/// What is said of a failure gives its cause whole, and two failures of one kind are told
/// apart by their causes; a wait that was too long names how long it was.
pub proof fn law_errors_give_their_cause(cause: String, other: String)
    ensures
        ends_with(error_text(AttemptError::Build(cause)), cause@),
        ends_with(error_text(AttemptError::Request(cause)), cause@),
        ends_with(error_text(AttemptError::TempFile(cause)), cause@),
        ends_with(error_text(AttemptError::Save(cause)), cause@),
        error_text(AttemptError::Build(cause)).len() - cause@.len() == error_text(
            AttemptError::Build(other),
        ).len() - other@.len(),
        error_text(AttemptError::Request(cause)).len() - cause@.len() == error_text(
            AttemptError::Request(other),
        ).len() - other@.len(),
        error_text(AttemptError::TempFile(cause)).len() - cause@.len() == error_text(
            AttemptError::TempFile(other),
        ).len() - other@.len(),
        error_text(AttemptError::Save(cause)).len() - cause@.len() == error_text(
            AttemptError::Save(other),
        ).len() - other@.len(),
        error_text(AttemptError::RequestTimedOut) == "speech request timed out after "@
            + text::decimal(REQUEST_TIMEOUT_S as nat) + "s"@,
        error_text(AttemptError::SaveTimedOut) == "Saving ai speech to file timed out after "@
            + text::decimal(SAVE_TIMEOUT_S as nat) + "s"@,
{
    let c = cause@;
    assert(error_text(AttemptError::Build(cause)).skip(
        error_text(AttemptError::Build(cause)).len() - c.len(),
    ) =~= c);
    assert(error_text(AttemptError::Request(cause)).skip(
        error_text(AttemptError::Request(cause)).len() - c.len(),
    ) =~= c);
    assert(error_text(AttemptError::TempFile(cause)).skip(
        error_text(AttemptError::TempFile(cause)).len() - c.len(),
    ) =~= c);
    assert(error_text(AttemptError::Save(cause)).skip(
        error_text(AttemptError::Save(cause)).len() - c.len(),
    ) =~= c);
    reveal_strlit("speech request timed out after 15s");
    reveal_strlit("speech request timed out after ");
    reveal_strlit("Saving ai speech to file timed out after 10s");
    reveal_strlit("Saving ai speech to file timed out after ");
    reveal_strlit("s");
    reveal_with_fuel(text::decimal, 3);
    assert(text::decimal(15) =~= seq!['1', '5']);
    assert(text::decimal(10) =~= seq!['1', '0']);
    assert(error_text(AttemptError::RequestTimedOut) =~= "speech request timed out after "@
        + text::decimal(REQUEST_TIMEOUT_S as nat) + "s"@);
    assert(error_text(AttemptError::SaveTimedOut) =~= "Saving ai speech to file timed out after "@
        + text::decimal(SAVE_TIMEOUT_S as nat) + "s"@);
}

/// The notice of a sentence that is given up says how often it was tried at most, and gives
/// the error of the last attempt whole.
pub proof fn law_notice_gives_the_error(err: AttemptError)
    ensures
        ends_with(notice_text(err), error_text(err)),
        notice_text(err).take(notice_text(err).len() - error_text(err).len())
            == "Failed to turn text to speech after up to "@ + text::decimal(
            TTS_MAX_ATTEMPTS as nat,
        ) + " attempts: "@,
{
    let n = notice_text(err);
    let e = error_text(err);
    assert(n.skip(n.len() - e.len()) =~= e);
    assert(n.take(n.len() - e.len()) =~= "Failed to turn text to speech after up to "@
        + text::decimal(TTS_MAX_ATTEMPTS as nat) + " attempts: "@);
}

/// A slow attempt is raced before it is given up, after four seconds, and there is a second
/// one to race it with and a third for when one of them fails.
pub proof fn law_hedge_comes_in_time()
    ensures
        TTS_MAX_ATTEMPTS == 3,
        TTS_HEDGE_DELAY_S == 4,
        0 < TTS_HEDGE_DELAY_S < REQUEST_TIMEOUT_S,
        TTS_HEDGE_DELAY_S < SAVE_TIMEOUT_S,
        TTS_MAX_ATTEMPTS >= 2,
{
}

} // verus!
