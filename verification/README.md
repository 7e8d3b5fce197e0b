# SpeakStream

Streaming text-to-speech. Feed tokens as they arrive and hear them spoken, sentence by
sentence, while other applications play quieter.

- `src/` is the library, verified with [Verus](https://github.com/verus-lang/verus): how
  sentences are cut out of a token stream, how attempts to convert them are raced, what the
  playback does next, and how the volumes of other applications are lowered and given back.
- `app/` is what surrounds it: the threads and tasks, the speech endpoint, the loudspeaker,
  the files and the audio sessions.
- `tests/` runs the library.

The library holds no floating-point numbers. It carries their bit patterns, whose order it
knows; the few places that need arithmetic take it as a function.

## Ducking

An application's original volume is recorded before it is lowered, in a file that all
processes share, and stays on record until it has been put back. The laws in
`src/audio_ducking/laws.rs` say what follows: no volume is lowered whose original is not on
disk, an original is never replaced by a lowered value, whoever speaks is not ducked, and a
process that dies while it ducks is made good for by any other.

| Variable | Effect |
| --- | --- |
| `SPEAKSTREAM_DUCK_DISABLE=1` | This process lowers no volume and repairs none. Restores still run. |
| `SPEAKSTREAM_NO_MIGRATION=1` | Damage of older versions is left alone. |
| `SPEAKSTREAM_DUCK_LOG=<path>` | What the guardian decides is appended to a file. |
| `SPEAKSTREAM_STATE_DIR=<dir>` | The state file and the lock file are kept there. |
