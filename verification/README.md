# autosample

An autosampler: it plays notes on a MIDI instrument, records each one from an
audio input, trims, normalises and fades the takes, and writes them as WAV
and/or MP3 files named and filed by note, velocity and round-robin take.

The library (`src/`) holds the decisions, each with a contract proved by
Verus:

- `parse`, `midi_note`: reading note and velocity selections (`C2..C6`,
  `127..1:8`, `127,100,64`) and naming notes and files.
- `engine`, `session`: the job list, where each take is written, the session
  loop (resume, cancel, outcomes), the capture of one take (preroll, hold,
  tail) and the buffer sizes.
- `midi`, `audio`: MIDI messages, port and input selection, the port cache
  and the retry pauses of MIDI initialisation.
- `ringbuf`, `dsp`, `takes`: the capture buffers, which frames a trim keeps,
  normalisation modes, fade lengths and export steps.
- `state`, `control`: the graphical front end's state (device refresh,
  permission, progress, log) and its run control.
- `text`, `types`: string helpers and shared types.

`app/` is the command-line program: device I/O, audio, files and the
floating-point level work around the library. `tests/` exercises the
library.
