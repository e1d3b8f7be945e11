# audio_server

The verified core of an exhibition audio server: it plays WAV and realtime sources over many
speakers, sends audio analysis to installation computers over OSC, and takes control and
interaction messages from them over OSC.

- `src/` is the library, verified with Verus: OSC control and interaction parsing, what a
  control message changes (master and source volumes, soundscape play and pause), project
  bookkeeping (paths, ids, default names and installations, WAV discovery, the messages that
  bring the threads in line with a project), the envelopes of sound signals, and the state
  machines of the threads (WAV reader, buffer requester, OSC output, detection buffers and
  installations, output mixer registry and render decisions, the audio monitor).
- `tests/` runs the library on concrete values.
- `app/` is the runtime around it: JSON configuration and project files, UDP sockets for OSC,
  the WAV reader thread and its pool of children, and the channels between threads. It applies
  the control messages it receives and logs the interactions; the GUI, the audio backend and
  the soundscape that would act on them are not part of it.

Floating-point values that pass through the library (OSC float arguments, volumes, analysis
scalars) are carried as the bit patterns of their `f32` values.
