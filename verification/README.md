# audiolink-engine

The decision logic of the AudioLink audio streaming engine, written in Verus and
proved against its contracts. Every module states its rules over plain integers
(time in microseconds on a monotonic clock) and proves them; the sockets, audio
devices, threads and floating-point sample processing stay with the caller.

Layout:

- `src/` — the verified library, one module per concern: `session` and
  `reconnect` (session state machine, link recovery), `handshake` (pairing and
  capability negotiation), `clock` (clock probes), `dispatch` and `payload`
  (control frames), `control` (stream bookkeeping), `sender` (send-side
  routing and the once-a-second depth tick), `adaptive` (bitrate),
  `jitter`, `nack`, `receive`, `backlog`, `tick`, `epoch`, `playout`,
  `watchdog`, `gain`, `silence`, `stream` (receive and playout path), `measure`,
  `telemetry`, `format_guard` and `group` (sync groups). Laws that relate
  several operations are public proof functions named `law_*`.
- `tests/` — executable tests of the library.
- `app/` — floating-point and clock helpers around the library.
