# rtpsip

Real-time media for telephone calls, verified with Verus: RTP packets and G.711,
an adaptive jitter buffer, telephone events, SRTP and SRTCP, RTCP reports,
voice activity detection, packet loss concealment, sample rate conversion, and
the states of a call.

- `src/` is the library. Every function carries a contract over a mathematical
  model of its data; the `law_` functions state what holds across functions.
  What other crates compute stands behind small functions marked
  `external_body`, each with a comment on what is taken on trust.
- `app/` holds what the library is driven by: sockets, tasks and channels,
  clocks, and floating point.
- `tests/` runs the library on concrete values.

Moments come in as nanoseconds of one monotonic clock; only the wall clock of
control reports is read within the library.
