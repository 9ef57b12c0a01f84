# guideme

Type-safe inline judgments from TypeSafe Jev: ask a yes/no question (a *noul*), a choice
among options, or a score on levels, about any piece of state, and get back a `bool`, an
option or a level, decided by thresholds you set.

The library in `src/` is verified with Verus. Numbers that are binary64 on the wire
(probabilities, confidences, thresholds, score values) are held as their bit patterns;
durations are nanoseconds.

- `policy`: thresholds, policy patches, and the reading of each answer (`resolve`).
- `question`: questions as values, how each kind goes on the wire and reads back, the unsure
  ladder (`.or`, then the enum's fallback, then `Error::Unsure`) and `.detail()`.
- `ask`: question shapes (a question, a `Vec`, keyed entries, tuples up to eight), ids
  `q0..qN`, settling every answer of one response.
- `rubric`: rubrics with examples and counterexamples, their rules and their rendering.
- `declare`: the rules of `Choice` and `Levels` declarations, and the option table and level
  list they produce.
- `client`: client settings, the base URL, and the decision after each HTTP attempt
  (retries on `429`, `529` and unreachable servers, backoff, `retry-after`).
- `guide`: the guide and its builder, preparing one request and concluding its response,
  and the answer events.
- `golden`: the published resolution vectors and rubric cases.
- `laws`: properties that span functions, proved.

`app/` performs the I/O around the library: the HTTP exchange and its retry loop, telemetry
with `tracing`, the environment, the JSON forms of the values, and the contract files.
