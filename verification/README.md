# wickra-screener-core

A multi-symbol market screener: a scan specification (a universe of symbols, a
condition tree over indicator and price expressions, an optional ranking and
limit) is folded over every symbol's candle history and evaluated at the latest
bar, producing a deterministic report of the matches, the values that explain
them, and the symbols that were missing or stale.

## Layout

- `src/` — the verified library. Verus proves every function's contract but
  those of three small wrappers around outside calls (the indicator registry's
  feed lookup, serde_json's string literal, and `String::push`), whose
  contracts are trusted:
  - `spec` — the specification types, structural validation, the feed families
    a spec needs and the check against what a scan supplies, the missing list;
  - `expr` — expressions and their canonical keys and lookbacks;
  - `feeds` — feed families (the indicator registry's answer, refined by the
    pairwise list) and the per-symbol feed-length check;
  - `indicators` — the indicators a spec needs resolved, once per base key;
  - `window` — the bounded window of recent bars, how deep a spec needs it,
    and the new-high and new-low window of a breadth member;
  - `signal` — the point-and-figure buy signal read off completed columns;
  - `compare` — the order comparisons, crossovers and ranges of a condition;
  - `schedule` — the lockstep walk of a universe over the union of its
    timestamps;
  - `scan` — which symbols are scanned, stale or folded in lockstep;
  - `rank` — the order of the matches and the cross-section rank and count;
  - `explain` — which values a report shows for a match, under which keys;
  - `render` — the text table of a report;
  - `protocol` — command names, response envelopes and the two-call delivery
    rule of the C ABI;
  - `cli` — the command line;
  - `num`, `text`, `error` — doubles carried by their bits, decimal and JSON
    text, and the error type.
- `app/` — the `wickra-screener` program around the library: argument and file
  handling, the serde documents, indicator folding and condition evaluation
  over doubles, the streaming screener, and the live exchange source.
- `tests/` — tests of the library on concrete values.
