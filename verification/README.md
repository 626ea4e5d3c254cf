# lsa-sentinel, verified core

Decides whether 0patch's lsass-targeted micropatch coverage on a Windows host
is live (OPEN-COVERED), silently inert (BLOCKED-INERT), moot, or undecidable
(INDETERMINATE), from three signals: LSA Protection state, loader presence and
outstanding lsass patches.

- `src/model.rs`: signal and verdict types, their ABI codes, exit codes, tags.
- `src/classify.rs`: the classifier and its laws.
- `src/collectors/parse.rs`: parsers for `reg query` output, CodeIntegrity
  event text, the 0patch agent log, and UTF-16LE decoding of that log.
- `src/collectors/live.rs`: what the live collectors decide from what they read.
- `src/collectors/snapshot.rs`: the `key = value` snapshot collector.
- `src/report.rs`: the operator line and the machine line.
- `src/text.rs`, `src/utf16.rs`: text and UTF-16 specifications and helpers.
- `app/`: the command-line program, the Windows I/O, and the optional binding
  to an external classifier core over the C ABI.
