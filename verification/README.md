# purity

Lightweight anti-bot and anti-spam screening for short text publications,
written in Verus. The logic of the library is verified against its contracts;
what it takes from the standard library without proof is listed below.

Three signals are combined into one verdict per publication:

- duplicate detection, by a fingerprint of the trimmed, lowercased text;
- rate limiting, over a sliding time window per author;
- text quality: too short, shouting in capitals, too many links, one
  character repeated too often.

## What is trusted

Five small wrappers around the standard library are marked
`#[verifier::external_body]`: Verus believes their contracts and does not
prove them.

- `char::is_whitespace`: its contract lists the Unicode `White_Space` set.
- `char::is_alphabetic` and `char::is_uppercase`: their results are named
  (`unicode_alphabetic`, `unicode_uppercase`), not listed.
- `str::to_lowercase`: its result is named (`lowercase`).
- `<str as Hash>::hash` into a fresh `DefaultHasher`: the bytes it writes are
  named (`str_hash_writes`); `DefaultHasher::new` and `finish` come with
  vstd's own specifications.

## Fingerprints across releases

A fingerprint is the `DefaultHasher` digest of the normalised text. Every
`DefaultHasher::new()` starts from the same state, so one build of the
program always gives the same fingerprint for the same text, across runs and
restarts. The standard library documents, however, that the algorithm behind
`DefaultHasher` may change between Rust releases: fingerprints kept in a
database stay comparable only while the program is built with the same
toolchain.

## Per-author records

The guard keeps one record per author (name, fingerprints seen as a
`HashSet<u64>`, recent action timestamps as a `VecDeque<u64>`) in a `Vec`,
with "no author appears twice" as its type invariant. A
`HashMap<String, _>` keyed by the author would be the usual choice, but
vstd's specifications of `HashMap` hold only for key types that obey its key
model, which vstd establishes for integer and boolean keys and not for
`String`; stating it for `String` would take an unproved assumption. The
price is a scan over the authors on each call.

## Layout

- `src/text.rs`: character-level analysis (trimming, letters and capitals,
  links, longest run of one character) with its specifications.
- `src/fingerprint.rs`: the stateless content fingerprint.
- `src/config.rs`: thresholds; the share of capitals is an exact ratio.
- `src/verdict.rs`: verdicts, their reasons, and the stateless quality analysis.
- `src/guard.rs`: the stateful guard, its abstract model and the proofs that
  its records implement that model.
- `src/history.rs`: the guard over any sequence of calls and resets:
  duplicates and rate limiting as functions of what an author published since
  their last reset, and the shape of the action log.
- `src/laws.rs`: properties spanning a few calls (duplicates, authors being
  independent, resets, the rate window, white space and fingerprints).
- `tests/`: executable tests.
- `app/`: what stays outside the verified library: floating-point ratios and a
  console walk-through of a moderation flow.
