# igrok

Verified core of the `igrok` terminal agent's local tooling:

- `igrok usage`: reading per-turn usage records into per-group, per-model
  tallies (sorted maps), the report table, and the price-cache decisions
  (`src/usage*.rs`, `src/json.rs`, `src/order.rs`).
- Token and duration formatting, including an exact integer model of the
  binary64 rounding that `{:.1}k` / `{:.2}M` go through (`src/binary64.rs`,
  `src/usage_format.rs`, `src/text.rs`).
- models.dev catalog expansion into model entries, collected in an
  `indexmap::IndexMap` whose insertion the contracts describe
  (`src/dev_catalog.rs`); the `%Y-%m-%d` day keys of the usage report are
  described over the Gregorian calendar (`src/calendar.rs`).
- Telemetry: the fail-closed settings switch of the external stream, git
  context, and inert exporter / error-reporting stubs (`src/telemetry/`).

`app/` holds the program shell: command-line types, files, network,
environment, process-wide state, floating-point prices and printing.

The usage tallies keep their groups, and each group its models, in `Vec`s
sorted by key, with that order and the uniqueness of keys as the type's
invariant. Verus's specification of std's `BTreeMap` describes key order
and lookups only for key types whose `Ord` it knows to obey its comparison
specification; `String`, the key type here, is not among them.
