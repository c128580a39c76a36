# rstock

The verified core of rstock, a command-line portfolio tracker: asset and
transaction models, the canonical transaction ledger, market-data freshness
and coverage, forward filling of cached prices, reading and
planning the transaction CSV import, the preparation of current
positions, the NAV rebuild (its window, valuation intervals, exchange-rate
needs and the prefix of days that can be valued), the fund-analysis
decisions and the matching of holdings two funds have in common.

Every function under `src/` carries a contract, and Verus proves it,
except for the few small wrappers (marked `external_body`) that call chrono,
base64, serde_json, csv or the standard library, whose contracts are trusted.  Calendar
days are day numbers (January 1 of year 1 is day 1), so date arithmetic is
integer arithmetic; parsing and formatting dates go through chrono.

Layout:

- `src/text.rs`, `src/calendar.rs`, `src/constants.rs`: text, dates and
  constants shared by the rest.
- `src/models/`: assets, classifications, transaction types, market-data
  limitations.
- `src/services/`: the decisions behind each command (ledger, import, market
  data, NAV rebuild, funds, composition, transactions, settings of the data
  sources).
- `app/`: the glue around the library that Verus does not see: reading files
  and the environment, the clock, and the floating-point parts (ledger
  replay, holdings weights, summaries).
- `tests/`: tests of the library on concrete values.
