# ironcondor

A deterministic backtesting engine for listed-option strategies, written and
verified in Verus. All money is integer cents, and a run draws its random
numbers from its seed alone.

- `src/domain`: money, time, decimals, contracts, orders, market data and
  strategy specifications.
- `src/engine`: the replay loop and what it keeps: the clock, the books (open
  legs, ledger, trade log, fills and positions, resting orders), the correlation
  of fills with orders, exits and closes, the strategies, scenario batches and
  walks.
- `src/data`, `src/execution.rs`, `src/engine/strategy.rs`: the seams to feeds,
  execution models and strategies. An implementation says what its calls may do
  as a relation; `src/engine/seams.rs` says which calls the loop makes.
- `src/engine/*_laws.rs`: what holds of whole steps and whole runs.
- `app`: wire forms, error messages, the simulator's session request, and
  strategies of `optionstratlib` behind the engine's traits.
- `tests`: the behaviour on concrete values.

Decimal arithmetic, calendar instants, hashing, random numbers, option
strategies and exit policies come from `rust_decimal`, `chrono`, `sha2`,
`rand_chacha` and `optionstratlib`; what is taken on trust of them is stated in
the contract of the function that makes the call.
