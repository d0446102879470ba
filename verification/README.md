# ico

Initial coin offerings on a multi-currency ledger, verified with Verus.

A project reserves the tokens it offers and pledges native currency; once
governance approves, accounts pay in an exchange token at a fixed ratio and
receive project tokens in their reserve. Raised funds and bought tokens are
released in proportions governance approves, partly under time locks, and
participants of an ended offering claim a reward weighted by how early they
joined.

Layout:

- `src/arith.rs`: 256-bit `a * b / c` and percentages, through
  `primitive-types` and `sp-arithmetic`, with their contracts.
- `src/types.rs`: the records the store keeps, origins, events and errors.
- `src/ledger.rs`: free, reserved and frozen balances per asset and account.
- `src/reward.rs`: cutting contributions into tenths and weighting them.
- `src/pallet.rs`: the store and every call, each with an exact contract
  over the store's mathematical view.
- `src/laws.rs`: properties that span calls (pledge round trips, what a
  rejection or a cancellation costs, conservation of transfers, ...).
- `tests/`: scenarios on concrete values.
- `app/lib.rs`: SCALE-encodable copies of the stored records.
