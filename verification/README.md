# liquid_staking_token

A liquid-staking pool for NEAR: users stake NEAR (or wNEAR) and receive a
liquid staking token (LST) whose value in NEAR grows as validator rewards
are folded in; unstaked NEAR waits out a cooldown in a withdrawal queue and
is then delivered as NEAR or wNEAR.

- `src/` is the verified library (Verus). It holds the pool state, the
  exchange-rate arithmetic (`math`), the withdrawal queue (`requests`), the
  message encoding and hashing (`messages`), the decisions of every entry
  point (`pool`, `staking`, `unstaking`, `withdrawal`, `token`) and the
  properties that span several operations (`laws`). Each entry point takes
  the readings of the chain (epoch, balances, LST supply, promise outcomes)
  as arguments and returns what has to be scheduled.
- `app/` is the NEAR contract around it: storage, the fungible-token
  ledger, access control, promise chains and environment readings.
- `tests/` exercises the library with the real outside crates linked.
