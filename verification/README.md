# membrane_contracts

The decision logic of the Membrane CDP periphery contracts, verified with
Verus: every operation states in its contract what it does to the state and
what it answers, over mathematical views of the state.

- `liq_queue`: the liquidation queue. Bids of the debt token on a
  collateral, grouped in premium slots; bids above a slot's threshold wait
  before they activate; a liquidation consumes the slots from the lowest
  premium up, and each bid later claims its share of the collateral through
  the product/sum snapshots.
- `emissions_voting`: graphs voted on with the voting power of locked and
  staked MBRN; the result of a period is the power-weighted average.
- `governance`: proposals, alignment to reach the required stake, quadratic
  voting, ending by quorum and threshold, execution after a delay, and the
  dry run of a proposal's messages.
- `discount_vault`, `liquidity_check`, `discounts`: vaulted LP shares, the
  pooled liquidity of collateral assets, and the value a user holds in the
  system.
- `launch`: the order in which the system's contracts are instantiated,
  what each reply records, and the messages each reply sends as plain
  values (`launch::steps` from the osmosis proxy to the debt auction's
  instantiation, `launch::replies` for the positions contract, the
  liquidation queue, the stableswap pool and the debt auction); the denoms
  and credit pools the replies record, and the owner's configuration
  change.
- `keys`: the byte order in which a key-value store walks string keys, which
  every listed store here follows.
- `math`, `decimal`: 256-bit integers and 18-place decimals, computed by
  `cosmwasm_std` behind small trusted wrappers.
- `decimal256`: the liquidation queue's 18-place decimal over 256 bits,
  built on those `Uint256` operations; its products and quotients are
  formed in 256 bits and refuse what does not fit there.

`app/` holds a few edges: replies, funds and query answers turned into the
library's plain values, the stored credit pools, and the messages a passed
proposal executes. It has no entry points.
