# metering

A Verus library for transaction metering on a flashblocks chain. It records what executed
transactions consumed (gas, execution time, state-root time, data-availability bytes), keeps the
records of the most recent blocks, and works out which priority fee a bundle has to pay to find
room among them. What is in `src/` is verified, but for the wrappers named below, whose contracts
are taken on trust; the contracts speak of mathematical models of the data.

## Layout

- `transaction`, `u256`, `resource`, `order`: the basic values, running totals, ordering by fee.
- `flashblock`, `block`, `cache`: the records of flashblocks and blocks, and the bounded cache.
- `inclusion`, `pool`, `streams`, `annotator`: matching inclusion messages with metered
  transactions.
- `estimates`, `estimator`, `rolling`: fee estimates for a flashblock, a block and the recent
  blocks.
- `sizing`, `decimal`, `bundle`, `kafka`, `execution`, `rpc`, `settings`: sizes of encoded
  transactions, the events of accepted bundles, the report of a simulated bundle, the answers of
  the RPC methods, the options of the node.
- `cache_laws`, `estimator_laws`, `agreement_laws`, `stream_laws`: what holds across calls, as
  proof functions.
- `indexed`: the insertion-ordered hash map, as far as the library relies on it.

The outside functions that the library calls stand behind wrappers with stated contracts:
insertion-ordered maps (`indexed`), 256-bit division and decimal text (`decimal`), the FastLZ size
estimate (`sizing`), Keccak-256 (`inclusion`), and `get_mut` of two standard collections (`block`,
`cache`).

`app/` is the node around the library: command line, Kafka consumer, channels and locks, the RPC
server, and the percentile, which is computed in floating point and handed to the estimator as a
function from the last position to the chosen one.
