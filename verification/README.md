# lib: a verified price-time priority matching engine

The library keeps, per symbol, an order book with limit, stop and
trailing-stop sides, and the live orders; every operation is proved to keep
the book and the orders in agreement (`ExecutionContext::wf`,
`MarketExecutor::wf`).

Modules under `src/`:

- `order`: orders, their validation and iceberg split.
- `level`, `levels`: price levels and sorted sides of levels.
- `order_book`: the book's sides and market prices.
- `consistency`, `volumes`: the agreement invariant and volume measures.
- `orders`: the live orders by id.
- `engine`: the engine of one symbol and its basic reduce/insert steps.
- `matching`: matching of incoming orders, all-or-none chains.
- `activation`: stop activation, trailing stops, matching the book.
- `operations`: adding, reducing, executing, modifying, replacing and
  deleting orders.
- `market`: symbols, books by symbol and the market-wide operations.
- `laws`: properties that relate several operations.
- `handler`: the market handler's counters.

Contracts are stated over spec functions; for instance `matched` says what
matching an incoming order does, including price-time priority, and
`lemma_matching_priority` states that priority as a law.
