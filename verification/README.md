# query_plan

Query plans for a federated GraphQL router: how they are made of fetch steps, how they are laid out
for reading, and how they are run. The library is written in Verus; what its functions do is stated
in their contracts and proved.

- `src/` is the library. It decides what runs when, what is asked of a subgraph and what becomes of
  the answers. It sends no request itself: a driver asks `Execution` for the next step, prepares
  jobs, and hands back what came of them. It does not hold the objects of the response either, but
  works on them through the trait `Objects`.
- `app/` is such a driver, with asynchronous requests, tracing, and the JSON form of plans.
- `tests/` runs the library on concrete plans.

Some statements span functions and stand as public proof functions of their own, such as
`sequence_order_is_kept`, `explicit_order_is_kept` and `no_node_is_forgotten` in `src/progress.rs`,
`work_holds_all_fetches` in `src/order.rs`, `every_object_finds_its_entity` in `src/entities.rs` and
`no_error_is_lost` in `src/context.rs`.

The library relies on three functions of other crates, each behind a function whose contract is
believed: the XXH3 hash of a query text, the test whether a JSON value is a boolean, and the
appending of bytes to a buffer.
