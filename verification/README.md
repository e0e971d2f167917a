# chainhook-observer

The decision logic of a chain event observer, written in Verus and proved
against its contracts. An observer takes commands (blocks to cache, chain events
to propagate, predicates to register, enable, expire and drop), has predicates
evaluated and their actions carried out, and reports to a listener, a sidecar
and a monitoring.

## Layout

- `src/` is the verified library.
  - `transition` describes the observer as a state machine, and `observer`
    implements it. `protocol` holds the inputs and actions that it exchanges with
    its driver.
  - `blocks` caches Bitcoin blocks and assembles chain events from their headers;
    `hooks` is the store of predicates; `triggers` counts occurrences; `report`
    records what an evaluation found; `proofs` decides which proofs to ask for;
    `metrics` and `sidecar` work out what the monitoring and the sidecar are told.
  - `config` and `startup` decide how an observer is set up.
  - `laws` proves what holds of the library as a whole.
  - `outside` holds everything that is taken on trust: the types of
    `crossbeam_channel` that are carried through, `hex::encode`, and the parsing
    of transaction and block hashes by `bitcoincore_rpc`.
- `tests/` runs the library on concrete values.
- `app/` is ordinary Rust around the library: the loop that drives the observer,
  its threads, channels and ingestion server, and the calls to the Bitcoin node.

## Driving the observer

`Observer::step` takes an input and hands out actions, to be performed in order.
Where the last action asks for something, the answer is the next input. The
observer takes its next command once it is idle, and no input once it is
terminated. `Observer::accepts` tells whether an input is the one waited for.
