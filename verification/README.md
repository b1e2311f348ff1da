# di

A type-keyed dependency injection container.

- `src/` is the verified core. `container.rs` holds the container's state
  (providers, built values, invokables, resolution path) and the steps that
  resolve a type: `begin_get`, then `finish_build` or `close_cached`. Their
  contracts are written over an abstract view, and the laws (caching, cycle
  detection, replacement of providers, the path is restored) are proof
  functions over that view. `invoke.rs` hands out the registered invokables in
  order until one fails; a run that finishes is used up. `error.rs` holds the error types and the text of a
  dependency cycle.
- `app/` is the asynchronous container that users call: it maps Rust types to
  the core's keys, runs providers and invokables, and carries the error types
  with their `std::error::Error` impls.
- `tests/` drives the core as the asynchronous container does.
