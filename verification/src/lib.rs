//! A verified transactional payment-settlement job queue.
//!
//! Payments are enqueued as task rows by a trigger; workers lease tasks
//! under at-most-one-processing semantics, settle them against buyer
//! balances and product stock, and acknowledge or fail them with bounded
//! retries.
//!
//! - `model` holds the record types, the tuning constants and the
//!   settlement decision;
//! - `store` holds the four tables as a value (`Store`), their mathematical
//!   view (`Model`), well-formedness, and the seed and publish inserts;
//! - `lease` holds the dispatcher: eligibility, the dispatch order and the
//!   atomic `next`;
//! - `settle` holds the executor: `perform` and its three consistent
//!   outcomes;
//! - `worker` holds the supervisor's admission state machine;
//! - `schema` holds the bootstrap batch and its meaning;
//! - `laws` holds what is proved of all of it: the standing invariants,
//!   their preservation over any history, money and stock conservation, the
//!   no-double-lease guarantee and retry determinism.
//!
//! The process edges — SQL round-trips, the async runtime, the clock — live
//! outside the library and drive it with plain values.

pub mod laws;
pub mod lease;
pub mod model;
pub mod schema;
pub mod settle;
pub mod store;
pub mod worker;
