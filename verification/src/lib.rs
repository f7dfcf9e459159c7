//! Control-plane library for a kernel packet filter: a codec for its
//! fixed-layout records, a decoder and formatter for the connection table,
//! and the transactional protocol that replaces rulesets atomically.
//!
//! - `wire`: integers in network byte order.
//! - `text`: numbers, addresses and names as text.
//! - `addr`: addresses, transport selectors and endpoints, each read under
//!   the discriminant that its record carries elsewhere.
//! - `timeout`: the timeout states of a tracked flow.
//! - `state`: state records, the state table, and the line of an entry.
//! - `rule`, `rule_decode`: filter and translation rules, their builders,
//!   and their record in both directions.
//! - `channel`: the requests and what the replies mean.
//! - `transaction`: the transaction that sequences ticket, staging and
//!   commit.
//! - `memory`: a channel in memory, which answers as the protocol lays
//!   down.
//! - `error`: the failures.
//!
//! Opening the device and issuing requests are the caller's part: the
//! library neither blocks nor retries.

pub mod addr;
pub mod channel;
pub mod error;
pub mod memory;
pub mod rule;
pub mod rule_decode;
pub mod state;
pub mod text;
pub mod timeout;
pub mod transaction;
pub mod wire;
