//! A small feed-polling service core: a durable source-to-document record
//! store with a text codec, fetch-outcome classification and routing, and the
//! scheduler state machine that paces fetch rounds and honours cancellation.

pub mod errors;
pub mod store;
pub mod codec;
pub mod fetch;
pub mod serve;
pub mod schedule;
