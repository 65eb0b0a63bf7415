//! Mempool transaction radar: decoding, enrichment, scoring and signal history
//! for a live stream of unconfirmed bitcoin transactions.
//!
//! Real-valued quantities of the domain are carried as fixed-point integers:
//! confidences in basis points (10000 = 1.0), rule values in millionths,
//! rule weights in thousandths, composite scores in hundredths of a point and
//! fee rates in thousandths of a satoshi per virtual byte.

pub mod model;
pub mod tx;
pub mod rules;
pub mod score;
pub mod signals;
pub mod mempool;
pub mod tags;
pub mod store;
pub mod resolver;
pub mod pipeline;
pub mod ingest;
pub mod config;
pub mod notifications;
pub mod rpc;
pub mod text;
mod clock;
pub mod coinjoin;
