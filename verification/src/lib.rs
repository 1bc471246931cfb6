//! Replication-variance estimation for complex-survey microdata.
//!
//! The library computes point estimates under a family of replicate weights
//! and across multiple imputations, and decides everything around that
//! computation that can be stated exactly: the data model, the grouping
//! partition, the listwise-delete pre-processor, the estimator selection
//! with its option snapshots, the dimension rules and error taxonomy, the
//! parameter-name lists, the server's command grammar and the data
//! channel's wire format.
//!
//! Every f64 value travels through the library as its IEEE 754 bit pattern
//! (see [`bits`]), which keeps the contracts bit-exact: NaN handling, group
//! keys and value ordering are all pinned down.  The floating-point
//! arithmetic of the estimator kernels and of the Rubin combination is
//! performed by the caller on the values behind the patterns, under the
//! shapes and rules this crate proves.

pub mod analysis;
pub mod bits;
pub mod codec;
pub mod data_preparation;
pub mod errors;
pub mod estimates;
pub mod external;
pub mod helper;
pub mod matrix;
pub mod protocol;
pub mod replication;
pub mod text;
