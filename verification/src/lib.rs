//! A staging buffer for signed transactions and the pipeline that validates
//! them: a store with one writer and many readers (`mempool`), the record and
//! its signature (`tx`, `signing`), its stored form (`encoding`, `text`,
//! `numeral`), the workers and their shares of the key space (`worker`,
//! `partition`), and the aggregator of their confirmations (`aggregator`,
//! `confirmations`).
pub mod aggregator;
pub mod confirmations;
pub mod encoding;
pub mod mempool;
pub mod numeral;
pub mod partition;
pub mod random;
pub mod signing;
pub mod text;
pub mod tx;
pub mod vpu;
pub mod worker;
