//! Approximate-membership and cardinality sketches for stream processing:
//! a Bloom filter (set membership with no false negatives), a Count-Min
//! Sketch (frequency counts that never undercount), and a HyperLogLog
//! (distinct-count estimation), sharing a double-hashing index derivation.

pub mod bloom_filter;
pub mod count_min_sketch;
pub mod hyper_log_log;
pub mod utils;
