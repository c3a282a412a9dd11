//! Verified newline counting over byte-range partitions of a file.
//!
//! The library counts occurrences of the newline delimiter (`0x0A`) in a byte
//! buffer, either with a single sequential scan or by splitting the buffer
//! into contiguous partitions, scanning them concurrently, and summing the
//! partial counts. Both modes are proved to return exactly the number of
//! delimiter bytes in the input, so they are provably equivalent.

pub mod chunks;
pub mod scan;
