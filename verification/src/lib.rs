//! A micro-benchmark harness: the workloads it times, the way it splits
//! work between workers, and the decisions of its background sampler.

pub mod digest;
pub mod fan_in;
pub mod partition;
pub mod primes;
pub mod report;
pub mod run;
pub mod sampler;
pub mod snapshot;
pub mod source;
pub mod worker;
