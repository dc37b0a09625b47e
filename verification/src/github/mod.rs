//! Packages released on GitHub: which release may be installed, what its
//! bytes must be, how its provenance is checked, and how one is published.
pub mod attestation;
pub mod digest;
pub mod hosts;
pub mod location;
pub mod problem;
pub mod publish;
pub mod release;
pub mod report;
pub mod review;
pub mod version;

pub use problem::{Failure, Problem};
pub use version::Version;
