//! Running a command with the operating system's default environment for
//! the current user: decoding of packed environment blocks, and the
//! acquire/release discipline for the resources that produce them.

pub mod block;
pub mod provider;
