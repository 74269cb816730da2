//! A syscall driver that lets processes run AES-128 (CTR, CBC, ECB and CCM)
//! operations on a shared hardware engine, one process at a time.

pub mod error;
pub mod bytes;
pub mod grant;
pub mod hil;
pub mod driver;
pub mod setup;
pub mod queue;
pub mod syscall;
pub mod client;
pub mod laws;
