//! Verified core of a compute-kernel gateway: a port-segment allocator, an
//! in-memory kernel registry, and the launch / kill / restart lifecycle
//! transitions, with their invariants proved. The surrounding HTTP layer and
//! the operating-system calls (socket probes, process spawn and signalling)
//! live outside this library and hand their outcomes in as plain values.

pub mod kernel_manager;
pub mod props;
pub mod response;
