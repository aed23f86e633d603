//! Verified core of a small x86-64 microkernel: user-memory validation
//! over a page-table model, the task scheduler, IPC endpoints, the service
//! registry and shared memory, the syscall and trap routing, SHA-256, the
//! SimpleFS and package formats, and the computations of the VirtIO block
//! and network drivers.

pub mod strbuf;
pub mod usermem;
pub mod kernel;
pub mod sha256;
pub mod net;
pub mod virtio;
pub mod fs;
pub mod desc;
