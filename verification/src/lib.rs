//! Core of a capability-based WebAssembly microkernel.
//!
//! Every program runs as an isolated process; all communication goes
//! through asynchronous messages addressed to named interfaces. The crate
//! holds the verified heart of such a kernel: the identifier types and the
//! random id pool, the wire format of delivered messages, the decoder for
//! the five IPC extrinsics, the IPC core itself (interface registry,
//! per-process message queues, outstanding-response table, delivery and
//! cleanup), the system layer that hosts the kernel-internal handlers and
//! the loader integration, and the registry for native programs. The
//! WebAssembly engine stays outside: the embedder feeds typed intents in
//! and carries the returned actions back into it.

pub mod id_pool;
pub mod ids;
pub mod ipc;
pub mod le;
pub mod native;
pub mod parser;
pub mod signature;
pub mod system;
pub mod wire;

use vstd::prelude::*;

verus! {

} // verus!
