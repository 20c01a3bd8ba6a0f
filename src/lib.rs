//! eBPF perf-event output and the tooling around it.
//!
//! - `record`, `ring`: the layout of perf records and the consumer side of
//!   the per-CPU perf ring, with a producer side for rings held in memory.
//! - `channel`: the lifecycle of one per-CPU perf channel.
//! - `cpus`: the kernel's list of online CPUs.
//! - `flags`, `maps`: what a probe declares and passes when it emits events.
//! - `artefacts`, `bindings`, `scaffold`: names and decisions of the build
//!   and project tooling.
use vstd::prelude::*;

pub mod artefacts;
pub mod bindings;
pub mod channel;
pub mod cpus;
pub mod flags;
pub mod maps;
pub mod record;
pub mod ring;
pub mod scaffold;

verus! {

} // verus!
