//! Flags that a probe passes with each event it emits into a perf map.
use vstd::prelude::*;

verus! {

/// Index that selects the slot of the CPU the probe runs on.
pub const CURRENT_CPU: u32 = 0xffff_ffff;

/// Flags for emitting one event: the slot of the perf map to write to (by
/// default the current CPU's) and the number of bytes of packet data to
/// append to the event.
#[derive(Debug, Copy, Clone, PartialEq, Eq, Structural)]
pub struct PerfMapFlags {
    pub index: Option<u32>,
    pub xdp_size: u32,
}

/// The 64-bit value that the flags stand for: the packet size in the upper
/// half, the slot index in the lower half.
pub open spec fn flags_value(f: PerfMapFlags) -> nat {
    f.xdp_size as nat * 0x1_0000_0000 + match f.index {
        Some(i) => i as nat,
        None => CURRENT_CPU as nat,
    }
}

impl Default for PerfMapFlags {
    fn default() -> (r: Self)
        ensures
            r.index is None,
            r.xdp_size == 0,
    {
        PerfMapFlags { index: None, xdp_size: 0 }
    }
}

impl PerfMapFlags {
    /// Flags that select the current CPU's slot and append no packet data.
    pub fn new() -> (r: Self)
        ensures
            r.index is None,
            r.xdp_size == 0,
    {
        PerfMapFlags::default()
    }

    /// Flags for events that carry `size` bytes of packet data.
    pub fn with_xdp_size(size: u32) -> (r: Self)
        ensures
            r.index is None,
            r.xdp_size == size,
    {
        let mut f = PerfMapFlags::new();
        *f.xdp_size(size)
    }

    /// Selects the slot `index` instead of the current CPU's.
    pub fn index(&mut self, index: u32) -> (r: &mut PerfMapFlags)
        ensures
            *r == (PerfMapFlags { index: Some(index), ..*old(self) }),
            *final(self) == *final(r),
    {
        self.index = Some(index);
        self
    }

    /// Sets the number of bytes of packet data to append.
    pub fn xdp_size(&mut self, size: u32) -> (r: &mut PerfMapFlags)
        ensures
            *r == (PerfMapFlags { xdp_size: size, ..*old(self) }),
            *final(self) == *final(r),
    {
        self.xdp_size = size;
        self
    }
}

impl From<PerfMapFlags> for u64 {
    fn from(flags: PerfMapFlags) -> (r: u64) {
        let index = match flags.index {
            Some(i) => i,
            None => CURRENT_CPU,
        };
        (flags.xdp_size as u64) * 0x1_0000_0000 + index as u64
    }
}

impl vstd::std_specs::convert::FromSpecImpl<PerfMapFlags> for u64 {
    open spec fn obeys_from_spec() -> bool {
        true
    }

    open spec fn from_spec(flags: PerfMapFlags) -> u64 {
        flags_value(flags) as u64
    }
}

} // verus!
