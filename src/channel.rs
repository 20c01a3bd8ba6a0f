//! The life of one per-CPU perf channel, as decisions on plain values.
//!
//! A channel is opened on an online CPU, then its ring is mapped, then event
//! delivery is enabled, then its descriptor is registered for its CPU. The
//! caller performs each step and reports it here. Teardown is the reverse:
//! disable, unmap, close, each step done at most once, and all of them done
//! even when an earlier one fails.
use vstd::prelude::*;

use crate::ring::{ring_sizes, valid_geometry, RingError};

verus! {

/// Why a channel cannot be set up.
#[derive(Clone, Copy, Debug, PartialEq, Eq, Structural)]
pub enum ChannelError {
    /// The ring geometry is refused.
    Geometry(RingError),
    /// A resource could not be had: the operating system's error code, or
    /// the one it gives for the same request (`ENODEV` for a CPU that is not
    /// online).
    Os(i32),
}

/// The code with which the kernel refuses an event source on a CPU that is
/// not online.
pub const ENODEV: i32 = 19;

/// What a teardown has to do, in this order: disable delivery on the
/// descriptor, unmap the ring, close the descriptor.
#[derive(Clone, Copy, Debug, PartialEq, Eq, Structural)]
pub struct Teardown {
    pub disable: Option<i32>,
    pub unmap: bool,
    pub close: Option<i32>,
}

/// A teardown with nothing left to do.
pub open spec fn nothing_to_do(t: Teardown) -> bool {
    t.disable is None && !t.unmap && t.close is None
}

/// The resources that one channel holds.
#[derive(Clone, Copy, Debug, PartialEq, Eq, Structural)]
pub struct Channel {
    pub cpu: i32,
    pub ring_size: usize,
    pub mmap_size: usize,
    pub fd: Option<i32>,
    pub mapped: bool,
    pub enabled: bool,
    pub registered: bool,
    pub closed: bool,
}

/// The teardown that a channel in state `c` needs.
pub open spec fn teardown_of(c: Channel) -> Teardown {
    Teardown {
        disable: if c.enabled {
            c.fd
        } else {
            None
        },
        unmap: c.mapped,
        close: c.fd,
    }
}

/// A channel after teardown: nothing held, and closed for good.
pub open spec fn torn_down(c: Channel) -> Channel {
    Channel { fd: None, mapped: false, enabled: false, registered: false, closed: true, ..c }
}

impl Channel {
    /// Each resource is held only when the one it rests on is: a mapping on
    /// an open descriptor, delivery on a mapping, registration on delivery.
    pub open spec fn wf(&self) -> bool {
        &&& self.mapped ==> self.fd is Some
        &&& self.enabled ==> self.mapped
        &&& self.registered ==> self.enabled
        &&& self.closed ==> self.fd is None && !self.mapped
    }

    /// A channel for `cpu` with a ring of `page_cnt` pages of `page_size`
    /// bytes, holding nothing yet. Refused where `cpu` is not online or the
    /// geometry is invalid; then nothing is to be opened, mapped or registered.
    /// A CPU that is not online is refused as the kernel refuses it, with
    /// `ENODEV`.
    pub fn new(cpu: i32, online: &[i32], page_size: usize, page_cnt: usize) -> (r: Result<
        Channel,
        ChannelError,
    >)
        ensures
            !online@.contains(cpu) ==> r == Err::<Channel, ChannelError>(ChannelError::Os(ENODEV)),
            online@.contains(cpu) && !valid_geometry(page_size as nat, page_cnt as nat) ==> r
                == Err::<Channel, ChannelError>(ChannelError::Geometry(RingError::BadGeometry)),
            online@.contains(cpu) && valid_geometry(page_size as nat, page_cnt as nat) ==> r
                == Ok::<Channel, ChannelError>(
                (Channel {
                    cpu,
                    ring_size: (page_size * page_cnt) as usize,
                    mmap_size: (page_size * (page_cnt + 1)) as usize,
                    fd: None,
                    mapped: false,
                    enabled: false,
                    registered: false,
                    closed: false,
                }),
            ),
    {
        let mut i: usize = 0;
        let mut found = false;
        while i < online.len()
            invariant
                i <= online@.len(),
                found == (exists|j: int| 0 <= j < i && online@[j] == cpu),
            decreases online@.len() - i,
        {
            if online[i] == cpu {
                found = true;
            }
            i = i + 1;
        }
        if !found {
            return Err(ChannelError::Os(ENODEV));
        }
        assert(online@.contains(cpu));
        match ring_sizes(page_size, page_cnt) {
            Ok((ring_size, mmap_size)) => Ok(
                Channel {
                    cpu,
                    ring_size,
                    mmap_size,
                    fd: None,
                    mapped: false,
                    enabled: false,
                    registered: false,
                    closed: false,
                },
            ),
            Err(e) => Err(ChannelError::Geometry(e)),
        }
    }

    /// Records that the event source was opened as `fd`.
    pub fn opened(&mut self, fd: i32)
        requires
            old(self).wf(),
            old(self).fd is None,
            !old(self).closed,
        ensures
            final(self).wf(),
            *final(self) == (Channel { fd: Some(fd), ..*old(self) }),
    {
        self.fd = Some(fd);
    }

    /// Records that the ring was mapped.
    pub fn mapped(&mut self)
        requires
            old(self).wf(),
            old(self).fd is Some,
        ensures
            final(self).wf(),
            *final(self) == (Channel { mapped: true, ..*old(self) }),
    {
        self.mapped = true;
    }

    /// Records that event delivery was enabled.
    pub fn enabled(&mut self)
        requires
            old(self).wf(),
            old(self).mapped,
        ensures
            final(self).wf(),
            *final(self) == (Channel { enabled: true, ..*old(self) }),
    {
        self.enabled = true;
    }

    /// Records that the descriptor was registered for the CPU.
    pub fn registered(&mut self)
        requires
            old(self).wf(),
            old(self).enabled,
        ensures
            final(self).wf(),
            *final(self) == (Channel { registered: true, ..*old(self) }),
    {
        self.registered = true;
    }

    /// Whether the channel is open, mapped, enabled and registered.
    pub fn is_ready(&self) -> (r: bool)
        requires
            self.wf(),
        ensures
            r == (self.fd is Some && self.mapped && self.enabled && self.registered),
    {
        self.registered
    }

    /// Returns the steps that still release what the channel holds, and marks
    /// it closed with nothing held.
    pub fn teardown(&mut self) -> (t: Teardown)
        requires
            old(self).wf(),
        ensures
            final(self).wf(),
            t == teardown_of(*old(self)),
            *final(self) == torn_down(*old(self)),
    {
        let t = Teardown {
            disable: if self.enabled {
                self.fd
            } else {
                None
            },
            unmap: self.mapped,
            close: self.fd,
        };
        self.fd = None;
        self.mapped = false;
        self.enabled = false;
        self.registered = false;
        self.closed = true;
        t
    }
}

/// Teardown is idempotent: a second teardown has nothing left to do and
/// leaves the channel as the first one did.
pub proof fn lemma_teardown_idempotent(c: Channel)
    requires
        c.wf(),
    ensures
        torn_down(c).wf(),
        nothing_to_do(teardown_of(torn_down(c))),
        torn_down(torn_down(c)) == torn_down(c),
{
}

/// Teardown releases exactly what is held: delivery is disabled only where
/// it was enabled, the ring unmapped only where it was mapped, and the
/// descriptor closed only where one was open.
pub proof fn lemma_teardown_exact(c: Channel)
    requires
        c.wf(),
    ensures
        teardown_of(c).disable is Some <==> c.enabled,
        teardown_of(c).unmap <==> c.mapped,
        teardown_of(c).close == c.fd,
        c.enabled ==> teardown_of(c).disable == teardown_of(c).close,
{
}

} // verus!
