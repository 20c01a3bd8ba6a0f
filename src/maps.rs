//! Definitions of the maps that a probe declares for the kernel to create.
use core::marker::PhantomData;
use vstd::layout::size_of;
use vstd::prelude::*;

verus! {

/// Map type of a hash table.
pub const BPF_MAP_TYPE_HASH: u32 = 1;

/// Map type of an array of perf channels, one slot per CPU.
pub const BPF_MAP_TYPE_PERF_EVENT_ARRAY: u32 = 4;

/// The definition of a map as the kernel reads it from a probe's object file.
#[derive(Clone, Copy, Debug, PartialEq, Eq, Structural)]
pub struct MapDef {
    pub type_: u32,
    pub key_size: u32,
    pub value_size: u32,
    pub max_entries: u32,
    pub map_flags: u32,
}

/// Hash table map with keys of type `K` and values of type `V`.
pub struct HashMap<K, V> {
    def: MapDef,
    _k: PhantomData<K>,
    _v: PhantomData<V>,
}

impl<K, V> HashMap<K, V> {
    pub closed spec fn spec_def(&self) -> MapDef {
        self.def
    }

    /// The definition the kernel creates the map from.
    pub fn def(&self) -> (r: MapDef)
        ensures
            r == self.spec_def(),
    {
        self.def
    }

    /// A hash table that holds at most `max_entries` elements.
    pub fn with_max_entries(max_entries: u32) -> (r: Self)
        ensures
            r.spec_def() == (MapDef {
                type_: BPF_MAP_TYPE_HASH,
                key_size: size_of::<K>() as u32,
                value_size: size_of::<V>() as u32,
                max_entries,
                map_flags: 0,
            }),
    {
        HashMap {
            def: MapDef {
                type_: BPF_MAP_TYPE_HASH,
                key_size: core::mem::size_of::<K>() as u32,
                value_size: core::mem::size_of::<V>() as u32,
                max_entries,
                map_flags: 0,
            },
            _k: PhantomData,
            _v: PhantomData,
        }
    }
}

/// Perf channel array through which a probe emits events of type `T`.
pub struct PerfMap<T> {
    def: MapDef,
    _event: PhantomData<T>,
}

impl<T> PerfMap<T> {
    pub closed spec fn spec_def(&self) -> MapDef {
        self.def
    }

    /// The definition the kernel creates the map from.
    pub fn def(&self) -> (r: MapDef)
        ensures
            r == self.spec_def(),
    {
        self.def
    }

    /// A perf channel array with `max_entries` slots; keys and values are
    /// 32-bit (a CPU index and a descriptor).
    pub fn with_max_entries(max_entries: u32) -> (r: Self)
        ensures
            r.spec_def() == (MapDef {
                type_: BPF_MAP_TYPE_PERF_EVENT_ARRAY,
                key_size: 4,
                value_size: 4,
                max_entries,
                map_flags: 0,
            }),
    {
        PerfMap {
            def: MapDef {
                type_: BPF_MAP_TYPE_PERF_EVENT_ARRAY,
                key_size: 4,
                value_size: 4,
                max_entries,
                map_flags: 0,
            },
            _event: PhantomData,
        }
    }
}

} // verus!
