//! Layout of the records that the kernel writes into a perf ring, and their
//! classification into events.
//!
//! A record starts with an 8-byte header: a 32-bit kind tag, a 16-bit misc
//! field and the 16-bit total length of the record, header included. Integers
//! are read in little-endian order, the byte order of the supported targets.
use vstd::prelude::*;

verus! {

/// Bytes in a record header.
pub const HEADER_SIZE: u64 = 8;

/// Kind tag of a record that reports events dropped by the kernel.
pub const RECORD_LOST: u32 = 2;

/// Kind tag of a record that carries a raw sample.
pub const RECORD_SAMPLE: u32 = 9;

/// Offset of the raw bytes in a sample record whose payload holds the 32-bit
/// size field: the header, then that field.
pub const SAMPLE_DATA_OFFSET: u64 = 12;

/// Smallest length of a lost-events record: the header, a 64-bit identifier
/// and a 64-bit count.
pub const LOST_RECORD_SIZE: u64 = 24;

pub open spec fn le_u16(b: Seq<u8>, at: int) -> nat {
    b[at] as nat + 256 * (b[at + 1] as nat)
}

pub open spec fn le_u32(b: Seq<u8>, at: int) -> nat {
    le_u16(b, at) + 0x1_0000 * le_u16(b, at + 2)
}

pub open spec fn le_u64(b: Seq<u8>, at: int) -> nat {
    le_u32(b, at) + 0x1_0000_0000 * le_u32(b, at + 4)
}

/// The kind tag that a header states.
pub open spec fn record_kind(r: Seq<u8>) -> nat {
    le_u32(r, 0)
}

/// The total length that a header states.
pub open spec fn record_len(r: Seq<u8>) -> nat {
    le_u16(r, 6)
}

/// The shortest length that a record of the given kind may have: a sample
/// may carry any payload, a lost-events notice needs its two fields.
pub open spec fn min_len_of_kind(kind: nat) -> nat {
    if kind == RECORD_LOST as nat {
        LOST_RECORD_SIZE as nat
    } else {
        HEADER_SIZE as nat
    }
}

/// A complete record: its header states its own length, which is long enough
/// for the header and for the fields that its kind carries.
pub open spec fn well_formed_record(r: Seq<u8>) -> bool {
    &&& r.len() >= HEADER_SIZE
    &&& record_len(r) == r.len()
    &&& r.len() >= min_len_of_kind(record_kind(r))
}

/// A raw sample. Its payload (the record after the header) is laid out as
/// the kernel writes raw samples: a 32-bit `size` field, then `data`, the
/// bytes after that field up to the end of the record (the `size` stated
/// bytes, then padding). The payload is thus `size` followed by `data`.
/// A payload too short to hold the size field has `size` 0 and is `data`
/// whole.
#[derive(Debug)]
pub struct Sample {
    pub size: u32,
    pub data: Vec<u8>,
}

/// A notice that the kernel dropped `count` events for lack of room.
#[derive(Clone, Copy, Debug, PartialEq, Eq, Structural)]
pub struct LostSamples {
    pub id: u64,
    pub count: u64,
}

/// The outcome of one read of a perf ring.
#[derive(Debug)]
pub enum Event {
    Sample(Sample),
    Lost(LostSamples),
    /// A record of a kind this library does not interpret; it was consumed.
    Unknown { kind: u32, size: u16 },
    /// Nothing was queued.
    Empty,
}

/// `e` is the event that the complete record `r` stands for.
pub open spec fn decodes_to(e: Event, r: Seq<u8>) -> bool {
    match e {
        Event::Sample(s) => record_kind(r) == RECORD_SAMPLE as nat && if r.len()
            >= SAMPLE_DATA_OFFSET {
            s.size as nat == le_u32(r, 8) && s.data@ == r.subrange(
                SAMPLE_DATA_OFFSET as int,
                r.len() as int,
            )
        } else {
            s.size == 0 && s.data@ == r.subrange(HEADER_SIZE as int, r.len() as int)
        },
        Event::Lost(l) => record_kind(r) == RECORD_LOST as nat && l.id as nat == le_u64(r, 8)
            && l.count as nat == le_u64(r, 16),
        Event::Unknown { kind, size } => record_kind(r) != RECORD_SAMPLE as nat && record_kind(r)
            != RECORD_LOST as nat && kind as nat == record_kind(r) && size as nat == record_len(r),
        Event::Empty => false,
    }
}

/// Reads a little-endian 16-bit integer.
pub fn read_u16(b: &[u8], at: usize) -> (r: u16)
    requires
        at + 2 <= b@.len(),
    ensures
        r as nat == le_u16(b@, at as int),
{
    b[at] as u16 + 256 * (b[at + 1] as u16)
}

/// Reads a little-endian 32-bit integer.
pub fn read_u32(b: &[u8], at: usize) -> (r: u32)
    requires
        at + 4 <= b@.len(),
    ensures
        r as nat == le_u32(b@, at as int),
{
    let _n = b.len();
    let lo = read_u16(b, at);
    let hi = read_u16(b, at + 2);
    lo as u32 + 0x1_0000 * (hi as u32)
}

/// Reads a little-endian 64-bit integer.
pub fn read_u64(b: &[u8], at: usize) -> (r: u64)
    requires
        at + 8 <= b@.len(),
    ensures
        r as nat == le_u64(b@, at as int),
{
    let _n = b.len();
    let lo = read_u32(b, at);
    let hi = read_u32(b, at + 4);
    lo as u64 + 0x1_0000_0000 * (hi as u64)
}

/// The kind tag of a header.
pub fn header_kind(h: &[u8]) -> (r: u32)
    requires
        h@.len() >= HEADER_SIZE,
    ensures
        r as nat == record_kind(h@),
{
    read_u32(h, 0)
}

/// The total record length that a header states.
pub fn header_len(h: &[u8]) -> (r: u16)
    requires
        h@.len() >= HEADER_SIZE,
    ensures
        r as nat == record_len(h@),
{
    read_u16(h, 6)
}

/// Whether `r` is a complete record, as `well_formed_record` says.
pub fn is_well_formed_record(r: &[u8]) -> (b: bool)
    ensures
        b == well_formed_record(r@),
{
    if r.len() < HEADER_SIZE as usize {
        return false;
    }
    let kind = header_kind(r);
    let len = header_len(r);
    let min: u64 = if kind == RECORD_LOST {
        LOST_RECORD_SIZE
    } else {
        HEADER_SIZE
    };
    len as usize == r.len() && r.len() as u64 >= min
}

/// Classifies a complete record by its kind tag and reads out its fields.
pub fn classify(r: &[u8]) -> (e: Event)
    requires
        well_formed_record(r@),
    ensures
        decodes_to(e, r@),
{
    let kind = header_kind(r);
    if kind == RECORD_SAMPLE {
        let (size, start) = if r.len() >= SAMPLE_DATA_OFFSET as usize {
            (read_u32(r, 8), SAMPLE_DATA_OFFSET as usize)
        } else {
            (0u32, HEADER_SIZE as usize)
        };
        let mut data: Vec<u8> = Vec::new();
        let mut i: usize = start;
        while i < r.len()
            invariant
                start <= i <= r@.len(),
                data@ == r@.subrange(start as int, i as int),
            decreases r@.len() - i,
        {
            data.push(r[i]);
            i = i + 1;
        }
        Event::Sample(Sample { size, data })
    } else if kind == RECORD_LOST {
        Event::Lost(LostSamples { id: read_u64(r, 8), count: read_u64(r, 16) })
    } else {
        Event::Unknown { kind, size: header_len(r) }
    }
}

} // verus!
