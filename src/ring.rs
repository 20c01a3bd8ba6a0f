//! The perf ring: a circular byte region addressed by two monotonically
//! increasing counters, `head` (advanced by the producer) and `tail`
//! (advanced by the consumer). The bytes from `tail` up to `head`, each taken
//! at its counter modulo the ring size, are the unread records.
//!
//! `decode_next` is the consumer step on a view of the region and the two
//! counters; the caller that owns a shared mapping reads `head` with acquire
//! ordering before the call and publishes the returned tail with release
//! ordering after it. `RingBuffer` holds the region itself, with a producer
//! side, and keeps the written records as its model.
use vstd::arithmetic::div_mod::{lemma_add_mod_noop, lemma_mod_add_multiples_vanish, lemma_small_mod};
use vstd::prelude::*;

use crate::record::{
    classify, decodes_to, header_kind, header_len, is_well_formed_record, min_len_of_kind,
    record_kind, record_len, well_formed_record, Event, HEADER_SIZE, LOST_RECORD_SIZE,
    RECORD_LOST, RECORD_SAMPLE,
};

verus! {

/// Why the ring's state cannot be decoded or written.
#[derive(Clone, Copy, Debug, PartialEq, Eq, Structural)]
pub enum RingError {
    /// `head` is behind `tail`.
    CursorRegressed,
    /// More bytes are pending than the ring holds.
    Overrun,
    /// Fewer bytes are pending than a record header takes.
    Truncated,
    /// A record's stated length is shorter than its kind needs, or runs past `head`.
    BadLength,
    /// A record to write does not fit in the free part of the ring.
    Full,
    /// The page count is not a power of two, the page size is zero, or the
    /// mapping would not fit in memory.
    BadGeometry,
}

/// The `len` bytes of the ring `data` that start at counter `from`.
pub open spec fn ring_bytes(data: Seq<u8>, from: nat, len: nat) -> Seq<u8> {
    Seq::new(len, |i: int| data[((from + i) % (data.len() as int))])
}

/// The header of the record at counter `tail`.
pub open spec fn header_at(data: Seq<u8>, tail: nat) -> Seq<u8> {
    ring_bytes(data, tail, HEADER_SIZE as nat)
}

/// The record at counter `tail`, as long as its header states.
pub open spec fn record_at(data: Seq<u8>, tail: nat) -> Seq<u8> {
    ring_bytes(data, tail, record_len(header_at(data, tail)))
}

/// The error that the ring state gives, if any; `None` where it is empty or
/// holds a decodable record at `tail`.
pub open spec fn decode_error(data: Seq<u8>, head: nat, tail: nat) -> Option<RingError> {
    if head < tail {
        Some(RingError::CursorRegressed)
    } else if head == tail {
        None
    } else if head - tail > data.len() {
        Some(RingError::Overrun)
    } else if head - tail < HEADER_SIZE {
        Some(RingError::Truncated)
    } else {
        let h = header_at(data, tail);
        if record_len(h) < min_len_of_kind(record_kind(h)) || record_len(h) < HEADER_SIZE
            || record_len(h) > head - tail {
            Some(RingError::BadLength)
        } else {
            None
        }
    }
}

proof fn lemma_index_in_run(start: int, i: int, r: int)
    requires
        r > 0,
        start >= 0,
        i >= 0,
        start % r + i < r,
    ensures
        (start + i) % r == start % r + i,
{
    lemma_add_mod_noop(start, i, r);
    lemma_small_mod(i as nat, r as nat);
    lemma_small_mod((start % r + i) as nat, r as nat);
}

proof fn lemma_index_after_wrap(start: int, first: int, j: int, r: int)
    requires
        r > 0,
        start >= 0,
        first >= 0,
        j >= 0,
        start % r + first == r,
        j < r,
    ensures
        (start + first + j) % r == j,
{
    lemma_add_mod_noop(start, first + j, r);
    if first + j < r {
        lemma_small_mod((first + j) as nat, r as nat);
        lemma_mod_add_multiples_vanish(j, r);
        lemma_small_mod(j as nat, r as nat);
    } else {
        lemma_mod_add_multiples_vanish(first + j - r, r);
        lemma_small_mod((first + j - r) as nat, r as nat);
        lemma_mod_add_multiples_vanish(start % r + first + j - r, r);
        lemma_mod_add_multiples_vanish(j, r);
        lemma_small_mod(j as nat, r as nat);
    }
}

/// Two counters less than one ring apart fall on different positions.
proof fn lemma_distinct_positions(a: int, b: int, r: int)
    requires
        r > 0,
        0 <= a < b < a + r,
    ensures
        a % r != b % r,
{
    let d = b - a;
    lemma_add_mod_noop(a, d, r);
    lemma_small_mod(d as nat, r as nat);
    if a % r == b % r {
        if a % r + d < r {
            lemma_small_mod((a % r + d) as nat, r as nat);
        } else {
            lemma_mod_add_multiples_vanish(a % r + d - r, r);
            lemma_small_mod((a % r + d - r) as nat, r as nat);
        }
    }
}

/// The bytes of a run taken `a` bytes in are the run that starts `a` later.
proof fn lemma_ring_bytes_skip(data: Seq<u8>, from: nat, len: nat, a: nat)
    requires
        a <= len,
    ensures
        ring_bytes(data, from, len).subrange(a as int, len as int) == ring_bytes(
            data,
            from + a,
            (len - a) as nat,
        ),
        ring_bytes(data, from, len).subrange(0, a as int) == ring_bytes(data, from, a),
{
    assert(ring_bytes(data, from, len).subrange(a as int, len as int) =~= ring_bytes(
        data,
        from + a,
        (len - a) as nat,
    ));
    assert(ring_bytes(data, from, len).subrange(0, a as int) =~= ring_bytes(data, from, a));
}

/// Copies `len` bytes of the ring, starting at counter `start`, into a buffer
/// of their own: the run up to the end of the region, then the run that
/// continues at its start.
pub fn copy_record(data: &[u8], start: u64, len: usize) -> (out: Vec<u8>)
    requires
        data@.len() > 0,
        len <= data@.len(),
    ensures
        out@ == ring_bytes(data@, start as nat, len as nat),
{
    let size = data.len();
    let s = (start % (size as u64)) as usize;
    let first: usize = if len <= size - s {
        len
    } else {
        size - s
    };
    let mut out: Vec<u8> = Vec::with_capacity(len);
    let mut i: usize = 0;
    while i < first
        invariant
            size == data@.len(),
            s as int == (start as int) % (size as int),
            s + first <= size,
            first <= len,
            i <= first,
            out@ == ring_bytes(data@, start as nat, i as nat),
        decreases first - i,
    {
        proof {
            lemma_index_in_run(start as int, i as int, size as int);
        }
        out.push(data[s + i]);
        i = i + 1;
        assert(out@ =~= ring_bytes(data@, start as nat, i as nat));
    }
    let mut j: usize = 0;
    while j < len - first
        invariant
            size == data@.len(),
            s as int == (start as int) % (size as int),
            s + first <= size,
            first <= len <= size,
            first < len ==> s + first == size,
            j <= len - first,
            out@ == ring_bytes(data@, start as nat, (first + j) as nat),
        decreases len - first - j,
    {
        proof {
            lemma_index_after_wrap(start as int, first as int, j as int, size as int);
        }
        out.push(data[j]);
        j = j + 1;
        assert(out@ =~= ring_bytes(data@, start as nat, (first + j) as nat));
    }
    out
}

/// Decodes the record at `tail` and returns it with the tail that follows it.
///
/// Where `head == tail` nothing is queued: the result is `Event::Empty` and
/// `tail` unchanged. Otherwise exactly one record is consumed, and the tail
/// advances by the length its header states, whatever its kind.
pub fn decode_next(data: &[u8], head: u64, tail: u64) -> (r: Result<(Event, u64), RingError>)
    requires
        data@.len() > 0,
    ensures
        decode_error(data@, head as nat, tail as nat) matches Some(e) ==> r == Err::<
            (Event, u64),
            RingError,
        >(e),
        decode_error(data@, head as nat, tail as nat) is None && head == tail ==> (r matches Ok(
            (ev, t),
        ) && ev is Empty && t == tail),
        decode_error(data@, head as nat, tail as nat) is None && head != tail ==> (r matches Ok(
            (ev, t),
        ) && decodes_to(ev, record_at(data@, tail as nat)) && t == tail + record_len(
            header_at(data@, tail as nat),
        )),
{
    if head < tail {
        return Err(RingError::CursorRegressed);
    }
    if head == tail {
        return Ok((Event::Empty, tail));
    }
    let pending = head - tail;
    if pending > data.len() as u64 {
        return Err(RingError::Overrun);
    }
    if pending < HEADER_SIZE {
        return Err(RingError::Truncated);
    }
    let header = copy_record(data, tail, HEADER_SIZE as usize);
    let kind = header_kind(header.as_slice());
    let len = header_len(header.as_slice());
    let min: u64 = if kind == RECORD_LOST {
        LOST_RECORD_SIZE
    } else {
        HEADER_SIZE
    };
    if (len as u64) < min || (len as u64) < HEADER_SIZE || len as u64 > pending {
        return Err(RingError::BadLength);
    }
    let record = copy_record(data, tail, len as usize);
    proof {
        lemma_ring_bytes_skip(data@, tail as nat, len as nat, HEADER_SIZE as nat);
        assert(record@.subrange(0, 8) =~= header@);
        assert(record_len(record@) == record_len(header@));
        assert(record_kind(record@) == record_kind(header@));
    }
    let event = classify(record.as_slice());
    Ok((event, tail + len as u64))
}

/// Where pending bytes lie in the region does not matter: two rings whose
/// pending bytes are the same give the same decode error, or the same record
/// bytes and the same advance of the tail, whether or not those bytes wrap
/// around the end of the region. With `decode_next`'s contract this makes a
/// record that straddles the end decode as the same record written at
/// offset 0.
pub proof fn lemma_position_independent(a: Seq<u8>, ta: nat, b: Seq<u8>, tb: nat, n: nat)
    requires
        a.len() > 0,
        b.len() > 0,
        n <= a.len(),
        n <= b.len(),
        ring_bytes(a, ta, n) == ring_bytes(b, tb, n),
    ensures
        decode_error(a, ta + n, ta) == decode_error(b, tb + n, tb),
        decode_error(a, ta + n, ta) is None && n > 0 ==> record_at(a, ta) == record_at(b, tb),
        n >= HEADER_SIZE ==> record_len(header_at(a, ta)) == record_len(header_at(b, tb)),
        n >= HEADER_SIZE ==> record_kind(header_at(a, ta)) == record_kind(header_at(b, tb)),
{
    if n >= HEADER_SIZE {
        lemma_ring_bytes_skip(a, ta, n, HEADER_SIZE as nat);
        lemma_ring_bytes_skip(b, tb, n, HEADER_SIZE as nat);
        let len = record_len(header_at(a, ta));
        if len <= n {
            lemma_ring_bytes_skip(a, ta, n, len);
            lemma_ring_bytes_skip(b, tb, n, len);
        }
    }
}

/// A record of a kind this library does not interpret still has a length of
/// at least one header, and that length stays within what is pending: reading
/// past it moves the tail forward and never beyond the head.
pub proof fn lemma_unknown_kind_progress(data: Seq<u8>, head: nat, tail: nat)
    requires
        data.len() > 0,
        head != tail,
        decode_error(data, head, tail) is None,
        record_kind(header_at(data, tail)) != RECORD_SAMPLE as nat,
        record_kind(header_at(data, tail)) != RECORD_LOST as nat,
    ensures
        HEADER_SIZE <= record_len(header_at(data, tail)) <= head - tail,
        well_formed_record(record_at(data, tail)),
{
    lemma_ring_bytes_skip(data, tail, record_len(header_at(data, tail)), HEADER_SIZE as nat);
    let r = record_at(data, tail);
    assert(r.subrange(0, 8) == header_at(data, tail));
    assert(r[6] == header_at(data, tail)[6] && r[7] == header_at(data, tail)[7]);
    assert(r[0] == header_at(data, tail)[0] && r[1] == header_at(data, tail)[1]);
    assert(r[2] == header_at(data, tail)[2] && r[3] == header_at(data, tail)[3]);
}

/// `n` is a power of two.
pub open spec fn is_pow2(n: nat) -> bool
    decreases n,
{
    if n == 1 {
        true
    } else if n == 0 || n % 2 == 1 {
        false
    } else {
        is_pow2(n / 2)
    }
}

/// Whether `n` is a power of two.
pub fn is_power_of_two(n: usize) -> (b: bool)
    ensures
        b == is_pow2(n as nat),
{
    if n == 0 {
        return false;
    }
    let mut m = n;
    while m > 1 && m % 2 == 0
        invariant
            m >= 1,
            is_pow2(m as nat) == is_pow2(n as nat),
        decreases m,
    {
        m = m / 2;
    }
    m == 1
}

/// The geometry a ring may have: a page count that is a power of two, a page
/// size that is not zero, and a mapping (one metadata page, then the data
/// pages) whose size fits in `usize`.
pub open spec fn valid_geometry(page_size: nat, page_cnt: nat) -> bool {
    &&& page_size > 0
    &&& is_pow2(page_cnt)
    &&& page_size * (page_cnt + 1) <= usize::MAX
}

/// Sizes of a ring: its data region, and the whole mapping with the metadata page.
pub fn ring_sizes(page_size: usize, page_cnt: usize) -> (r: Result<(usize, usize), RingError>)
    ensures
        valid_geometry(page_size as nat, page_cnt as nat) ==> r == Ok::<(usize, usize), RingError>(
            ((page_size * page_cnt) as usize, (page_size * (page_cnt + 1)) as usize),
        ),
        !valid_geometry(page_size as nat, page_cnt as nat) ==> r == Err::<(usize, usize), RingError>(
            RingError::BadGeometry,
        ),
{
    if page_size == 0 || !is_power_of_two(page_cnt) {
        return Err(RingError::BadGeometry);
    }
    if page_cnt == usize::MAX || page_cnt + 1 > usize::MAX / page_size {
        proof {
            if page_cnt < usize::MAX {
                assert(page_size * (page_cnt + 1) > usize::MAX) by (nonlinear_arith)
                    requires
                        page_cnt + 1 > usize::MAX / page_size,
                        page_size > 0,
                ;
            }
        }
        return Err(RingError::BadGeometry);
    }
    proof {
        assert(page_size * (page_cnt + 1) <= usize::MAX) by (nonlinear_arith)
            requires
                page_cnt + 1 <= usize::MAX / page_size,
                page_size > 0,
        ;
        assert(page_size * (page_cnt + 1) == page_size * page_cnt + page_size) by (nonlinear_arith);
    }
    Ok((page_size * page_cnt, page_size * (page_cnt + 1)))
}

/// A perf ring held in memory of its own: the data region and the two
/// counters, with a producer side that appends records. Its model is the
/// sequence of records written and not yet read.
pub struct RingBuffer {
    data: Vec<u8>,
    head: u64,
    tail: u64,
    queue: Ghost<Seq<Seq<u8>>>,
}

impl RingBuffer {
    /// The records written and not yet read, oldest first.
    pub closed spec fn queued(&self) -> Seq<Seq<u8>> {
        self.queue@
    }

    pub closed spec fn head_counter(&self) -> nat {
        self.head as nat
    }

    pub closed spec fn tail_counter(&self) -> nat {
        self.tail as nat
    }

    /// Bytes in the data region.
    pub closed spec fn size(&self) -> nat {
        self.data@.len()
    }

    pub closed spec fn wf(&self) -> bool {
        &&& self.data@.len() > 0
        &&& self.tail <= self.head
        &&& self.head - self.tail <= self.data@.len()
        &&& ring_bytes(self.data@, self.tail as nat, (self.head - self.tail) as nat)
            == self.queue@.flatten()
        &&& forall|i: int| 0 <= i < self.queue@.len() ==> well_formed_record(#[trigger] self.queue@[i])
    }

    /// An empty ring of `page_cnt` data pages of `page_size` bytes, both
    /// counters at zero.
    pub fn new(page_size: usize, page_cnt: usize) -> (r: Result<RingBuffer, RingError>)
        ensures
            valid_geometry(page_size as nat, page_cnt as nat) ==> (r matches Ok(b) && b.wf()
                && b.size() == page_size * page_cnt && b.queued().len() == 0 && b.head_counter()
                == 0 && b.tail_counter() == 0),
            !valid_geometry(page_size as nat, page_cnt as nat) ==> r == Err::<RingBuffer, RingError>(
                RingError::BadGeometry,
            ),
    {
        let (size, _mapped) = match ring_sizes(page_size, page_cnt) {
            Ok(sizes) => sizes,
            Err(e) => return Err(e),
        };
        proof {
            assert(page_cnt > 0);
            assert(0 < page_size * page_cnt <= page_size * (page_cnt + 1)) by (nonlinear_arith)
                requires
                    page_size > 0,
                    page_cnt > 0,
            ;
            assert(size == page_size * page_cnt);
        }
        let mut data: Vec<u8> = Vec::with_capacity(size);
        let mut i: usize = 0;
        while i < size
            invariant
                i <= size,
                data@.len() == i,
            decreases size - i,
        {
            data.push(0u8);
            i = i + 1;
        }
        let b = RingBuffer { data, head: 0, tail: 0, queue: Ghost(Seq::empty()) };
        assert(ring_bytes(b.data@, 0, 0) =~= Seq::<Seq<u8>>::empty().flatten());
        assert(b.wf());
        Ok(b)
    }

    /// The producer's counter.
    pub fn head(&self) -> (r: u64)
        ensures
            r as nat == self.head_counter(),
    {
        self.head
    }

    /// The consumer's counter.
    pub fn tail(&self) -> (r: u64)
        ensures
            r as nat == self.tail_counter(),
    {
        self.tail
    }

    /// Bytes in the data region.
    pub fn ring_size(&self) -> (r: usize)
        ensures
            r as nat == self.size(),
    {
        self.data.len()
    }

    /// Appends one complete record at `head`, as the kernel does, wrapping at
    /// the end of the region.
    pub fn write(&mut self, record: &[u8]) -> (r: Result<(), RingError>)
        requires
            old(self).wf(),
        ensures
            final(self).wf(),
            final(self).size() == old(self).size(),
            final(self).tail_counter() == old(self).tail_counter(),
            !well_formed_record(record@) ==> r == Err::<(), RingError>(RingError::BadLength),
            well_formed_record(record@) && (old(self).head_counter() - old(self).tail_counter()
                + record@.len() > old(self).size() || old(self).head_counter() + record@.len()
                > u64::MAX) ==> r == Err::<(), RingError>(RingError::Full),
            r is Ok <==> (well_formed_record(record@) && old(self).head_counter()
                - old(self).tail_counter() + record@.len() <= old(self).size()
                && old(self).head_counter() + record@.len() <= u64::MAX),
            r is Ok ==> final(self).queued() == old(self).queued().push(record@)
                && final(self).head_counter() == old(self).head_counter() + record@.len(),
            r is Err ==> final(self).queued() == old(self).queued() && final(self).head_counter()
                == old(self).head_counter(),
    {
        if !is_well_formed_record(record) {
            return Err(RingError::BadLength);
        }
        let size = self.data.len();
        let len = record.len();
        let avail = self.head - self.tail;
        if len as u64 > size as u64 - avail || len as u64 > u64::MAX - self.head {
            return Err(RingError::Full);
        }
        let ghost h0 = self.head;
        let ghost t0 = self.tail;
        let ghost q0 = self.queue@;
        let mut i: usize = 0;
        while i < len
            invariant
                self.head == h0,
                self.tail == t0,
                self.queue@ == q0,
                forall|j: int| 0 <= j < q0.len() ==> well_formed_record(#[trigger] q0[j]),
                self.data@.len() == size,
                size > 0,
                len == record@.len(),
                avail == self.head - self.tail,
                self.tail <= self.head,
                avail + len <= size,
                self.head + len <= u64::MAX,
                i <= len,
                ring_bytes(self.data@, self.tail as nat, avail as nat) == self.queue@.flatten(),
                ring_bytes(self.data@, self.head as nat, i as nat) == record@.subrange(0, i as int),
            decreases len - i,
        {
            let pos = ((self.head + i as u64) % (size as u64)) as usize;
            let ghost before = self.data@;
            self.data.set(pos, record[i]);
            proof {
                assert forall|k: int| 0 <= k < avail implies ring_bytes(
                    self.data@,
                    self.tail as nat,
                    avail as nat,
                )[k] == ring_bytes(before, self.tail as nat, avail as nat)[k] by {
                    lemma_distinct_positions(
                        self.tail + k,
                        self.head + i,
                        size as int,
                    );
                }
                assert(ring_bytes(self.data@, self.tail as nat, avail as nat) =~= ring_bytes(
                    before,
                    self.tail as nat,
                    avail as nat,
                ));
                assert forall|k: int| 0 <= k < i implies ring_bytes(
                    self.data@,
                    self.head as nat,
                    (i + 1) as nat,
                )[k] == ring_bytes(before, self.head as nat, i as nat)[k] by {
                    lemma_distinct_positions(self.head + k, self.head + i, size as int);
                }
                assert(ring_bytes(self.data@, self.head as nat, (i + 1) as nat) =~= record@.subrange(
                    0,
                    i + 1,
                ));
            }
            i = i + 1;
        }
        proof {
            let whole = ring_bytes(self.data@, self.tail as nat, (avail + len) as nat);
            lemma_ring_bytes_skip(self.data@, self.tail as nat, (avail + len) as nat, avail as nat);
            assert(record@.subrange(0, len as int) =~= record@);
            assert(whole =~= whole.subrange(0, avail as int) + whole.subrange(
                avail as int,
                (avail + len) as int,
            ));
            self.queue@.lemma_flatten_push(record@);
        }
        self.head = self.head + len as u64;
        self.queue = Ghost(self.queue@.push(record@));
        Ok(())
    }

    /// Consumes the record at `tail`, if one is queued, and returns its event.
    /// At most one record is consumed; the tail advances by the length its
    /// header states.
    pub fn read(&mut self) -> (e: Event)
        requires
            old(self).wf(),
        ensures
            final(self).wf(),
            final(self).size() == old(self).size(),
            final(self).head_counter() == old(self).head_counter(),
            old(self).queued().len() == 0 ==> e is Empty,
            old(self).queued().len() == 0 ==> final(self).tail_counter() == old(self).tail_counter(),
            old(self).queued().len() == 0 ==> final(self).queued() == old(self).queued(),
            old(self).queued().len() > 0 ==> decodes_to(e, old(self).queued()[0]),
            old(self).queued().len() > 0 ==> final(self).queued() == old(self).queued().drop_first(),
            old(self).queued().len() > 0 ==> final(self).tail_counter() == old(self).tail_counter()
                + old(self).queued()[0].len(),
    {
        let ghost q = self.queue@;
        let ghost avail = (self.head - self.tail) as nat;
        proof {
            if q.len() > 0 {
                let first = q[0];
                assert(well_formed_record(q[0]));
                assert(q.flatten() == first + q.drop_first().flatten());
                let all = ring_bytes(self.data@, self.tail as nat, avail);
                lemma_ring_bytes_skip(self.data@, self.tail as nat, avail, HEADER_SIZE as nat);
                assert(all.subrange(0, 8) =~= first.subrange(0, 8));
                let h = header_at(self.data@, self.tail as nat);
                assert(h[6] == first[6] && h[7] == first[7]);
                assert(h[0] == first[0] && h[1] == first[1] && h[2] == first[2] && h[3] == first[3]);
                assert(record_len(h) == first.len());
                lemma_ring_bytes_skip(self.data@, self.tail as nat, avail, first.len());
                assert(all.subrange(0, first.len() as int) =~= first);
                assert(all.subrange(first.len() as int, avail as int) =~= q.drop_first().flatten());
            } else {
                assert(q.flatten().len() == 0);
                assert(ring_bytes(self.data@, self.tail as nat, avail).len() == avail);
            }
        }
        match decode_next(self.data.as_slice(), self.head, self.tail) {
            Ok((event, next)) => {
                self.tail = next;
                self.queue = Ghost(
                    if q.len() > 0 {
                        q.drop_first()
                    } else {
                        q
                    },
                );
                event
            },
            Err(_) => Event::Empty,
        }
    }

    /// Reads until the ring is empty and returns the events in the order
    /// their records were written.
    pub fn drain(&mut self) -> (events: Vec<Event>)
        requires
            old(self).wf(),
        ensures
            final(self).wf(),
            events@.len() == old(self).queued().len(),
            forall|i: int|
                0 <= i < events@.len() ==> decodes_to(#[trigger] events@[i], old(self).queued()[i]),
            final(self).queued().len() == 0,
            final(self).tail_counter() == final(self).head_counter(),
            final(self).head_counter() == old(self).head_counter(),
    {
        let ghost q0 = self.queued();
        let mut events: Vec<Event> = Vec::new();
        loop
            invariant
                self.wf(),
                self.head_counter() == old(self).head_counter(),
                events@.len() + self.queued().len() == q0.len(),
                self.queued() == q0.subrange(events@.len() as int, q0.len() as int),
                forall|i: int| 0 <= i < events@.len() ==> decodes_to(#[trigger] events@[i], q0[i]),
            ensures
                self.wf(),
                self.head_counter() == old(self).head_counter(),
                events@.len() == q0.len(),
                self.queued().len() == 0,
                forall|i: int| 0 <= i < events@.len() ==> decodes_to(#[trigger] events@[i], q0[i]),
            decreases self.queued().len(),
        {
            let ghost before = self.queued();
            let e = self.read();
            if let Event::Empty = e {
                proof {
                    if before.len() > 0 {
                        assert(decodes_to(e, before[0]));
                    }
                }
                break;
            }
            proof {
                assert(before[0] == q0[events@.len() as int]);
                assert(self.queued() =~= q0.subrange(events@.len() + 1 as int, q0.len() as int));
            }
            events.push(e);
        }
        proof {
            lemma_drained(self);
        }
        events
    }
}

/// A ring's counters meet exactly when no record is queued.
pub proof fn lemma_drained(b: &RingBuffer)
    requires
        b.wf(),
    ensures
        b.queued().len() == 0 <==> b.tail_counter() == b.head_counter(),
{
    let q = b.queue@;
    assert(ring_bytes(b.data@, b.tail as nat, (b.head - b.tail) as nat).len() == b.head - b.tail);
    if q.len() > 0 {
        assert(well_formed_record(q[0]));
        assert(q.flatten() == q[0] + q.drop_first().flatten());
    } else {
        assert(q.flatten().len() == 0);
    }
}

} // verus!
