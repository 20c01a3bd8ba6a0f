use redbpf::record::{classify, Event, HEADER_SIZE, RECORD_LOST, RECORD_SAMPLE};
use redbpf::ring::{copy_record, decode_next, ring_sizes, RingBuffer, RingError};

fn header(kind: u32, len: u16) -> Vec<u8> {
    let mut r = Vec::new();
    r.extend_from_slice(&kind.to_le_bytes());
    r.extend_from_slice(&0u16.to_le_bytes());
    r.extend_from_slice(&len.to_le_bytes());
    r
}

fn sample(len: u16, first: u8) -> Vec<u8> {
    let mut r = header(RECORD_SAMPLE, len);
    r.extend_from_slice(&((len as u32) - 12).to_le_bytes());
    let mut b = first;
    while r.len() < len as usize {
        r.push(b);
        b = b.wrapping_add(1);
    }
    r
}

fn lost(id: u64, count: u64, len: u16) -> Vec<u8> {
    let mut r = header(RECORD_LOST, len);
    r.extend_from_slice(&id.to_le_bytes());
    r.extend_from_slice(&count.to_le_bytes());
    r.resize(len as usize, 0);
    r
}

fn other(kind: u32, len: u16) -> Vec<u8> {
    let mut r = header(kind, len);
    r.resize(len as usize, 0xab);
    r
}

#[test]
fn one_sample_then_empty() {
    let mut ring = RingBuffer::new(4096, 1).unwrap();
    assert_eq!(ring.ring_size(), 4096);
    ring.write(&sample(64, 1)).unwrap();
    assert_eq!(ring.head(), 64);
    match ring.read() {
        Event::Sample(s) => {
            assert_eq!(4 + s.data.len() as u64, 64 - HEADER_SIZE);
            assert_eq!(s.size, 52);
            assert_eq!(s.data[0], 1);
            assert_eq!(s.data[51], 52);
        }
        e => panic!("unexpected {:?}", e),
    }
    assert_eq!(ring.tail(), 64);
    assert!(matches!(ring.read(), Event::Empty));
    assert_eq!(ring.tail(), 64);
}

#[test]
fn record_straddling_the_end_is_reassembled() {
    let mut ring = RingBuffer::new(4096, 1).unwrap();
    ring.write(&other(0, 4096 - 16)).unwrap();
    assert!(matches!(ring.read(), Event::Unknown { kind: 0, size: 4080 }));
    assert_eq!(ring.tail(), 4096 - 16);
    let rec = sample(32, 100);
    ring.write(&rec).unwrap();
    assert_eq!(ring.head(), 4096 + 16);
    match ring.read() {
        Event::Sample(s) => {
            assert_eq!(s.size, 20);
            assert_eq!(s.data, rec[12..].to_vec());
        }
        e => panic!("unexpected {:?}", e),
    }
    assert_eq!(ring.tail(), ring.head());
}

#[test]
fn wrapped_bytes_decode_as_unwrapped_ones() {
    let rec = sample(32, 7);
    let mut wrapped = vec![0u8; 4096];
    wrapped[4080..].copy_from_slice(&rec[..16]);
    wrapped[..16].copy_from_slice(&rec[16..]);
    let mut flat = vec![0u8; 4096];
    flat[..32].copy_from_slice(&rec);
    assert_eq!(copy_record(&wrapped, 4080, 32), rec);
    assert_eq!(copy_record(&flat, 0, 32), rec);
    let a = decode_next(&wrapped, 4080 + 32, 4080).unwrap();
    let b = decode_next(&flat, 32, 0).unwrap();
    assert_eq!(a.1, 4080 + 32);
    assert_eq!(b.1, 32);
    match (a.0, b.0) {
        (Event::Sample(x), Event::Sample(y)) => {
            assert_eq!(x.size, y.size);
            assert_eq!(x.data, y.data);
        }
        _ => panic!("expected two samples"),
    }
}

#[test]
fn lost_notice_advances_by_its_declared_length() {
    let mut ring = RingBuffer::new(4096, 1).unwrap();
    ring.write(&lost(9, 5, 40)).unwrap();
    match ring.read() {
        Event::Lost(l) => {
            assert_eq!(l.count, 5);
            assert_eq!(l.id, 9);
        }
        e => panic!("unexpected {:?}", e),
    }
    assert_eq!(ring.tail(), 40);
}

#[test]
fn drain_returns_records_in_write_order() {
    let mut ring = RingBuffer::new(64, 2).unwrap();
    ring.write(&sample(16, 0)).unwrap();
    ring.write(&lost(1, 2, 24)).unwrap();
    ring.write(&other(42, 8)).unwrap();
    ring.write(&sample(20, 9)).unwrap();
    let events = ring.drain();
    assert_eq!(events.len(), 4);
    assert!(matches!(&events[0], Event::Sample(s) if s.size == 4));
    assert!(matches!(&events[1], Event::Lost(l) if l.id == 1 && l.count == 2));
    assert!(matches!(&events[2], Event::Unknown { kind: 42, size: 8 }));
    assert!(matches!(&events[3], Event::Sample(s) if s.data == vec![9, 10, 11, 12, 13, 14, 15, 16]));
    assert_eq!(ring.tail(), ring.head());
    assert_eq!(ring.head(), 68);
}

#[test]
fn each_read_takes_one_record() {
    let mut ring = RingBuffer::new(4096, 1).unwrap();
    ring.write(&sample(24, 0)).unwrap();
    ring.write(&sample(40, 0)).unwrap();
    ring.read();
    assert_eq!(ring.tail(), 24);
    ring.read();
    assert_eq!(ring.tail(), 64);
}

#[test]
fn unknown_kind_does_not_stall() {
    let mut ring = RingBuffer::new(4096, 1).unwrap();
    ring.write(&other(77, 16)).unwrap();
    ring.write(&sample(16, 3)).unwrap();
    assert!(matches!(ring.read(), Event::Unknown { kind: 77, size: 16 }));
    assert_eq!(ring.tail(), 16);
    assert!(matches!(ring.read(), Event::Sample(_)));
    assert_eq!(ring.tail(), 32);
    assert!(matches!(ring.read(), Event::Empty));
}

#[test]
fn write_refuses_malformed_and_oversized_records() {
    let mut ring = RingBuffer::new(32, 1).unwrap();
    let mut bad = sample(16, 0);
    bad[6] = 17;
    assert_eq!(ring.write(&bad).unwrap_err(), RingError::BadLength);
    assert_eq!(ring.write(&header(RECORD_LOST, 8)).unwrap_err(), RingError::BadLength);
    assert_eq!(ring.write(&[1, 2, 3]).unwrap_err(), RingError::BadLength);
    ring.write(&sample(24, 0)).unwrap();
    assert_eq!(ring.write(&sample(16, 0)).unwrap_err(), RingError::Full);
    assert_eq!(ring.head(), 24);
    ring.read();
    ring.write(&sample(16, 0)).unwrap();
    assert_eq!(ring.head(), 40);
}

#[test]
fn geometry_is_validated() {
    assert_eq!(RingBuffer::new(4096, 3).err(), Some(RingError::BadGeometry));
    assert_eq!(RingBuffer::new(0, 1).err(), Some(RingError::BadGeometry));
    assert_eq!(RingBuffer::new(4096, 0).err(), Some(RingError::BadGeometry));
    assert_eq!(ring_sizes(4096, 8), Ok((32768, 36864)));
    assert_eq!(ring_sizes(usize::MAX / 2, 2), Err(RingError::BadGeometry));
}

#[test]
fn decode_reports_inconsistent_counters() {
    let mut data = vec![0u8; 64];
    data[..16].copy_from_slice(&sample(16, 0));
    assert!(matches!(decode_next(&data, 0, 0), Ok((Event::Empty, 0))));
    assert_eq!(decode_next(&data, 0, 16).err(), Some(RingError::CursorRegressed));
    assert_eq!(decode_next(&data, 65, 0).err(), Some(RingError::Overrun));
    assert_eq!(decode_next(&data, 4, 0).err(), Some(RingError::Truncated));
    assert_eq!(decode_next(&data, 12, 0).err(), Some(RingError::BadLength));
    data[6] = 4;
    assert_eq!(decode_next(&data, 16, 0).err(), Some(RingError::BadLength));
    data[6] = 8;
    assert!(matches!(decode_next(&data, 16, 0), Ok((Event::Sample(_), 8))));
    data[..8].copy_from_slice(&header(RECORD_LOST, 16));
    assert_eq!(decode_next(&data, 16, 0).err(), Some(RingError::BadLength));
}

#[test]
fn classify_reads_fields_little_endian() {
    let r = lost(0x0102030405060708, 0x1122334455667788, 24);
    match classify(&r) {
        Event::Lost(l) => {
            assert_eq!(l.id, 0x0102030405060708);
            assert_eq!(l.count, 0x1122334455667788);
        }
        e => panic!("unexpected {:?}", e),
    }
}

#[test]
fn short_samples_are_accepted() {
    let mut ring = RingBuffer::new(4096, 1).unwrap();
    let mut r = header(RECORD_SAMPLE, 10);
    r.extend_from_slice(&[5, 6]);
    ring.write(&r).unwrap();
    ring.write(&header(RECORD_SAMPLE, 8)).unwrap();
    match ring.read() {
        Event::Sample(s) => {
            assert_eq!(s.size, 0);
            assert_eq!(s.data, vec![5, 6]);
        }
        e => panic!("unexpected {:?}", e),
    }
    assert_eq!(ring.tail(), 10);
    match ring.read() {
        Event::Sample(s) => assert!(s.data.is_empty()),
        e => panic!("unexpected {:?}", e),
    }
    assert_eq!(ring.tail(), 18);
}
