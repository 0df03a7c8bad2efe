use buf_ring::BufRing;
use buf_ring::buf_ring::{Engine, RingError};
use buf_ring::buffer_id::CompletionRecord;
use buf_ring::state::Init;

struct AcceptAll;

impl Engine for AcceptAll {
    fn register_buffer_ring(&mut self, _entry_count: u16, _group_id: u16) -> Result<(), u32> {
        Ok(())
    }

    fn unregister_buffer_ring(&mut self, _group_id: u16) -> Result<(), u32> {
        Ok(())
    }
}

fn accepted<T, U>(r: Result<T, U>) -> T {
    match r {
        Ok(v) => v,
        Err(_) => panic!("the accepting engine cannot reject"),
    }
}

fn ready_ring(entries: u16, buf_size: u32) -> BufRing<Init> {
    let mut engine = AcceptAll;
    accepted(BufRing::new(entries, buf_size, 1).unwrap().register(&mut engine)).init()
}

fn record_for(bid: u16, result: i32) -> CompletionRecord {
    CompletionRecord { flags: ((bid as u32) << 16) | 1, result }
}

#[test]
fn completion_record_exposes_flags_and_result() {
    let rec = CompletionRecord { flags: 0x50001, result: 12 };
    assert_eq!(rec.flags(), 0x50001);
    assert_eq!(rec.result(), 12);
}

#[test]
fn round_trip_buffer_id() {
    let mut ring = ready_ring(8, 16);
    ring.write_buffer(3, b"hello");
    let view = ring.buffer_id_from_cqe(&record_for(3, 5)).unwrap().unwrap();
    assert_eq!(view.bid, 3);
    assert_eq!(view.len, 5);
    assert_eq!(view.buffer(&ring), b"hello");
    assert_eq!(view.buffer(&ring), &ring.buffer(3)[..5]);
}

#[test]
fn zero_length_result_yields_empty_view() {
    let ring = ready_ring(8, 16);
    let view = ring.buffer_id_from_cqe(&record_for(2, 0)).unwrap().unwrap();
    assert_eq!(view.bid, 2);
    assert_eq!(view.len, 0);
    assert_eq!(view.buffer(&ring), b"");
}

#[test]
fn length_clamping() {
    let mut ring = ready_ring(8, 16);
    ring.write_buffer(1, b"0123456789abcdef");
    let view = ring.buffer_id_from_cqe(&record_for(1, 999)).unwrap().unwrap();
    assert_eq!(view.len, 16);
    assert_eq!(view.buffer(&ring), b"0123456789abcdef");
}

#[test]
fn no_buffer_completions_pass_through() {
    let ring = ready_ring(8, 16);
    let unattached = CompletionRecord { flags: 0x30000, result: 7 };
    match ring.buffer_id_from_cqe(&unattached) {
        Ok(None) => {},
        _ => panic!("a record without the attached bit carries no buffer"),
    }
    let zero_flags = CompletionRecord { flags: 0, result: 0 };
    match ring.buffer_id_from_cqe(&zero_flags) {
        Ok(None) => {},
        _ => panic!("a record without the attached bit carries no buffer"),
    }
}

#[test]
fn negative_result_surfaces_as_error() {
    let ring = ready_ring(8, 16);
    match ring.buffer_id_from_cqe(&record_for(3, -5)) {
        Err(e) => assert_eq!(e, RingError::Os(5)),
        Ok(_) => panic!("a negative result is an error"),
    }
    match ring.buffer_id_from_cqe(&CompletionRecord { flags: 0, result: -11 }) {
        Err(e) => assert_eq!(e, RingError::Os(11)),
        Ok(_) => panic!("a negative result is an error even with no buffer attached"),
    }
}

#[test]
fn release_recycles_the_buffer() {
    let mut ring = ready_ring(8, 16);
    ring.write_buffer(2, b"abc");
    let view = ring.buffer_id_from_cqe(&record_for(2, 3)).unwrap().unwrap();
    let first = view.buffer(&ring).to_vec();
    assert_eq!(first, b"abc");
    let tail_before = ring.tail();
    view.release(&mut ring);
    assert_eq!(ring.tail(), tail_before + 1);
    // The slot at the old tail now recirculates buffer 2.
    let slot = ((tail_before as u16) % ring.entries()) as u16;
    let d = ring.entry(slot);
    assert_eq!(d.bid, 2);
    assert_eq!(d.len, 16);
    assert_eq!(d.addr, 2 * 16);
    // Resolving the same id again sees the same underlying bytes.
    let again = ring.buffer_id_from_cqe(&record_for(2, 3)).unwrap().unwrap();
    assert_eq!(again.buffer(&ring), b"abc");
    again.release(&mut ring);
    assert_eq!(ring.tail(), tail_before + 2);
}

#[test]
fn write_buffer_touches_one_buffer_only() {
    let mut ring = ready_ring(4, 8);
    ring.write_buffer(0, b"first");
    ring.write_buffer(3, b"last");
    assert_eq!(&ring.buffer(0)[..5], b"first");
    assert_eq!(&ring.buffer(3)[..4], b"last");
    assert_eq!(ring.buffer(1), &[0u8; 8]);
    assert_eq!(ring.buffer(2), &[0u8; 8]);
    assert_eq!(&ring.buffer(0)[5..], &[0u8; 3]);
}

#[test]
fn buffers_start_zeroed() {
    let ring = ready_ring(4, 8);
    for i in 0..4u16 {
        assert_eq!(ring.buffer(i), &[0u8; 8]);
    }
}

#[test]
fn release_wraps_the_tail_cursor() {
    let mut ring = ready_ring(8, 16);
    ring.advance(65535 - 8);
    assert_eq!(ring.tail(), 65535);
    let view = ring.buffer_id_from_cqe(&record_for(1, 1)).unwrap().unwrap();
    view.release(&mut ring);
    assert_eq!(ring.tail(), 0);
    let d = ring.entry(7);
    assert_eq!(d.bid, 1);
    assert_eq!(d.len, 16);
    assert_eq!(d.addr, 16);
}
