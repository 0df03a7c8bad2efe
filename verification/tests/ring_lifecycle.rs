use buf_ring::BufRing;
use buf_ring::buf_ring::{Engine, MapOpts, MapPrivacy, RingError};

/// An engine that accepts every registration, remembering the calls.
struct AcceptingEngine {
    registered: Vec<(u16, u16)>,
    unregistered: Vec<u16>,
}

impl AcceptingEngine {
    fn new() -> Self {
        AcceptingEngine { registered: Vec::new(), unregistered: Vec::new() }
    }
}

impl Engine for AcceptingEngine {
    fn register_buffer_ring(&mut self, entry_count: u16, group_id: u16) -> Result<(), u32> {
        self.registered.push((entry_count, group_id));
        Ok(())
    }

    fn unregister_buffer_ring(&mut self, group_id: u16) -> Result<(), u32> {
        self.unregistered.push(group_id);
        Ok(())
    }
}

/// An engine that rejects everything with one fixed error code.
struct RejectingEngine {
    code: u32,
}

impl Engine for RejectingEngine {
    fn register_buffer_ring(&mut self, _entry_count: u16, _group_id: u16) -> Result<(), u32> {
        Err(self.code)
    }

    fn unregister_buffer_ring(&mut self, _group_id: u16) -> Result<(), u32> {
        Err(self.code)
    }
}

fn accepted<T, U>(r: Result<T, U>) -> T {
    match r {
        Ok(v) => v,
        Err(_) => panic!("the accepting engine cannot reject"),
    }
}

#[test]
fn power_of_two_normalization() {
    let cases: Vec<(u16, u16)> = vec![
        (1, 1),
        (2, 2),
        (3, 4),
        (4, 4),
        (5, 8),
        (7, 8),
        (8, 8),
        (9, 16),
        (31, 32),
        (32, 32),
        (33, 64),
        (1000, 1024),
        (1024, 1024),
        (4097, 8192),
        (32768, 32768),
    ];
    for (n, expected) in cases {
        let ring = BufRing::new(n, 4, 1).unwrap();
        assert_eq!(ring.entries(), expected, "requested {}", n);
    }
}

#[test]
fn rejected_inputs() {
    match BufRing::new(0, 16, 1) {
        Err(e) => assert_eq!(e, RingError::InvalidConfig),
        Ok(_) => panic!("entry count 0 must be rejected"),
    }
    match BufRing::new(65535, 16, 1) {
        Err(e) => assert_eq!(e, RingError::InvalidConfig),
        Ok(_) => panic!("the sentinel entry count must be rejected"),
    }
    // Above 32768 the next power of two no longer fits the 16-bit
    // interface, so such requests are invalid configuration too.
    match BufRing::new(32769, 16, 1) {
        Err(e) => assert_eq!(e, RingError::InvalidConfig),
        Ok(_) => panic!("counts above 32768 must be rejected"),
    }
    match BufRing::new(65534, 16, 1) {
        Err(e) => assert_eq!(e, RingError::InvalidConfig),
        Ok(_) => panic!("counts above 32768 must be rejected"),
    }
    match BufRing::new(32768, 16, 1) {
        Ok(ring) => assert_eq!(ring.entries(), 32768),
        Err(_) => panic!("32768 is a valid power-of-two count"),
    }
}

#[test]
fn new_with_opts_accepts_every_mode() {
    let shared = MapOpts { privacy: MapPrivacy::Shared, populate: true };
    let ring = BufRing::new_with_opts(8, 32, 9, shared).unwrap();
    assert_eq!(ring.entries(), 8);
    assert_eq!(ring.bgid(), 9);
    assert_eq!(ring.buf_size(), 32);
    assert_eq!(ring.tail(), 0);
    let private = BufRing::new_with_opts(8, 32, 9, MapOpts::default()).unwrap();
    assert_eq!(private.entries(), 8);
}

#[test]
fn set_bgid_changes_registration_key() {
    let mut ring = BufRing::new(4, 8, 1).unwrap();
    ring.set_bgid(42);
    assert_eq!(ring.bgid(), 42);
    let mut engine = AcceptingEngine::new();
    let ring = accepted(ring.register(&mut engine));
    assert_eq!(engine.registered, vec![(4, 42)]);
    assert_eq!(ring.bgid(), 42);
}

#[test]
fn init_publishes_every_buffer() {
    let mut engine = AcceptingEngine::new();
    let ring = BufRing::new(8, 16, 3).unwrap();
    assert_eq!(ring.tail(), 0);
    let ring = accepted(ring.register(&mut engine));
    let ring = ring.init();
    assert_eq!(ring.tail(), 8);
    for i in 0..8u16 {
        let d = ring.entry(i);
        assert_eq!(d.bid, i);
        assert_eq!(d.len, 16);
        assert_eq!(d.addr, (i as u64) * 16);
    }
}

#[test]
fn register_failure_returns_ring_unchanged() {
    let mut engine = RejectingEngine { code: 22 };
    let ring = BufRing::new(4, 8, 7).unwrap();
    match ring.register(&mut engine) {
        Ok(_) => panic!("the rejecting engine cannot accept"),
        Err((e, ring)) => {
            assert_eq!(e, RingError::Os(22));
            assert_eq!(ring.entries(), 4);
            assert_eq!(ring.bgid(), 7);
            assert_eq!(ring.tail(), 0);
        },
    }
}

#[test]
fn unregister_failure_returns_ring_unchanged() {
    let mut accepting = AcceptingEngine::new();
    let mut rejecting = RejectingEngine { code: 16 };
    let ring = BufRing::new(4, 8, 7).unwrap();
    let ring = accepted(ring.register(&mut accepting));
    let ring = match ring.unregister(&mut rejecting) {
        Ok(_) => panic!("the rejecting engine cannot accept"),
        Err((e, ring)) => {
            assert_eq!(e, RingError::Os(16));
            ring
        },
    };
    let ring = ring.init();
    match ring.unregister(&mut rejecting) {
        Ok(_) => panic!("the rejecting engine cannot accept"),
        Err((e, ring)) => {
            assert_eq!(e, RingError::Os(16));
            assert_eq!(ring.tail(), 4);
        },
    }
}

#[test]
fn lifecycle_transitions_match_the_table() {
    // Uninitialized -> Registered -> Initialized -> Uninitialized,
    // and Registered -> Uninitialized; each transition consumes the
    // previous handle, so no other path is expressible.
    let mut engine = AcceptingEngine::new();
    let ring = BufRing::new(4, 8, 5).unwrap();
    let ring = accepted(ring.register(&mut engine));
    let ring = accepted(ring.unregister(&mut engine));
    let ring = accepted(ring.register(&mut engine));
    let ring = ring.init();
    let ring = accepted(ring.unregister(&mut engine));
    assert_eq!(ring.entries(), 4);
    assert_eq!(engine.registered.len(), 2);
    assert_eq!(engine.unregistered.len(), 2);
}

#[test]
fn advance_wraps_modulo_two_to_the_sixteen() {
    let mut engine = AcceptingEngine::new();
    let ring = BufRing::new(8, 4, 1).unwrap();
    let mut ring = accepted(ring.register(&mut engine)).init();
    assert_eq!(ring.tail(), 8);
    ring.advance(65535);
    assert_eq!(ring.tail(), 7);
    ring.advance(1);
    assert_eq!(ring.tail(), 8);
}

#[test]
fn thousand_rings_release_cleanly() {
    let mut engine = AcceptingEngine::new();
    for i in 0..1000u32 {
        let ring = BufRing::new(16, 64, (i % 7) as u16).unwrap();
        match i % 3 {
            0 => drop(ring),
            1 => {
                let ring = accepted(ring.register(&mut engine));
                drop(ring);
            },
            _ => {
                let ring = accepted(ring.register(&mut engine)).init();
                drop(ring);
            },
        }
    }
}
