use vstd::prelude::*;

verus! {

/// Marker for a ring whose mapping exists but which the I/O engine
/// does not yet know about. No descriptors are populated.
pub struct Uninit;

/// Marker for a ring whose group id and address the I/O engine knows,
/// with no buffers published yet.
pub struct Registered;

/// Marker for a ring whose every buffer id has been published and whose
/// tail has been advanced; the ring is ready for I/O.
pub struct Init;

} // verus!
