pub mod state;
pub mod buf_ring;
pub mod buffer_id;

pub use buf_ring::BufRing;
pub use buffer_id::BufferId;
pub use state as buf_ring_state;
