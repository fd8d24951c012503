//! Verified core of a humanoid robot control stack: joint configuration
//! bookkeeping, the CAN-adapter wire framing, stall counting, the in-memory
//! log ring, and the small decision rules of the control API.

pub mod transport;
pub mod config;
pub mod safety;
pub mod recovery;
pub mod text;
pub mod arm;
pub mod log_buffer;
pub mod api;
