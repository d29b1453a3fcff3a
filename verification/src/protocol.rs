//! SCCM Remote Control wire protocol (TCP/2701).
//!
//! Layers (outer to inner):
//! ```text
//!  TCP/2701
//!    +-- frames
//!          +-- handshake phase: SSPI Negotiate token exchange
//!          +-- data phase:      sealed messages
//!                +-- standard MS-RDPBCGR messages
//! ```

pub mod arbitration;
pub mod clip_layout;
pub mod cliprdr;
pub mod error;
pub mod framing;
pub mod handshake;
pub mod mppc;
pub mod mppc_tokens;
pub mod transport;

pub use arbitration::ArbitrationOutcome;
pub use error::Error;
