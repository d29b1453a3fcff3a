//! RDP over an established session: what the client decides about the PDUs it
//! receives, the channels it serves and the frames it shows.

pub mod active;
pub mod channels;
pub mod clipboard;
pub mod fastpath;
pub mod frame;
pub mod layout;
pub mod monitor;
pub mod pdu;
pub mod refresh;
pub mod shown;
pub mod sink;
pub mod startup;
