//! The verified core of an SCCM Remote Control client.

pub mod capture;
pub mod diag;
pub mod dump;
pub mod orders;
pub mod probe;
pub mod protocol;
pub mod rdp;
pub mod session;
pub mod text;
pub mod viewer;
pub mod wire;
