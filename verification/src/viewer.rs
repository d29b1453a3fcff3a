//! The viewer's own logic: its audit log, its lists of hosts, its toolbar and
//! what it paints.

pub mod audit;
pub mod recent;
pub mod wol;
pub mod record;
pub mod cursor;
pub mod input;
pub mod looks;
pub mod notes;
pub mod overlay;
pub mod pacing;
pub mod paint;
pub mod state;
pub mod toolbar;
pub mod window;
