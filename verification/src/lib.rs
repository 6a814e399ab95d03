//! Break-duty coverage from a school portal's weekly schedules.
//!
//! The portal serves schedules as near-JSON embedded in server-rendered HTML.
//! This library holds the logic of that pipeline: scanning a document for
//! marker lines, repairing the portal's JavaScript object literal into valid
//! JSON, decoding schedule events, classifying break-duty locations, and
//! deriving the per-weekday, per-break coverage report.  The HTTP handshake
//! and fetching around it live outside the library.

pub mod coverage;
pub mod errors;
pub mod event;
pub mod html;
pub mod json;
pub mod parser;
pub mod session;
pub mod text;
pub mod utils;
