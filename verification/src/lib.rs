//! The SS7 MTP3-User Service Access Point value types and point codes.
//!
//! Point codes ([`PointCode`], [`Variant`]) parse from and render to their
//! structured `a-b-c` form; an MTP3 message signal unit ([`Mtp3Msu`]) encodes
//! to and decodes from its on-wire layout (SIO, routing label, SIF) for the
//! ITU (Q.704) and ANSI/China (T1.111) variants.

pub mod point_code;
pub mod sap;
pub mod text;

pub use point_code::{PointCode, PointCodeError, Variant};
pub use sap::{Mtp3Error, Mtp3Event, Mtp3Msu, Mtp3Status, NetworkIndicator, ServiceIndicator};
