//! Media-container introspection and embedded-subtitle extraction logic.
//!
//! The library holds the pure core of the pipeline: rational-timebase
//! conversion, stream classification, metadata projection, discovery
//! bucketing, and subtitle-packet accumulation. The demuxing engine that
//! opens containers and decodes packets is an outside collaborator; the
//! host shell hands its observations to this crate as plain values.

pub mod av;
pub mod subtitle;
pub mod util;
