//! Scan-request pipeline of a malware scanner for mobile application packages:
//! content fingerprints, feature extraction, dense batch assembly, verdict
//! decoding and the request state machine that ties them together.

pub mod fingerprint;
pub mod models;
pub mod response;
pub mod features;
pub mod batch;
pub mod inference;
pub mod stages;
pub mod scan;
pub mod query;
