//! Decoding of Bluetooth GATT Heart Rate Measurement payloads, a
//! stabilization gate over the resulting sample stream, and time-domain
//! heart-rate-variability statistics over the accumulated R-R intervals.

pub mod encoding;
pub mod heart_rate;
pub mod hrv;
pub mod stream;
