//! Audio path: bundle framing for the decoder and the wearable link.

pub mod ble;
pub mod decoder;
