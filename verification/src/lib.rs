//! Acoustic fingerprinting: from decoded audio to sparse spectral
//! fingerprints, and from fingerprints to a recognised recording.
//!
//! The stages that work on whole numbers live here and are verified:
//! decoding, down-mixing, length check and decimation (`sample`); framing,
//! peak picking and peak pairing (`fingerprint`); offset-aligned voting
//! (`matcher`); the index of stored fingerprints (`db`); and the two
//! requests, insertion and recognition, from a spectrogram on (`web`).
//!
//! What computes on numbers with a fraction (the low-pass filter, the
//! window's weights, the Fourier transform) is the caller's. Samples pass
//! through the library unread, and magnitudes enter it as bit patterns,
//! which order as the magnitudes do.

pub mod db;
pub mod erreur;
pub mod fingerprint;
pub mod matcher;
pub mod sample;
pub mod web;
