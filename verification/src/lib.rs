//! A hex-dump library: renders a byte source as text, either in a compact
//! 16-bit-grouped form or in a canonical 16-bytes-per-line form with an
//! ASCII sidebar.

pub mod hex;
pub mod line;
pub mod dump;
pub mod laws;
