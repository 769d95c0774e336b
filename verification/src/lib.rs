//! Exact rational time: time points, half-open ranges and affine transforms
//! over `(value, rate)` pairs, with timecode and time-string conversion.

pub mod decimal;
pub mod error_status;
pub mod gcd;
pub mod optional_open_time;
pub mod ratio;
pub mod rational_time;
pub mod time_range;
pub mod time_string;
pub mod time_transform;
pub mod timecode;
