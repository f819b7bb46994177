//! Smart-meter telegram handling: reassembly of telegrams from a chunked
//! serial stream, tag lookup and extraction of the meter's readings.
//!
//! Choices that the readings rest on:
//! - Every value is a fixed-point number in thousandths of its unit
//!   (`decimal::thousandths`): an optional sign, at most twelve whole digits
//!   and at most three decimals. Anything else is a `MalformedNumber`.
//! - A value that does not read as a number fails that reading alone, for
//!   every reading alike; nothing aborts.
//! - A unit is stripped only where the value ends with exactly that unit
//!   (`*kW`, `*kWh`); a value with another unit (`*kVA`) is then no number
//!   and fails as `MalformedNumber`. Gas alone requires its unit (`*m3`) and
//!   fails as `InvalidUnit` without it.

pub mod decimal;
pub mod frame;
pub mod lookup;
pub mod metrics;
pub mod text;
