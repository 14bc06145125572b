//! Monetary unit sampling (MUS) for audit work: planning of the sample size
//! and systematic probability-proportional-to-size extraction.
//!
//! Book values are whole monetary units (`i64`); confidence levels and
//! percentage rates are parts per million; sampling intervals are exact
//! rationals.  Start points and grid positions are expressed in hundredths
//! of a monetary unit.

pub mod errors;
pub mod extraction;
pub mod journal;
pub mod laws;
pub mod planning;
pub mod population;
pub mod pps;
pub mod ratio;
pub mod rng;
pub mod sheets;
pub mod stats;
pub mod text;
