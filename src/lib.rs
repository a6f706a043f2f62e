//! Live-audio normalization and transcript fan-out, verified with Verus.
//!
//! Samples are carried as fixed-point integers: the capture side scales each
//! sample to an `i32` before handing it to the library, and per-chunk peak
//! normalization makes the result independent of that scale.
use vstd::prelude::*;

pub mod audio;
pub mod session;
pub mod transcript;
pub mod speech_recognition;
pub mod fanout;
