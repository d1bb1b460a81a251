//! Newton-fractal iteration engine.
//!
//! A rational complex function is given by an explicit list of zeros
//! ("roots") and poles.  This crate evaluates the function and its
//! derivative by recursive peeling of those lists, drives Newton-Raphson
//! iteration from a starting point, and classifies the outcome: either the
//! trajectory converged, in which case the nearest entry of the root list is
//! reported together with the number of completed steps, or it did not.
//!
//! Complex values are carried as the IEEE-754 bit patterns of their real and
//! imaginary parts; the double-precision arithmetic itself is delegated to
//! the `num` crate behind a small set of trusted wrappers.

pub mod complex;
pub mod eval;
pub mod engine;
