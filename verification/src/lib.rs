//! Calibration of a tiltable narrow-band filter.
//!
//! The library holds what the calibration decides: how the tilter answers a
//! command and what its simulated stand-in keeps on file, which tilts a run
//! steps through and in which order it tilts, exposes, detects and removes,
//! how the exposures of one tilt are averaged, how the catalogue of the
//! source detector is read, and which cell of the search grid fits best.
//! Every quantity is an exact decimal fixed-point number, and every rule is
//! stated as a contract and proved.
//!
//! What the library leaves to its caller is the outside world: files,
//! processes, the clock, and the floating-point transmission model whose
//! residuals the grid search compares.

pub mod acquisition;
pub mod calibration;
pub mod decimal;
pub mod device;
pub mod expose;
pub mod fields;
pub mod fit;
pub mod fixed;
pub mod focuser;
pub mod select;
pub mod sextractor;
pub mod statefile;
pub mod timestamp;
pub mod transmission;
