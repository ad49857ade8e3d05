//! Errors reported by the library.
use vstd::prelude::*;

verus! {

/// The ways in which a decode or a hash can fail. A failed attempt of an
/// external tool is no error of its own: the chain goes on to the next.
#[derive(Clone, Copy, Debug, PartialEq, Eq, Structural)]
pub enum DecodeError {
    /// A decoded image is not usable.
    OutputUndecodable,
    /// The sensor data holds fewer samples than width times height.
    SensorDataTruncated,
    /// The time budget ran out before every strategy was tried.
    ChainTimeout,
    /// Every strategy was tried and none succeeded.
    ChainExhausted,
    /// A hash was given an image of the wrong dimensions.
    ShapeMismatch,
    /// A file could not be read or written.
    IoError,
}

} // verus!
