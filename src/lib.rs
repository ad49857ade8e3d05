//! Decoding of camera RAW files into rasters, and perceptual hashes of the
//! resulting images.
pub mod chain;
pub mod error;
pub mod format;
pub mod hash;
pub mod imaging;
pub mod sensor;
pub mod text;
pub mod thumbnail;
pub mod tools;
