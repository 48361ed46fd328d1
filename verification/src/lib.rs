//! Converts an image file into a fixed-size, fixed-precision raw pixel
//! buffer ("tensor"): a flat byte sequence in row-major order with the
//! channel samples of each pixel contiguous.
//!
//! The library holds the verified core: the `Dimensions`/`Precision`
//! model with its textual descriptor grammar, the native-type
//! resolution, the error taxonomy, and the bounds-checked serialization
//! of a resized pixel buffer. The image codec and the bilinear resize
//! are external collaborators; the thin glue that drives them lives
//! outside the library.

pub mod descriptor;
pub mod error;
pub mod model;
pub mod tensor;

pub use error::ConversionError;
pub use model::Dimensions;
pub use model::Precision;
pub use model::NATIVE_TYPE_32FC3;
pub use model::NATIVE_TYPE_8UC3;
pub use tensor::serialize_tensor;
