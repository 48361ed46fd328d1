//! The last pipeline step: reading the resized destination buffer out
//! as the flat tensor. The backend hands its buffer over as raw bytes;
//! this step checks the bounds and copies exactly the bytes the target
//! shape implies, in the order the buffer stores them (row-major,
//! channels interleaved, native byte order).

use vstd::prelude::*;

use crate::error::ConversionError;
use crate::model::Dimensions;

verus! {

/// Copies the tensor out of the resized destination buffer.
///
/// On success the result holds exactly the first
/// `dimensions.spec_byte_len()` bytes of `raw`, so its length always
/// equals the byte length the shape implies. A buffer too short to
/// cover the tensor is a backend fault and is reported as a resize
/// failure.
pub fn serialize_tensor(raw: &Vec<u8>, dimensions: &Dimensions) -> (r: Result<
    Vec<u8>,
    ConversionError,
>)
    requires
        dimensions.wf(),
        dimensions.spec_byte_len() <= usize::MAX,
    ensures
        match r {
            Ok(out) => raw@.len() >= dimensions.spec_byte_len() && out@ == raw@.take(
                dimensions.spec_byte_len() as int,
            ) && out@.len() == dimensions.spec_byte_len(),
            Err(e) => e is ResizeFailed && raw@.len() < dimensions.spec_byte_len(),
        },
{
    let need = dimensions.len();
    if raw.len() < need {
        return Err(
            ConversionError::ResizeFailed {
                message: "The resized buffer is smaller than the requested tensor.".to_owned(),
            },
        );
    }
    let mut out: Vec<u8> = Vec::new();
    let mut i: usize = 0;
    while i < need
        invariant
            i <= need <= raw@.len(),
            out@ == raw@.take(i as int),
        decreases need - i,
    {
        out.push(raw[i]);
        proof {
            assert(raw@.take(i + 1) =~= raw@.take(i as int).push(raw@[i as int]));
        }
        i = i + 1;
    }
    Ok(out)
}

} // verus!
