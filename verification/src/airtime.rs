//! What the airtime computation checks without floating point.
use vstd::prelude::*;

verus! {

/// A LoRa payload holds between 1 and 254 bytes.
pub fn payload_valid(payload_len: i32) -> (r: bool)
    ensures
        r == (1 <= payload_len && payload_len < 255),
{
    payload_len >= 1 && payload_len < 255
}

} // verus!
