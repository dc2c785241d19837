use vstd::prelude::*;

verus! {

/// `value` forced into `[min, max]`: `min` when below it, `max` when above
/// it, unchanged otherwise.
pub fn clamp(value: u16, min: u16, max: u16) -> (r: u16)
    ensures
        r == if value < min {
            min
        } else if value > max {
            max
        } else {
            value
        },
{
    if value < min {
        min
    } else if value > max {
        max
    } else {
        value
    }
}

} // verus!
