//! Splitting a slice into two parts that can be changed independently.

use vstd::prelude::*;

verus! {

/// Splits `values` at `mid` into `values[..mid]` and `values[mid..]`,
/// both of which can be written through.
pub fn split_as_mut(values: &mut [i32], mid: usize) -> (parts: (&mut [i32], &mut [i32]))
    requires
        mid <= old(values)@.len(),
    ensures
        parts.0@ == old(values)@.subrange(0, mid as int),
        parts.1@ == old(values)@.subrange(mid as int, old(values)@.len() as int),
        final(values)@ == final(parts.0)@ + final(parts.1)@,
{
    values.split_at_mut(mid)
}

} // verus!
