//! The piano keyboard layout: which MIDI keys are drawn as black notes.
use vstd::prelude::*;

verus! {

/// The table of key numbers that the renderer draws in the black-note pass.
pub const BLACK: [u8; 36] = [
    1, 4, 6, 9, 11, 13, 16, 18, 21, 23, 25, 28, 30, 33, 35, 37, 40, 42, 45, 47, 49, 52, 54, 57,
    59, 61, 64, 66, 69, 71, 73, 76, 78, 81, 83, 85,
];

/// Whether `key` occurs in `BLACK`.
pub open spec fn in_black_table(key: u8) -> bool {
    exists|i: int| 0 <= i < 36 && BLACK@[i] == key
}

/// Tests whether `key` occurs in the black-note table (a linear search, as `contains` does).
pub fn black_contains(key: u8) -> (r: bool)
    ensures
        r == in_black_table(key),
{
    let table = BLACK;
    let mut i: usize = 0;
    while i < 36
        invariant
            0 <= i <= 36,
            table@ == BLACK@,
            forall|j: int| 0 <= j < i ==> table@[j] != key,
        decreases 36 - i,
    {
        if table[i] == key {
            return true;
        }
        i += 1;
    }
    false
}

} // verus!
