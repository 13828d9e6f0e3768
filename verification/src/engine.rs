use vstd::prelude::*;

verus! {

/// The marker put on the input events that the clicker itself sends.
pub const AUTOCLICKER_EXTRA_INFO: usize = 0x800D_A5A5;

/// A point of a click sequence and how many clicks it gets.
#[derive(Clone, Copy, Debug, PartialEq, Eq, Structural)]
pub struct SequenceTarget {
    pub x: i32,
    pub y: i32,
    pub clicks: usize,
}

/// Whether clicks follow a sequence: sequences are on and have a point.
pub fn use_sequence(sequence_enabled: bool, sequence_points: &Vec<SequenceTarget>) -> (r: bool)
    ensures
        r == (sequence_enabled && sequence_points@.len() > 0),
{
    sequence_enabled && sequence_points.len() > 0
}

} // verus!
