use vstd::prelude::*;

verus! {

/// Brickmap requests written back by the GPU.
#[derive(Copy, Clone, Debug)]
pub struct Feedback {
    pub top: u32,
    pub map_positions: [[i32; 3]; 256],
}

impl Feedback {
    /// A feedback buffer with every field zero.
    pub fn empty() -> (r: Self)
        ensures
            r.top == 0,
            forall|i: int, j: int| 0 <= i < 256 && 0 <= j < 3 ==> r.map_positions[i][j] == 0,
    {
        Self { top: 0, map_positions: [[0i32; 3]; 256] }
    }
}

} // verus!
