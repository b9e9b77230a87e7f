//! The passes of the state-update compute shader that run each frame.
use vstd::prelude::*;

verus! {

/// Number of passes of the state-update shader per frame.
pub const PASS_COUNT: i32 = 4;

/// Side of the simulated chunk, in cells.
pub const CHUNK_SIZE: u32 = 512;

/// Side of a work group of the state-update shader, in cells.
pub const WORK_GROUP_SIZE: u32 = 8;

/// One dispatch of the state-update shader: the value of its `pass_type`
/// uniform and the number of work groups along x and along y (along z there
/// is one).
#[derive(Clone, Copy, Debug, PartialEq, Eq, Structural)]
pub struct ComputePass {
    pub pass_type: i32,
    pub work_groups: u32,
}

/// Work groups along each side for a pass: the passes below 3 cover the
/// chunk with work groups of `WORK_GROUP_SIZE` cells, the last (clean-up)
/// pass runs one work group per cell.
pub open spec fn spec_work_groups(pass_type: i32) -> u32 {
    if pass_type < 3 {
        (CHUNK_SIZE / WORK_GROUP_SIZE) as u32
    } else {
        CHUNK_SIZE
    }
}

/// The passes below 3 run 64 work groups along each side (512 cells in
/// groups of 8), the clean-up pass 3 and above run 512.
pub proof fn lemma_work_groups(pass_type: i32)
    ensures
        pass_type < 3 ==> spec_work_groups(pass_type) == 64,
        pass_type >= 3 ==> spec_work_groups(pass_type) == 512,
{
}

/// Work groups along each side for the pass `pass_type`.
pub fn work_groups(pass_type: i32) -> (res: u32)
    ensures
        res == spec_work_groups(pass_type),
        pass_type < 3 ==> res == 64,
        pass_type >= 3 ==> res == 512,
{
    if pass_type < 3 {
        CHUNK_SIZE / WORK_GROUP_SIZE
    } else {
        CHUNK_SIZE
    }
}

/// The dispatches of one frame, in order: pass types 3, 2, 1, 0.
pub fn compute_passes() -> (res: Vec<ComputePass>)
    ensures
        res@.len() == PASS_COUNT,
        forall|i: int|
            0 <= i < res@.len() ==> #[trigger] res@[i] == (ComputePass {
                pass_type: (PASS_COUNT - 1 - i) as i32,
                work_groups: spec_work_groups((PASS_COUNT - 1 - i) as i32),
            }),
        res@.len() == 4,
        res@[0] == (ComputePass { pass_type: 3, work_groups: 512 }),
        res@[1] == (ComputePass { pass_type: 2, work_groups: 64 }),
        res@[2] == (ComputePass { pass_type: 1, work_groups: 64 }),
        res@[3] == (ComputePass { pass_type: 0, work_groups: 64 }),
{
    let mut res: Vec<ComputePass> = Vec::new();
    let mut pass_type: i32 = PASS_COUNT;
    while pass_type > 0
        invariant
            0 <= pass_type <= PASS_COUNT,
            res@.len() == PASS_COUNT - pass_type,
            forall|i: int|
                0 <= i < res@.len() ==> #[trigger] res@[i] == (ComputePass {
                    pass_type: (PASS_COUNT - 1 - i) as i32,
                    work_groups: spec_work_groups((PASS_COUNT - 1 - i) as i32),
                }),
        decreases pass_type,
    {
        pass_type = pass_type - 1;
        res.push(ComputePass { pass_type, work_groups: work_groups(pass_type) });
    }
    res
}

} // verus!
