//! The frame sequencer: sweeps the rotation percentage linearly over a
//! frame count.
//!
//! Frame `i` of `count` gets the exact percentage `(i + 1) / count`: the
//! sweep excludes zero at the first frame and reaches exactly one at the
//! last. Frames are independent of each other and uniquely indexed, so
//! they may be rendered in any order, or in parallel, and persisted under
//! their own index.

use crate::color::Ratio;
use vstd::prelude::*;

verus! {

/// One frame's parameters: its index and its sweep percentage.
#[derive(Copy, Clone, Debug, PartialEq, Eq, Structural)]
pub struct FrameParam {
    pub index: u32,
    pub percentage: Ratio,
}

/// The sweep percentage of frame `index` out of `count`: exactly
/// `(index + 1) / count`.
pub fn frame_percentage(index: u32, count: u32) -> (p: Ratio)
    requires
        0 < count,
        index < count,
    ensures
        p.num == index + 1,
        p.den == count,
        p.wf(),
        p.in_unit(),
        0 < p.num,
{
    Ratio { num: index as u64 + 1, den: count as u64 }
}

/// Plans a full animation sweep: one parameter per frame, in index order.
/// Every frame is produced and uniquely indexed; frame 0 gets percentage
/// `1 / count`, each step advances by exactly `1 / count`, and the final
/// frame's percentage is exactly one.
pub fn sweep(count: u32) -> (v: Vec<FrameParam>)
    requires
        0 < count,
    ensures
        v@.len() == count,
        forall|i: int|
            0 <= i < count ==> (#[trigger] v@[i]).index == i && v@[i].percentage == (Ratio {
                num: (i + 1) as u64,
                den: count as u64,
            }),
        v@[count - 1].percentage.num == count,
        v@[count - 1].percentage.same_value(Ratio { num: 1, den: 1 }),
        forall|i: int, j: int| 0 <= i < j < count ==> v@[i].index != v@[j].index,
{
    let mut v: Vec<FrameParam> = Vec::new();
    let mut i: u32 = 0;
    while i < count
        invariant
            0 < count,
            i <= count,
            v@.len() == i,
            forall|j: int|
                0 <= j < i ==> (#[trigger] v@[j]).index == j && v@[j].percentage == (Ratio {
                    num: (j + 1) as u64,
                    den: count as u64,
                }),
        decreases count - i,
    {
        let p = frame_percentage(i, count);
        v.push(FrameParam { index: i, percentage: p });
        i = i + 1;
    }
    v
}

} // verus!
