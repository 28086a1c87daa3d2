//! Reserved ranges of an instance buffer, for instances that the GPU fills in.
use vstd::prelude::*;

verus! {

/// Reserves a contiguous run of instances of a mesh and material, to be
/// written by a compute pass rather than packed from entities.
#[derive(Debug, Clone, Copy, PartialEq, Eq, Structural)]
pub struct InstanceSlice {
    pub instance_count: usize,
}

/// Where a reserved slice lies in its batch's instance buffer.
#[derive(Debug, Clone, Copy, PartialEq, Eq, Structural)]
pub struct InstanceSliceRange {
    pub offset: u64,
    pub instance_count: u64,
}

/// Where a reserved block of instances lies in an instance buffer.
#[derive(Debug, Clone, Copy, PartialEq, Eq, Structural)]
pub struct InstanceBlockRange {
    pub offset: u64,
    pub instance_count: u64,
}

/// The number of instances of the first `j` slices.
pub open spec fn slices_prefix(slices: Seq<InstanceSlice>, j: int) -> int
    decreases j,
{
    if j <= 0 {
        0
    } else {
        slices_prefix(slices, j - 1) + slices[j - 1].instance_count
    }
}

/// Lays the slices out one after the other from `start`: each slice's range
/// begins where the previous one ends. `None` where the ranges would pass
/// the largest 64-bit offset.
pub fn slice_ranges(start: u64, slices: &Vec<InstanceSlice>) -> (r: Option<Vec<InstanceSliceRange>>)
    ensures
        r is Some <==> start + slices_prefix(slices@, slices@.len() as int) <= u64::MAX,
        r matches Some(v) ==> {
            &&& v@.len() == slices@.len()
            &&& forall|j: int|
                0 <= j < slices@.len() ==> #[trigger] v@[j] == (InstanceSliceRange {
                    offset: (start + slices_prefix(slices@, j)) as u64,
                    instance_count: slices@[j].instance_count as u64,
                })
        },
{
    let mut out: Vec<InstanceSliceRange> = Vec::new();
    let mut offset: u64 = start;
    let mut j: usize = 0;
    while j < slices.len()
        invariant
            j <= slices@.len(),
            out@.len() == j,
            offset == start + slices_prefix(slices@, j as int),
            forall|i: int|
                0 <= i < j ==> #[trigger] out@[i] == (InstanceSliceRange {
                    offset: (start + slices_prefix(slices@, i)) as u64,
                    instance_count: slices@[i].instance_count as u64,
                }),
        decreases slices@.len() - j,
    {
        let count = slices[j].instance_count as u64;
        if count > u64::MAX - offset {
            proof {
                lemma_slices_prefix_monotone(slices@, j + 1, slices@.len() as int);
            }
            return None;
        }
        out.push(InstanceSliceRange { offset, instance_count: count });
        offset = offset + count;
        j += 1;
    }
    Some(out)
}

proof fn lemma_slices_prefix_monotone(slices: Seq<InstanceSlice>, i: int, j: int)
    requires
        0 <= i <= j <= slices.len(),
    ensures
        slices_prefix(slices, i) <= slices_prefix(slices, j),
    decreases j - i,
{
    if i < j {
        lemma_slices_prefix_monotone(slices, i, j - 1);
    }
}

} // verus!
