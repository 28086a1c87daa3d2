//! The instance packer and the indirect draw builder: per-mesh instance
//! counts and offsets, finalized draw records, and their split across
//! capacity-bound instance buffers.
use vstd::prelude::*;

use crate::batching::SortedInstance;
use crate::indirect::{DrawCall, DrawIndexedIndirect, DrawIndirect, DrawOffsets, IndirectDraw};

verus! {

/// The number of instances in `list` that draw mesh `j`.
pub open spec fn count_mesh(list: Seq<SortedInstance>, j: int) -> nat
    decreases list.len(),
{
    if list.len() == 0 {
        0
    } else {
        count_mesh(list.drop_last(), j) + if list.last().mesh_index == j {
            1nat
        } else {
            0nat
        }
    }
}

/// The number of instances in `list` that draw a mesh before mesh `j`.
pub open spec fn count_below(list: Seq<SortedInstance>, j: int) -> nat
    decreases list.len(),
{
    if list.len() == 0 {
        0
    } else {
        count_below(list.drop_last(), j) + if list.last().mesh_index < j {
            1nat
        } else {
            0nat
        }
    }
}

/// The sum of the first `j` values.
pub open spec fn prefix_sum(values: Seq<u32>, j: int) -> int
    decreases j,
{
    if j <= 0 {
        0
    } else {
        prefix_sum(values, j - 1) + values[j - 1]
    }
}

pub proof fn lemma_count_below_step(list: Seq<SortedInstance>, j: int)
    ensures
        count_below(list, j + 1) == count_below(list, j) + count_mesh(list, j),
        count_below(list, j) <= list.len(),
    decreases list.len(),
{
    if list.len() > 0 {
        lemma_count_below_step(list.drop_last(), j);
    }
}

pub proof fn lemma_count_below_all(list: Seq<SortedInstance>, n: int)
    requires
        forall|i: int| 0 <= i < list.len() ==> list[i].mesh_index < n,
    ensures
        count_below(list, n) == list.len(),
    decreases list.len(),
{
    if list.len() > 0 {
        lemma_count_below_all(list.drop_last(), n);
    }
}

/// Counts, per mesh, the instances that draw it.
pub fn mesh_instance_counts(list: &Vec<SortedInstance>, mesh_count: usize) -> (r: Vec<u32>)
    requires
        list@.len() <= u32::MAX,
        forall|i: int| 0 <= i < list@.len() ==> list@[i].mesh_index < mesh_count,
    ensures
        r@.len() == mesh_count,
        forall|j: int| 0 <= j < mesh_count ==> r@[j] == count_mesh(list@, j),
{
    let mut counts: Vec<u32> = Vec::new();
    let mut j: usize = 0;
    while j < mesh_count
        invariant
            j <= mesh_count,
            counts@.len() == j,
            forall|m: int| 0 <= m < j ==> counts@[m] == 0,
        decreases mesh_count - j,
    {
        counts.push(0);
        j += 1;
    }
    let mut i: usize = 0;
    while i < list.len()
        invariant
            list@.len() <= u32::MAX,
            forall|i: int| 0 <= i < list@.len() ==> list@[i].mesh_index < mesh_count,
            i <= list@.len(),
            counts@.len() == mesh_count,
            forall|m: int| 0 <= m < mesh_count ==> counts@[m] == count_mesh(list@.take(i as int), m),
            forall|m: int| 0 <= m < mesh_count ==> count_mesh(list@.take(i as int), m) <= i,
        decreases list@.len() - i,
    {
        let m = list[i].mesh_index as usize;
        proof {
            let t = list@.take(i + 1);
            assert(t.drop_last() =~= list@.take(i as int));
            assert forall|k: int| 0 <= k < mesh_count implies count_mesh(t, k) == count_mesh(
                list@.take(i as int),
                k,
            ) + if list@[i as int].mesh_index == k {
                1nat
            } else {
                0nat
            } by {
                assert(t.last() == list@[i as int]);
            }
        }
        let c = counts[m];
        counts.set(m, c + 1);
        i += 1;
    }
    proof {
        assert(list@.take(i as int) =~= list@);
    }
    counts
}

/// The exclusive prefix sums of the counts: where each mesh's instances begin.
pub fn mesh_instance_offsets(counts: &Vec<u32>) -> (r: Vec<u32>)
    requires
        prefix_sum(counts@, counts@.len() as int) <= u32::MAX,
    ensures
        r@.len() == counts@.len(),
        forall|j: int| 0 <= j < counts@.len() ==> r@[j] == prefix_sum(counts@, j),
{
    let mut offsets: Vec<u32> = Vec::new();
    let mut offset: u32 = 0;
    let mut j: usize = 0;
    while j < counts.len()
        invariant
            prefix_sum(counts@, counts@.len() as int) <= u32::MAX,
            j <= counts@.len(),
            offsets@.len() == j,
            offset == prefix_sum(counts@, j as int),
            forall|m: int| 0 <= m < j ==> offsets@[m] == prefix_sum(counts@, m),
        decreases counts@.len() - j,
    {
        offsets.push(offset);
        proof {
            lemma_prefix_sum_monotone(counts@, j + 1, counts@.len() as int);
        }
        offset = offset + counts[j];
        j += 1;
    }
    offsets
}

pub proof fn lemma_prefix_sum_monotone(values: Seq<u32>, i: int, j: int)
    requires
        0 <= i <= j <= values.len(),
    ensures
        prefix_sum(values, i) <= prefix_sum(values, j),
    decreases j - i,
{
    if i < j {
        lemma_prefix_sum_monotone(values, i, j - 1);
    }
}

/// The sum of the first `j` counts is the number of instances of meshes before `j`.
pub proof fn lemma_prefix_sum_counts(list: Seq<SortedInstance>, counts: Seq<u32>, j: int)
    requires
        0 <= j <= counts.len(),
        forall|m: int| 0 <= m < counts.len() ==> counts[m] == count_mesh(list, m),
    ensures
        prefix_sum(counts, j) == count_below(list, j),
    decreases j,
{
    if j > 0 {
        lemma_prefix_sum_counts(list, counts, j - 1);
        lemma_count_below_step(list, j - 1);
    } else {
        assert(count_below(list, 0) == 0) by {
            lemma_count_below_zero(list);
        }
    }
}

proof fn lemma_count_below_zero(list: Seq<SortedInstance>)
    ensures
        count_below(list, 0) == 0,
    decreases list.len(),
{
    if list.len() > 0 {
        lemma_count_below_zero(list.drop_last());
    }
}

/// The number of vertices or indices that the first `j` draws cover.
pub open spec fn vertex_prefix(draws: Seq<IndirectDraw>, j: int) -> int
    decreases j,
{
    if j <= 0 {
        0
    } else {
        vertex_prefix(draws, j - 1) + draws[j - 1].spec_vertex_count()
    }
}

/// The template with its instances and offsets filled in: `first` is where the
/// mesh starts in the batch's index or vertex buffer, `offset` where its
/// instances start in the instance buffer.
pub open spec fn finalize(t: IndirectDraw, count: u32, first: u32, offset: u32) -> IndirectDraw {
    match t {
        IndirectDraw::NonIndexed(d) => IndirectDraw::NonIndexed(
            DrawIndirect {
                vertex_count: d.vertex_count,
                instance_count: count,
                base_vertex: first,
                base_instance: offset,
            },
        ),
        IndirectDraw::Indexed(d) => IndirectDraw::Indexed(
            DrawIndexedIndirect {
                vertex_count: d.vertex_count,
                instance_count: count,
                base_index: first,
                vertex_offset: 0,
                base_instance: offset,
            },
        ),
    }
}

/// The finalized draws of the first `n` meshes, leaving out meshes without instances.
pub open spec fn final_draws(
    templates: Seq<IndirectDraw>,
    counts: Seq<u32>,
    offsets: Seq<u32>,
    n: int,
) -> Seq<IndirectDraw>
    decreases n,
{
    if n <= 0 {
        Seq::empty()
    } else {
        let before = final_draws(templates, counts, offsets, n - 1);
        if counts[n - 1] > 0 {
            before.push(
                finalize(
                    templates[n - 1],
                    counts[n - 1],
                    vertex_prefix(templates, n - 1) as u32,
                    offsets[n - 1],
                ),
            )
        } else {
            before
        }
    }
}

/// Combines the draw templates with the instance counts and offsets, one
/// record per mesh that has instances, in mesh order.
pub fn build_draws(templates: &Vec<IndirectDraw>, counts: &Vec<u32>, offsets: &Vec<u32>) -> (r: Vec<
    IndirectDraw,
>)
    requires
        counts@.len() == templates@.len(),
        offsets@.len() == templates@.len(),
        vertex_prefix(templates@, templates@.len() as int) <= u32::MAX,
    ensures
        r@ == final_draws(templates@, counts@, offsets@, templates@.len() as int),
{
    let mut out: Vec<IndirectDraw> = Vec::new();
    let mut first: u32 = 0;
    let mut j: usize = 0;
    while j < templates.len()
        invariant
            counts@.len() == templates@.len(),
            offsets@.len() == templates@.len(),
            vertex_prefix(templates@, templates@.len() as int) <= u32::MAX,
            j <= templates@.len(),
            first == vertex_prefix(templates@, j as int),
            out@ == final_draws(templates@, counts@, offsets@, j as int),
        decreases templates@.len() - j,
    {
        let mut draw = templates[j];
        if counts[j] > 0 {
            draw.set_instance_count(counts[j]);
            let draw_offsets = match draw {
                IndirectDraw::Indexed(_) => DrawOffsets::Indexed { base_index: first, vertex_offset: 0 },
                IndirectDraw::NonIndexed(_) => DrawOffsets::NonIndexed { base_vertex: first },
            };
            draw.set_offsets(draw_offsets);
            draw.set_base_instance(offsets[j]);
            proof {
                let f = finalize(templates@[j as int], counts@[j as int], first, offsets@[j as int]);
                match draw {
                    IndirectDraw::Indexed(d) => {
                        assert(draw == f);
                    },
                    IndirectDraw::NonIndexed(d) => {
                        assert(draw == f);
                    },
                }
            }
            out.push(draw);
        }
        proof {
            lemma_vertex_prefix_monotone(templates@, j + 1, templates@.len() as int);
        }
        first = first + templates[j].vertex_count();
        j += 1;
    }
    out
}

pub proof fn lemma_vertex_prefix_monotone(draws: Seq<IndirectDraw>, i: int, j: int)
    requires
        0 <= i <= j <= draws.len(),
    ensures
        vertex_prefix(draws, i) <= vertex_prefix(draws, j),
    decreases j - i,
{
    if i < j {
        lemma_vertex_prefix_monotone(draws, i, j - 1);
    }
}

/// The number of instances that the draws cover.
pub open spec fn instance_total(draws: Seq<IndirectDraw>) -> int
    decreases draws.len(),
{
    if draws.len() == 0 {
        0
    } else {
        instance_total(draws.drop_last()) + draws.last().spec_instance_count()
    }
}

/// The draw with another instance count and first instance.
pub open spec fn with_instances(d: IndirectDraw, count: u32, base: u32) -> IndirectDraw {
    match d {
        IndirectDraw::NonIndexed(d) => IndirectDraw::NonIndexed(
            DrawIndirect { instance_count: count, base_instance: base, ..d },
        ),
        IndirectDraw::Indexed(d) => IndirectDraw::Indexed(
            DrawIndexedIndirect { instance_count: count, base_instance: base, ..d },
        ),
    }
}

fn set_instances(d: IndirectDraw, count: u32, base: u32) -> (r: IndirectDraw)
    ensures
        r == with_instances(d, count, base),
{
    let mut draw = d;
    draw.set_instance_count(count);
    draw.set_base_instance(base);
    proof {
        match draw {
            IndirectDraw::Indexed(x) => {
                assert(draw == with_instances(d, count, base));
            },
            IndirectDraw::NonIndexed(x) => {
                assert(draw == with_instances(d, count, base));
            },
        }
    }
    draw
}

/// The part of the draw's instance range that lies in the buffer whose
/// instances are `lo .. lo + capacity`, with its first instance counted from `lo`.
pub open spec fn clip(d: IndirectDraw, lo: int, capacity: int) -> Option<IndirectDraw> {
    let base = d.spec_base_instance() as int;
    let end = base + d.spec_instance_count();
    let start = if base < lo {
        lo
    } else {
        base
    };
    let stop = if end < lo + capacity {
        end
    } else {
        lo + capacity
    };
    if start < stop {
        Some(with_instances(d, (stop - start) as u32, (start - lo) as u32))
    } else {
        None
    }
}

/// The draws clipped to one buffer, leaving out those with no instance in it.
pub open spec fn clipped(draws: Seq<IndirectDraw>, lo: int, capacity: int) -> Seq<IndirectDraw>
    decreases draws.len(),
{
    if draws.len() == 0 {
        Seq::empty()
    } else {
        let before = clipped(draws.drop_last(), lo, capacity);
        match clip(draws.last(), lo, capacity) {
            Some(d) => before.push(d),
            None => before,
        }
    }
}

/// How many buffers of `capacity` instances hold `total` instances.
pub open spec fn buffer_count(total: int, capacity: int) -> int {
    (total + capacity - 1) / capacity
}

/// Splits draws over buffers of `capacity` instances each: buffer `b` holds
/// the instances `b * capacity ..` of the batch, and gets every draw that has
/// instances there, cut at the buffer's bounds and counted from its start. A
/// mesh whose instances cross a boundary thus gets a draw in each buffer.
pub fn split_draws(draws: &Vec<IndirectDraw>, capacity: u32) -> (r: Vec<Vec<IndirectDraw>>)
    requires
        capacity > 0,
        instance_total(draws@) <= u32::MAX,
        forall|i: int|
            0 <= i < draws@.len() ==> (#[trigger] draws@[i]).spec_base_instance() + draws@[i].spec_instance_count()
                <= u32::MAX,
    ensures
        r@.len() == buffer_count(instance_total(draws@), capacity as int),
        forall|b: int|
            0 <= b < r@.len() ==> (#[trigger] r@[b])@ == clipped(draws@, b * capacity, capacity as int),
{
    let mut total: u64 = 0;
    let mut i: usize = 0;
    proof {
        lemma_instance_total_prefix(draws@, 0);
    }
    while i < draws.len()
        invariant
            i <= draws@.len(),
            instance_total(draws@) <= u32::MAX,
            total == instance_total(draws@.take(i as int)),
            instance_total(draws@.take(i as int)) <= instance_total(draws@),
        decreases draws@.len() - i,
    {
        proof {
            assert(draws@.take(i + 1).drop_last() =~= draws@.take(i as int));
            lemma_instance_total_prefix(draws@, i + 1);
        }
        total = total + draws[i].instance_count() as u64;
        i += 1;
    }
    proof {
        assert(draws@.take(i as int) =~= draws@);
    }
    let cap = capacity as u64;
    let count = (total + cap - 1) / cap;
    let mut out: Vec<Vec<IndirectDraw>> = Vec::new();
    let mut b: u64 = 0;
    while b < count
        invariant
            capacity > 0,
            cap == capacity,
            total <= u32::MAX,
            count == buffer_count(total as int, cap as int),
            forall|i: int|
                0 <= i < draws@.len() ==> (#[trigger] draws@[i]).spec_base_instance() + draws@[i].spec_instance_count()
                    <= u32::MAX,
            b <= count,
            out@.len() == b,
            forall|c: int|
                0 <= c < b ==> (#[trigger] out@[c])@ == clipped(draws@, c * capacity, capacity as int),
        decreases count - b,
    {
        proof {
            assert(count * cap <= total + cap) by (nonlinear_arith)
                requires
                    count == (total + cap - 1) / (cap as int),
                    cap > 0,
            ;
            assert(b * cap < count * cap) by (nonlinear_arith)
                requires
                    b < count,
                    cap > 0,
            ;
        }
        let lo = b * cap;
        let mut part: Vec<IndirectDraw> = Vec::new();
        let mut j: usize = 0;
        while j < draws.len()
            invariant
                lo == b * capacity,
                lo <= 0x1_0000_0000 * 2,
                cap == capacity,
                forall|i: int|
                    0 <= i < draws@.len() ==> (#[trigger] draws@[i]).spec_base_instance() + draws@[i].spec_instance_count()
                        <= u32::MAX,
                j <= draws@.len(),
                part@ == clipped(draws@.take(j as int), lo as int, capacity as int),
            decreases draws@.len() - j,
        {
            let d = draws[j];
            let base = d.base_instance() as u64;
            let end = base + d.instance_count() as u64;
            let start = if base < lo {
                lo
            } else {
                base
            };
            let stop = if end < lo + cap {
                end
            } else {
                lo + cap
            };
            if start < stop {
                part.push(set_instances(d, (stop - start) as u32, (start - lo) as u32));
            }
            proof {
                assert(draws@.take(j + 1).drop_last() =~= draws@.take(j as int));
                assert(draws@.take(j + 1).last() == draws@[j as int]);
            }
            j += 1;
        }
        proof {
            assert(draws@.take(j as int) =~= draws@);
        }
        out.push(part);
        b += 1;
    }
    out
}

proof fn lemma_instance_total_prefix(draws: Seq<IndirectDraw>, n: int)
    requires
        0 <= n <= draws.len(),
    ensures
        instance_total(draws.take(n)) <= instance_total(draws),
    decreases draws.len(),
{
    if n < draws.len() {
        assert(draws.drop_last().take(n) =~= draws.take(n));
        lemma_instance_total_prefix(draws.drop_last(), n);
    } else {
        assert(draws.take(n) =~= draws);
    }
}

/// Cuts the packed instances into buffers of `capacity` instances, the last
/// one possibly shorter.
pub fn chunk_instances(list: &Vec<SortedInstance>, capacity: u32) -> (r: Vec<Vec<SortedInstance>>)
    requires
        capacity > 0,
        list@.len() <= u32::MAX,
    ensures
        r@.len() == buffer_count(list@.len() as int, capacity as int),
        forall|b: int|
            0 <= b < r@.len() ==> (#[trigger] r@[b])@ == list@.subrange(
                b * capacity,
                if (b + 1) * capacity < list@.len() {
                    (b + 1) * capacity
                } else {
                    list@.len() as int
                },
            ),
{
    let len = list.len();
    let n = len as u64;
    let cap = capacity as u64;
    let count = (n + cap - 1) / cap;
    let mut out: Vec<Vec<SortedInstance>> = Vec::new();
    let mut b: u64 = 0;
    while b < count
        invariant
            cap == capacity,
            capacity > 0,
            n == list@.len(),
            len == list@.len(),
            n <= u32::MAX,
            count == buffer_count(n as int, cap as int),
            b <= count,
            out@.len() == b,
            forall|c: int|
                0 <= c < b ==> (#[trigger] out@[c])@ == list@.subrange(
                    c * capacity,
                    if (c + 1) * capacity < list@.len() {
                        (c + 1) * capacity
                    } else {
                        list@.len() as int
                    },
                ),
        decreases count - b,
    {
        proof {
            assert(count * cap <= n + cap) by (nonlinear_arith)
                requires
                    count == (n + cap - 1) / (cap as int),
                    cap > 0,
            ;
            assert((b + 1) * cap <= count * cap) by (nonlinear_arith)
                requires
                    b < count,
                    cap > 0,
            ;
            assert(b * cap < n) by (nonlinear_arith)
                requires
                    b < count,
                    count == (n + cap - 1) / (cap as int),
                    cap > 0,
            ;
        }
        let lo = b * cap;
        let hi = if lo + cap < n {
            lo + cap
        } else {
            n
        };
        let mut part: Vec<SortedInstance> = Vec::new();
        let mut k: u64 = lo;
        while k < hi
            invariant
                lo <= k <= hi,
                hi <= n,
                n == list@.len(),
                len == list@.len(),
                part@ == list@.subrange(lo as int, k as int),
            decreases hi - k,
        {
            let idx = k as usize;
            proof {
                assert(idx as int == k as int);
            }
            part.push(list[idx]);
            proof {
                assert(list@.subrange(lo as int, k + 1) =~= list@.subrange(lo as int, k as int).push(
                    list@[k as int],
                ));
            }
            k += 1;
        }
        proof {
            assert((b + 1) * capacity == lo + cap) by (nonlinear_arith)
                requires
                    lo == b * cap,
                    cap == capacity,
            ;
        }
        out.push(part);
        b += 1;
    }
    out
}

/// The bytes of one uniform buffer of instances.
pub const UNIFORM_BUFFER_BYTES: u64 = 16384;

/// How many instances of `shader_size` bytes one uniform buffer holds.
pub fn uniform_buffer_length(shader_size: u64) -> (r: u64)
    requires
        0 < shader_size <= UNIFORM_BUFFER_BYTES,
    ensures
        r == UNIFORM_BUFFER_BYTES / shader_size,
        r >= 1,
{
    proof {
        assert(UNIFORM_BUFFER_BYTES / shader_size >= 1) by (nonlinear_arith)
            requires
                0 < shader_size <= UNIFORM_BUFFER_BYTES,
                UNIFORM_BUFFER_BYTES == 16384,
        ;
    }
    UNIFORM_BUFFER_BYTES / shader_size
}

} // verus!
