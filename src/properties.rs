//! Properties that relate several calls, or hold of every output.
use vstd::prelude::*;

use crate::batching::{
    entities_unique, has_group, instance_lt, lemma_resolves_unique, locates, mesh_indices_fit, resolved_upto,
    resolves_to, sorted_instances, InstanceBatchKey, InstanceInput, SortedInstance,
};
use crate::frame::{
    batch_groups, drawable, lemma_final_draws_bounds, prepared, InstanceBatch, InstanceBuffering,
};
use crate::indirect::{DrawCall, IndirectDraw};
use crate::material::PreparedMaterial;
use crate::mesh::{has_batch, members, Indices, InstancedMeshKey, MeshBatch, MeshBatches, RenderMeshes};
use crate::table::lemma_sorted_unique;
use crate::packing::{
    buffer_count, clip, clipped, instance_total,
    count_below, lemma_count_below_all, lemma_count_below_step, lemma_prefix_sum_counts, prefix_sum,
};

verus! {

/// In a list sorted by mesh, the instances of meshes before `j` are exactly
/// the first `count_below(list, j)`.
proof fn lemma_sorted_prefix(list: Seq<SortedInstance>, blend: bool, j: int, p: int)
    requires
        sorted_instances(list, blend),
        0 <= p < list.len(),
    ensures
        list[p].mesh_index < j <==> p < count_below(list, j),
    decreases list.len(),
{
    let d = list.drop_last();
    lemma_count_below_step(d, j);
    if list.last().mesh_index < j {
        assert forall|i: int| 0 <= i < d.len() implies (#[trigger] d[i]).mesh_index < j by {
            assert(instance_lt(list[i], list.last(), blend));
        }
    }
    if p < list.len() - 1 {
        assert(sorted_instances(d, blend));
        lemma_sorted_prefix(d, blend, j, p);
        if list.last().mesh_index >= j && list[p].mesh_index < j {
        } else if list.last().mesh_index < j {
            assert(instance_lt(list[p], list.last(), blend));
            assert(list[p].mesh_index < j);
            lemma_all_below(d, j);
        }
    } else {
        if list.last().mesh_index < j {
            lemma_all_below(d, j);
        } else {
            lemma_count_below_step(d, j);
        }
    }
}

/// When the last instance draws a mesh before `j`, all of them do.
proof fn lemma_all_below(d: Seq<SortedInstance>, j: int)
    requires
        forall|i: int| 0 <= i < d.len() ==> (#[trigger] d[i]).mesh_index < j,
    ensures
        count_below(d, j) == d.len(),
    decreases d.len(),
{
    if d.len() > 0 {
        lemma_all_below(d.drop_last(), j);
    }
}

/// Offset contiguity: in every prepared batch, each mesh's offset is the sum of
/// the instance counts of the meshes before it, and the instances of that mesh
/// are exactly those at the positions from its offset on, as many as its count.
pub proof fn lemma_offset_contiguity(
    batches: Seq<InstanceBatch>,
    meshes: Seq<(InstancedMeshKey, MeshBatch)>,
    materials: Map<u64, PreparedMaterial>,
    inputs: Seq<InstanceInput>,
    buffering: InstanceBuffering,
    a: int,
    j: int,
    p: int,
)
    requires
        prepared(batches, meshes, materials, inputs, buffering),
        0 <= a < batches.len(),
        0 <= j < batches[a].mesh_instance_counts@.len(),
        0 <= p < batches[a].instances@.len(),
    ensures
        batches[a].mesh_instance_offsets@[j] == prefix_sum(batches[a].mesh_instance_counts@, j),
        batches[a].instances@[p].mesh_index == j <==> batches[a].mesh_instance_offsets@[j] <= p
            < batches[a].mesh_instance_offsets@[j] + batches[a].mesh_instance_counts@[j],
{
    let b = batches[a];
    let list = b.instances@;
    let counts = b.mesh_instance_counts@;
    assert(b.packed_from(meshes[b.mesh_batch as int].1.indirect_data.draws(), buffering));
    assert(batch_groups(batches)[a] == (b.key, list));
    assert(sorted_instances(list, b.key.blend()));
    lemma_prefix_sum_counts(list, counts, j);
    lemma_count_below_step(list, j);
    lemma_sorted_prefix(list, b.key.blend(), j, p);
    lemma_sorted_prefix(list, b.key.blend(), j + 1, p);
}

/// A material that could not be prepared keeps its instances out of every
/// batch of the frame; once it is prepared on a later frame, each of its
/// instances whose mesh is in a mesh batch stands in exactly one batch, once.
/// `failed` is the registry after recording the failure, `ready` after
/// recording the prepared material.
pub proof fn lemma_not_ready_then_ready(
    failed: Map<u64, PreparedMaterial>,
    ready: Map<u64, PreparedMaterial>,
    id: u64,
    material: PreparedMaterial,
    meshes: Seq<(InstancedMeshKey, MeshBatch)>,
    inputs: Seq<InstanceInput>,
    buffering: InstanceBuffering,
    out_failed: Seq<InstanceBatch>,
    out_ready: Seq<InstanceBatch>,
    i: int,
)
    requires
        !failed.contains_key(id),
        ready == failed.insert(id, material),
        prepared(out_failed, meshes, failed, inputs, buffering),
        prepared(out_ready, meshes, ready, inputs, buffering),
        entities_unique(inputs),
        mesh_indices_fit(meshes),
        0 <= i < inputs.len(),
        inputs[i].material == id,
    ensures
        forall|a: int, p: int|
            0 <= a < out_failed.len() && 0 <= p < out_failed[a].instances@.len()
                ==> out_failed[a].instances@[p].entity != inputs[i].entity,
        (exists|w: int, m: int| locates(meshes, inputs[i].mesh, w, m)) ==> exists|a: int, p: int|
            0 <= a < out_ready.len() && 0 <= p < out_ready[a].instances@.len()
                && out_ready[a].instances@[p].entity == inputs[i].entity,
        forall|a1: int, i1: int, a2: int, i2: int|
            0 <= a1 < out_ready.len() && 0 <= i1 < out_ready[a1].instances@.len() && 0 <= a2
                < out_ready.len() && 0 <= i2 < out_ready[a2].instances@.len()
                && out_ready[a1].instances@[i1].entity == inputs[i].entity
                && out_ready[a2].instances@[i2].entity == inputs[i].entity ==> a1 == a2 && i1 == i2,
{
    let e = inputs[i].entity;
    let gf = batch_groups(out_failed);
    let gr = batch_groups(out_ready);
    assert forall|a: int, p: int|
        0 <= a < out_failed.len() && 0 <= p < out_failed[a].instances@.len()
            implies out_failed[a].instances@[p].entity != e by {
        let x = out_failed[a].instances@[p];
        assert(gf[a] == (out_failed[a].key, out_failed[a].instances@));
        assert(gf[a].1.contains(x));
        let j = choose|j: int|
            0 <= j < inputs.len() && j < inputs.len() && resolves_to(meshes, failed, inputs[j], gf[a].0, x);
        if x.entity == e {
            assert(j == i);
        }
    }
    if exists|w: int, m: int| locates(meshes, inputs[i].mesh, w, m) {
        let (w, m) = choose|w: int, m: int| locates(meshes, inputs[i].mesh, w, m);
        assert(meshes[w].1.meshes@.len() <= u32::MAX);
        let key = InstanceBatchKey {
            mesh_key: meshes[w].0,
            material_key: material.spec_material_key(),
        };
        let x = SortedInstance { entity: e, mesh_index: m as u32, depth: inputs[i].depth };
        assert(x.mesh_index as int == m);
        assert(locates(meshes, inputs[i].mesh, w, x.mesh_index as int));
        assert(ready.contains_key(inputs[i].material) && ready[inputs[i].material] == material);
        assert(resolves_to(meshes, ready, inputs[i], key, x));
        assert(resolved_upto(meshes, ready, inputs, inputs.len() as int, key, x));
        assert(has_group(gr, key));
        let a = choose|a: int| 0 <= a < gr.len() && gr[a].0 == key;
        assert(gr[a] == (out_ready[a].key, out_ready[a].instances@));
        assert(gr[a].1.contains(x));
        let p = choose|p: int| 0 <= p < gr[a].1.len() && gr[a].1[p] == x;
        assert(out_ready[a].instances@[p].entity == e);
    }
    assert forall|a1: int, i1: int, a2: int, i2: int|
        0 <= a1 < out_ready.len() && 0 <= i1 < out_ready[a1].instances@.len() && 0 <= a2
            < out_ready.len() && 0 <= i2 < out_ready[a2].instances@.len()
            && out_ready[a1].instances@[i1].entity == e
            && out_ready[a2].instances@[i2].entity == e implies a1 == a2 && i1 == i2 by {
        let x1 = out_ready[a1].instances@[i1];
        let x2 = out_ready[a2].instances@[i2];
        assert(gr[a1] == (out_ready[a1].key, out_ready[a1].instances@));
        assert(gr[a2] == (out_ready[a2].key, out_ready[a2].instances@));
        assert(gr[a1].1.contains(x1));
        assert(gr[a2].1.contains(x2));
        let j1 = choose|j: int|
            0 <= j < inputs.len() && j < inputs.len() && resolves_to(meshes, ready, inputs[j], gr[a1].0, x1);
        let j2 = choose|j: int|
            0 <= j < inputs.len() && j < inputs.len() && resolves_to(meshes, ready, inputs[j], gr[a2].0, x2);
        assert(j1 == i && j2 == i);
        lemma_resolves_unique(meshes, ready, inputs[i], gr[a1].0, x1, gr[a2].0, x2);
        if a1 < a2 {
            assert(gr[a1].0.spec_lt(gr[a2].0));
        } else if a2 < a1 {
            assert(gr[a2].0.spec_lt(gr[a1].0));
        }
        let list = gr[a1].1;
        assert(sorted_instances(list, gr[a1].0.blend()));
        if i1 < i2 {
            assert(instance_lt(list[i1], list[i2], gr[a1].0.blend()));
        } else if i2 < i1 {
            assert(instance_lt(list[i2], list[i1], gr[a1].0.blend()));
        }
    }
}

/// Mesh batches depend only on which meshes the registry holds, not on the
/// order in which they were added: registries with the same meshes give
/// batches with the same keys, and in each the same meshes in the same order,
/// the same vertex bytes, the same index words and the same draw templates.
pub proof fn lemma_mesh_batches_deterministic(
    r1: &RenderMeshes,
    r2: &RenderMeshes,
    b1: &MeshBatches,
    b2: &MeshBatches,
)
    requires
        r1.wf(),
        r2.wf(),
        r1@ == r2@,
        b1.built_from(r1.entries()),
        b2.built_from(r2.entries()),
    ensures
        b1.mesh_batches@.len() == b2.mesh_batches@.len(),
        forall|a: int|
            0 <= a < b1.mesh_batches@.len() ==> b1.mesh_batches@[a].0 == b2.mesh_batches@[a].0
                && b1.mesh_batches@[a].1.same_content(&b2.mesh_batches@[a].1),
{
    r1.lemma_same_view_same_entries(r2);
    let entries = r1.entries();
    let s1 = b1.mesh_batches@;
    let s2 = b2.mesh_batches@;
    let k1 = s1.map_values(|p: (InstancedMeshKey, MeshBatch)| p.0);
    let k2 = s2.map_values(|p: (InstancedMeshKey, MeshBatch)| p.0);
    let lt = |x: InstancedMeshKey, y: InstancedMeshKey| x.spec_lt(y);
    assert forall|x: InstancedMeshKey, y: InstancedMeshKey, z: InstancedMeshKey|
        #[trigger] lt(x, y) && #[trigger] lt(y, z) implies lt(x, z) by {}
    assert forall|x: InstancedMeshKey| !#[trigger] lt(x, x) by {}
    assert forall|k: InstancedMeshKey| k1.contains(k) <==> k2.contains(k) by {
        if k1.contains(k) {
            let a = choose|a: int| 0 <= a < k1.len() && k1[a] == k;
            assert(has_batch(s1, k));
            assert(has_batch(s2, k));
            let c = choose|c: int| 0 <= c < s2.len() && s2[c].0 == k;
            assert(k2[c] == k);
        }
        if k2.contains(k) {
            let a = choose|a: int| 0 <= a < k2.len() && k2[a] == k;
            assert(has_batch(s2, k));
            assert(has_batch(s1, k));
            let c = choose|c: int| 0 <= c < s1.len() && s1[c].0 == k;
            assert(k1[c] == k);
        }
    }
    lemma_sorted_unique(k1, k2, lt);
    assert forall|a: int|
        0 <= a < s1.len() implies s1[a].0 == s2[a].0 && s1[a].1.same_content(&s2[a].1) by {
        assert(k1[a] == k2[a]);
        let key = s1[a].0;
        assert(s1[a].1.built_from(members(entries, key), key));
        assert(s2[a].1.built_from(members(entries, key), key));
        match (s1[a].1.index_data, s2[a].1.index_data) {
            (Some(Indices::U16(x)), Some(Indices::U16(y))) => {
                let (ix, iy) = (Indices::U16(x), Indices::U16(y));
                assert(ix.values() == iy.values());
                assert(x@.len() == ix.values().len() && y@.len() == iy.values().len());
                assert forall|k: int| 0 <= k < x@.len() implies x@[k] == y@[k] by {
                    assert(ix.values()[k] == x@[k] as int);
                    assert(iy.values()[k] == y@[k] as int);
                }
                assert(x@ =~= y@);
            },
            (Some(Indices::U32(x)), Some(Indices::U32(y))) => {
                let (ix, iy) = (Indices::U32(x), Indices::U32(y));
                assert(ix.values() == iy.values());
                assert(x@.len() == ix.values().len() && y@.len() == iy.values().len());
                assert forall|k: int| 0 <= k < x@.len() implies x@[k] == y@[k] by {
                    assert(ix.values()[k] == x@[k] as int);
                    assert(iy.values()[k] == y@[k] as int);
                }
                assert(x@ =~= y@);
            },
            _ => {},
        }
    }
}

/// A view's batches depend only on which instances are visible, not on the
/// order in which they are listed: the same instances give the same batches,
/// with the same instances in the same order, the same counts, offsets and
/// draws, and the same instance and indirect buffers.
pub proof fn lemma_view_deterministic(
    out1: Seq<InstanceBatch>,
    out2: Seq<InstanceBatch>,
    meshes: Seq<(InstancedMeshKey, MeshBatch)>,
    materials: Map<u64, PreparedMaterial>,
    inputs1: Seq<InstanceInput>,
    inputs2: Seq<InstanceInput>,
    buffering: InstanceBuffering,
)
    requires
        drawable(meshes),
        prepared(out1, meshes, materials, inputs1, buffering),
        prepared(out2, meshes, materials, inputs2, buffering),
        forall|x: InstanceInput| inputs1.contains(x) <==> inputs2.contains(x),
    ensures
        batch_groups(out1) == batch_groups(out2),
        forall|a: int| 0 <= a < out1.len() ==> #[trigger] same_packing(out1[a], out2[a]),
{
    let g1 = batch_groups(out1);
    let g2 = batch_groups(out2);
    let n1 = inputs1.len() as int;
    let n2 = inputs2.len() as int;
    assert forall|k: InstanceBatchKey, x: SortedInstance|
        resolved_upto(meshes, materials, inputs1, n1, k, x) <==> resolved_upto(
            meshes,
            materials,
            inputs2,
            n2,
            k,
            x,
        ) by {
        if resolved_upto(meshes, materials, inputs1, n1, k, x) {
            let i = choose|i: int| 0 <= i < n1 && i < inputs1.len() && resolves_to(meshes, materials, inputs1[i], k, x);
            assert(inputs1.contains(inputs1[i]));
            let j = choose|j: int| 0 <= j < inputs2.len() && inputs2[j] == inputs1[i];
        }
        if resolved_upto(meshes, materials, inputs2, n2, k, x) {
            let i = choose|i: int| 0 <= i < n2 && i < inputs2.len() && resolves_to(meshes, materials, inputs2[i], k, x);
            assert(inputs2.contains(inputs2[i]));
            let j = choose|j: int| 0 <= j < inputs1.len() && inputs1[j] == inputs2[i];
        }
    }
    let k1 = g1.map_values(|g: (InstanceBatchKey, Seq<SortedInstance>)| g.0);
    let k2 = g2.map_values(|g: (InstanceBatchKey, Seq<SortedInstance>)| g.0);
    let klt = |x: InstanceBatchKey, y: InstanceBatchKey| x.spec_lt(y);
    assert forall|x: InstanceBatchKey, y: InstanceBatchKey, z: InstanceBatchKey|
        #[trigger] klt(x, y) && #[trigger] klt(y, z) implies klt(x, z) by {}
    assert forall|x: InstanceBatchKey| !#[trigger] klt(x, x) by {}
    assert forall|k: InstanceBatchKey| k1.contains(k) <==> k2.contains(k) by {
        if k1.contains(k) {
            let a = choose|a: int| 0 <= a < k1.len() && k1[a] == k;
            assert(has_group(g1, k));
            let x = choose|x: SortedInstance| resolved_upto(meshes, materials, inputs1, n1, k, x);
            assert(resolved_upto(meshes, materials, inputs2, n2, k, x));
            assert(has_group(g2, k));
            let c = choose|c: int| 0 <= c < g2.len() && g2[c].0 == k;
            assert(k2[c] == k);
        }
        if k2.contains(k) {
            let a = choose|a: int| 0 <= a < k2.len() && k2[a] == k;
            assert(has_group(g2, k));
            let x = choose|x: SortedInstance| resolved_upto(meshes, materials, inputs2, n2, k, x);
            assert(resolved_upto(meshes, materials, inputs1, n1, k, x));
            assert(has_group(g1, k));
            let c = choose|c: int| 0 <= c < g1.len() && g1[c].0 == k;
            assert(k1[c] == k);
        }
    }
    lemma_sorted_unique(k1, k2, klt);
    assert forall|a: int| 0 <= a < g1.len() implies g1[a] == g2[a] by {
        assert(k1[a] == k2[a]);
        let key = g1[a].0;
        let blend = key.blend();
        let ilt = |x: SortedInstance, y: SortedInstance| instance_lt(x, y, blend);
        assert forall|x: SortedInstance, y: SortedInstance, z: SortedInstance|
            #[trigger] ilt(x, y) && #[trigger] ilt(y, z) implies ilt(x, z) by {}
        assert forall|x: SortedInstance| !#[trigger] ilt(x, x) by {}
        assert(sorted_instances(g1[a].1, blend));
        assert(sorted_instances(g2[a].1, blend));
        assert forall|x: SortedInstance| g1[a].1.contains(x) <==> g2[a].1.contains(x) by {
            assert(g1[a].1.contains(x) <==> resolved_upto(meshes, materials, inputs1, n1, key, x));
            assert(g2[a].1.contains(x) <==> resolved_upto(meshes, materials, inputs2, n2, key, x));
        }
        lemma_sorted_unique(g1[a].1, g2[a].1, ilt);
    }
    assert(g1 =~= g2);
    assert forall|a: int| 0 <= a < out1.len() implies #[trigger] same_packing(out1[a], out2[a]) by {
        let b1 = out1[a];
        let b2 = out2[a];
        assert(g1[a] == (b1.key, b1.instances@));
        assert(g2[a] == (b2.key, b2.instances@));
        let m1 = b1.mesh_batch as int;
        let m2 = b2.mesh_batch as int;
        if m1 < m2 {
            assert(meshes[m1].0.spec_lt(meshes[m2].0));
        } else if m2 < m1 {
            assert(meshes[m2].0.spec_lt(meshes[m1].0));
        }
        let templates = meshes[m1].1.indirect_data.draws();
        assert(b1.packed_from(templates, buffering));
        assert(b2.packed_from(templates, buffering));
        assert(b1.mesh_instance_counts@ =~= b2.mesh_instance_counts@);
        assert(b1.mesh_instance_offsets@ =~= b2.mesh_instance_offsets@);
        match buffering {
            InstanceBuffering::Storage => {},
            InstanceBuffering::Uniform { capacity } => {
                assert forall|c: int| 0 <= c < b1.instance_buffers@.len() implies #[trigger] b1.instance_buffers@[c]@
                    == b2.instance_buffers@[c]@ by {}
                assert forall|c: int| 0 <= c < b1.indirect_buffers@.len() implies #[trigger] b1.indirect_buffers@[c]@
                    == b2.indirect_buffers@[c]@ by {}
            },
        }
    }
}

/// Two packed batches agree in everything that is written to the GPU.
pub open spec fn same_packing(b1: InstanceBatch, b2: InstanceBatch) -> bool {
    &&& b1.key == b2.key
    &&& b1.mesh_batch == b2.mesh_batch
    &&& b1.instances@ == b2.instances@
    &&& b1.mesh_instance_counts@ == b2.mesh_instance_counts@
    &&& b1.mesh_instance_offsets@ == b2.mesh_instance_offsets@
    &&& b1.draws@ == b2.draws@
    &&& b1.instance_buffers@.len() == b2.instance_buffers@.len()
    &&& forall|c: int|
        0 <= c < b1.instance_buffers@.len() ==> #[trigger] b1.instance_buffers@[c]@
            == b2.instance_buffers@[c]@
    &&& b1.indirect_buffers@.len() == b2.indirect_buffers@.len()
    &&& forall|c: int|
        0 <= c < b1.indirect_buffers@.len() ==> #[trigger] b1.indirect_buffers@[c]@
            == b2.indirect_buffers@[c]@
}

/// How many instances of the draw lie in `lo .. lo + capacity`.
pub open spec fn overlap(d: IndirectDraw, lo: int, capacity: int) -> int {
    let base = d.spec_base_instance() as int;
    let end = base + d.spec_instance_count();
    let start = if base < lo {
        lo
    } else {
        base
    };
    let stop = if end < lo + capacity {
        end
    } else {
        lo + capacity
    };
    if start < stop {
        stop - start
    } else {
        0
    }
}

pub open spec fn overlap_total(draws: Seq<IndirectDraw>, lo: int, capacity: int) -> int
    decreases draws.len(),
{
    if draws.len() == 0 {
        0
    } else {
        overlap_total(draws.drop_last(), lo, capacity) + overlap(draws.last(), lo, capacity)
    }
}

/// The number of instances that the first `n` buffers' draws cover.
pub open spec fn buffers_total(buffers: Seq<Seq<IndirectDraw>>, n: int) -> int
    decreases n,
{
    if n <= 0 {
        0
    } else {
        buffers_total(buffers, n - 1) + instance_total(buffers[n - 1])
    }
}

proof fn lemma_clipped_overlap(draws: Seq<IndirectDraw>, lo: int, capacity: int)
    requires
        lo >= 0,
        capacity > 0,
    ensures
        instance_total(clipped(draws, lo, capacity)) == overlap_total(draws, lo, capacity),
        forall|i: int|
            0 <= i < clipped(draws, lo, capacity).len() ==> (#[trigger] clipped(draws, lo, capacity)[i]).spec_base_instance()
                + clipped(draws, lo, capacity)[i].spec_instance_count() <= capacity,
    decreases draws.len(),
{
    if draws.len() > 0 {
        lemma_clipped_overlap(draws.drop_last(), lo, capacity);
        let before = clipped(draws.drop_last(), lo, capacity);
        match clip(draws.last(), lo, capacity) {
            Some(d) => {
                assert(before.push(d).drop_last() =~= before);
            },
            None => {},
        }
    }
}

proof fn lemma_overlap_split(draws: Seq<IndirectDraw>, x: int, capacity: int)
    requires
        x >= 0,
        capacity > 0,
    ensures
        overlap_total(draws, 0, x + capacity) == overlap_total(draws, 0, x) + overlap_total(
            draws,
            x,
            capacity,
        ),
    decreases draws.len(),
{
    if draws.len() > 0 {
        lemma_overlap_split(draws.drop_last(), x, capacity);
    }
}

proof fn lemma_overlap_buffers(
    draws: Seq<IndirectDraw>,
    buffers: Seq<Seq<IndirectDraw>>,
    capacity: int,
    n: int,
)
    requires
        capacity > 0,
        0 <= n <= buffers.len(),
        forall|b: int| 0 <= b < buffers.len() ==> #[trigger] buffers[b] == clipped(draws, b * capacity, capacity),
    ensures
        buffers_total(buffers, n) == overlap_total(draws, 0, n * capacity),
    decreases n,
{
    if n > 0 {
        lemma_overlap_buffers(draws, buffers, capacity, n - 1);
        assert((n - 1) * capacity >= 0) by (nonlinear_arith)
            requires
                n >= 1,
                capacity > 0,
        ;
        assert(n * capacity == (n - 1) * capacity + capacity) by (nonlinear_arith);
        lemma_clipped_overlap(draws, (n - 1) * capacity, capacity);
        lemma_overlap_split(draws, (n - 1) * capacity, capacity);
        assert(buffers[n - 1] == clipped(draws, (n - 1) * capacity, capacity));
        let x = (n - 1) * capacity;
        assert(overlap_total(draws, 0, n * capacity) == overlap_total(draws, 0, x + capacity));
    } else {
        lemma_overlap_zero(draws);
        assert(n * capacity == 0) by (nonlinear_arith)
            requires
                n == 0,
        ;
    }
}

proof fn lemma_overlap_zero(draws: Seq<IndirectDraw>)
    ensures
        overlap_total(draws, 0, 0) == 0,
    decreases draws.len(),
{
    if draws.len() > 0 {
        lemma_overlap_zero(draws.drop_last());
    }
}

proof fn lemma_overlap_all(draws: Seq<IndirectDraw>, x: int)
    requires
        forall|i: int|
            0 <= i < draws.len() ==> (#[trigger] draws[i]).spec_base_instance() + draws[i].spec_instance_count() <= x,
    ensures
        overlap_total(draws, 0, x) == instance_total(draws),
    decreases draws.len(),
{
    if draws.len() > 0 {
        lemma_overlap_all(draws.drop_last(), x);
        assert(draws.last() == draws[draws.len() - 1]);
    }
}

/// Splitting over capacity-bound buffers never loses or repeats an instance:
/// when no draw reaches past the batch's instances, the split draws of all
/// buffers together cover exactly as many instances as the draws did, and no
/// split draw reaches past the end of its buffer.
pub proof fn lemma_split_keeps_instances(
    draws: Seq<IndirectDraw>,
    capacity: u32,
    buffers: Seq<Seq<IndirectDraw>>,
)
    requires
        capacity > 0,
        forall|i: int|
            0 <= i < draws.len() ==> (#[trigger] draws[i]).spec_base_instance() + draws[i].spec_instance_count()
                <= instance_total(draws),
        buffers.len() == buffer_count(instance_total(draws), capacity as int),
        forall|b: int|
            0 <= b < buffers.len() ==> #[trigger] buffers[b] == clipped(draws, b * capacity, capacity as int),
    ensures
        buffers_total(buffers, buffers.len() as int) == instance_total(draws),
        forall|b: int, i: int|
            0 <= b < buffers.len() && 0 <= i < buffers[b].len() ==> (#[trigger] buffers[b][i]).spec_base_instance()
                + buffers[b][i].spec_instance_count() <= capacity,
{
    let cap = capacity as int;
    let total = instance_total(draws);
    let n = buffers.len() as int;
    lemma_instance_total_nonneg(draws);
    assert(n * cap >= total) by (nonlinear_arith)
        requires
            n == (total + cap - 1) / cap,
            cap > 0,
            total >= 0,
    ;
    lemma_overlap_buffers(draws, buffers, cap, n);
    lemma_overlap_all(draws, n * cap);
    assert forall|b: int, i: int|
        0 <= b < buffers.len() && 0 <= i < buffers[b].len() implies (#[trigger] buffers[b][i]).spec_base_instance()
            + buffers[b][i].spec_instance_count() <= capacity by {
        assert(b * cap >= 0) by (nonlinear_arith)
            requires
                b >= 0,
                cap > 0,
        ;
        lemma_clipped_overlap(draws, b * cap, cap);
    }
}

proof fn lemma_instance_total_nonneg(draws: Seq<IndirectDraw>)
    ensures
        instance_total(draws) >= 0,
    decreases draws.len(),
{
    if draws.len() > 0 {
        lemma_instance_total_nonneg(draws.drop_last());
    }
}

/// The draws of each buffer, as sequences.
pub open spec fn buffer_views(buffers: Seq<Vec<IndirectDraw>>) -> Seq<Seq<IndirectDraw>> {
    buffers.map_values(|v: Vec<IndirectDraw>| v@)
}

/// In every prepared batch the draws cover each packed instance once: their
/// instance counts add up to the number of instances, and under uniform
/// buffers so do those of the split draws of all buffers together, none of
/// which reaches past the end of its buffer.
pub proof fn lemma_draws_cover_instances(
    batches: Seq<InstanceBatch>,
    meshes: Seq<(InstancedMeshKey, MeshBatch)>,
    materials: Map<u64, PreparedMaterial>,
    inputs: Seq<InstanceInput>,
    buffering: InstanceBuffering,
    a: int,
)
    requires
        prepared(batches, meshes, materials, inputs, buffering),
        0 <= a < batches.len(),
    ensures
        instance_total(batches[a].draws@) == batches[a].instances@.len(),
        buffering matches InstanceBuffering::Uniform { capacity } ==> {
            let v = buffer_views(batches[a].indirect_buffers@);
            &&& buffers_total(v, v.len() as int) == batches[a].instances@.len()
            &&& forall|b: int, i: int|
                0 <= b < v.len() && 0 <= i < v[b].len() ==> (#[trigger] v[b][i]).spec_base_instance()
                    + v[b][i].spec_instance_count() <= capacity
        },
{
    let b = batches[a];
    let templates = meshes[b.mesh_batch as int].1.indirect_data.draws();
    assert(b.packed_from(templates, buffering));
    let list = b.instances@;
    let counts = b.mesh_instance_counts@;
    let n = templates.len() as int;
    lemma_final_draws_bounds(templates, counts, b.mesh_instance_offsets@, n);
    lemma_prefix_sum_counts(list, counts, n);
    lemma_count_below_all(list, n);
    if let InstanceBuffering::Uniform { capacity } = buffering {
        let v = buffer_views(b.indirect_buffers@);
        assert forall|c: int| 0 <= c < v.len() implies #[trigger] v[c] == clipped(
            b.draws@,
            c * capacity,
            capacity as int,
        ) by {
            assert(v[c] == b.indirect_buffers@[c]@);
        }
        lemma_split_keeps_instances(b.draws@, capacity, v);
    }
}

} // verus!
