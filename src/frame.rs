//! Per-view preparation: the instances of one view grouped into batches,
//! packed, and given their draw records.
use vstd::prelude::*;

use crate::batching::{
    collect_instances, entities_unique, group_views, grouped, locates, mesh_indices_fit, resolved_upto,
    resolves_to, InstanceBatchKey, InstanceInput, SortedInstance,
};
use crate::indirect::{DrawCall, IndirectDraw};
use crate::material::RenderMaterials;
use crate::mesh::{
    batch_fits, draw_total, indexed_template, lemma_group_grows, members, plain_template,
    InstancedMeshKey, MeshBatch, MeshBatches, MeshEntry,
};
use crate::packing::{
    build_draws, buffer_count, chunk_instances, clipped, count_mesh, final_draws,
    mesh_instance_counts, mesh_instance_offsets, prefix_sum, split_draws, vertex_prefix,
};

verus! {

/// How a batch's instances are held on the GPU.
#[derive(Debug, Clone, Copy, PartialEq, Eq, Structural)]
pub enum InstanceBuffering {
    /// One storage buffer of any length.
    Storage,
    /// Uniform buffers of at most `capacity` instances each.
    Uniform { capacity: u32 },
}

/// A mesh batch whose meshes can be named by 32-bit indices and whose draw
/// templates, one per mesh, cover at most 2^32 - 1 vertices or indices.
pub open spec fn batch_drawable(b: MeshBatch) -> bool {
    &&& b.meshes@.len() <= u32::MAX
    &&& b.indirect_data.draws().len() == b.meshes@.len()
    &&& vertex_prefix(b.indirect_data.draws(), b.meshes@.len() as int) <= u32::MAX
}

/// Mesh batches in ascending key order, each drawable.
pub open spec fn drawable(batches: Seq<(InstancedMeshKey, MeshBatch)>) -> bool {
    &&& forall|a: int, b: int| 0 <= a < b < batches.len() ==> batches[a].0.spec_lt(batches[b].0)
    &&& forall|a: int| 0 <= a < batches.len() ==> batch_drawable(#[trigger] batches[a].1)
}

proof fn lemma_draw_total_nonneg(group: Seq<MeshEntry>)
    ensures
        draw_total(group) >= 0,
    decreases group.len(),
{
    if group.len() > 0 {
        lemma_draw_total_nonneg(group.drop_last());
    }
}

proof fn lemma_template_prefix(group: Seq<MeshEntry>, draws: Seq<IndirectDraw>, j: int)
    requires
        draws.len() == group.len(),
        forall|i: int|
            0 <= i < group.len() ==> (#[trigger] draws[i]).spec_vertex_count() == group[i].1.draw_count() as u32,
        draw_total(group) <= u32::MAX,
        0 <= j <= group.len(),
    ensures
        vertex_prefix(draws, j) == draw_total(group.take(j)),
    decreases j,
{
    if j > 0 {
        lemma_template_prefix(group, draws, j - 1);
        lemma_group_grows(group, j);
        assert(group.take(j).drop_last() =~= group.take(j - 1));
        lemma_draw_total_nonneg(group.take(j - 1));
        assert(group.take(j).last() == group[j - 1]);
    } else {
        assert(group.take(0) =~= Seq::<MeshEntry>::empty());
    }
}

/// Mesh batches built from a registry are drawable.
pub proof fn lemma_built_batches_drawable(batches: &MeshBatches, entries: Seq<MeshEntry>)
    requires
        batches.built_from(entries),
    ensures
        drawable(batches.mesh_batches@),
{
    let bs = batches.mesh_batches@;
    assert forall|a: int| 0 <= a < bs.len() implies batch_drawable(#[trigger] bs[a].1) by {
        let key = bs[a].0;
        let group = members(entries, key);
        assert(crate::mesh::has_batch(bs, key));
        assert(batch_fits(group, key.index_format));
        let b = bs[a].1;
        let draws = b.indirect_data.draws();
        assert forall|i: int|
            0 <= i < group.len() implies (#[trigger] draws[i]).spec_vertex_count() == group[i].1.draw_count() as u32 by {
            match key.index_format {
                Some(_) => {
                    assert(indexed_template(group[i].1).vertex_count == group[i].1.draw_count() as u32);
                },
                None => {
                    assert(plain_template(group[i].1).vertex_count == group[i].1.draw_count() as u32);
                },
            }
        }
        lemma_template_prefix(group, draws, group.len() as int);
        assert(group.take(group.len() as int) =~= group);
    }
}

/// The data needed to draw one instance batch of a view.
#[derive(Debug, Clone)]
pub struct InstanceBatch {
    pub key: InstanceBatchKey,
    /// Position of the batch's mesh batch among the mesh batches.
    pub mesh_batch: usize,
    /// The instances in packed order.
    pub instances: Vec<SortedInstance>,
    /// Per mesh of the mesh batch, the number of its instances.
    pub mesh_instance_counts: Vec<u32>,
    /// Per mesh of the mesh batch, where its instances begin.
    pub mesh_instance_offsets: Vec<u32>,
    /// One draw per mesh that has instances, in mesh order.
    pub draws: Vec<IndirectDraw>,
    /// The instances of each instance buffer.
    pub instance_buffers: Vec<Vec<SortedInstance>>,
    /// The draws that read each instance buffer.
    pub indirect_buffers: Vec<Vec<IndirectDraw>>,
}

impl InstanceBatch {
    /// Counts, offsets, draws and buffers are those of the packed instances
    /// and the draw templates of the mesh batch.
    pub open spec fn packed_from(&self, templates: Seq<IndirectDraw>, buffering: InstanceBuffering) -> bool {
        let list = self.instances@;
        let counts = self.mesh_instance_counts@;
        let offsets = self.mesh_instance_offsets@;
        &&& counts.len() == templates.len()
        &&& offsets.len() == templates.len()
        &&& forall|i: int| 0 <= i < list.len() ==> (#[trigger] list[i]).mesh_index < counts.len()
        &&& forall|j: int| 0 <= j < counts.len() ==> counts[j] == count_mesh(list, j)
        &&& forall|j: int| 0 <= j < offsets.len() ==> offsets[j] == prefix_sum(counts, j)
        &&& self.draws@ == final_draws(templates, counts, offsets, templates.len() as int)
        &&& match buffering {
            InstanceBuffering::Storage => {
                &&& self.instance_buffers@.len() == 1
                &&& self.instance_buffers@[0]@ == list
                &&& self.indirect_buffers@.len() == 1
                &&& self.indirect_buffers@[0]@ == self.draws@
            },
            InstanceBuffering::Uniform { capacity } => {
                &&& self.instance_buffers@.len() == buffer_count(list.len() as int, capacity as int)
                &&& forall|b: int|
                    0 <= b < self.instance_buffers@.len() ==> (#[trigger] self.instance_buffers@[b])@
                        == list.subrange(
                        b * capacity,
                        if (b + 1) * capacity < list.len() {
                            (b + 1) * capacity
                        } else {
                            list.len() as int
                        },
                    )
                &&& self.indirect_buffers@.len() == buffer_count(list.len() as int, capacity as int)
                &&& forall|b: int|
                    0 <= b < self.indirect_buffers@.len() ==> (#[trigger] self.indirect_buffers@[b])@
                        == clipped(self.draws@, b * capacity, capacity as int)
            },
        }
    }
}

/// The finalized draws cover exactly the counted instances, and none reaches
/// past them.
pub proof fn lemma_final_draws_bounds(
    templates: Seq<IndirectDraw>,
    counts: Seq<u32>,
    offsets: Seq<u32>,
    n: int,
)
    requires
        0 <= n <= templates.len(),
        counts.len() == templates.len(),
        offsets.len() == templates.len(),
        forall|j: int| 0 <= j < offsets.len() ==> offsets[j] == prefix_sum(counts, j),
    ensures
        crate::packing::instance_total(final_draws(templates, counts, offsets, n)) == prefix_sum(counts, n),
        forall|i: int|
            0 <= i < final_draws(templates, counts, offsets, n).len() ==> (#[trigger] final_draws(
                templates,
                counts,
                offsets,
                n,
            )[i]).spec_base_instance() + final_draws(templates, counts, offsets, n)[i].spec_instance_count()
                <= prefix_sum(counts, n),
    decreases n,
{
    if n > 0 {
        lemma_final_draws_bounds(templates, counts, offsets, n - 1);
        crate::packing::lemma_prefix_sum_monotone(counts, n - 1, n);
        let before = final_draws(templates, counts, offsets, n - 1);
        if counts[n - 1] > 0 {
            let d = crate::packing::finalize(
                templates[n - 1],
                counts[n - 1],
                vertex_prefix(templates, n - 1) as u32,
                offsets[n - 1],
            );
            assert(before.push(d).drop_last() =~= before);
        }
    }
}

/// The first mesh batch with the given key.
fn find_mesh_batch(batches: &MeshBatches, key: &InstancedMeshKey) -> (r: Option<usize>)
    ensures
        match r {
            Some(a) => a < batches.mesh_batches@.len() && batches.mesh_batches@[a as int].0 == *key,
            None => forall|b: int|
                0 <= b < batches.mesh_batches@.len() ==> batches.mesh_batches@[b].0 != *key,
        },
{
    let mut a: usize = 0;
    while a < batches.mesh_batches.len()
        invariant
            a <= batches.mesh_batches@.len(),
            forall|b: int| 0 <= b < a ==> batches.mesh_batches@[b].0 != *key,
        decreases batches.mesh_batches@.len() - a,
    {
        if batches.mesh_batches[a].0.same(key) {
            return Some(a);
        }
        a += 1;
    }
    None
}

fn copy_instances(v: &Vec<SortedInstance>) -> (r: Vec<SortedInstance>)
    ensures
        r@ == v@,
{
    let mut out: Vec<SortedInstance> = Vec::new();
    let mut i: usize = 0;
    while i < v.len()
        invariant
            i <= v@.len(),
            out@ == v@.take(i as int),
        decreases v@.len() - i,
    {
        out.push(v[i]);
        proof {
            assert(v@.take(i + 1) =~= v@.take(i as int).push(v@[i as int]));
        }
        i += 1;
    }
    proof {
        assert(v@.take(i as int) =~= v@);
    }
    out
}

fn copy_draws(v: &Vec<IndirectDraw>) -> (r: Vec<IndirectDraw>)
    ensures
        r@ == v@,
{
    let mut out: Vec<IndirectDraw> = Vec::new();
    let mut i: usize = 0;
    while i < v.len()
        invariant
            i <= v@.len(),
            out@ == v@.take(i as int),
        decreases v@.len() - i,
    {
        out.push(v[i]);
        proof {
            assert(v@.take(i + 1) =~= v@.take(i as int).push(v@[i as int]));
        }
        i += 1;
    }
    proof {
        assert(v@.take(i as int) =~= v@);
    }
    out
}

/// The batches with their keys and instance lists.
pub open spec fn batch_groups(batches: Seq<InstanceBatch>) -> Seq<(InstanceBatchKey, Seq<SortedInstance>)> {
    batches.map_values(|b: InstanceBatch| (b.key, b.instances@))
}

/// The batches are the view's instances grouped, packed and given draws
/// over the mesh batches `meshes`.
pub open spec fn prepared(
    batches: Seq<InstanceBatch>,
    meshes: Seq<(InstancedMeshKey, MeshBatch)>,
    materials: Map<u64, crate::material::PreparedMaterial>,
    inputs: Seq<InstanceInput>,
    buffering: InstanceBuffering,
) -> bool {
    &&& buffering matches InstanceBuffering::Uniform { capacity } ==> capacity > 0
    &&& grouped(batch_groups(batches), meshes, materials, inputs)
    &&& forall|a: int|
        0 <= a < batches.len() ==> {
            let b = #[trigger] batches[a];
            &&& b.mesh_batch < meshes.len()
            &&& meshes[b.mesh_batch as int].0 == b.key.mesh_key
            &&& b.packed_from(meshes[b.mesh_batch as int].1.indirect_data.draws(), buffering)
        }
}

/// Prepares one view: groups its visible instances into batches, packs each
/// batch, and builds its draws, split over instance buffers as `buffering`
/// asks.
pub fn prepare_view(
    mesh_batches: &MeshBatches,
    materials: &RenderMaterials,
    inputs: &Vec<InstanceInput>,
    buffering: InstanceBuffering,
) -> (r: Vec<InstanceBatch>)
    requires
        materials.wf(),
        drawable(mesh_batches.mesh_batches@),
        entities_unique(inputs@),
        inputs@.len() <= u32::MAX,
        buffering matches InstanceBuffering::Uniform { capacity } ==> capacity > 0,
    ensures
        prepared(r@, mesh_batches.mesh_batches@, materials@, inputs@, buffering),
{
    let ghost bs = mesh_batches.mesh_batches@;
    proof {
        assert(mesh_indices_fit(bs)) by {
            assert forall|a: int| 0 <= a < bs.len() implies (#[trigger] bs[a]).1.meshes@.len() <= u32::MAX by {
                assert(batch_drawable(bs[a].1));
            }
        }
    }
    let groups = collect_instances(mesh_batches, materials, inputs);
    let ghost gv = group_views(groups@);
    let mut out: Vec<InstanceBatch> = Vec::new();
    let mut g: usize = 0;
    while g < groups.len()
        invariant
            bs == mesh_batches.mesh_batches@,
            gv == group_views(groups@),
            drawable(bs),
            grouped(gv, bs, materials@, inputs@),
            forall|a: int| 0 <= a < groups@.len() ==> (#[trigger] groups@[a]).1@.len() <= inputs@.len(),
            inputs@.len() <= u32::MAX,
            buffering matches InstanceBuffering::Uniform { capacity } ==> capacity > 0,
            g <= groups@.len(),
            out@.len() == g,
            forall|a: int| 0 <= a < g ==> #[trigger] batch_groups(out@)[a] == gv[a],
            forall|a: int|
                0 <= a < g ==> {
                    let b = #[trigger] out@[a];
                    &&& b.mesh_batch < bs.len()
                    &&& bs[b.mesh_batch as int].0 == b.key.mesh_key
                    &&& b.packed_from(bs[b.mesh_batch as int].1.indirect_data.draws(), buffering)
                },
        decreases groups@.len() - g,
    {
        let key = groups[g].0;
        let list = copy_instances(&groups[g].1);
        proof {
            assert(gv[g as int] == (key, list@));
            assert(crate::batching::has_group(gv, key));
        }
        let found = find_mesh_batch(mesh_batches, &key.mesh_key);
        let ghost witness_batch: int = {
            let x = choose|x: SortedInstance|
                resolved_upto(bs, materials@, inputs@, inputs@.len() as int, key, x);
            let j = choose|j: int|
                0 <= j < inputs@.len() as int && j < inputs@.len() && resolves_to(bs, materials@, inputs@[j], key, x);
            choose|a: int|
                {
                    &&& locates(bs, inputs@[j].mesh, a, x.mesh_index as int)
                    &&& key.mesh_key == bs[a].0
                    &&& materials@.contains_key(inputs@[j].material)
                    &&& key.material_key == materials@[inputs@[j].material].spec_material_key()
                    &&& x.entity == inputs@[j].entity
                    &&& x.depth == inputs@[j].depth
                }
        };
        let a = match found {
            Some(a) => a,
            None => {
                proof {
                    assert(bs[witness_batch].0 == key.mesh_key);
                }
                0
            },
        };
        proof {
            assert(found is Some);
            assert forall|i: int| 0 <= i < list@.len() implies (#[trigger] list@[i]).mesh_index < bs[a as int].1.meshes@.len() by {
                assert(gv[g as int].1.contains(list@[i]));
                let x = list@[i];
                let j = choose|j: int|
                    0 <= j < inputs@.len() as int && j < inputs@.len() && resolves_to(bs, materials@, inputs@[j], key, x);
                let w = choose|w: int|
                    {
                        &&& locates(bs, inputs@[j].mesh, w, x.mesh_index as int)
                        &&& key.mesh_key == bs[w].0
                        &&& materials@.contains_key(inputs@[j].material)
                        &&& key.material_key == materials@[inputs@[j].material].spec_material_key()
                        &&& x.entity == inputs@[j].entity
                        &&& x.depth == inputs@[j].depth
                    };
                if w < a {
                    assert(bs[w].0.spec_lt(bs[a as int].0));
                } else if w > a {
                    assert(bs[a as int].0.spec_lt(bs[w].0));
                }
            }
            assert(batch_drawable(bs[a as int].1));
        }
        let mesh_batch = &mesh_batches.mesh_batches[a].1;
        let templates = mesh_batch.indirect_data.to_draws();
        let counts = mesh_instance_counts(&list, mesh_batch.meshes.len());
        proof {
            let n = counts@.len() as int;
            crate::packing::lemma_prefix_sum_counts(list@, counts@, n);
            crate::packing::lemma_count_below_all(list@, n);
        }
        let offsets = mesh_instance_offsets(&counts);
        let draws = build_draws(&templates, &counts, &offsets);
        proof {
            lemma_final_draws_bounds(templates@, counts@, offsets@, templates@.len() as int);
        }
        let (instance_buffers, indirect_buffers) = match buffering {
            InstanceBuffering::Storage => {
                let mut ib: Vec<Vec<SortedInstance>> = Vec::new();
                ib.push(copy_instances(&list));
                let mut db: Vec<Vec<IndirectDraw>> = Vec::new();
                db.push(copy_draws(&draws));
                (ib, db)
            },
            InstanceBuffering::Uniform { capacity } => {
                (chunk_instances(&list, capacity), split_draws(&draws, capacity))
            },
        };
        let batch = InstanceBatch {
            key,
            mesh_batch: a,
            instances: list,
            mesh_instance_counts: counts,
            mesh_instance_offsets: offsets,
            draws,
            instance_buffers,
            indirect_buffers,
        };
        let ghost before = out@;
        out.push(batch);
        proof {
            assert forall|x: int| 0 <= x < g + 1 implies #[trigger] batch_groups(out@)[x] == gv[x] by {
                if x < g {
                    assert(out@[x] == before[x]);
                    assert(batch_groups(before)[x] == gv[x]);
                }
            }
            assert forall|x: int|
                0 <= x < g + 1 implies {
                    let b = #[trigger] out@[x];
                    &&& b.mesh_batch < bs.len()
                    &&& bs[b.mesh_batch as int].0 == b.key.mesh_key
                    &&& b.packed_from(bs[b.mesh_batch as int].1.indirect_data.draws(), buffering)
                } by {
                if x < g {
                    assert(out@[x] == before[x]);
                }
            }
        }
        g += 1;
    }
    proof {
        assert(batch_groups(out@) =~= gv);
    }
    out
}

} // verus!
