//! The instance collector and sorter: a view's visible instances are resolved
//! against the mesh batches and the prepared materials, grouped by batch key,
//! and ordered within each batch.
use vstd::prelude::*;

use crate::material::{GpuAlphaMode, InstancedMaterialBatchKey, PreparedMaterial, RenderMaterials};
use crate::mesh::{InstancedMeshKey, MeshBatch, MeshBatches};

verus! {

/// Unique key describing a set of mutually compatible instances.
#[derive(Debug, Clone, Copy, PartialEq, Eq, Structural)]
pub struct InstanceBatchKey {
    pub mesh_key: InstancedMeshKey,
    pub material_key: InstancedMaterialBatchKey,
}

impl InstanceBatchKey {
    /// Key order: by mesh key, then material key.
    pub open spec fn spec_lt(self, other: Self) -> bool {
        self.mesh_key.spec_lt(other.mesh_key) || (self.mesh_key == other.mesh_key
            && self.material_key.spec_lt(other.material_key))
    }

    pub fn lt(&self, other: &Self) -> (r: bool)
        ensures
            r == self.spec_lt(*other),
    {
        self.mesh_key.lt(&other.mesh_key) || (self.mesh_key.same(&other.mesh_key)
            && self.material_key.lt(&other.material_key))
    }

    pub fn same(&self, other: &Self) -> (r: bool)
        ensures
            r == (*self == *other),
    {
        self.mesh_key.same(&other.mesh_key) && self.material_key.same(&other.material_key)
    }

    /// Whether the batch is drawn back to front.
    pub open spec fn blend(self) -> bool {
        self.material_key.alpha_mode == GpuAlphaMode::Blend
    }
}

/// One visible instance of a view.
#[derive(Debug, Clone, Copy, PartialEq, Eq, Structural)]
pub struct InstanceInput {
    pub entity: u64,
    pub mesh: u64,
    pub material: u64,
    /// Signed distance along the view's forward axis, with the material's depth
    /// bias added, in an integer scale that keeps the order of distances.
    pub depth: i64,
}

/// An instance placed in a batch: which entity, and which mesh of the batch's
/// mesh batch it draws.
#[derive(Debug, Clone, Copy, PartialEq, Eq, Structural)]
pub struct SortedInstance {
    pub entity: u64,
    pub mesh_index: u32,
    pub depth: i64,
}

/// The depth by which instances are ordered: ascending distance (front to back)
/// for opaque and masked batches, descending distance (back to front) for
/// blended ones.
pub open spec fn sort_depth(depth: i64, blend: bool) -> int {
    if blend {
        -(depth as int)
    } else {
        depth as int
    }
}

/// Order within a batch: by mesh, then sort depth, then entity.
pub open spec fn instance_lt(a: SortedInstance, b: SortedInstance, blend: bool) -> bool {
    let (da, db) = (sort_depth(a.depth, blend), sort_depth(b.depth, blend));
    a.mesh_index < b.mesh_index || (a.mesh_index == b.mesh_index && (da < db || (da == db
        && a.entity < b.entity)))
}

fn instance_less(a: &SortedInstance, b: &SortedInstance, blend: bool) -> (r: bool)
    ensures
        r == instance_lt(*a, *b, blend),
{
    if a.mesh_index != b.mesh_index {
        a.mesh_index < b.mesh_index
    } else if a.depth != b.depth {
        if blend {
            a.depth > b.depth
        } else {
            a.depth < b.depth
        }
    } else {
        a.entity < b.entity
    }
}

pub open spec fn sorted_instances(s: Seq<SortedInstance>, blend: bool) -> bool {
    forall|i: int, j: int| 0 <= i < j < s.len() ==> instance_lt(s[i], s[j], blend)
}

/// `mesh` is the `j`th mesh of the `a`th mesh batch, and at no earlier place.
pub open spec fn locates(batches: Seq<(InstancedMeshKey, MeshBatch)>, mesh: u64, a: int, j: int) -> bool {
    &&& 0 <= a < batches.len()
    &&& 0 <= j < batches[a].1.meshes@.len()
    &&& batches[a].1.meshes@[j] == mesh
    &&& forall|b: int| 0 <= b < a ==> !(#[trigger] batches[b].1.meshes@).contains(mesh)
    &&& forall|k: int| 0 <= k < j ==> batches[a].1.meshes@[k] != mesh
}

/// The instance resolves: its mesh is in a mesh batch, its material is
/// prepared, and together they give the batch key `key`; `placed` is where the
/// instance stands in that batch.
pub open spec fn resolves_to(
    batches: Seq<(InstancedMeshKey, MeshBatch)>,
    materials: Map<u64, PreparedMaterial>,
    inst: InstanceInput,
    key: InstanceBatchKey,
    placed: SortedInstance,
) -> bool {
    exists|a: int|
        {
            &&& locates(batches, inst.mesh, a, placed.mesh_index as int)
            &&& key.mesh_key == batches[a].0
            &&& materials.contains_key(inst.material)
            &&& key.material_key == materials[inst.material].spec_material_key()
            &&& placed.entity == inst.entity
            &&& placed.depth == inst.depth
        }
}

/// Finds the first place of a mesh among the mesh batches.
fn locate_mesh(batches: &MeshBatches, mesh: u64) -> (r: Option<(usize, usize)>)
    ensures
        match r {
            Some((a, j)) => locates(batches.mesh_batches@, mesh, a as int, j as int),
            None => forall|b: int|
                0 <= b < batches.mesh_batches@.len() ==> !(#[trigger] batches.mesh_batches@[b].1.meshes@).contains(mesh),
        },
{
    let ghost bs = batches.mesh_batches@;
    let mut a: usize = 0;
    while a < batches.mesh_batches.len()
        invariant
            bs == batches.mesh_batches@,
            a <= bs.len(),
            forall|b: int| 0 <= b < a ==> !(#[trigger] bs[b].1.meshes@).contains(mesh),
        decreases bs.len() - a,
    {
        let meshes = &batches.mesh_batches[a].1.meshes;
        let mut j: usize = 0;
        while j < meshes.len()
            invariant
                bs == batches.mesh_batches@,
                a < bs.len(),
                forall|b: int| 0 <= b < a ==> !(#[trigger] bs[b].1.meshes@).contains(mesh),
                *meshes == bs[a as int].1.meshes,
                j <= meshes@.len(),
                forall|k: int| 0 <= k < j ==> meshes@[k] != mesh,
            decreases meshes@.len() - j,
        {
            if meshes[j] == mesh {
                proof {
                    assert(bs[a as int].1.meshes@ == meshes@);
                    assert(locates(bs, mesh, a as int, j as int));
                }
                return Some((a, j));
            }
            j += 1;
        }
        proof {
            assert(!bs[a as int].1.meshes@.contains(mesh));
        }
        a += 1;
    }
    None
}

/// No mesh batch holds more meshes than a 32-bit mesh index can name.
pub open spec fn mesh_indices_fit(batches: Seq<(InstancedMeshKey, MeshBatch)>) -> bool {
    forall|a: int| 0 <= a < batches.len() ==> (#[trigger] batches[a]).1.meshes@.len() <= u32::MAX
}

/// Resolves one instance to its batch key and its place in that batch.
fn resolve(batches: &MeshBatches, materials: &RenderMaterials, inst: &InstanceInput) -> (r: Option<
    (InstanceBatchKey, SortedInstance),
>)
    requires
        materials.wf(),
        mesh_indices_fit(batches.mesh_batches@),
    ensures
        match r {
            Some((k, p)) => resolves_to(batches.mesh_batches@, materials@, *inst, k, p),
            None => forall|k: InstanceBatchKey, p: SortedInstance|
                !resolves_to(batches.mesh_batches@, materials@, *inst, k, p),
        },
{
    let ghost bs = batches.mesh_batches@;
    match locate_mesh(batches, inst.mesh) {
        None => {
            proof {
                assert forall|k: InstanceBatchKey, p: SortedInstance|
                    !resolves_to(bs, materials@, *inst, k, p) by {
                    if resolves_to(bs, materials@, *inst, k, p) {
                        let a = choose|a: int|
                            {
                                &&& locates(bs, inst.mesh, a, p.mesh_index as int)
                                &&& k.mesh_key == bs[a].0
                                &&& materials@.contains_key(inst.material)
                                &&& k.material_key == materials@[inst.material].spec_material_key()
                                &&& p.entity == inst.entity
                                &&& p.depth == inst.depth
                            };
                        assert(bs[a].1.meshes@.contains(inst.mesh));
                    }
                }
            }
            None
        },
        Some((a, j)) => match materials.get(inst.material) {
            None => None,
            Some(m) => {
                proof {
                    assert(bs[a as int].1.meshes@.len() <= u32::MAX);
                }
                let key = InstanceBatchKey {
                    mesh_key: batches.mesh_batches[a].0,
                    material_key: m.material_key(),
                };
                let placed = SortedInstance { entity: inst.entity, mesh_index: j as u32, depth: inst.depth };
                proof {
                    assert(locates(bs, inst.mesh, a as int, placed.mesh_index as int));
                }
                Some((key, placed))
            },
        },
    }
}

/// Where an instance lands in a batch is fixed by the instance.
pub proof fn lemma_resolves_unique(
    batches: Seq<(InstancedMeshKey, MeshBatch)>,
    materials: Map<u64, PreparedMaterial>,
    inst: InstanceInput,
    k1: InstanceBatchKey,
    placed1: SortedInstance,
    k2: InstanceBatchKey,
    placed2: SortedInstance,
)
    requires
        resolves_to(batches, materials, inst, k1, placed1),
        resolves_to(batches, materials, inst, k2, placed2),
    ensures
        k1 == k2,
        placed1 == placed2,
{
    let a1 = choose|a: int|
        {
            &&& locates(batches, inst.mesh, a, placed1.mesh_index as int)
            &&& k1.mesh_key == batches[a].0
            &&& materials.contains_key(inst.material)
            &&& k1.material_key == materials[inst.material].spec_material_key()
            &&& placed1.entity == inst.entity
            &&& placed1.depth == inst.depth
        };
    let a2 = choose|a: int|
        {
            &&& locates(batches, inst.mesh, a, placed2.mesh_index as int)
            &&& k2.mesh_key == batches[a].0
            &&& materials.contains_key(inst.material)
            &&& k2.material_key == materials[inst.material].spec_material_key()
            &&& placed2.entity == inst.entity
            &&& placed2.depth == inst.depth
        };
    if a1 < a2 {
        assert(batches[a1].1.meshes@.contains(inst.mesh));
    } else if a2 < a1 {
        assert(batches[a2].1.meshes@.contains(inst.mesh));
    }
    assert(a1 == a2);
    if placed1.mesh_index < placed2.mesh_index {
        assert(batches[a1].1.meshes@[placed1.mesh_index as int] == inst.mesh);
    } else if placed2.mesh_index < placed1.mesh_index {
        assert(batches[a1].1.meshes@[placed2.mesh_index as int] == inst.mesh);
    }
}

/// Inserts `x` into a sorted list whose entities all differ from its own.
fn insert_sorted(list: &mut Vec<SortedInstance>, x: SortedInstance, blend: bool)
    requires
        sorted_instances(old(list)@, blend),
        forall|i: int| 0 <= i < old(list)@.len() ==> (#[trigger] old(list)@[i]).entity != x.entity,
    ensures
        sorted_instances(final(list)@, blend),
        final(list)@.len() == old(list)@.len() + 1,
        forall|y: SortedInstance| #[trigger]
            final(list)@.contains(y) <==> old(list)@.contains(y) || y == x,
{
    let ghost start = list@;
    let mut p: usize = 0;
    while p < list.len() && instance_less(&list[p], &x, blend)
        invariant
            list@ == start,
            p <= start.len(),
            forall|i: int| 0 <= i < p ==> instance_lt(start[i], x, blend),
        decreases start.len() - p,
    {
        p += 1;
    }
    list.insert(p, x);
    proof {
        let news = list@;
        assert(news == start.insert(p as int, x));
        if p < start.len() {
            assert(start[p as int].entity != x.entity);
            assert(instance_lt(x, start[p as int], blend));
        }
        assert forall|a: int, b: int| 0 <= a < b < news.len() implies instance_lt(
            news[a],
            news[b],
            blend,
        ) by {
            if a == p && b > p {
                assert(news[b] == start[b - 1]);
                if b - 1 > p {
                    assert(instance_lt(start[p as int], start[b - 1], blend));
                }
            }
        }
        assert forall|y: SortedInstance| #[trigger]
            news.contains(y) <==> start.contains(y) || y == x by {
            if news.contains(y) {
                let j = choose|j: int| 0 <= j < news.len() && news[j] == y;
                if j < p {
                    assert(start[j] == y);
                } else if j > p {
                    assert(start[j - 1] == y);
                }
            }
            if start.contains(y) {
                let j = choose|j: int| 0 <= j < start.len() && start[j] == y;
                if j < p {
                    assert(news[j] == y);
                } else {
                    assert(news[j + 1] == y);
                }
            }
            if y == x {
                assert(news[p as int] == y);
            }
        }
    }
}

pub open spec fn keys_ascending(keys: Seq<InstanceBatchKey>) -> bool {
    forall|i: int, j: int| 0 <= i < j < keys.len() ==> keys[i].spec_lt(keys[j])
}

/// Adds `key` to an ascending list of keys, unless it is there already.
fn insert_key(keys: &mut Vec<InstanceBatchKey>, key: InstanceBatchKey)
    requires
        keys_ascending(old(keys)@),
    ensures
        keys_ascending(final(keys)@),
        forall|k: InstanceBatchKey| #[trigger]
            final(keys)@.contains(k) <==> old(keys)@.contains(k) || k == key,
{
    let ghost start = keys@;
    let mut i: usize = 0;
    while i < keys.len() && keys[i].lt(&key)
        invariant
            keys@ == start,
            keys_ascending(start),
            i <= start.len(),
            forall|j: int| 0 <= j < i ==> start[j].spec_lt(key),
        decreases start.len() - i,
    {
        i += 1;
    }
    if i < keys.len() && keys[i].same(&key) {
        return;
    }
    keys.insert(i, key);
    proof {
        let news = keys@;
        assert(news == start.insert(i as int, key));
        assert forall|a: int, b: int| 0 <= a < b < news.len() implies news[a].spec_lt(news[b]) by {
            if a == i && b > i {
                assert(news[b] == start[b - 1]);
                assert(start[i as int] == start[b - 1] || start[i as int].spec_lt(start[b - 1]));
            }
        }
        assert forall|k: InstanceBatchKey| #[trigger]
            news.contains(k) <==> start.contains(k) || k == key by {
            if news.contains(k) {
                let j = choose|j: int| 0 <= j < news.len() && news[j] == k;
                if j < i {
                    assert(start[j] == k);
                } else if j > i {
                    assert(start[j - 1] == k);
                }
            }
            if start.contains(k) {
                let j = choose|j: int| 0 <= j < start.len() && start[j] == k;
                if j < i {
                    assert(news[j] == k);
                } else {
                    assert(news[j + 1] == k);
                }
            }
            if k == key {
                assert(news[i as int] == k);
            }
        }
    }
}

/// Each entity is visible at most once.
pub open spec fn entities_unique(inputs: Seq<InstanceInput>) -> bool {
    forall|i: int, j: int| 0 <= i < j < inputs.len() ==> inputs[i].entity != inputs[j].entity
}

/// One of the first `n` instances resolves to batch key `key`, placed as `x`.
pub open spec fn resolved_upto(
    batches: Seq<(InstancedMeshKey, MeshBatch)>,
    materials: Map<u64, PreparedMaterial>,
    inputs: Seq<InstanceInput>,
    n: int,
    key: InstanceBatchKey,
    x: SortedInstance,
) -> bool {
    exists|i: int| 0 <= i < n && i < inputs.len() && resolves_to(batches, materials, inputs[i], key, x)
}

pub open spec fn has_group(groups: Seq<(InstanceBatchKey, Seq<SortedInstance>)>, k: InstanceBatchKey) -> bool {
    exists|a: int| 0 <= a < groups.len() && groups[a].0 == k
}

/// The groups with their instance lists as sequences.
pub open spec fn group_views(groups: Seq<(InstanceBatchKey, Vec<SortedInstance>)>) -> Seq<
    (InstanceBatchKey, Seq<SortedInstance>),
> {
    groups.map_values(|g: (InstanceBatchKey, Vec<SortedInstance>)| (g.0, g.1@))
}

/// `groups` holds the instances of `inputs` that resolve, one group per batch
/// key in ascending key order, each group sorted by mesh, depth and entity.
pub open spec fn grouped(
    groups: Seq<(InstanceBatchKey, Seq<SortedInstance>)>,
    batches: Seq<(InstancedMeshKey, MeshBatch)>,
    materials: Map<u64, PreparedMaterial>,
    inputs: Seq<InstanceInput>,
) -> bool {
    &&& forall|a: int, b: int| 0 <= a < b < groups.len() ==> groups[a].0.spec_lt(groups[b].0)
    &&& forall|k: InstanceBatchKey| #[trigger]
        has_group(groups, k) <==> exists|x: SortedInstance|
            resolved_upto(batches, materials, inputs, inputs.len() as int, k, x)
    &&& forall|a: int|
        0 <= a < groups.len() ==> sorted_instances((#[trigger] groups[a]).1, groups[a].0.blend())
    &&& forall|a: int, x: SortedInstance|
        0 <= a < groups.len() ==> (#[trigger] groups[a].1.contains(x) <==> resolved_upto(
            batches,
            materials,
            inputs,
            inputs.len() as int,
            groups[a].0,
            x,
        ))
}

/// Resolves every instance, dropping those whose mesh or material is not
/// ready, and keeps each with its batch key.
fn resolve_all(batches: &MeshBatches, materials: &RenderMaterials, inputs: &Vec<InstanceInput>) -> (r: Vec<
    (InstanceBatchKey, SortedInstance),
>)
    requires
        materials.wf(),
        mesh_indices_fit(batches.mesh_batches@),
        entities_unique(inputs@),
    ensures
        forall|k: InstanceBatchKey, x: SortedInstance| #[trigger]
            r@.contains((k, x)) <==> resolved_upto(
                batches.mesh_batches@,
                materials@,
                inputs@,
                inputs@.len() as int,
                k,
                x,
            ),
        forall|p: int, q: int| 0 <= p < q < r@.len() ==> r@[p].1.entity != r@[q].1.entity,
        r@.len() <= inputs@.len(),
{
    let ghost bs = batches.mesh_batches@;
    let mut out: Vec<(InstanceBatchKey, SortedInstance)> = Vec::new();
    let mut i: usize = 0;
    while i < inputs.len()
        invariant
            materials.wf(),
            mesh_indices_fit(bs),
            bs == batches.mesh_batches@,
            entities_unique(inputs@),
            i <= inputs@.len(),
            out@.len() <= i,
            forall|k: InstanceBatchKey, x: SortedInstance| #[trigger]
                out@.contains((k, x)) <==> resolved_upto(bs, materials@, inputs@, i as int, k, x),
            forall|p: int, q: int| 0 <= p < q < out@.len() ==> out@[p].1.entity != out@[q].1.entity,
            forall|p: int| 0 <= p < out@.len() ==> exists|j: int| 0 <= j < i && (#[trigger] out@[p]).1.entity == inputs@[j].entity,
        decreases inputs@.len() - i,
    {
        let ghost before = out@;
        let r = resolve(batches, materials, &inputs[i]);
        match r {
            Some(e) => {
                out.push(e);
            },
            None => {},
        }
        proof {
            assert forall|k: InstanceBatchKey, x: SortedInstance| #[trigger]
                out@.contains((k, x)) <==> resolved_upto(bs, materials@, inputs@, i + 1, k, x) by {
                if out@.contains((k, x)) {
                    let p = choose|p: int| 0 <= p < out@.len() && out@[p] == (k, x);
                    if p < before.len() {
                        assert(before[p] == (k, x));
                        assert(before.contains((k, x)));
                        assert(resolved_upto(bs, materials@, inputs@, i as int, k, x));
                        let j = choose|j: int| 0 <= j < i && j < inputs@.len() && resolves_to(bs, materials@, inputs@[j], k, x);
                        assert(0 <= j < i + 1 && j < inputs@.len() && resolves_to(bs, materials@, inputs@[j], k, x));
                    } else {
                        assert(resolves_to(bs, materials@, inputs@[i as int], k, x));
                    }
                }
                if resolved_upto(bs, materials@, inputs@, i + 1, k, x) {
                    let j = choose|j: int| 0 <= j < i + 1 && j < inputs@.len() && resolves_to(bs, materials@, inputs@[j], k, x);
                    if j < i {
                        assert(resolved_upto(bs, materials@, inputs@, i as int, k, x));
                        assert(before.contains((k, x)));
                        let p = choose|p: int| 0 <= p < before.len() && before[p] == (k, x);
                        assert(out@[p] == (k, x));
                    } else {
                        let (k2, x2) = r.unwrap();
                        lemma_resolves_unique(bs, materials@, inputs@[i as int], k, x, k2, x2);
                        assert(out@[before.len() as int] == (k, x));
                    }
                }
            }
            assert forall|p: int| 0 <= p < out@.len() implies exists|j: int| 0 <= j < i + 1 && (#[trigger] out@[p]).1.entity == inputs@[j].entity by {
                if p < before.len() {
                    assert(out@[p] == before[p]);
                    let j = choose|j: int| 0 <= j < i && before[p].1.entity == inputs@[j].entity;
                } else {
                    let (k2, x2) = r.unwrap();
                    assert(x2.entity == inputs@[i as int].entity);
                }
            }
            assert forall|p: int, q: int| 0 <= p < q < out@.len() implies out@[p].1.entity != out@[q].1.entity by {
                if q >= before.len() {
                    assert(out@[p] == before[p]);
                    let j = choose|j: int| 0 <= j < i && before[p].1.entity == inputs@[j].entity;
                    let (k2, x2) = r.unwrap();
                    assert(x2.entity == inputs@[i as int].entity);
                } else {
                    assert(out@[p] == before[p] && out@[q] == before[q]);
                }
            }
        }
        i += 1;
    }
    out
}

/// Groups a view's visible instances by batch key and sorts each group: by
/// mesh, so that the instances of one mesh are contiguous; then front to back
/// for opaque and masked batches, back to front for blended ones; then by
/// entity. Instances whose mesh or material is not ready are left out.
pub fn collect_instances(
    batches: &MeshBatches,
    materials: &RenderMaterials,
    inputs: &Vec<InstanceInput>,
) -> (r: Vec<(InstanceBatchKey, Vec<SortedInstance>)>)
    requires
        materials.wf(),
        mesh_indices_fit(batches.mesh_batches@),
        entities_unique(inputs@),
    ensures
        grouped(group_views(r@), batches.mesh_batches@, materials@, inputs@),
        forall|a: int| 0 <= a < r@.len() ==> (#[trigger] r@[a]).1@.len() <= inputs@.len(),
{
    let ghost bs = batches.mesh_batches@;
    let ghost n = inputs@.len() as int;
    let resolved = resolve_all(batches, materials, inputs);
    let ghost rs = resolved@;
    // the keys in use, ascending
    let mut keys: Vec<InstanceBatchKey> = Vec::new();
    let mut p: usize = 0;
    while p < resolved.len()
        invariant
            rs == resolved@,
            p <= rs.len(),
            keys_ascending(keys@),
            forall|k: InstanceBatchKey| #[trigger]
                keys@.contains(k) <==> exists|q: int| 0 <= q < p && rs[q].0 == k,
        decreases rs.len() - p,
    {
        insert_key(&mut keys, resolved[p].0);
        proof {
            assert forall|k: InstanceBatchKey| #[trigger]
                keys@.contains(k) <==> exists|q: int| 0 <= q < p + 1 && rs[q].0 == k by {
                if exists|q: int| 0 <= q < p + 1 && rs[q].0 == k {
                    let q = choose|q: int| 0 <= q < p + 1 && rs[q].0 == k;
                    if q < p {
                        assert(exists|q: int| 0 <= q < p && rs[q].0 == k);
                    }
                }
            }
        }
        p += 1;
    }
    let mut out: Vec<(InstanceBatchKey, Vec<SortedInstance>)> = Vec::new();
    let mut a: usize = 0;
    while a < keys.len()
        invariant
            rs == resolved@,
            keys_ascending(keys@),
            forall|k: InstanceBatchKey| #[trigger]
                keys@.contains(k) <==> exists|q: int| 0 <= q < rs.len() && rs[q].0 == k,
            forall|k: InstanceBatchKey, x: SortedInstance| #[trigger]
                rs.contains((k, x)) <==> resolved_upto(bs, materials@, inputs@, n, k, x),
            forall|p: int, q: int| 0 <= p < q < rs.len() ==> rs[p].1.entity != rs[q].1.entity,
            a <= keys@.len(),
            out@.len() == a,
            rs.len() <= inputs@.len(),
            forall|b: int| 0 <= b < a ==> (#[trigger] out@[b]).1@.len() <= rs.len(),
            forall|b: int| 0 <= b < a ==> (#[trigger] out@[b]).0 == keys@[b],
            forall|b: int| 0 <= b < a ==> sorted_instances((#[trigger] out@[b]).1@, out@[b].0.blend()),
            forall|b: int, x: SortedInstance|
                0 <= b < a ==> (#[trigger] out@[b].1@.contains(x) <==> rs.contains((out@[b].0, x))),
        decreases keys@.len() - a,
    {
        let key = keys[a];
        let blend = key.material_key.alpha_mode.is_blend();
        let mut list: Vec<SortedInstance> = Vec::new();
        let mut q: usize = 0;
        while q < resolved.len()
            invariant
                rs == resolved@,
                forall|p: int, q: int| 0 <= p < q < rs.len() ==> rs[p].1.entity != rs[q].1.entity,
                blend == key.blend(),
                q <= rs.len(),
                list@.len() <= q,
                sorted_instances(list@, blend),
                forall|x: SortedInstance| #[trigger]
                    list@.contains(x) <==> exists|w: int| 0 <= w < q && rs[w] == (key, x),
                forall|i: int| 0 <= i < list@.len() ==> exists|w: int| 0 <= w < q && (#[trigger] list@[i]).entity == rs[w].1.entity,
            decreases rs.len() - q,
        {
            if resolved[q].0.same(&key) {
                proof {
                    assert forall|i: int| 0 <= i < list@.len() implies (#[trigger] list@[i]).entity != rs[q as int].1.entity by {
                        let w = choose|w: int| 0 <= w < q && list@[i].entity == rs[w].1.entity;
                    }
                }
                let ghost before = list@;
                insert_sorted(&mut list, resolved[q].1, blend);
                proof {
                    assert forall|i: int| 0 <= i < list@.len() implies exists|w: int| 0 <= w < q + 1 && (#[trigger] list@[i]).entity == rs[w].1.entity by {
                        assert(list@.contains(list@[i]));
                        if before.contains(list@[i]) {
                            let j = choose|j: int| 0 <= j < before.len() && before[j] == list@[i];
                            let w = choose|w: int| 0 <= w < q && before[j].entity == rs[w].1.entity;
                        }
                    }
                }
            }
            proof {
                assert forall|x: SortedInstance| #[trigger]
                    list@.contains(x) <==> exists|w: int| 0 <= w < q + 1 && rs[w] == (key, x) by {
                    if exists|w: int| 0 <= w < q + 1 && rs[w] == (key, x) {
                        let w = choose|w: int| 0 <= w < q + 1 && rs[w] == (key, x);
                        if w < q {
                            assert(exists|w: int| 0 <= w < q && rs[w] == (key, x));
                        }
                    }
                }
            }
            q += 1;
        }
        proof {
            assert forall|x: SortedInstance| #[trigger] list@.contains(x) <==> rs.contains((key, x)) by {
                if rs.contains((key, x)) {
                    let w = choose|w: int| 0 <= w < rs.len() && rs[w] == (key, x);
                    assert(exists|w: int| 0 <= w < q && rs[w] == (key, x));
                }
            }
        }
        out.push((key, list));
        a += 1;
    }
    proof {
        let g = group_views(out@);
        assert forall|b: int| 0 <= b < g.len() implies #[trigger] g[b] == (out@[b].0, out@[b].1@) by {}
        assert forall|x: int, y: int| 0 <= x < y < g.len() implies g[x].0.spec_lt(g[y].0) by {
            assert(g[x].0 == keys@[x] && g[y].0 == keys@[y]);
        }
        assert forall|b: int| 0 <= b < g.len() implies sorted_instances((#[trigger] g[b]).1, g[b].0.blend()) by {
            assert(g[b] == (out@[b].0, out@[b].1@));
            assert(sorted_instances(out@[b].1@, out@[b].0.blend()));
        }
        assert forall|b: int, x: SortedInstance|
            0 <= b < g.len() implies (#[trigger] g[b].1.contains(x) <==> resolved_upto(
                bs,
                materials@,
                inputs@,
                n,
                g[b].0,
                x,
            )) by {
            assert(g[b] == (out@[b].0, out@[b].1@));
            assert(out@[b].1@.contains(x) <==> rs.contains((out@[b].0, x)));
        }
        assert forall|k: InstanceBatchKey| #[trigger]
            has_group(g, k) <==> exists|x: SortedInstance|
                resolved_upto(bs, materials@, inputs@, n, k, x) by {
            if has_group(g, k) {
                let b = choose|b: int| 0 <= b < g.len() && g[b].0 == k;
                assert(keys@.contains(k));
                let q = choose|q: int| 0 <= q < rs.len() && rs[q].0 == k;
                assert(rs.contains((k, rs[q].1)));
                assert(resolved_upto(bs, materials@, inputs@, n, k, rs[q].1));
            }
            if exists|x: SortedInstance| resolved_upto(bs, materials@, inputs@, n, k, x) {
                let x = choose|x: SortedInstance| resolved_upto(bs, materials@, inputs@, n, k, x);
                assert(rs.contains((k, x)));
                let q = choose|q: int| 0 <= q < rs.len() && rs[q] == (k, x);
                assert(keys@.contains(k));
                let b = choose|b: int| 0 <= b < keys@.len() && keys@[b] == k;
                assert(g[b].0 == k);
            }
        }
    }
    out
}

} // verus!
