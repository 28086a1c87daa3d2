use bevy_instancing::batching::{collect_instances, InstanceBatchKey, InstanceInput, SortedInstance};
use bevy_instancing::frame::{prepare_view, InstanceBatch, InstanceBuffering};
use bevy_instancing::indirect::{DrawIndexedIndirect, DrawIndirect, IndirectDraw};
use bevy_instancing::material::{GpuAlphaMode, PreparedMaterial, RenderMaterials};
use bevy_instancing::mesh::{
    build_mesh_batches, GpuIndexBufferData, GpuInstancedMesh, Indices, IndexFormat,
    InstancedMeshKey, MeshBatches, PrimitiveTopology, RenderMeshes,
};

fn plain_key() -> InstancedMeshKey {
    InstancedMeshKey {
        primitive_topology: PrimitiveTopology::TriangleList,
        layout: 1,
        index_format: None,
    }
}

fn plain_mesh(vertex_count: u32) -> GpuInstancedMesh {
    GpuInstancedMesh {
        vertex_buffer_data: vec![vertex_count as u8; vertex_count as usize],
        vertex_count,
        index_buffer_data: GpuIndexBufferData::NonIndexed { vertex_count },
        key: plain_key(),
    }
}

fn registry(meshes: &[(u64, u32)]) -> RenderMeshes {
    let mut r = RenderMeshes::new();
    for (id, count) in meshes {
        r.insert(*id, plain_mesh(*count));
    }
    r
}

fn materials(entries: &[(u64, GpuAlphaMode)]) -> RenderMaterials {
    let mut m = RenderMaterials::new();
    for (id, alpha) in entries {
        m.record(*id, Some(PreparedMaterial { pipeline_key: 0, batch_key: 7, alpha_mode: *alpha }));
    }
    m
}

fn instance(entity: u64, mesh: u64, material: u64, depth: i64) -> InstanceInput {
    InstanceInput { entity, mesh, material, depth }
}

fn entities(batch: &InstanceBatch) -> Vec<u64> {
    batch.instances.iter().map(|i| i.entity).collect()
}

fn view(meshes: &MeshBatches, mats: &RenderMaterials, inputs: &[InstanceInput]) -> Vec<InstanceBatch> {
    prepare_view(meshes, mats, &inputs.to_vec(), InstanceBuffering::Storage)
}

#[test]
fn blend_batch_sorts_back_to_front() {
    let batches = build_mesh_batches(&registry(&[(1, 3)]));
    let mats = materials(&[(10, GpuAlphaMode::Blend)]);
    let inputs = [instance(100, 1, 10, 3), instance(101, 1, 10, 1), instance(102, 1, 10, 5)];
    let out = view(&batches, &mats, &inputs);
    assert_eq!(out.len(), 1);
    let depths: Vec<i64> = out[0].instances.iter().map(|i| i.depth).collect();
    assert_eq!(depths, vec![5, 3, 1]);
}

#[test]
fn opaque_batch_sorts_front_to_back() {
    let batches = build_mesh_batches(&registry(&[(1, 3)]));
    let mats = materials(&[(10, GpuAlphaMode::Opaque)]);
    let inputs = [instance(100, 1, 10, 3), instance(101, 1, 10, 1), instance(102, 1, 10, 5)];
    let out = view(&batches, &mats, &inputs);
    let depths: Vec<i64> = out[0].instances.iter().map(|i| i.depth).collect();
    assert_eq!(depths, vec![1, 3, 5]);
}

#[test]
fn mask_batch_sorts_front_to_back() {
    let batches = build_mesh_batches(&registry(&[(1, 3)]));
    let mats = materials(&[(10, GpuAlphaMode::Mask)]);
    let inputs = [instance(100, 1, 10, -2), instance(101, 1, 10, -7)];
    let out = view(&batches, &mats, &inputs);
    let depths: Vec<i64> = out[0].instances.iter().map(|i| i.depth).collect();
    assert_eq!(depths, vec![-7, -2]);
}

#[test]
fn zero_instance_meshes_get_no_draw() {
    // meshes A, B, C with 3, 4 and 5 vertices; only A and C have instances
    let batches = build_mesh_batches(&registry(&[(1, 3), (2, 4), (3, 5)]));
    let mats = materials(&[(10, GpuAlphaMode::Opaque)]);
    let inputs = [instance(100, 3, 10, 0), instance(101, 1, 10, 0), instance(102, 3, 10, 1)];
    let out = view(&batches, &mats, &inputs);
    assert_eq!(out.len(), 1);
    let b = &out[0];
    assert_eq!(b.mesh_instance_counts, vec![1, 0, 2]);
    assert_eq!(b.mesh_instance_offsets, vec![0, 1, 1]);
    assert_eq!(b.draws.len(), 2);
    assert_eq!(
        b.draws[0],
        IndirectDraw::NonIndexed(DrawIndirect {
            vertex_count: 3,
            instance_count: 1,
            base_vertex: 0,
            base_instance: 0
        })
    );
    assert_eq!(
        b.draws[1],
        IndirectDraw::NonIndexed(DrawIndirect {
            vertex_count: 5,
            instance_count: 2,
            base_vertex: 7,
            base_instance: 1
        })
    );
}

#[test]
fn offsets_are_sums_of_earlier_counts() {
    let batches = build_mesh_batches(&registry(&[(1, 3), (2, 3), (3, 3)]));
    let mats = materials(&[(10, GpuAlphaMode::Opaque)]);
    let inputs = [
        instance(1, 2, 10, 0),
        instance(2, 3, 10, 0),
        instance(3, 1, 10, 0),
        instance(4, 2, 10, 4),
        instance(5, 3, 10, 2),
        instance(6, 2, 10, 1),
    ];
    let out = view(&batches, &mats, &inputs);
    let b = &out[0];
    assert_eq!(b.mesh_instance_counts, vec![1, 3, 2]);
    assert_eq!(b.mesh_instance_offsets, vec![0, 1, 4]);
    let meshes: Vec<u32> = b.instances.iter().map(|i| i.mesh_index).collect();
    assert_eq!(meshes, vec![0, 1, 1, 1, 2, 2]);
    assert_eq!(entities(b), vec![3, 1, 6, 4, 2, 5]);
    let bases: Vec<u32> = b.draws.iter().map(|d| match d {
        IndirectDraw::NonIndexed(d) => d.base_instance,
        IndirectDraw::Indexed(d) => d.base_instance,
    }).collect();
    assert_eq!(bases, vec![0, 1, 4]);
}

#[test]
fn unready_material_is_left_out_then_appears_once() {
    let batches = build_mesh_batches(&registry(&[(1, 3)]));
    let mut mats = materials(&[(10, GpuAlphaMode::Opaque)]);
    mats.record(11, None);
    let inputs = [instance(100, 1, 10, 0), instance(101, 1, 11, 1)];
    let first = view(&batches, &mats, &inputs);
    let all: Vec<u64> = first.iter().flat_map(entities).collect();
    assert_eq!(all, vec![100]);
    let retry = mats.take_pending();
    assert_eq!(retry, vec![11]);
    mats.record(11, Some(PreparedMaterial { pipeline_key: 0, batch_key: 7, alpha_mode: GpuAlphaMode::Opaque }));
    let second = view(&batches, &mats, &inputs);
    let all: Vec<u64> = second.iter().flat_map(entities).collect();
    assert_eq!(all, vec![100, 101]);
}

#[test]
fn unknown_mesh_is_left_out() {
    let batches = build_mesh_batches(&registry(&[(1, 3)]));
    let mats = materials(&[(10, GpuAlphaMode::Opaque)]);
    let out = view(&batches, &mats, &[instance(100, 9, 10, 0)]);
    assert!(out.is_empty());
}

#[test]
fn no_instances_give_no_batches() {
    let batches = build_mesh_batches(&registry(&[(1, 3)]));
    let mats = materials(&[(10, GpuAlphaMode::Opaque)]);
    assert!(view(&batches, &mats, &[]).is_empty());
}

#[test]
fn order_of_inputs_does_not_matter() {
    let batches = build_mesh_batches(&registry(&[(1, 3), (2, 6)]));
    let mats = materials(&[(10, GpuAlphaMode::Opaque), (11, GpuAlphaMode::Blend)]);
    let a = [
        instance(1, 2, 10, 4),
        instance(2, 1, 11, 3),
        instance(3, 1, 10, 4),
        instance(4, 2, 11, 9),
        instance(5, 1, 10, 4),
    ];
    let mut b = a;
    b.reverse();
    b.swap(0, 2);
    let x = view(&batches, &mats, &a);
    let y = view(&batches, &mats, &b);
    assert_eq!(x.len(), 2);
    assert_eq!(x.len(), y.len());
    for (p, q) in x.iter().zip(y.iter()) {
        assert_eq!(p.key, q.key);
        assert_eq!(p.instances, q.instances);
        assert_eq!(p.draws, q.draws);
    }
    // equal depth: ordered by entity
    assert_eq!(entities(&x[0]), vec![3, 5, 1]);
}

#[test]
fn batches_follow_key_order() {
    let batches = build_mesh_batches(&registry(&[(1, 3)]));
    let mats = materials(&[(10, GpuAlphaMode::Blend), (11, GpuAlphaMode::Opaque)]);
    let out = view(&batches, &mats, &[instance(1, 1, 10, 0), instance(2, 1, 11, 0)]);
    let modes: Vec<GpuAlphaMode> = out.iter().map(|b| b.key.material_key.alpha_mode).collect();
    assert_eq!(modes, vec![GpuAlphaMode::Opaque, GpuAlphaMode::Blend]);
}

#[test]
fn uniform_buffering_splits_instances_and_draws() {
    let batches = build_mesh_batches(&registry(&[(1, 3), (2, 3)]));
    let mats = materials(&[(10, GpuAlphaMode::Opaque)]);
    let inputs: Vec<InstanceInput> = (0..5u64).map(|e| instance(e, 1 + e % 2, 10, e as i64)).collect();
    let out = prepare_view(&batches, &mats, &inputs, InstanceBuffering::Uniform { capacity: 2 });
    let b = &out[0];
    assert_eq!(b.instance_buffers.len(), 3);
    assert_eq!(b.instance_buffers[2].len(), 1);
    assert_eq!(b.indirect_buffers.len(), 3);
    let counts: Vec<Vec<u32>> = b
        .indirect_buffers
        .iter()
        .map(|buf| buf.iter().map(|d| match d {
            IndirectDraw::NonIndexed(d) => d.instance_count,
            IndirectDraw::Indexed(d) => d.instance_count,
        }).collect())
        .collect();
    assert_eq!(counts, vec![vec![2], vec![1, 1], vec![1]]);
}

#[test]
fn collect_groups_by_key() {
    let batches = build_mesh_batches(&registry(&[(1, 3)]));
    let mats = materials(&[(10, GpuAlphaMode::Opaque)]);
    let groups = collect_instances(&batches, &mats, &vec![instance(7, 1, 10, 2)]);
    assert_eq!(groups.len(), 1);
    assert_eq!(
        groups[0].0,
        InstanceBatchKey {
            mesh_key: plain_key(),
            material_key: bevy_instancing::material::InstancedMaterialBatchKey {
                alpha_mode: GpuAlphaMode::Opaque,
                key: 7
            }
        }
    );
    assert_eq!(groups[0].1, vec![SortedInstance { entity: 7, mesh_index: 0, depth: 2 }]);
}

#[test]
fn indexed_batch_draws_use_index_offsets() {
    let key = InstancedMeshKey {
        primitive_topology: PrimitiveTopology::TriangleList,
        layout: 2,
        index_format: Some(IndexFormat::Uint32),
    };
    let mesh = |n: u32, indices: Vec<u32>| GpuInstancedMesh {
        vertex_buffer_data: vec![0; 4],
        vertex_count: n,
        index_buffer_data: GpuIndexBufferData::Indexed {
            indices: Indices::U32(indices),
            index_format: IndexFormat::Uint32,
        },
        key,
    };
    let mut r = RenderMeshes::new();
    r.insert(1, mesh(3, vec![0, 1, 2]));
    r.insert(2, mesh(4, vec![0, 1, 2, 2, 3, 0]));
    let batches = build_mesh_batches(&r);
    let mats = materials(&[(10, GpuAlphaMode::Opaque)]);
    let out = view(&batches, &mats, &[instance(1, 2, 10, 0)]);
    assert_eq!(
        out[0].draws,
        vec![IndirectDraw::Indexed(DrawIndexedIndirect {
            vertex_count: 6,
            instance_count: 1,
            base_index: 3,
            vertex_offset: 0,
            base_instance: 0
        })]
    );
}
