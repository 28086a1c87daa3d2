use bevy_instancing::indirect::{DrawCall, DrawIndexedIndirect, DrawIndirect, DrawOffsets, GpuIndirectData, IndirectDraw};
use bevy_instancing::mesh::{
    build_mesh_batch, build_mesh_batches, GpuIndexBufferData, MeshBatcher, GpuInstancedMesh, Indices, IndexFormat,
    InstancedMeshKey, PrimitiveTopology, RenderMeshes,
};

fn key(format: Option<IndexFormat>) -> InstancedMeshKey {
    InstancedMeshKey { primitive_topology: PrimitiveTopology::TriangleList, layout: 3, index_format: format }
}

fn u16_mesh(vertex_count: u32, indices: Vec<u16>, fill: u8) -> GpuInstancedMesh {
    GpuInstancedMesh {
        vertex_buffer_data: vec![fill; vertex_count as usize * 2],
        vertex_count,
        index_buffer_data: GpuIndexBufferData::Indexed {
            indices: Indices::U16(indices),
            index_format: IndexFormat::Uint16,
        },
        key: key(Some(IndexFormat::Uint16)),
    }
}

#[test]
fn indices_of_later_meshes_are_rebased() {
    let a = vec![0u16, 1, 2, 2, 3, 0];
    let b = vec![0u16, 1, 2, 3, 4, 5];
    let mut r = RenderMeshes::new();
    r.insert(20, u16_mesh(6, b.clone(), 0xbb));
    r.insert(10, u16_mesh(4, a.clone(), 0xaa));
    let batches = build_mesh_batches(&r);
    assert_eq!(batches.mesh_batches.len(), 1);
    let batch = &batches.mesh_batches[0].1;
    assert_eq!(batch.meshes, vec![10, 20]);
    let reference: Vec<u16> = a.iter().copied().chain(b.iter().map(|i| i + 4)).collect();
    match &batch.index_data {
        Some(Indices::U16(v)) => assert_eq!(v, &reference),
        _ => panic!("expected 16-bit indices"),
    }
    let reference_bytes: Vec<u8> = reference.iter().flat_map(|i| i.to_ne_bytes()).collect();
    assert_eq!(batch.index_data.as_ref().unwrap().to_bytes(), reference_bytes);
    let mut vertices = vec![0xaa; 8];
    vertices.extend(vec![0xbb; 12]);
    assert_eq!(batch.vertex_data, vertices);
    match &batch.indirect_data {
        GpuIndirectData::Indexed { buffer } => {
            assert_eq!(buffer.len(), 2);
            assert_eq!(buffer[0].vertex_count, 6);
            assert_eq!(buffer[1].vertex_count, 6);
            assert_eq!(buffer[1].instance_count, 0);
        }
        _ => panic!("expected indexed templates"),
    }
}

#[test]
fn overflowing_16_bit_indices_leave_the_batch_out() {
    let mut r = RenderMeshes::new();
    r.insert(1, u16_mesh(65535, vec![0, 1, 2], 0));
    r.insert(2, u16_mesh(3, vec![0, 1, 2], 0));
    assert!(build_mesh_batch(&r, &key(Some(IndexFormat::Uint16))).is_none());
    assert!(build_mesh_batches(&r).mesh_batches.is_empty());
}

#[test]
fn largest_16_bit_index_fits() {
    let mut r = RenderMeshes::new();
    r.insert(1, u16_mesh(65534, vec![0], 0));
    r.insert(2, u16_mesh(2, vec![1], 0));
    let batch = build_mesh_batch(&r, &key(Some(IndexFormat::Uint16))).unwrap();
    match batch.index_data {
        Some(Indices::U16(v)) => assert_eq!(v, vec![0, 65535]),
        _ => panic!("expected 16-bit indices"),
    }
}

#[test]
fn meshes_with_different_keys_get_separate_batches() {
    let mut r = RenderMeshes::new();
    r.insert(1, u16_mesh(3, vec![0, 1, 2], 1));
    r.insert(
        2,
        GpuInstancedMesh {
            vertex_buffer_data: vec![2; 3],
            vertex_count: 3,
            index_buffer_data: GpuIndexBufferData::NonIndexed { vertex_count: 3 },
            key: key(None),
        },
    );
    let batches = build_mesh_batches(&r);
    assert_eq!(batches.mesh_batches.len(), 2);
    // unindexed keys come first
    assert_eq!(batches.mesh_batches[0].0.index_format, None);
    assert_eq!(batches.mesh_batches[0].1.meshes, vec![2]);
    assert!(batches.mesh_batches[0].1.index_data.is_none());
    assert_eq!(batches.mesh_batches[1].1.meshes, vec![1]);
}

#[test]
fn registry_insert_replace_and_remove() {
    let mut r = RenderMeshes::new();
    r.insert(5, u16_mesh(3, vec![0], 1));
    r.insert(5, u16_mesh(4, vec![0], 2));
    r.insert(3, u16_mesh(3, vec![0], 3));
    assert_eq!(r.len(), 2);
    assert_eq!(r.get(5).unwrap().vertex_count, 4);
    assert_eq!(r.entry(0).0, 3);
    r.remove(3);
    r.remove(9);
    assert_eq!(r.len(), 1);
    assert!(r.get(3).is_none());
}

#[test]
fn draw_setters_keep_other_fields() {
    let mut d = IndirectDraw::Indexed(DrawIndexedIndirect {
        vertex_count: 6,
        instance_count: 0,
        base_index: 0,
        vertex_offset: 0,
        base_instance: 0,
    });
    d.set_instance_count(3);
    d.set_base_instance(9);
    d.set_offsets(DrawOffsets::Indexed { base_index: 12, vertex_offset: -1 });
    assert_eq!(d.vertex_count(), 6);
    assert_eq!(d.instance_count(), 3);
    assert_eq!(d.base_instance(), 9);
    match d.offsets() {
        DrawOffsets::Indexed { base_index, vertex_offset } => {
            assert_eq!((base_index, vertex_offset), (12, -1))
        }
        _ => panic!("expected indexed offsets"),
    }
    let mut p = DrawIndirect { vertex_count: 3, instance_count: 1, base_vertex: 0, base_instance: 0 };
    p.set_offsets(DrawOffsets::NonIndexed { base_vertex: 5 });
    p.set_vertex_count(4);
    assert_eq!(p, DrawIndirect { vertex_count: 4, instance_count: 1, base_vertex: 5, base_instance: 0 });
}

#[test]
fn indirect_data_len_and_draws() {
    let data = GpuIndirectData::NonIndexed {
        buffer: vec![DrawIndirect { vertex_count: 3, instance_count: 0, base_vertex: 0, base_instance: 0 }; 2],
    };
    assert_eq!(data.len(), 2);
    assert_eq!(data.to_draws().len(), 2);
}

#[test]
fn batcher_rebuilds_only_after_changes() {
    let mut b = MeshBatcher::new();
    b.refresh();
    assert!(b.batches().mesh_batches.is_empty());
    b.insert(4, u16_mesh(3, vec![0, 1, 2], 7));
    // not yet rebuilt
    assert!(b.batches().mesh_batches.is_empty());
    b.refresh();
    assert_eq!(b.batches().mesh_batches.len(), 1);
    assert_eq!(b.batches().mesh_batches[0].1.meshes, vec![4]);
    b.insert(2, u16_mesh(3, vec![2, 1, 0], 8));
    b.remove(4);
    b.refresh();
    assert_eq!(b.batches().mesh_batches[0].1.meshes, vec![2]);
    assert_eq!(b.meshes().len(), 1);
}
