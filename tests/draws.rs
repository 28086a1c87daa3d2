use bevy_instancing::batching::SortedInstance;
use bevy_instancing::bytes::{indirect_bytes, indirect_words};
use bevy_instancing::events::{collect_asset_changes, AssetEvent};
use bevy_instancing::indirect::{DrawIndexedIndirect, DrawIndirect, IndirectDraw};
use bevy_instancing::material::{
    build_material_batches, prepare_material, AsBatch, BasicMaterial, GpuAlphaMode, MaterialBatcher,
    InstancedMaterialBatchKey, PreparedMaterial, RenderMaterials,
};
use bevy_instancing::packing::{
    build_draws, chunk_instances, mesh_instance_counts, mesh_instance_offsets, split_draws,
    uniform_buffer_length,
};
use bevy_instancing::slices::{slice_ranges, InstanceSlice, InstanceSliceRange};
use bevy_instancing::submit::{plan_draw_calls, queue_batch, DrawCommand, RenderPhase};

fn plain(instance_count: u32, base_instance: u32) -> IndirectDraw {
    IndirectDraw::NonIndexed(DrawIndirect { vertex_count: 3, instance_count, base_vertex: 0, base_instance })
}

fn counts_and_bases(buffer: &[IndirectDraw]) -> Vec<(u32, u32)> {
    buffer
        .iter()
        .map(|d| match d {
            IndirectDraw::NonIndexed(d) => (d.instance_count, d.base_instance),
            IndirectDraw::Indexed(d) => (d.instance_count, d.base_instance),
        })
        .collect()
}

#[test]
fn capacity_split_of_two_meshes_of_eighty() {
    let draws = vec![plain(80, 0), plain(80, 80)];
    let split = split_draws(&draws, 112);
    assert_eq!(split.len(), 2);
    assert_eq!(counts_and_bases(&split[0]), vec![(80, 0), (32, 80)]);
    assert_eq!(counts_and_bases(&split[1]), vec![(48, 0)]);
    let total: u32 = split.iter().flat_map(|b| counts_and_bases(b)).map(|(c, _)| c).sum();
    assert_eq!(total, 160);
}

#[test]
fn split_of_a_mesh_larger_than_two_buffers() {
    let split = split_draws(&vec![plain(5, 0), plain(250, 5)], 100);
    assert_eq!(split.len(), 3);
    assert_eq!(counts_and_bases(&split[0]), vec![(5, 0), (95, 5)]);
    assert_eq!(counts_and_bases(&split[1]), vec![(100, 0)]);
    assert_eq!(counts_and_bases(&split[2]), vec![(55, 0)]);
}

#[test]
fn split_exactly_full_buffer() {
    let split = split_draws(&vec![plain(112, 0)], 112);
    assert_eq!(split.len(), 1);
    assert_eq!(counts_and_bases(&split[0]), vec![(112, 0)]);
}

#[test]
fn chunks_follow_capacity() {
    let list: Vec<SortedInstance> =
        (0..5u64).map(|e| SortedInstance { entity: e, mesh_index: 0, depth: 0 }).collect();
    let chunks = chunk_instances(&list, 2);
    let sizes: Vec<usize> = chunks.iter().map(|c| c.len()).collect();
    assert_eq!(sizes, vec![2, 2, 1]);
    assert_eq!(chunks[2][0].entity, 4);
}

#[test]
fn counts_offsets_and_draws() {
    let list: Vec<SortedInstance> = [0u32, 0, 2, 2, 2]
        .iter()
        .enumerate()
        .map(|(e, m)| SortedInstance { entity: e as u64, mesh_index: *m, depth: 0 })
        .collect();
    let counts = mesh_instance_counts(&list, 3);
    assert_eq!(counts, vec![2, 0, 3]);
    let offsets = mesh_instance_offsets(&counts);
    assert_eq!(offsets, vec![0, 2, 2]);
    let templates = vec![
        IndirectDraw::Indexed(DrawIndexedIndirect { vertex_count: 6, instance_count: 0, base_index: 0, vertex_offset: 0, base_instance: 0 }),
        IndirectDraw::Indexed(DrawIndexedIndirect { vertex_count: 9, instance_count: 0, base_index: 0, vertex_offset: 0, base_instance: 0 }),
        IndirectDraw::Indexed(DrawIndexedIndirect { vertex_count: 3, instance_count: 0, base_index: 0, vertex_offset: 0, base_instance: 0 }),
    ];
    let draws = build_draws(&templates, &counts, &offsets);
    assert_eq!(
        draws,
        vec![
            IndirectDraw::Indexed(DrawIndexedIndirect { vertex_count: 6, instance_count: 2, base_index: 0, vertex_offset: 0, base_instance: 0 }),
            IndirectDraw::Indexed(DrawIndexedIndirect { vertex_count: 3, instance_count: 3, base_index: 15, vertex_offset: 0, base_instance: 2 }),
        ]
    );
}

#[test]
fn indirect_bytes_hold_each_field() {
    let draws = vec![
        plain(2, 1),
        IndirectDraw::Indexed(DrawIndexedIndirect { vertex_count: 6, instance_count: 1, base_index: 3, vertex_offset: -1, base_instance: 0 }),
    ];
    let words = indirect_words(&draws);
    assert_eq!(words, vec![3, 2, 0, 1, 6, 1, 3, u32::MAX, 0]);
    let expected: Vec<u8> = words.iter().flat_map(|w| w.to_ne_bytes()).collect();
    assert_eq!(indirect_bytes(&draws), expected);
}

#[test]
fn draw_calls_indirect_and_direct() {
    let draws = vec![
        plain(2, 1),
        IndirectDraw::Indexed(DrawIndexedIndirect { vertex_count: 6, instance_count: 1, base_index: 3, vertex_offset: 0, base_instance: 4 }),
        plain(1, 0),
    ];
    let indirect = plan_draw_calls(&draws, true);
    assert_eq!(
        indirect,
        vec![
            DrawCommand::Indirect { indexed: false, offset: 0 },
            DrawCommand::Indirect { indexed: true, offset: 16 },
            DrawCommand::Indirect { indexed: false, offset: 36 },
        ]
    );
    let direct = plan_draw_calls(&draws, false);
    assert_eq!(
        direct[0],
        DrawCommand::Direct { vertex_start: 0, vertex_end: 3, instance_start: 1, instance_end: 3 }
    );
    assert_eq!(
        direct[1],
        DrawCommand::DirectIndexed { index_start: 3, index_end: 9, base_vertex: 0, instance_start: 4, instance_end: 5 }
    );
}

#[test]
fn phases_follow_alpha_modes() {
    let mut mats = RenderMaterials::new();
    mats.record(3, Some(PreparedMaterial { pipeline_key: 9, batch_key: 1, alpha_mode: GpuAlphaMode::Blend }));
    mats.record(2, Some(PreparedMaterial { pipeline_key: 8, batch_key: 1, alpha_mode: GpuAlphaMode::Blend }));
    mats.record(1, Some(PreparedMaterial { pipeline_key: 7, batch_key: 0, alpha_mode: GpuAlphaMode::Mask }));
    let batches = build_material_batches(&mats);
    assert_eq!(batches.material_batches.len(), 2);
    let blend = InstancedMaterialBatchKey { alpha_mode: GpuAlphaMode::Blend, key: 1 };
    let mesh_key = bevy_instancing::mesh::InstancedMeshKey {
        primitive_topology: bevy_instancing::mesh::PrimitiveTopology::LineList,
        layout: 0,
        index_format: None,
    };
    let key = bevy_instancing::batching::InstanceBatchKey { mesh_key, material_key: blend };
    let q = queue_batch(&batches, &key).unwrap();
    assert_eq!(q.phase, RenderPhase::Transparent);
    assert!(q.transparent);
    // the least material identity stands for the key
    assert_eq!((q.material, q.pipeline_key), (2, 8));
    let mask = bevy_instancing::batching::InstanceBatchKey {
        mesh_key,
        material_key: InstancedMaterialBatchKey { alpha_mode: GpuAlphaMode::Mask, key: 0 },
    };
    assert_eq!(queue_batch(&batches, &mask).unwrap().phase, RenderPhase::AlphaMask);
    let missing = bevy_instancing::batching::InstanceBatchKey {
        mesh_key,
        material_key: InstancedMaterialBatchKey { alpha_mode: GpuAlphaMode::Opaque, key: 0 },
    };
    assert!(queue_batch(&batches, &missing).is_none());
}

#[test]
fn removed_material_leaves_queue_and_registry() {
    let mut mats = RenderMaterials::new();
    mats.record(4, None);
    mats.record(5, Some(PreparedMaterial { pipeline_key: 0, batch_key: 0, alpha_mode: GpuAlphaMode::Opaque }));
    mats.remove(4);
    mats.remove(5);
    assert!(mats.get(5).is_none());
    assert!(mats.take_pending().is_empty());
}

#[test]
fn events_reduce_to_changes() {
    let events = vec![
        AssetEvent::Created { handle: 3 },
        AssetEvent::Created { handle: 1 },
        AssetEvent::Removed { handle: 3 },
        AssetEvent::Modified { handle: 2 },
        AssetEvent::Removed { handle: 2 },
        AssetEvent::Created { handle: 2 },
    ];
    let changes = collect_asset_changes(&events);
    assert_eq!(changes.changed, vec![1, 2]);
    assert_eq!(changes.removed, vec![3, 2]);
}

#[test]
fn slices_are_laid_out_in_order() {
    let slices = vec![InstanceSlice { instance_count: 4 }, InstanceSlice { instance_count: 2 }];
    let ranges = slice_ranges(10, &slices).unwrap();
    assert_eq!(
        ranges,
        vec![
            InstanceSliceRange { offset: 10, instance_count: 4 },
            InstanceSliceRange { offset: 14, instance_count: 2 }
        ]
    );
    assert!(slice_ranges(u64::MAX - 3, &slices).is_none());
}

#[test]
fn uniform_lengths() {
    assert_eq!(uniform_buffer_length(144), 113);
    assert_eq!(uniform_buffer_length(160), 102);
}

#[test]
fn basic_material_is_opaque() {
    let m = BasicMaterial;
    assert_eq!(m.alpha_mode(), GpuAlphaMode::Opaque);
    let p = prepare_material(&m, 5);
    assert_eq!(p, PreparedMaterial { pipeline_key: 5, batch_key: 0, alpha_mode: GpuAlphaMode::Opaque });
}

#[test]
fn material_batcher_rebuilds_only_after_changes() {
    let mut b = MaterialBatcher::new();
    b.record(1, Some(PreparedMaterial { pipeline_key: 3, batch_key: 2, alpha_mode: GpuAlphaMode::Opaque }));
    assert!(b.batches().material_batches.is_empty());
    b.refresh();
    assert_eq!(b.batches().material_batches.len(), 1);
    b.record(1, None);
    assert_eq!(b.take_pending(), vec![1]);
    b.refresh();
    assert!(b.batches().material_batches.is_empty());
    assert!(b.materials().get(1).is_none());
}
