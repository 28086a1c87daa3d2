//! Queueing batches into render phases, and the draw calls that submit them.
use vstd::prelude::*;

use crate::batching::InstanceBatchKey;
use crate::bytes::{draw_words, draws_words};
use crate::indirect::{DrawCall, IndirectDraw};
use crate::material::{has_material_batch, GpuAlphaMode, MaterialBatch, MaterialBatches};

verus! {

/// The render phase a batch is drawn in.
#[derive(Debug, Clone, Copy, PartialEq, Eq, Structural)]
pub enum RenderPhase {
    Opaque,
    AlphaMask,
    Transparent,
}

pub open spec fn phase_of(alpha: GpuAlphaMode) -> RenderPhase {
    match alpha {
        GpuAlphaMode::Opaque => RenderPhase::Opaque,
        GpuAlphaMode::Mask => RenderPhase::AlphaMask,
        GpuAlphaMode::Blend => RenderPhase::Transparent,
    }
}

/// What a batch is queued with.
#[derive(Debug, Clone, Copy, PartialEq, Eq, Structural)]
pub struct QueuedBatch {
    pub phase: RenderPhase,
    /// The material whose binding the batch draws with.
    pub material: u64,
    pub pipeline_key: u64,
    /// The pipeline renders into the transparent pass.
    pub transparent: bool,
}

/// Queues a batch: the phase follows its alpha mode, the material and
/// pipeline key come from its material batch. A batch without a material
/// batch is not queued.
pub fn queue_batch(material_batches: &MaterialBatches, key: &InstanceBatchKey) -> (r: Option<QueuedBatch>)
    ensures
        r is Some <==> has_material_batch(material_batches.material_batches@, key.material_key),
        r matches Some(q) ==> {
            &&& q.phase == phase_of(key.material_key.alpha_mode)
            &&& q.transparent == (key.material_key.alpha_mode == GpuAlphaMode::Blend)
            &&& exists|a: int|
                0 <= a < material_batches.material_batches@.len()
                    && material_batches.material_batches@[a] == (
                    key.material_key,
                    MaterialBatch { material: q.material, pipeline_key: q.pipeline_key },
                )
        },
{
    match material_batches.get(&key.material_key) {
        None => None,
        Some(batch) => {
            let phase = match key.material_key.alpha_mode {
                GpuAlphaMode::Opaque => RenderPhase::Opaque,
                GpuAlphaMode::Mask => RenderPhase::AlphaMask,
                GpuAlphaMode::Blend => RenderPhase::Transparent,
            };
            Some(
                QueuedBatch {
                    phase,
                    material: batch.material,
                    pipeline_key: batch.pipeline_key,
                    transparent: key.material_key.alpha_mode.is_blend(),
                },
            )
        },
    }
}

/// One draw call of a batch.
#[derive(Debug, Clone, Copy, PartialEq, Eq, Structural)]
pub enum DrawCommand {
    /// Draw with the parameters at `offset` bytes into the indirect buffer.
    Indirect { indexed: bool, offset: u64 },
    /// Draw vertices `vertex_start .. vertex_end` directly.
    Direct { vertex_start: u64, vertex_end: u64, instance_start: u64, instance_end: u64 },
    /// Draw indices `index_start .. index_end` directly.
    DirectIndexed {
        index_start: u64,
        index_end: u64,
        base_vertex: i32,
        instance_start: u64,
        instance_end: u64,
    },
}

/// The draw call for a record at `offset` bytes into its indirect buffer:
/// indirect where the device can start indirect draws at any instance, else
/// the same parameters issued directly.
pub open spec fn command_for(d: IndirectDraw, offset: int, indirect_first_instance: bool) -> DrawCommand {
    if indirect_first_instance {
        DrawCommand::Indirect { indexed: d is Indexed, offset: offset as u64 }
    } else {
        match d {
            IndirectDraw::NonIndexed(x) => DrawCommand::Direct {
                vertex_start: x.base_vertex as u64,
                vertex_end: (x.base_vertex + x.vertex_count) as u64,
                instance_start: x.base_instance as u64,
                instance_end: (x.base_instance + x.instance_count) as u64,
            },
            IndirectDraw::Indexed(x) => DrawCommand::DirectIndexed {
                index_start: x.base_index as u64,
                index_end: (x.base_index + x.vertex_count) as u64,
                base_vertex: x.vertex_offset,
                instance_start: x.base_instance as u64,
                instance_end: (x.base_instance + x.instance_count) as u64,
            },
        }
    }
}

/// Where record `j` starts in the bytes of an indirect buffer holding `draws`.
pub open spec fn record_offset(draws: Seq<IndirectDraw>, j: int) -> int {
    4 * draws_words(draws.take(j)).len() as int
}

/// One draw call per record, in order; record `j` of the indirect buffer
/// starts after the bytes of the records before it.
pub fn plan_draw_calls(draws: &Vec<IndirectDraw>, indirect_first_instance: bool) -> (r: Vec<DrawCommand>)
    requires
        draws@.len() <= u32::MAX,
    ensures
        r@.len() == draws@.len(),
        forall|j: int|
            0 <= j < draws@.len() ==> #[trigger] r@[j] == command_for(
                draws@[j],
                record_offset(draws@, j),
                indirect_first_instance,
            ),
{
    let mut out: Vec<DrawCommand> = Vec::new();
    let mut offset: u64 = 0;
    let mut j: usize = 0;
    while j < draws.len()
        invariant
            draws@.len() <= u32::MAX,
            j <= draws@.len(),
            out@.len() == j,
            offset == record_offset(draws@, j as int),
            offset <= 20 * j,
            forall|i: int|
                0 <= i < j ==> #[trigger] out@[i] == command_for(
                    draws@[i],
                    record_offset(draws@, i),
                    indirect_first_instance,
                ),
        decreases draws@.len() - j,
    {
        let d = draws[j];
        let command = if indirect_first_instance {
            DrawCommand::Indirect {
                indexed: match d {
                    IndirectDraw::Indexed(_) => true,
                    IndirectDraw::NonIndexed(_) => false,
                },
                offset,
            }
        } else {
            match d {
                IndirectDraw::NonIndexed(x) => DrawCommand::Direct {
                    vertex_start: x.base_vertex as u64,
                    vertex_end: x.base_vertex as u64 + x.vertex_count as u64,
                    instance_start: x.base_instance as u64,
                    instance_end: x.base_instance as u64 + x.instance_count as u64,
                },
                IndirectDraw::Indexed(x) => DrawCommand::DirectIndexed {
                    index_start: x.base_index as u64,
                    index_end: x.base_index as u64 + x.vertex_count as u64,
                    base_vertex: x.vertex_offset,
                    instance_start: x.base_instance as u64,
                    instance_end: x.base_instance as u64 + x.instance_count as u64,
                },
            }
        };
        out.push(command);
        let size: u64 = match d {
            IndirectDraw::Indexed(_) => 20,
            IndirectDraw::NonIndexed(_) => 16,
        };
        proof {
            let t = draws@.take(j + 1);
            assert(t.drop_last() =~= draws@.take(j as int));
            assert(t.last() == d);
            assert(draws_words(t) == draws_words(draws@.take(j as int)) + draw_words(d));
            assert(out@[j as int] == command_for(draws@[j as int], offset as int, indirect_first_instance));
        }
        offset = offset + size;
        j += 1;
    }
    out
}

} // verus!
