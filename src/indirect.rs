//! Draw records in the layout that indirect draw calls read from GPU memory.
use vstd::prelude::*;

verus! {

/// Parameters of one non-indexed draw, as read by an indirect draw call.
#[derive(Debug, Clone, Copy, PartialEq, Eq, Structural)]
pub struct DrawIndirect {
    /// The number of vertices to draw.
    pub vertex_count: u32,
    /// The number of instances to draw.
    pub instance_count: u32,
    /// The index of the first vertex to draw.
    pub base_vertex: u32,
    /// The instance ID of the first instance to draw.
    pub base_instance: u32,
}

/// Parameters of one indexed draw, as read by an indexed indirect draw call.
#[derive(Debug, Clone, Copy, PartialEq, Eq, Structural)]
pub struct DrawIndexedIndirect {
    /// The number of indices to draw.
    pub vertex_count: u32,
    /// The number of instances to draw.
    pub instance_count: u32,
    /// The base index within the index buffer.
    pub base_index: u32,
    /// The value added to the vertex index before indexing into the vertex buffer.
    pub vertex_offset: i32,
    /// The instance ID of the first instance to draw.
    pub base_instance: u32,
}

/// A draw record of either kind.
#[derive(Debug, Clone, Copy, PartialEq, Eq, Structural)]
pub enum IndirectDraw {
    Indexed(DrawIndexedIndirect),
    NonIndexed(DrawIndirect),
}

/// Where in the vertex or index buffer a draw starts.
#[derive(Debug, Clone, Copy, PartialEq, Eq, Structural)]
pub enum DrawOffsets {
    Indexed { base_index: u32, vertex_offset: i32 },
    NonIndexed { base_vertex: u32 },
}

/// Uniform access to the fields of a draw record.
pub trait DrawCall: Sized {
    spec fn spec_vertex_count(&self) -> u32;

    spec fn spec_instance_count(&self) -> u32;

    spec fn spec_base_instance(&self) -> u32;

    spec fn spec_offsets(&self) -> DrawOffsets;

    /// Whether the offsets are of the kind this record holds.
    spec fn accepts_offsets(&self, offsets: DrawOffsets) -> bool;

    fn vertex_count(&self) -> (r: u32)
        ensures
            r == self.spec_vertex_count(),
    ;

    fn instance_count(&self) -> (r: u32)
        ensures
            r == self.spec_instance_count(),
    ;

    fn base_instance(&self) -> (r: u32)
        ensures
            r == self.spec_base_instance(),
    ;

    fn offsets(&self) -> (r: DrawOffsets)
        ensures
            r == self.spec_offsets(),
            self.accepts_offsets(r),
    ;

    fn set_vertex_count(&mut self, vertex_count: u32)
        ensures
            final(self).spec_vertex_count() == vertex_count,
            final(self).spec_instance_count() == old(self).spec_instance_count(),
            final(self).spec_base_instance() == old(self).spec_base_instance(),
            final(self).spec_offsets() == old(self).spec_offsets(),
            forall|o: DrawOffsets| final(self).accepts_offsets(o) == old(self).accepts_offsets(o),
    ;

    fn set_instance_count(&mut self, instance_count: u32)
        ensures
            final(self).spec_vertex_count() == old(self).spec_vertex_count(),
            final(self).spec_instance_count() == instance_count,
            final(self).spec_base_instance() == old(self).spec_base_instance(),
            final(self).spec_offsets() == old(self).spec_offsets(),
            forall|o: DrawOffsets| final(self).accepts_offsets(o) == old(self).accepts_offsets(o),
    ;

    fn set_base_instance(&mut self, base_instance: u32)
        ensures
            final(self).spec_vertex_count() == old(self).spec_vertex_count(),
            final(self).spec_instance_count() == old(self).spec_instance_count(),
            final(self).spec_base_instance() == base_instance,
            final(self).spec_offsets() == old(self).spec_offsets(),
            forall|o: DrawOffsets| final(self).accepts_offsets(o) == old(self).accepts_offsets(o),
    ;

    /// Sets where the draw starts; the offsets must be of the record's own kind.
    fn set_offsets(&mut self, draw_offsets: DrawOffsets)
        requires
            old(self).accepts_offsets(draw_offsets),
        ensures
            final(self).spec_vertex_count() == old(self).spec_vertex_count(),
            final(self).spec_instance_count() == old(self).spec_instance_count(),
            final(self).spec_base_instance() == old(self).spec_base_instance(),
            final(self).spec_offsets() == draw_offsets,
            forall|o: DrawOffsets| final(self).accepts_offsets(o) == old(self).accepts_offsets(o),
    ;
}

impl DrawCall for DrawIndirect {
    open spec fn spec_vertex_count(&self) -> u32 {
        self.vertex_count
    }

    open spec fn spec_instance_count(&self) -> u32 {
        self.instance_count
    }

    open spec fn spec_base_instance(&self) -> u32 {
        self.base_instance
    }

    open spec fn spec_offsets(&self) -> DrawOffsets {
        DrawOffsets::NonIndexed { base_vertex: self.base_vertex }
    }

    open spec fn accepts_offsets(&self, offsets: DrawOffsets) -> bool {
        offsets is NonIndexed
    }

    fn vertex_count(&self) -> (r: u32) {
        self.vertex_count
    }

    fn instance_count(&self) -> (r: u32) {
        self.instance_count
    }

    fn base_instance(&self) -> (r: u32) {
        self.base_instance
    }

    fn offsets(&self) -> (r: DrawOffsets) {
        DrawOffsets::NonIndexed { base_vertex: self.base_vertex }
    }

    fn set_vertex_count(&mut self, vertex_count: u32) {
        self.vertex_count = vertex_count;
    }

    fn set_instance_count(&mut self, instance_count: u32) {
        self.instance_count = instance_count;
    }

    fn set_base_instance(&mut self, base_instance: u32) {
        self.base_instance = base_instance;
    }

    fn set_offsets(&mut self, draw_offsets: DrawOffsets) {
        match draw_offsets {
            DrawOffsets::NonIndexed { base_vertex } => self.base_vertex = base_vertex,
            DrawOffsets::Indexed { .. } => {},
        }
    }
}

impl DrawCall for DrawIndexedIndirect {
    open spec fn spec_vertex_count(&self) -> u32 {
        self.vertex_count
    }

    open spec fn spec_instance_count(&self) -> u32 {
        self.instance_count
    }

    open spec fn spec_base_instance(&self) -> u32 {
        self.base_instance
    }

    open spec fn spec_offsets(&self) -> DrawOffsets {
        DrawOffsets::Indexed { base_index: self.base_index, vertex_offset: self.vertex_offset }
    }

    open spec fn accepts_offsets(&self, offsets: DrawOffsets) -> bool {
        offsets is Indexed
    }

    fn vertex_count(&self) -> (r: u32) {
        self.vertex_count
    }

    fn instance_count(&self) -> (r: u32) {
        self.instance_count
    }

    fn base_instance(&self) -> (r: u32) {
        self.base_instance
    }

    fn offsets(&self) -> (r: DrawOffsets) {
        DrawOffsets::Indexed { base_index: self.base_index, vertex_offset: self.vertex_offset }
    }

    fn set_vertex_count(&mut self, vertex_count: u32) {
        self.vertex_count = vertex_count;
    }

    fn set_instance_count(&mut self, instance_count: u32) {
        self.instance_count = instance_count;
    }

    fn set_base_instance(&mut self, base_instance: u32) {
        self.base_instance = base_instance;
    }

    fn set_offsets(&mut self, draw_offsets: DrawOffsets) {
        match draw_offsets {
            DrawOffsets::Indexed { base_index, vertex_offset } => {
                self.base_index = base_index;
                self.vertex_offset = vertex_offset;
            },
            DrawOffsets::NonIndexed { .. } => {},
        }
    }
}

impl DrawCall for IndirectDraw {
    open spec fn spec_vertex_count(&self) -> u32 {
        match self {
            IndirectDraw::Indexed(d) => d.spec_vertex_count(),
            IndirectDraw::NonIndexed(d) => d.spec_vertex_count(),
        }
    }

    open spec fn spec_instance_count(&self) -> u32 {
        match self {
            IndirectDraw::Indexed(d) => d.spec_instance_count(),
            IndirectDraw::NonIndexed(d) => d.spec_instance_count(),
        }
    }

    open spec fn spec_base_instance(&self) -> u32 {
        match self {
            IndirectDraw::Indexed(d) => d.spec_base_instance(),
            IndirectDraw::NonIndexed(d) => d.spec_base_instance(),
        }
    }

    open spec fn spec_offsets(&self) -> DrawOffsets {
        match self {
            IndirectDraw::Indexed(d) => d.spec_offsets(),
            IndirectDraw::NonIndexed(d) => d.spec_offsets(),
        }
    }

    open spec fn accepts_offsets(&self, offsets: DrawOffsets) -> bool {
        match self {
            IndirectDraw::Indexed(d) => d.accepts_offsets(offsets),
            IndirectDraw::NonIndexed(d) => d.accepts_offsets(offsets),
        }
    }

    fn vertex_count(&self) -> (r: u32) {
        match self {
            IndirectDraw::Indexed(draw) => draw.vertex_count(),
            IndirectDraw::NonIndexed(draw) => draw.vertex_count(),
        }
    }

    fn instance_count(&self) -> (r: u32) {
        match self {
            IndirectDraw::Indexed(draw) => draw.instance_count(),
            IndirectDraw::NonIndexed(draw) => draw.instance_count(),
        }
    }

    fn base_instance(&self) -> (r: u32) {
        match self {
            IndirectDraw::Indexed(draw) => draw.base_instance(),
            IndirectDraw::NonIndexed(draw) => draw.base_instance(),
        }
    }

    fn offsets(&self) -> (r: DrawOffsets) {
        match self {
            IndirectDraw::Indexed(draw) => draw.offsets(),
            IndirectDraw::NonIndexed(draw) => draw.offsets(),
        }
    }

    fn set_vertex_count(&mut self, vertex_count: u32) {
        match self {
            IndirectDraw::Indexed(draw) => draw.set_vertex_count(vertex_count),
            IndirectDraw::NonIndexed(draw) => draw.set_vertex_count(vertex_count),
        }
    }

    fn set_instance_count(&mut self, instance_count: u32) {
        match self {
            IndirectDraw::Indexed(draw) => draw.set_instance_count(instance_count),
            IndirectDraw::NonIndexed(draw) => draw.set_instance_count(instance_count),
        }
    }

    fn set_base_instance(&mut self, base_instance: u32) {
        match self {
            IndirectDraw::Indexed(draw) => draw.set_base_instance(base_instance),
            IndirectDraw::NonIndexed(draw) => draw.set_base_instance(base_instance),
        }
    }

    fn set_offsets(&mut self, draw_offsets: DrawOffsets) {
        match self {
            IndirectDraw::Indexed(draw) => draw.set_offsets(draw_offsets),
            IndirectDraw::NonIndexed(draw) => draw.set_offsets(draw_offsets),
        }
    }
}

} // verus!

verus! {

/// The draw records of one mesh batch, all of one kind.
#[allow(inconsistent_fields)]
#[derive(Debug, Clone)]
pub enum GpuIndirectData {
    NonIndexed { buffer: Vec<DrawIndirect> },
    Indexed { buffer: Vec<DrawIndexedIndirect> },
}

impl GpuIndirectData {
    /// The records as draws of either kind, in order.
    pub open spec fn draws(&self) -> Seq<IndirectDraw> {
        match self {
            GpuIndirectData::NonIndexed { buffer } => buffer@.map_values(
                |d: DrawIndirect| IndirectDraw::NonIndexed(d),
            ),
            GpuIndirectData::Indexed { buffer } => buffer@.map_values(
                |d: DrawIndexedIndirect| IndirectDraw::Indexed(d),
            ),
        }
    }

    pub fn len(&self) -> (r: usize)
        ensures
            r == self.draws().len(),
    {
        match self {
            GpuIndirectData::NonIndexed { buffer } => buffer.len(),
            GpuIndirectData::Indexed { buffer } => buffer.len(),
        }
    }

    /// Copies the records out as draws of either kind.
    pub fn to_draws(&self) -> (r: Vec<IndirectDraw>)
        ensures
            r@ == self.draws(),
    {
        let mut out: Vec<IndirectDraw> = Vec::new();
        match self {
            GpuIndirectData::NonIndexed { buffer } => {
                let mut i: usize = 0;
                while i < buffer.len()
                    invariant
                        i <= buffer@.len(),
                        out@ == buffer@.take(i as int).map_values(
                            |d: DrawIndirect| IndirectDraw::NonIndexed(d),
                        ),
                    decreases buffer@.len() - i,
                {
                    out.push(IndirectDraw::NonIndexed(buffer[i]));
                    proof {
                        assert(buffer@.take(i + 1) =~= buffer@.take(i as int).push(buffer@[i as int]));
                    }
                    i += 1;
                }
                proof {
                    assert(buffer@.take(i as int) =~= buffer@);
                }
            },
            GpuIndirectData::Indexed { buffer } => {
                let mut i: usize = 0;
                while i < buffer.len()
                    invariant
                        i <= buffer@.len(),
                        out@ == buffer@.take(i as int).map_values(
                            |d: DrawIndexedIndirect| IndirectDraw::Indexed(d),
                        ),
                    decreases buffer@.len() - i,
                {
                    out.push(IndirectDraw::Indexed(buffer[i]));
                    proof {
                        assert(buffer@.take(i + 1) =~= buffer@.take(i as int).push(buffer@[i as int]));
                    }
                    i += 1;
                }
                proof {
                    assert(buffer@.take(i as int) =~= buffer@);
                }
            },
        }
        out
    }
}

} // verus!
