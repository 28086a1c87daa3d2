//! The mesh registry and the mesh batcher.
//!
//! Meshes that share a structural key are concatenated into one mesh batch:
//! their vertex bytes one after the other, their indices rebased by the number
//! of vertices that precede them, and one draw template per mesh.
use vstd::prelude::*;

use crate::bytes::{u16s_bytes, u16s_to_bytes, u32s_bytes, u32s_to_bytes, ByteOrder};
use crate::indirect::{DrawIndexedIndirect, DrawIndirect, GpuIndirectData};
use crate::frame::{drawable, lemma_built_batches_drawable};
use crate::table::{ids_ascending, IdTable};

verus! {

/// How vertices are assembled into primitives.
#[derive(Debug, Clone, Copy, PartialEq, Eq, Structural)]
pub enum PrimitiveTopology {
    PointList,
    LineList,
    LineStrip,
    TriangleList,
    TriangleStrip,
}

impl PrimitiveTopology {
    pub open spec fn spec_rank(self) -> u8 {
        match self {
            PrimitiveTopology::PointList => 0,
            PrimitiveTopology::LineList => 1,
            PrimitiveTopology::LineStrip => 2,
            PrimitiveTopology::TriangleList => 3,
            PrimitiveTopology::TriangleStrip => 4,
        }
    }

    /// The position of the topology in key order.
    pub fn rank(&self) -> (r: u8)
        ensures
            r == self.spec_rank(),
    {
        match self {
            PrimitiveTopology::PointList => 0,
            PrimitiveTopology::LineList => 1,
            PrimitiveTopology::LineStrip => 2,
            PrimitiveTopology::TriangleList => 3,
            PrimitiveTopology::TriangleStrip => 4,
        }
    }
}

/// The width of the entries of an index buffer.
#[derive(Debug, Clone, Copy, PartialEq, Eq, Structural)]
pub enum IndexFormat {
    Uint16,
    Uint32,
}

impl IndexFormat {
    /// The largest index that this format can hold.
    pub open spec fn max_index(self) -> int {
        match self {
            IndexFormat::Uint16 => 0xffff,
            IndexFormat::Uint32 => 0xffff_ffff,
        }
    }
}

/// The position of an optional index format in key order: none first.
pub open spec fn index_format_rank(f: Option<IndexFormat>) -> u8 {
    match f {
        None => 0,
        Some(IndexFormat::Uint16) => 1,
        Some(IndexFormat::Uint32) => 2,
    }
}

fn index_format_rank_of(f: &Option<IndexFormat>) -> (r: u8)
    ensures
        r == index_format_rank(*f),
{
    match f {
        None => 0,
        Some(IndexFormat::Uint16) => 1,
        Some(IndexFormat::Uint32) => 2,
    }
}

/// Unique key describing a set of mutually compatible meshes: meshes with equal
/// keys have the same byte layout and can share vertex and index buffers.
#[derive(Debug, Clone, Copy, PartialEq, Eq, Structural)]
pub struct InstancedMeshKey {
    pub primitive_topology: PrimitiveTopology,
    /// Identity of the vertex buffer layout.
    pub layout: u64,
    pub index_format: Option<IndexFormat>,
}

impl InstancedMeshKey {
    /// Key order: by topology, then index format, then layout.
    pub open spec fn spec_lt(self, other: Self) -> bool {
        let (t, u) = (self.primitive_topology.spec_rank(), other.primitive_topology.spec_rank());
        let (i, j) = (index_format_rank(self.index_format), index_format_rank(other.index_format));
        t < u || (t == u && (i < j || (i == j && self.layout < other.layout)))
    }

    pub fn lt(&self, other: &Self) -> (r: bool)
        ensures
            r == self.spec_lt(*other),
    {
        let t = self.primitive_topology.rank();
        let u = other.primitive_topology.rank();
        let i = index_format_rank_of(&self.index_format);
        let j = index_format_rank_of(&other.index_format);
        t < u || (t == u && (i < j || (i == j && self.layout < other.layout)))
    }

    pub fn same(&self, other: &Self) -> (r: bool)
        ensures
            r == (*self == *other),
    {
        !self.lt(other) && !other.lt(self)
    }
}

/// The indices of a mesh, 16 or 32 bits wide.
#[derive(Debug, Clone)]
pub enum Indices {
    U16(Vec<u16>),
    U32(Vec<u32>),
}

impl Indices {
    pub open spec fn values(&self) -> Seq<int> {
        match self {
            Indices::U16(v) => v@.map_values(|x: u16| x as int),
            Indices::U32(v) => v@.map_values(|x: u32| x as int),
        }
    }

    pub open spec fn format(&self) -> IndexFormat {
        match self {
            Indices::U16(_) => IndexFormat::Uint16,
            Indices::U32(_) => IndexFormat::Uint32,
        }
    }

    pub fn len(&self) -> (r: usize)
        ensures
            r == self.values().len(),
    {
        match self {
            Indices::U16(v) => v.len(),
            Indices::U32(v) => v.len(),
        }
    }

    /// The bytes of an index buffer holding these indices.
    pub fn to_bytes(&self) -> (r: Vec<u8>)
        ensures
            match self {
                Indices::U16(v) => r@ == u16s_bytes(v@, ByteOrder::Little) || r@ == u16s_bytes(
                    v@,
                    ByteOrder::Big,
                ),
                Indices::U32(v) => r@ == u32s_bytes(v@, ByteOrder::Little) || r@ == u32s_bytes(
                    v@,
                    ByteOrder::Big,
                ),
            },
    {
        match self {
            Indices::U16(v) => u16s_to_bytes(v.as_slice()),
            Indices::U32(v) => u32s_to_bytes(v.as_slice()),
        }
    }
}

/// How a mesh is drawn: through its indices, or straight through its vertices.
#[derive(Debug, Clone)]
pub enum GpuIndexBufferData {
    Indexed { indices: Indices, index_format: IndexFormat },
    NonIndexed { vertex_count: u32 },
}

/// Render-side representation of a mesh.
#[derive(Debug, Clone)]
pub struct GpuInstancedMesh {
    pub vertex_buffer_data: Vec<u8>,
    pub vertex_count: u32,
    pub index_buffer_data: GpuIndexBufferData,
    pub key: InstancedMeshKey,
}

impl GpuInstancedMesh {
    /// The key agrees with the index data: an index format exactly when the
    /// mesh is indexed, and then the format of its indices.
    pub open spec fn wf(&self) -> bool {
        match self.index_buffer_data {
            GpuIndexBufferData::Indexed { indices, index_format } => {
                &&& self.key.index_format == Some(index_format)
                &&& indices.format() == index_format
            },
            GpuIndexBufferData::NonIndexed { vertex_count } => {
                &&& self.key.index_format is None
                &&& vertex_count == self.vertex_count
            },
        }
    }

    /// Whether the key agrees with the index data.
    pub fn is_well_formed(&self) -> (r: bool)
        ensures
            r == self.wf(),
    {
        match &self.index_buffer_data {
            GpuIndexBufferData::Indexed { indices, index_format } => {
                let key_agrees = match (self.key.index_format, index_format) {
                    (Some(IndexFormat::Uint16), IndexFormat::Uint16) => true,
                    (Some(IndexFormat::Uint32), IndexFormat::Uint32) => true,
                    _ => false,
                };
                let indices_agree = match (indices, index_format) {
                    (Indices::U16(_), IndexFormat::Uint16) => true,
                    (Indices::U32(_), IndexFormat::Uint32) => true,
                    _ => false,
                };
                key_agrees && indices_agree
            },
            GpuIndexBufferData::NonIndexed { vertex_count } => {
                self.key.index_format.is_none() && *vertex_count == self.vertex_count
            },
        }
    }

    /// The index values, empty for a mesh without indices.
    pub open spec fn index_values(&self) -> Seq<int> {
        match self.index_buffer_data {
            GpuIndexBufferData::Indexed { indices, .. } => indices.values(),
            GpuIndexBufferData::NonIndexed { .. } => Seq::empty(),
        }
    }

    /// What one draw of the mesh covers: its indices, or else its vertices.
    pub open spec fn draw_count(&self) -> int {
        match self.index_buffer_data {
            GpuIndexBufferData::Indexed { indices, .. } => indices.values().len() as int,
            GpuIndexBufferData::NonIndexed { vertex_count } => vertex_count as int,
        }
    }
}

/// A mesh with its identity.
pub type MeshEntry = (u64, GpuInstancedMesh);

/// Render-side meshes, by identity.
#[derive(Debug, Clone)]
pub struct RenderMeshes {
    instanced_meshes: IdTable<GpuInstancedMesh>,
}

impl RenderMeshes {
    /// The meshes, in ascending order of identity.
    pub closed spec fn entries(&self) -> Seq<MeshEntry> {
        self.instanced_meshes.entries()
    }

    pub open spec fn wf(&self) -> bool {
        &&& ids_ascending(self.entries())
        &&& forall|i: int| 0 <= i < self.entries().len() ==> (#[trigger] self.entries()[i]).1.wf()
    }

    /// The meshes as a map from identity to mesh.
    pub closed spec fn view(&self) -> Map<u64, GpuInstancedMesh> {
        self.instanced_meshes@
    }

    pub fn new() -> (r: Self)
        ensures
            r.wf(),
            r.entries().len() == 0,
    {
        RenderMeshes { instanced_meshes: IdTable::new() }
    }

    pub fn len(&self) -> (r: usize)
        ensures
            r == self.entries().len(),
    {
        self.instanced_meshes.len()
    }

    /// The mesh at a position of the identity order.
    pub fn entry(&self, i: usize) -> (r: &MeshEntry)
        requires
            i < self.entries().len(),
        ensures
            *r == self.entries()[i as int],
    {
        self.instanced_meshes.entry(i)
    }

    /// The mesh with the given identity, if there is one.
    pub fn get(&self, id: u64) -> (r: Option<&GpuInstancedMesh>)
        requires
            self.wf(),
        ensures
            match r {
                Some(m) => self@.contains_key(id) && *m == self@[id],
                None => !self@.contains_key(id),
            },
    {
        self.instanced_meshes.get(id)
    }

    /// Adds a mesh, or replaces the one with the same identity.
    pub fn insert(&mut self, id: u64, mesh: GpuInstancedMesh)
        requires
            old(self).wf(),
            mesh.wf(),
        ensures
            final(self).wf(),
            final(self)@ == old(self)@.insert(id, mesh),
            forall|e: MeshEntry| #[trigger]
                final(self).entries().contains(e) ==> e == (id, mesh) || old(self).entries().contains(e),
    {
        self.instanced_meshes.insert(id, mesh);
        proof {
            assert forall|i: int| 0 <= i < self.entries().len() implies (#[trigger] self.entries()[i]).1.wf() by {
                assert(self.entries().contains(self.entries()[i]));
            }
        }
    }

    /// Registries that hold the same meshes under the same identities list
    /// them in the same order, whatever order they were added in.
    pub proof fn lemma_same_view_same_entries(&self, other: &Self)
        requires
            self.wf(),
            other.wf(),
            self@ == other@,
        ensures
            self.entries() == other.entries(),
    {
        self.instanced_meshes.lemma_same_view_same_entries(&other.instanced_meshes);
    }

    /// Drops the mesh with the given identity, if there is one.
    pub fn remove(&mut self, id: u64)
        requires
            old(self).wf(),
        ensures
            final(self).wf(),
            final(self)@ == old(self)@.remove(id),
            forall|e: MeshEntry| #[trigger]
                final(self).entries().contains(e) ==> old(self).entries().contains(e),
    {
        self.instanced_meshes.remove(id);
        proof {
            assert forall|i: int| 0 <= i < self.entries().len() implies (#[trigger] self.entries()[i]).1.wf() by {
                assert(self.entries().contains(self.entries()[i]));
            }
        }
    }
}

/// The meshes of `entries` whose key is `key`, in order.
pub open spec fn members(entries: Seq<MeshEntry>, key: InstancedMeshKey) -> Seq<MeshEntry>
    decreases entries.len(),
{
    if entries.len() == 0 {
        entries
    } else if entries.last().1.key == key {
        members(entries.drop_last(), key).push(entries.last())
    } else {
        members(entries.drop_last(), key)
    }
}

/// The number of vertices of the meshes.
pub open spec fn vertex_total(group: Seq<MeshEntry>) -> int
    decreases group.len(),
{
    if group.len() == 0 {
        0
    } else {
        vertex_total(group.drop_last()) + group.last().1.vertex_count
    }
}

/// The number of indices, or of vertices for meshes without indices, that
/// the draws of the meshes cover.
pub open spec fn draw_total(group: Seq<MeshEntry>) -> int
    decreases group.len(),
{
    if group.len() == 0 {
        0
    } else {
        draw_total(group.drop_last()) + group.last().1.draw_count()
    }
}

/// The vertex bytes of the meshes, one mesh after the other.
pub open spec fn concat_vertices(group: Seq<MeshEntry>) -> Seq<u8>
    decreases group.len(),
{
    if group.len() == 0 {
        Seq::empty()
    } else {
        concat_vertices(group.drop_last()) + group.last().1.vertex_buffer_data@
    }
}

/// Shifts every index by `base`.
pub open spec fn shifted(values: Seq<int>, base: int) -> Seq<int> {
    values.map_values(|v: int| v + base)
}

/// The indices of the meshes, one mesh after the other, each mesh's indices
/// shifted by the number of vertices of the meshes before it.
pub open spec fn rebased_indices(group: Seq<MeshEntry>) -> Seq<int>
    decreases group.len(),
{
    if group.len() == 0 {
        Seq::empty()
    } else {
        rebased_indices(group.drop_last()) + shifted(
            group.last().1.index_values(),
            vertex_total(group.drop_last()),
        )
    }
}

/// The meshes fit in one batch: their number, vertex and draw totals fit in 32 bits, and
/// every rebased index fits in the index format.
pub open spec fn batch_fits(group: Seq<MeshEntry>, format: Option<IndexFormat>) -> bool {
    &&& group.len() <= u32::MAX
    &&& vertex_total(group) <= u32::MAX
    &&& draw_total(group) <= u32::MAX
    &&& match format {
        Some(f) => forall|i: int|
            0 <= i < rebased_indices(group).len() ==> #[trigger] rebased_indices(group)[i]
                <= f.max_index(),
        None => true,
    }
}

/// The draw template of a mesh: what it covers, no instances and no offsets yet.
pub open spec fn indexed_template(m: GpuInstancedMesh) -> DrawIndexedIndirect {
    DrawIndexedIndirect {
        vertex_count: m.draw_count() as u32,
        instance_count: 0,
        base_index: 0,
        vertex_offset: 0,
        base_instance: 0,
    }
}

pub open spec fn plain_template(m: GpuInstancedMesh) -> DrawIndirect {
    DrawIndirect { vertex_count: m.draw_count() as u32, instance_count: 0, base_vertex: 0, base_instance: 0 }
}

/// Meshes that share a key, concatenated into shared buffers.
#[derive(Debug, Clone)]
pub struct MeshBatch {
    /// The meshes, in ascending order of identity.
    pub meshes: Vec<u64>,
    pub vertex_data: Vec<u8>,
    pub index_data: Option<Indices>,
    /// One draw template per mesh, in the order of `meshes`.
    pub indirect_data: GpuIndirectData,
}

impl MeshBatch {
    /// The two batches hold the same meshes, vertex bytes, index words and
    /// templates, so the same bytes in any one byte order.
    pub open spec fn same_content(&self, other: &MeshBatch) -> bool {
        &&& self.meshes@ == other.meshes@
        &&& self.vertex_data@ == other.vertex_data@
        &&& match (self.index_data, other.index_data) {
            (None, None) => true,
            (Some(Indices::U16(x)), Some(Indices::U16(y))) => x@ == y@,
            (Some(Indices::U32(x)), Some(Indices::U32(y))) => x@ == y@,
            _ => false,
        }
        &&& self.indirect_data.draws() == other.indirect_data.draws()
    }

    /// The batch is the concatenation of `group`, whose meshes have key `key`.
    pub open spec fn built_from(&self, group: Seq<MeshEntry>, key: InstancedMeshKey) -> bool {
        &&& self.meshes@ == group.map_values(|e: MeshEntry| e.0)
        &&& self.vertex_data@ == concat_vertices(group)
        &&& match key.index_format {
            None => {
                &&& self.index_data is None
                &&& self.indirect_data matches GpuIndirectData::NonIndexed { buffer }
                    && buffer@ == group.map_values(|e: MeshEntry| plain_template(e.1))
            },
            Some(f) => {
                &&& self.index_data matches Some(ix) && ix.format() == f && ix.values()
                    == rebased_indices(group)
                &&& self.indirect_data matches GpuIndirectData::Indexed { buffer }
                    && buffer@ == group.map_values(|e: MeshEntry| indexed_template(e.1))
            },
        }
    }
}

proof fn lemma_members_step(entries: Seq<MeshEntry>, key: InstancedMeshKey, i: int)
    requires
        0 <= i < entries.len(),
    ensures
        members(entries.take(i + 1), key) == if entries[i].1.key == key {
            members(entries.take(i), key).push(entries[i])
        } else {
            members(entries.take(i), key)
        },
{
    assert(entries.take(i + 1).drop_last() =~= entries.take(i));
}

/// A longer run of a group keeps the totals and rebased indices of a shorter one.
pub proof fn lemma_group_grows(group: Seq<MeshEntry>, n: int)
    requires
        0 <= n <= group.len(),
    ensures
        vertex_total(group.take(n)) <= vertex_total(group),
        draw_total(group.take(n)) <= draw_total(group),
        rebased_indices(group.take(n)).len() <= rebased_indices(group).len(),
        forall|k: int|
            0 <= k < rebased_indices(group.take(n)).len() ==> rebased_indices(group.take(n))[k]
                == rebased_indices(group)[k],
    decreases group.len(),
{
    if n < group.len() {
        assert(group.drop_last().take(n) =~= group.take(n));
        lemma_group_grows(group.drop_last(), n);
        assert(group.last().1.draw_count() >= 0);
    } else {
        assert(group.take(n) =~= group);
    }
}

proof fn lemma_members_all_keyed(entries: Seq<MeshEntry>, key: InstancedMeshKey)
    ensures
        forall|j: int| 0 <= j < members(entries, key).len() ==> (#[trigger] members(entries, key)[j]).1.key == key,
        forall|j: int| 0 <= j < members(entries, key).len() ==> entries.contains(#[trigger] members(entries, key)[j]),
    decreases entries.len(),
{
    if entries.len() > 0 {
        lemma_members_all_keyed(entries.drop_last(), key);
        let m = members(entries, key);
        let d = members(entries.drop_last(), key);
        assert forall|j: int| 0 <= j < m.len() implies entries.contains(#[trigger] m[j]) by {
            if j < d.len() {
                let w = choose|w: int| 0 <= w < entries.drop_last().len() && entries.drop_last()[w] == d[j];
                assert(entries[w] == m[j]);
            } else {
                assert(entries[entries.len() - 1] == m[j]);
            }
        }
    }
}

/// The meshes of a prefix of `entries` are a prefix of the meshes of `entries`.
proof fn lemma_members_prefix(entries: Seq<MeshEntry>, key: InstancedMeshKey, n: int)
    requires
        0 <= n <= entries.len(),
    ensures
        members(entries.take(n), key).len() <= members(entries, key).len(),
        members(entries, key).take(members(entries.take(n), key).len() as int) == members(
            entries.take(n),
            key,
        ),
    decreases entries.len(),
{
    if n == entries.len() {
        assert(entries.take(n) =~= entries);
        assert(members(entries, key).take(members(entries, key).len() as int) =~= members(
            entries,
            key,
        ));
    } else {
        assert(entries.drop_last().take(n) =~= entries.take(n));
        lemma_members_prefix(entries.drop_last(), key, n);
        let d = members(entries.drop_last(), key);
        let p = members(entries.take(n), key);
        if entries.last().1.key == key {
            assert(d.push(entries.last()).take(p.len() as int) =~= d.take(p.len() as int));
        }
    }
}

/// Appends `v`, each value shifted by `base`, while every shifted value fits in 16 bits.
fn append_rebased_u16(out: &mut Vec<u16>, v: &Vec<u16>, base: u64) -> (ok: bool)
    requires
        base <= 0xffff_ffff,
    ensures
        ok <==> forall|k: int| 0 <= k < v@.len() ==> v@[k] + base <= 0xffff,
        ok ==> final(out)@.len() == old(out)@.len() + v@.len(),
        ok ==> forall|j: int| 0 <= j < old(out)@.len() ==> final(out)@[j] == old(out)@[j],
        ok ==> forall|k: int|
            0 <= k < v@.len() ==> final(out)@[old(out)@.len() + k] == v@[k] + base,
{
    let ghost start = out@;
    let mut k: usize = 0;
    while k < v.len()
        invariant
            base <= 0xffff_ffff,
            k <= v@.len(),
            out@.len() == start.len() + k,
            forall|j: int| 0 <= j < start.len() ==> out@[j] == start[j],
            forall|j: int| 0 <= j < k ==> out@[start.len() + j] == v@[j] + base,
            forall|j: int| 0 <= j < k ==> v@[j] + base <= 0xffff,
        decreases v@.len() - k,
    {
        let r = base + v[k] as u64;
        if r > 0xffff {
            return false;
        }
        out.push(r as u16);
        k += 1;
    }
    true
}

/// Appends `v`, each value shifted by `base`, while every shifted value fits in 32 bits.
fn append_rebased_u32(out: &mut Vec<u32>, v: &Vec<u32>, base: u64) -> (ok: bool)
    requires
        base <= 0xffff_ffff,
    ensures
        ok <==> forall|k: int| 0 <= k < v@.len() ==> v@[k] + base <= 0xffff_ffff,
        ok ==> final(out)@.len() == old(out)@.len() + v@.len(),
        ok ==> forall|j: int| 0 <= j < old(out)@.len() ==> final(out)@[j] == old(out)@[j],
        ok ==> forall|k: int|
            0 <= k < v@.len() ==> final(out)@[old(out)@.len() + k] == v@[k] + base,
{
    let ghost start = out@;
    let mut k: usize = 0;
    while k < v.len()
        invariant
            base <= 0xffff_ffff,
            k <= v@.len(),
            out@.len() == start.len() + k,
            forall|j: int| 0 <= j < start.len() ==> out@[j] == start[j],
            forall|j: int| 0 <= j < k ==> out@[start.len() + j] == v@[j] + base,
            forall|j: int| 0 <= j < k ==> v@[j] + base <= 0xffff_ffff,
        decreases v@.len() - k,
    {
        let r = base + v[k] as u64;
        if r > 0xffff_ffff {
            return false;
        }
        out.push(r as u32);
        k += 1;
    }
    true
}

/// Appends all of `bytes` to `out`.
fn append_bytes(out: &mut Vec<u8>, bytes: &Vec<u8>)
    ensures
        final(out)@ == old(out)@ + bytes@,
{
    let ghost start = out@;
    let mut k: usize = 0;
    while k < bytes.len()
        invariant
            k <= bytes@.len(),
            out@ == start + bytes@.take(k as int),
        decreases bytes@.len() - k,
    {
        out.push(bytes[k]);
        proof {
            assert(bytes@.take(k + 1) =~= bytes@.take(k as int).push(bytes@[k as int]));
        }
        k += 1;
    }
    proof {
        assert(bytes@.take(k as int) =~= bytes@);
    }
}

/// The step of the batch loop: the group grows by one mesh.
proof fn lemma_group_push(g: Seq<MeshEntry>, e: MeshEntry)
    ensures
        ({
            let g2 = g.push(e);
            &&& g2.drop_last() == g
            &&& vertex_total(g2) == vertex_total(g) + e.1.vertex_count
            &&& draw_total(g2) == draw_total(g) + e.1.draw_count()
            &&& concat_vertices(g2) == concat_vertices(g) + e.1.vertex_buffer_data@
            &&& rebased_indices(g2) == rebased_indices(g) + shifted(
                e.1.index_values(),
                vertex_total(g),
            )
        }),
{
    assert(g.push(e).drop_last() =~= g);
}

/// A group whose prefix does not fit does not fit either.
proof fn lemma_prefix_unfit(whole: Seq<MeshEntry>, g: Seq<MeshEntry>, format: Option<IndexFormat>)
    requires
        g.len() <= whole.len(),
        whole.take(g.len() as int) == g,
        !batch_fits(g, format),
    ensures
        !batch_fits(whole, format),
{
    lemma_group_grows(whole, g.len() as int);
    if let Some(f) = format {
        if g.len() <= u32::MAX && vertex_total(g) <= u32::MAX && draw_total(g) <= u32::MAX {
            let i = choose|i: int|
                0 <= i < rebased_indices(g).len() && !(#[trigger] rebased_indices(g)[i]
                    <= f.max_index());
            assert(rebased_indices(whole)[i] == rebased_indices(g)[i]);
        }
    }
}

/// Concatenates the meshes of `meshes` whose key is `key`, or returns `None`
/// where their totals or rebased indices do not fit.
pub fn build_mesh_batch(meshes: &RenderMeshes, key: &InstancedMeshKey) -> (r: Option<MeshBatch>)
    requires
        meshes.wf(),
    ensures
        r is Some <==> batch_fits(members(meshes.entries(), *key), key.index_format),
        r matches Some(b) ==> b.built_from(members(meshes.entries(), *key), *key),
{
    let ghost entries = meshes.entries();
    let ghost whole = members(entries, *key);
    let mut ids: Vec<u64> = Vec::new();
    let mut vertex_data: Vec<u8> = Vec::new();
    let mut idx16: Vec<u16> = Vec::new();
    let mut idx32: Vec<u32> = Vec::new();
    let mut indexed: Vec<DrawIndexedIndirect> = Vec::new();
    let mut plain: Vec<DrawIndirect> = Vec::new();
    let mut base: u64 = 0;
    let mut drawn: u64 = 0;
    let mut i: usize = 0;
    proof {
        lemma_members_all_keyed(entries, *key);
        assert(entries.take(0) =~= Seq::<MeshEntry>::empty());
        assert(rebased_indices(Seq::<MeshEntry>::empty()) =~= Seq::<int>::empty());
        assert(idx16@.map_values(|x: u16| x as int) =~= Seq::<int>::empty());
        assert(idx32@.map_values(|x: u32| x as int) =~= Seq::<int>::empty());
    }
    while i < meshes.len()
        invariant
            meshes.wf(),
            entries == meshes.entries(),
            whole == members(entries, *key),
            i <= entries.len(),
            ({
                let g = members(entries.take(i as int), *key);
                &&& ids@ == g.map_values(|e: MeshEntry| e.0)
                &&& vertex_data@ == concat_vertices(g)
                &&& base == vertex_total(g)
                &&& drawn == draw_total(g)
                &&& batch_fits(g, key.index_format)
                &&& key.index_format == Some(IndexFormat::Uint16) ==> idx16@.map_values(
                    |x: u16| x as int,
                ) == rebased_indices(g)
                &&& key.index_format == Some(IndexFormat::Uint32) ==> idx32@.map_values(
                    |x: u32| x as int,
                ) == rebased_indices(g)
                &&& indexed@ == g.map_values(|e: MeshEntry| indexed_template(e.1))
                &&& plain@ == g.map_values(|e: MeshEntry| plain_template(e.1))
            }),
        decreases entries.len() - i,
    {
        let entry = meshes.entry(i);
        let ghost g = members(entries.take(i as int), *key);
        proof {
            lemma_members_step(entries, *key, i as int);
            lemma_members_prefix(entries, *key, i + 1);
        }
        if entry.1.key.same(key) {
            let ghost g2 = g.push(entries[i as int]);
            let mesh = &entry.1;
            proof {
                assert(entries[i as int].1.wf());
                lemma_group_push(g, entries[i as int]);
            }
            let new_base = base + mesh.vertex_count as u64;
            let count: u64 = match &mesh.index_buffer_data {
                GpuIndexBufferData::Indexed { indices, .. } => indices.len() as u64,
                GpuIndexBufferData::NonIndexed { vertex_count } => *vertex_count as u64,
            };
            if ids.len() >= 0xffff_ffff || new_base > 0xffff_ffff || count > 0xffff_ffff - drawn {
                proof {
                    lemma_prefix_unfit(whole, g2, key.index_format);
                }
                return None;
            }
            let ghost old16 = idx16@;
            let ghost old32 = idx32@;
            let ok = match &mesh.index_buffer_data {
                GpuIndexBufferData::Indexed { indices, .. } => match indices {
                    Indices::U16(v) => append_rebased_u16(&mut idx16, v, base),
                    Indices::U32(v) => append_rebased_u32(&mut idx32, v, base),
                },
                GpuIndexBufferData::NonIndexed { .. } => true,
            };
            let ghost added = shifted(mesh.index_values(), base as int);
            if !ok {
                proof {
                    let f = key.index_format.unwrap();
                    assert(exists|k: int| 0 <= k < added.len() && !(added[k] <= f.max_index())) by {
                        match mesh.index_buffer_data {
                            GpuIndexBufferData::Indexed { indices, .. } => match indices {
                                Indices::U16(v) => {
                                    let k = choose|k: int| 0 <= k < v@.len() && !(v@[k] + base <= 0xffff);
                                    assert(added[k] == v@[k] + base);
                                },
                                Indices::U32(v) => {
                                    let k = choose|k: int| 0 <= k < v@.len() && !(v@[k] + base <= 0xffff_ffff);
                                    assert(added[k] == v@[k] + base);
                                },
                            },
                            GpuIndexBufferData::NonIndexed { .. } => {},
                        }
                    }
                    let k = choose|k: int| 0 <= k < added.len() && !(added[k] <= f.max_index());
                    let rb = rebased_indices(g2);
                    assert(rb[rebased_indices(g).len() + k] == added[k]);
                    assert(!batch_fits(g2, key.index_format));
                    lemma_prefix_unfit(whole, g2, key.index_format);
                }
                return None;
            }
            proof {
                match key.index_format {
                    Some(IndexFormat::Uint16) => {
                        assert(idx16@.map_values(|x: u16| x as int) =~= rebased_indices(g2));
                    },
                    Some(IndexFormat::Uint32) => {
                        assert(idx32@.map_values(|x: u32| x as int) =~= rebased_indices(g2));
                    },
                    None => {},
                }
            }
            ids.push(entry.0);
            append_bytes(&mut vertex_data, &mesh.vertex_buffer_data);
            indexed.push(
                DrawIndexedIndirect {
                    vertex_count: count as u32,
                    instance_count: 0,
                    base_index: 0,
                    vertex_offset: 0,
                    base_instance: 0,
                },
            );
            plain.push(
                DrawIndirect {
                    vertex_count: count as u32,
                    instance_count: 0,
                    base_vertex: 0,
                    base_instance: 0,
                },
            );
            base = new_base;
            drawn = drawn + count;
            proof {
                assert(ids@ =~= g2.map_values(|e: MeshEntry| e.0));
                assert(indexed@ =~= g2.map_values(|e: MeshEntry| indexed_template(e.1)));
                assert(plain@ =~= g2.map_values(|e: MeshEntry| plain_template(e.1)));
                assert(batch_fits(g2, key.index_format));
            }
        }
        i += 1;
    }
    proof {
        assert(entries.take(i as int) =~= entries);
    }
    let (index_data, indirect_data) = match key.index_format {
        None => (None, GpuIndirectData::NonIndexed { buffer: plain }),
        Some(IndexFormat::Uint16) => (Some(Indices::U16(idx16)), GpuIndirectData::Indexed { buffer: indexed }),
        Some(IndexFormat::Uint32) => (Some(Indices::U32(idx32)), GpuIndirectData::Indexed { buffer: indexed }),
    };
    Some(MeshBatch { meshes: ids, vertex_data, index_data, indirect_data })
}

/// Some mesh of `entries` has key `key`.
pub open spec fn uses_key(entries: Seq<MeshEntry>, key: InstancedMeshKey) -> bool {
    exists|i: int| 0 <= i < entries.len() && entries[i].1.key == key
}

pub open spec fn keys_ascending(keys: Seq<InstancedMeshKey>) -> bool {
    forall|i: int, j: int| 0 <= i < j < keys.len() ==> keys[i].spec_lt(keys[j])
}

/// Adds `key` to an ascending list of keys, unless it is there already.
fn insert_key(keys: &mut Vec<InstancedMeshKey>, key: InstancedMeshKey)
    requires
        keys_ascending(old(keys)@),
    ensures
        keys_ascending(final(keys)@),
        forall|k: InstancedMeshKey| #[trigger]
            final(keys)@.contains(k) <==> old(keys)@.contains(k) || k == key,
{
    let ghost start = keys@;
    let mut i: usize = 0;
    while i < keys.len() && keys[i].lt(&key)
        invariant
            keys@ == start,
            keys_ascending(start),
            i <= start.len(),
            forall|j: int| 0 <= j < i ==> start[j].spec_lt(key),
        decreases start.len() - i,
    {
        i += 1;
    }
    if i < keys.len() && keys[i].same(&key) {
        return;
    }
    keys.insert(i, key);
    proof {
        let news = keys@;
        assert(news == start.insert(i as int, key));
        assert forall|a: int, b: int| 0 <= a < b < news.len() implies news[a].spec_lt(news[b]) by {
            if b == i {
            } else if a == i {
                assert(news[b] == start[b - 1]);
                assert(start[i as int] == start[b - 1] || start[i as int].spec_lt(start[b - 1]));
            } else {
            }
        }
        assert forall|k: InstancedMeshKey| #[trigger]
            news.contains(k) <==> start.contains(k) || k == key by {
            if news.contains(k) {
                let j = choose|j: int| 0 <= j < news.len() && news[j] == k;
                if j < i {
                    assert(start[j] == k);
                } else if j > i {
                    assert(start[j - 1] == k);
                }
            }
            if start.contains(k) {
                let j = choose|j: int| 0 <= j < start.len() && start[j] == k;
                if j < i {
                    assert(news[j] == k);
                } else {
                    assert(news[j + 1] == k);
                }
            }
            if k == key {
                assert(news[i as int] == k);
            }
        }
    }
}

/// The keys that the meshes use, each once, in ascending order.
fn used_keys(meshes: &RenderMeshes) -> (r: Vec<InstancedMeshKey>)
    requires
        meshes.wf(),
    ensures
        keys_ascending(r@),
        forall|k: InstancedMeshKey| #[trigger] r@.contains(k) <==> uses_key(meshes.entries(), k),
{
    let ghost entries = meshes.entries();
    let mut keys: Vec<InstancedMeshKey> = Vec::new();
    let mut i: usize = 0;
    while i < meshes.len()
        invariant
            entries == meshes.entries(),
            i <= entries.len(),
            keys_ascending(keys@),
            forall|k: InstancedMeshKey| #[trigger]
                keys@.contains(k) <==> uses_key(entries.take(i as int), k),
        decreases entries.len() - i,
    {
        let key = meshes.entry(i).1.key;
        insert_key(&mut keys, key);
        proof {
            let t = entries.take(i + 1);
            assert forall|k: InstancedMeshKey| #[trigger]
                keys@.contains(k) <==> uses_key(t, k) by {
                if uses_key(t, k) && k != key {
                    let j = choose|j: int| 0 <= j < t.len() && t[j].1.key == k;
                    assert(entries.take(i as int)[j].1.key == k);
                }
                if uses_key(entries.take(i as int), k) {
                    let j = choose|j: int|
                        0 <= j < entries.take(i as int).len() && entries.take(i as int)[j].1.key == k;
                    assert(t[j].1.key == k);
                }
                if k == key {
                    assert(t[i as int].1.key == k);
                }
            }
        }
        i += 1;
    }
    proof {
        assert(entries.take(i as int) =~= entries);
    }
    keys
}

/// Some batch of `b` has key `k`.
pub open spec fn has_batch(b: Seq<(InstancedMeshKey, MeshBatch)>, k: InstancedMeshKey) -> bool {
    exists|a: int| 0 <= a < b.len() && b[a].0 == k
}

/// All mesh batches, by key.
#[derive(Debug, Clone)]
pub struct MeshBatches {
    pub mesh_batches: Vec<(InstancedMeshKey, MeshBatch)>,
}

impl MeshBatches {
    /// The batches are those of the meshes of `entries`: one for each key in
    /// use whose meshes fit together, in ascending key order.
    pub open spec fn built_from(&self, entries: Seq<MeshEntry>) -> bool {
        let b = self.mesh_batches@;
        &&& forall|i: int, j: int| 0 <= i < j < b.len() ==> b[i].0.spec_lt(b[j].0)
        &&& forall|k: InstancedMeshKey| #[trigger]
            has_batch(b, k) <==> (uses_key(entries, k) && batch_fits(
                members(entries, k),
                k.index_format,
            ))
        &&& forall|i: int|
            0 <= i < b.len() ==> (#[trigger] b[i]).1.built_from(members(entries, b[i].0), b[i].0)
    }

    /// An empty set of batches.
    pub fn new() -> (r: Self)
        ensures
            r.mesh_batches@.len() == 0,
    {
        MeshBatches { mesh_batches: Vec::new() }
    }
}

/// Groups the meshes by key and concatenates each group into a mesh batch.
pub fn build_mesh_batches(meshes: &RenderMeshes) -> (r: MeshBatches)
    requires
        meshes.wf(),
    ensures
        r.built_from(meshes.entries()),
        drawable(r.mesh_batches@),
{
    let ghost entries = meshes.entries();
    let keys = used_keys(meshes);
    let mut out: Vec<(InstancedMeshKey, MeshBatch)> = Vec::new();
    let mut i: usize = 0;
    while i < keys.len()
        invariant
            meshes.wf(),
            entries == meshes.entries(),
            keys_ascending(keys@),
            forall|k: InstancedMeshKey| #[trigger] keys@.contains(k) <==> uses_key(entries, k),
            i <= keys@.len(),
            forall|a: int|
                0 <= a < out@.len() ==> keys@.take(i as int).contains(#[trigger] out@[a].0),
            forall|a: int, b: int| 0 <= a < b < out@.len() ==> out@[a].0.spec_lt(out@[b].0),
            forall|k: InstancedMeshKey| #[trigger]
                has_batch(out@, k) <==> (keys@.take(i as int).contains(k) && batch_fits(
                    members(entries, k),
                    k.index_format,
                )),
            forall|a: int|
                0 <= a < out@.len() ==> (#[trigger] out@[a]).1.built_from(
                    members(entries, out@[a].0),
                    out@[a].0,
                ),
        decreases keys@.len() - i,
    {
        let key = keys[i];
        let ghost before = out@;
        let ghost taken = keys@.take(i as int);
        let ghost taken2 = keys@.take(i + 1);
        proof {
            assert(taken2 == taken.push(key));
            assert forall|a: int| 0 <= a < before.len() implies before[a].0.spec_lt(key) by {
                let w = choose|w: int| 0 <= w < taken.len() && taken[w] == before[a].0;
                assert(keys@[w].spec_lt(keys@[i as int]));
            }
        }
        match build_mesh_batch(meshes, &key) {
            Some(batch) => {
                out.push((key, batch));
            },
            None => {},
        }
        proof {
            assert forall|k: InstancedMeshKey| #[trigger]
                has_batch(out@, k) <==> (taken2.contains(k) && batch_fits(
                    members(entries, k),
                    k.index_format,
                )) by {
                if has_batch(out@, k) {
                    let a = choose|a: int| 0 <= a < out@.len() && out@[a].0 == k;
                    if a < before.len() {
                        assert(has_batch(before, k));
                    } else {
                        assert(taken2[i as int] == k);
                    }
                }
                if taken2.contains(k) && batch_fits(members(entries, k), k.index_format) {
                    if taken.contains(k) {
                        assert(has_batch(before, k));
                        let a = choose|a: int| 0 <= a < before.len() && before[a].0 == k;
                        assert(out@[a].0 == k);
                    } else {
                        assert(out@[before.len() as int].0 == k);
                    }
                }
            }
            assert forall|a: int| 0 <= a < out@.len() implies taken2.contains(#[trigger] out@[a].0) by {
                if a < before.len() {
                    assert(taken.contains(before[a].0));
                } else {
                    assert(taken2[i as int] == out@[a].0);
                }
            }
        }
        i += 1;
    }
    proof {
        assert(keys@.take(i as int) =~= keys@);
    }
    let r = MeshBatches { mesh_batches: out };
    proof {
        lemma_built_batches_drawable(&r, entries);
    }
    r
}

/// The mesh registry together with its mesh batches, which are rebuilt only
/// after the registry has changed.
#[derive(Debug, Clone)]
pub struct MeshBatcher {
    meshes: RenderMeshes,
    batches: MeshBatches,
    changed: bool,
}

impl MeshBatcher {
    pub closed spec fn spec_meshes(&self) -> RenderMeshes {
        self.meshes
    }

    pub closed spec fn spec_batches(&self) -> MeshBatches {
        self.batches
    }

    /// The registry changed since the batches were last built.
    pub closed spec fn pending(&self) -> bool {
        self.changed
    }

    /// The batches are those of the registry as it stands.
    pub open spec fn up_to_date(&self) -> bool {
        self.spec_batches().built_from(self.spec_meshes().entries())
    }

    /// The registry is well formed, and the batches are up to date unless a
    /// change awaits a refresh.
    pub closed spec fn wf(&self) -> bool {
        &&& self.meshes.wf()
        &&& (self.changed || self.batches.built_from(self.meshes.entries()))
    }

    pub fn new() -> (r: Self)
        ensures
            r.wf(),
            r.spec_meshes().entries().len() == 0,
            r.up_to_date(),
            !r.pending(),
    {
        let r = MeshBatcher { meshes: RenderMeshes::new(), batches: MeshBatches::new(), changed: false };
        proof {
            assert forall|k: InstancedMeshKey| #[trigger] has_batch(r.batches.mesh_batches@, k) <==> (
            uses_key(r.meshes.entries(), k) && batch_fits(members(r.meshes.entries(), k), k.index_format)) by {}
        }
        r
    }

    pub fn meshes(&self) -> (r: &RenderMeshes)
        requires
            self.wf(),
        ensures
            *r == self.spec_meshes(),
            r.wf(),
    {
        &self.meshes
    }

    /// The batches, which are those of the registry when no change is pending.
    pub fn batches(&self) -> (r: &MeshBatches)
        requires
            self.wf(),
        ensures
            *r == self.spec_batches(),
            !self.pending() ==> r.built_from(self.spec_meshes().entries()),
    {
        &self.batches
    }

    /// Adds or replaces a mesh; the batches wait for the next refresh.
    pub fn insert(&mut self, id: u64, mesh: GpuInstancedMesh)
        requires
            old(self).wf(),
            mesh.wf(),
        ensures
            final(self).wf(),
            final(self).spec_meshes()@ == old(self).spec_meshes()@.insert(id, mesh),
            final(self).pending(),
    {
        self.meshes.insert(id, mesh);
        self.changed = true;
    }

    /// Drops a mesh; the batches wait for the next refresh.
    pub fn remove(&mut self, id: u64)
        requires
            old(self).wf(),
        ensures
            final(self).wf(),
            final(self).spec_meshes()@ == old(self).spec_meshes()@.remove(id),
            final(self).pending(),
    {
        self.meshes.remove(id);
        self.changed = true;
    }

    /// Rebuilds the batches if the registry changed since the last refresh,
    /// and leaves them as they are otherwise.
    pub fn refresh(&mut self)
        requires
            old(self).wf(),
        ensures
            final(self).wf(),
            final(self).spec_meshes() == old(self).spec_meshes(),
            final(self).up_to_date(),
            !final(self).pending(),
            !old(self).pending() ==> final(self).spec_batches() == old(self).spec_batches(),
    {
        if self.changed {
            self.batches = build_mesh_batches(&self.meshes);
            self.changed = false;
        }
    }
}

} // verus!
