//! Prepared materials, the retry queue of materials that are not ready yet,
//! and material batches.
use vstd::prelude::*;

use crate::table::IdTable;

verus! {

/// Key-friendly class of a material's alpha mode.
#[derive(Debug, Clone, Copy, PartialEq, Eq, Structural, Hash)]
pub enum GpuAlphaMode {
    Opaque,
    Mask,
    Blend,
}

impl GpuAlphaMode {
    pub open spec fn spec_rank(self) -> u8 {
        match self {
            GpuAlphaMode::Opaque => 0,
            GpuAlphaMode::Mask => 1,
            GpuAlphaMode::Blend => 2,
        }
    }

    /// The position of the mode in key order.
    pub fn rank(&self) -> (r: u8)
        ensures
            r == self.spec_rank(),
    {
        match self {
            GpuAlphaMode::Opaque => 0,
            GpuAlphaMode::Mask => 1,
            GpuAlphaMode::Blend => 2,
        }
    }

    pub fn is_blend(&self) -> (r: bool)
        ensures
            r == (*self == GpuAlphaMode::Blend),
    {
        match self {
            GpuAlphaMode::Blend => true,
            _ => false,
        }
    }
}

/// Unique key describing a set of mutually compatible materials.
#[derive(Debug, Clone, Copy, PartialEq, Eq, Structural, Hash)]
pub struct InstancedMaterialBatchKey {
    pub alpha_mode: GpuAlphaMode,
    /// Material-specific discriminator (cull mode, bound texture, ...).
    pub key: u64,
}

impl InstancedMaterialBatchKey {
    /// Key order: by alpha mode, then discriminator.
    pub open spec fn spec_lt(self, other: Self) -> bool {
        let (a, b) = (self.alpha_mode.spec_rank(), other.alpha_mode.spec_rank());
        a < b || (a == b && self.key < other.key)
    }

    pub fn lt(&self, other: &Self) -> (r: bool)
        ensures
            r == self.spec_lt(*other),
    {
        let a = self.alpha_mode.rank();
        let b = other.alpha_mode.rank();
        a < b || (a == b && self.key < other.key)
    }

    pub fn same(&self, other: &Self) -> (r: bool)
        ensures
            r == (*self == *other),
    {
        !self.lt(other) && !other.lt(self)
    }
}

/// What the batcher needs of a material once its GPU binding is prepared.
#[derive(Debug, Clone, Copy, PartialEq, Eq, Structural)]
pub struct PreparedMaterial {
    /// Selects the pipeline specialization.
    pub pipeline_key: u64,
    /// Material-specific batch discriminator.
    pub batch_key: u64,
    pub alpha_mode: GpuAlphaMode,
}

impl PreparedMaterial {
    pub open spec fn spec_material_key(self) -> InstancedMaterialBatchKey {
        InstancedMaterialBatchKey { alpha_mode: self.alpha_mode, key: self.batch_key }
    }

    pub fn material_key(&self) -> (r: InstancedMaterialBatchKey)
        ensures
            r == self.spec_material_key(),
    {
        InstancedMaterialBatchKey { alpha_mode: self.alpha_mode, key: self.batch_key }
    }
}

/// Materials whose preparation succeeded, and those to retry on a later frame.
#[derive(Debug, Clone)]
pub struct RenderMaterials {
    prepared: IdTable<PreparedMaterial>,
    pending: IdTable<()>,
}

impl RenderMaterials {
    /// The prepared materials, in ascending order of identity.
    pub closed spec fn entries(&self) -> Seq<(u64, PreparedMaterial)> {
        self.prepared.entries()
    }

    /// The prepared materials by identity.
    pub closed spec fn view(&self) -> Map<u64, PreparedMaterial> {
        self.prepared@
    }

    /// The materials waiting for another attempt at preparation.
    pub closed spec fn pending(&self) -> Set<u64> {
        self.pending@.dom()
    }

    pub closed spec fn wf(&self) -> bool {
        self.prepared.wf() && self.pending.wf()
    }

    pub fn new() -> (r: Self)
        ensures
            r.wf(),
            r@ == Map::<u64, PreparedMaterial>::empty(),
            r.entries().len() == 0,
            r.pending() == Set::<u64>::empty(),
    {
        let r = RenderMaterials { prepared: IdTable::new(), pending: IdTable::new() };
        proof {
            assert(r@ =~= Map::<u64, PreparedMaterial>::empty());
            assert(r.pending() =~= Set::<u64>::empty());
        }
        r
    }

    pub fn len(&self) -> (r: usize)
        ensures
            r == self.entries().len(),
    {
        self.prepared.len()
    }

    /// The prepared material at a position of the identity order.
    pub fn entry(&self, i: usize) -> (r: &(u64, PreparedMaterial))
        requires
            i < self.entries().len(),
        ensures
            *r == self.entries()[i as int],
    {
        self.prepared.entry(i)
    }

    /// The prepared material with the given identity, if it is ready.
    pub fn get(&self, id: u64) -> (r: Option<&PreparedMaterial>)
        requires
            self.wf(),
        ensures
            match r {
                Some(m) => self@.contains_key(id) && *m == self@[id],
                None => !self@.contains_key(id),
            },
    {
        self.prepared.get(id)
    }

    /// Records the outcome of preparing a material: a prepared material becomes
    /// ready, one that is not ready yet leaves the ready set and waits for a retry.
    pub fn record(&mut self, id: u64, outcome: Option<PreparedMaterial>)
        requires
            old(self).wf(),
        ensures
            final(self).wf(),
            match outcome {
                Some(m) => {
                    &&& final(self)@ == old(self)@.insert(id, m)
                    &&& final(self).pending() == old(self).pending().remove(id)
                },
                None => {
                    &&& final(self)@ == old(self)@.remove(id)
                    &&& final(self).pending() == old(self).pending().insert(id)
                },
            },
    {
        match outcome {
            Some(m) => {
                self.prepared.insert(id, m);
                self.pending.remove(id);
            },
            None => {
                self.prepared.remove(id);
                self.pending.insert(id, ());
            },
        }
        proof {
            assert(self.pending() =~= match outcome {
                Some(_) => old(self).pending().remove(id),
                None => old(self).pending().insert(id),
            });
        }
    }

    /// Forgets a material that no longer exists, ready or waiting.
    pub fn remove(&mut self, id: u64)
        requires
            old(self).wf(),
        ensures
            final(self).wf(),
            final(self)@ == old(self)@.remove(id),
            final(self).pending() == old(self).pending().remove(id),
    {
        self.prepared.remove(id);
        self.pending.remove(id);
        proof {
            assert(self.pending() =~= old(self).pending().remove(id));
        }
    }

    /// Hands out the materials to retry, in ascending order, and empties the queue.
    pub fn take_pending(&mut self) -> (r: Vec<u64>)
        requires
            old(self).wf(),
        ensures
            final(self).wf(),
            final(self)@ == old(self)@,
            final(self).entries() == old(self).entries(),
            final(self).pending() == Set::<u64>::empty(),
            forall|i: int, j: int| 0 <= i < j < r@.len() ==> r@[i] < r@[j],
            forall|id: u64| #[trigger] r@.contains(id) <==> old(self).pending().contains(id),
    {
        let mut out: Vec<u64> = Vec::new();
        let mut i: usize = 0;
        let ghost p = self.pending.entries();
        while i < self.pending.len()
            invariant
                self.pending.wf(),
                p == self.pending.entries(),
                i <= p.len(),
                out@ == p.take(i as int).map_values(|e: (u64, ())| e.0),
            decreases p.len() - i,
        {
            out.push(self.pending.entry(i).0);
            proof {
                assert(p.take(i + 1).map_values(|e: (u64, ())| e.0) =~= p.take(i as int).map_values(
                    |e: (u64, ())| e.0,
                ).push(p[i as int].0));
            }
            i += 1;
        }
        proof {
            assert(p.take(i as int) =~= p);
            assert forall|id: u64| #[trigger] out@.contains(id) <==> old(self).pending().contains(id) by {
                if out@.contains(id) {
                    let j = choose|j: int| 0 <= j < out@.len() && out@[j] == id;
                    self.pending.lemma_view_at(j);
                }
                if old(self).pending().contains(id) {
                    let j = choose|j: int| 0 <= j < p.len() && p[j].0 == id;
                    assert(out@[j] == id);
                }
            }
        }
        self.pending = IdTable::new();
        proof {
            assert(self.pending() =~= Set::<u64>::empty());
        }
        out
    }
}

/// The material that stands for a material batch key.
#[derive(Debug, Clone, Copy, PartialEq, Eq, Structural)]
pub struct MaterialBatch {
    pub material: u64,
    pub pipeline_key: u64,
}

/// Some prepared material has key `k`; `first` is the position of the first one.
pub open spec fn first_with_key(
    entries: Seq<(u64, PreparedMaterial)>,
    k: InstancedMaterialBatchKey,
    first: int,
) -> bool {
    &&& 0 <= first < entries.len()
    &&& entries[first].1.spec_material_key() == k
    &&& forall|j: int| 0 <= j < first ==> entries[j].1.spec_material_key() != k
}

/// `batch` stands for the first prepared material with key `k`.
pub open spec fn represents(
    entries: Seq<(u64, PreparedMaterial)>,
    k: InstancedMaterialBatchKey,
    batch: MaterialBatch,
) -> bool {
    exists|f: int|
        first_with_key(entries, k, f) && batch == (MaterialBatch {
            material: entries[f].0,
            pipeline_key: entries[f].1.pipeline_key,
        })
}

pub open spec fn has_material_batch(
    b: Seq<(InstancedMaterialBatchKey, MaterialBatch)>,
    k: InstancedMaterialBatchKey,
) -> bool {
    exists|a: int| 0 <= a < b.len() && b[a].0 == k
}

/// Material batches, by key.
#[derive(Debug, Clone)]
pub struct MaterialBatches {
    pub material_batches: Vec<(InstancedMaterialBatchKey, MaterialBatch)>,
}

impl MaterialBatches {
    /// One batch per key of a prepared material, in ascending key order, each
    /// standing for the prepared material of least identity with that key.
    pub open spec fn built_from(&self, entries: Seq<(u64, PreparedMaterial)>) -> bool {
        let b = self.material_batches@;
        &&& forall|i: int, j: int| 0 <= i < j < b.len() ==> b[i].0.spec_lt(b[j].0)
        &&& forall|k: InstancedMaterialBatchKey| #[trigger]
            has_material_batch(b, k) <==> exists|f: int| first_with_key(entries, k, f)
        &&& forall|i: int| 0 <= i < b.len() ==> represents(entries, (#[trigger] b[i]).0, b[i].1)
    }

    /// The batch with the given key, if there is one.
    pub fn get(&self, key: &InstancedMaterialBatchKey) -> (r: Option<MaterialBatch>)
        ensures
            match r {
                Some(b) => exists|a: int|
                    0 <= a < self.material_batches@.len() && self.material_batches@[a] == (
                    *key,
                    b,
                ),
                None => !has_material_batch(self.material_batches@, *key),
            },
    {
        let mut i: usize = 0;
        while i < self.material_batches.len()
            invariant
                i <= self.material_batches@.len(),
                forall|a: int| 0 <= a < i ==> self.material_batches@[a].0 != *key,
            decreases self.material_batches@.len() - i,
        {
            if self.material_batches[i].0.same(key) {
                return Some(self.material_batches[i].1);
            }
            i += 1;
        }
        None
    }
}

proof fn lemma_first_exists(
    entries: Seq<(u64, PreparedMaterial)>,
    k: InstancedMaterialBatchKey,
    j: int,
)
    requires
        0 <= j < entries.len(),
        entries[j].1.spec_material_key() == k,
    ensures
        exists|f: int| f <= j && first_with_key(entries, k, f),
    decreases j,
{
    if exists|h: int| 0 <= h < j && entries[h].1.spec_material_key() == k {
        let h = choose|h: int| 0 <= h < j && entries[h].1.spec_material_key() == k;
        lemma_first_exists(entries, k, h);
    } else {
        assert(first_with_key(entries, k, j));
    }
}

/// Groups the prepared materials by batch key.
pub fn build_material_batches(materials: &RenderMaterials) -> (r: MaterialBatches)
    ensures
        r.built_from(materials.entries()),
{
    let ghost entries = materials.entries();
    let mut out: Vec<(InstancedMaterialBatchKey, MaterialBatch)> = Vec::new();
    let mut i: usize = 0;
    while i < materials.len()
        invariant
            entries == materials.entries(),
            i <= entries.len(),
            forall|a: int, b: int| 0 <= a < b < out@.len() ==> out@[a].0.spec_lt(out@[b].0),
            forall|k: InstancedMaterialBatchKey| #[trigger]
                has_material_batch(out@, k) <==> exists|f: int| f < i && first_with_key(entries, k, f),
            forall|a: int| 0 <= a < out@.len() ==> represents(entries, (#[trigger] out@[a]).0, out@[a].1),
        decreases entries.len() - i,
    {
        let entry = materials.entry(i);
        let key = entry.1.material_key();
        let batch = MaterialBatch { material: entry.0, pipeline_key: entry.1.pipeline_key };
        let ghost before = out@;
        let mut p: usize = 0;
        while p < out.len() && out[p].0.lt(&key)
            invariant
                out@ == before,
                p <= before.len(),
                forall|a: int| 0 <= a < p ==> before[a].0.spec_lt(key),
            decreases before.len() - p,
        {
            p += 1;
        }
        if p < out.len() && out[p].0.same(&key) {
            proof {
                assert(has_material_batch(before, key));
                let f = choose|f: int| f < i && first_with_key(entries, key, f);
                assert forall|k: InstancedMaterialBatchKey| #[trigger]
                    has_material_batch(out@, k) <==> exists|f: int| f < i + 1 && first_with_key(entries, k, f) by {
                    if exists|g: int| g < i + 1 && first_with_key(entries, k, g) {
                        let g = choose|g: int| g < i + 1 && first_with_key(entries, k, g);
                        if g == i {
                            assert(k == key);
                        }
                    }
                }
            }
        } else {
            out.insert(p, (key, batch));
            proof {
                assert(!has_material_batch(before, key)) by {
                    if has_material_batch(before, key) {
                        let a = choose|a: int| 0 <= a < before.len() && before[a].0 == key;
                        if a < p {
                        } else if a > p {
                            assert(before[p as int].0.spec_lt(before[a].0));
                        }
                    }
                }
                assert(forall|j: int| 0 <= j < i ==> entries[j].1.spec_material_key() != key) by {
                    assert forall|j: int| 0 <= j < i implies entries[j].1.spec_material_key() != key by {
                        if entries[j].1.spec_material_key() == key {
                            lemma_first_exists(entries, key, j);
                            assert(has_material_batch(before, key));
                        }
                    }
                }
                assert(first_with_key(entries, key, i as int));
                let news = out@;
                assert(news == before.insert(p as int, (key, batch)));
                assert forall|a: int, b: int| 0 <= a < b < news.len() implies news[a].0.spec_lt(news[b].0) by {
                    if a == p && b > p {
                        assert(news[b] == before[b - 1]);
                        assert(before[p as int] == before[b - 1] || before[p as int].0.spec_lt(before[b - 1].0));
                    }
                }
                assert forall|k: InstancedMaterialBatchKey| #[trigger]
                    has_material_batch(news, k) <==> exists|f: int| f < i + 1 && first_with_key(entries, k, f) by {
                    if has_material_batch(news, k) {
                        let a = choose|a: int| 0 <= a < news.len() && news[a].0 == k;
                        if a < p {
                            assert(has_material_batch(before, k));
                        } else if a > p {
                            assert(before[a - 1].0 == k);
                            assert(has_material_batch(before, k));
                        }
                    }
                    if exists|f: int| f < i + 1 && first_with_key(entries, k, f) {
                        let f = choose|f: int| f < i + 1 && first_with_key(entries, k, f);
                        if f < i {
                            assert(has_material_batch(before, k));
                            let a = choose|a: int| 0 <= a < before.len() && before[a].0 == k;
                            if a < p {
                                assert(news[a].0 == k);
                            } else {
                                assert(news[a + 1].0 == k);
                            }
                        } else {
                            assert(news[p as int].0 == k);
                        }
                    }
                }
                assert forall|a: int| 0 <= a < news.len() implies represents(entries, (#[trigger] news[a]).0, news[a].1) by {
                    if a < p {
                        assert(news[a] == before[a]);
                    } else if a > p {
                        assert(news[a] == before[a - 1]);
                    } else {
                        assert(first_with_key(entries, key, i as int));
                    }
                }
            }
        }
        i += 1;
    }
    MaterialBatches { material_batches: out }
}

/// What the batcher reads of a material: its alpha mode and the
/// discriminator that tells apart materials that cannot share a pipeline or a
/// bind group layout.
pub trait AsBatch {
    spec fn spec_batch_key(&self) -> u64;

    spec fn spec_alpha_mode(&self) -> GpuAlphaMode;

    fn batch_key(&self) -> (r: u64)
        ensures
            r == self.spec_batch_key(),
    ;

    fn alpha_mode(&self) -> (r: GpuAlphaMode)
        ensures
            r == self.spec_alpha_mode(),
    ;
}

/// A material without parameters: opaque, and all in one batch.
#[derive(Debug, Clone, Copy, PartialEq, Eq, Structural)]
pub struct BasicMaterial;

impl AsBatch for BasicMaterial {
    open spec fn spec_batch_key(&self) -> u64 {
        0
    }

    open spec fn spec_alpha_mode(&self) -> GpuAlphaMode {
        GpuAlphaMode::Opaque
    }

    fn batch_key(&self) -> (r: u64) {
        0
    }

    fn alpha_mode(&self) -> (r: GpuAlphaMode) {
        GpuAlphaMode::Opaque
    }
}

/// The prepared form of a material whose binding was created with the given
/// pipeline key.
pub fn prepare_material<M: AsBatch>(material: &M, pipeline_key: u64) -> (r: PreparedMaterial)
    ensures
        r == (PreparedMaterial {
            pipeline_key,
            batch_key: material.spec_batch_key(),
            alpha_mode: material.spec_alpha_mode(),
        }),
{
    PreparedMaterial { pipeline_key, batch_key: material.batch_key(), alpha_mode: material.alpha_mode() }
}

/// The prepared materials together with their material batches, which are
/// rebuilt only after the prepared set has changed.
#[derive(Debug, Clone)]
pub struct MaterialBatcher {
    materials: RenderMaterials,
    batches: MaterialBatches,
    changed: bool,
}

impl MaterialBatcher {
    pub closed spec fn spec_materials(&self) -> RenderMaterials {
        self.materials
    }

    pub closed spec fn spec_batches(&self) -> MaterialBatches {
        self.batches
    }

    /// The prepared set changed since the batches were last built.
    pub closed spec fn pending(&self) -> bool {
        self.changed
    }

    /// The registry is well formed, and the batches are up to date unless a
    /// change awaits a refresh.
    pub closed spec fn wf(&self) -> bool {
        &&& self.materials.wf()
        &&& (self.changed || self.batches.built_from(self.materials.entries()))
    }

    pub fn new() -> (r: Self)
        ensures
            r.wf(),
            r.spec_materials()@ == Map::<u64, PreparedMaterial>::empty(),
            r.spec_materials().pending() == Set::<u64>::empty(),
            !r.pending(),
    {
        let r = MaterialBatcher {
            materials: RenderMaterials::new(),
            batches: MaterialBatches { material_batches: Vec::new() },
            changed: false,
        };
        proof {
            assert forall|k: InstancedMaterialBatchKey| #[trigger]
                has_material_batch(r.batches.material_batches@, k) <==> exists|f: int|
                    first_with_key(r.materials.entries(), k, f) by {}
        }
        r
    }

    pub fn materials(&self) -> (r: &RenderMaterials)
        requires
            self.wf(),
        ensures
            *r == self.spec_materials(),
            r.wf(),
    {
        &self.materials
    }

    /// The batches, which are those of the prepared materials when no change
    /// is pending.
    pub fn batches(&self) -> (r: &MaterialBatches)
        requires
            self.wf(),
        ensures
            *r == self.spec_batches(),
            !self.pending() ==> r.built_from(self.spec_materials().entries()),
    {
        &self.batches
    }

    /// Records the outcome of preparing a material; the batches wait for the
    /// next refresh.
    pub fn record(&mut self, id: u64, outcome: Option<PreparedMaterial>)
        requires
            old(self).wf(),
        ensures
            final(self).wf(),
            final(self).pending(),
            match outcome {
                Some(m) => {
                    &&& final(self).spec_materials()@ == old(self).spec_materials()@.insert(id, m)
                    &&& final(self).spec_materials().pending() == old(
                        self,
                    ).spec_materials().pending().remove(id)
                },
                None => {
                    &&& final(self).spec_materials()@ == old(self).spec_materials()@.remove(id)
                    &&& final(self).spec_materials().pending() == old(
                        self,
                    ).spec_materials().pending().insert(id)
                },
            },
    {
        self.materials.record(id, outcome);
        self.changed = true;
    }

    /// Forgets a material; the batches wait for the next refresh.
    pub fn remove(&mut self, id: u64)
        requires
            old(self).wf(),
        ensures
            final(self).wf(),
            final(self).pending(),
            final(self).spec_materials()@ == old(self).spec_materials()@.remove(id),
            final(self).spec_materials().pending() == old(self).spec_materials().pending().remove(id),
    {
        self.materials.remove(id);
        self.changed = true;
    }

    /// Hands out the materials to retry, in ascending order, and empties the queue.
    pub fn take_pending(&mut self) -> (r: Vec<u64>)
        requires
            old(self).wf(),
        ensures
            final(self).wf(),
            final(self).pending() == old(self).pending(),
            final(self).spec_batches() == old(self).spec_batches(),
            final(self).spec_materials()@ == old(self).spec_materials()@,
            final(self).spec_materials().entries() == old(self).spec_materials().entries(),
            final(self).spec_materials().pending() == Set::<u64>::empty(),
            forall|i: int, j: int| 0 <= i < j < r@.len() ==> r@[i] < r@[j],
            forall|id: u64| #[trigger] r@.contains(id) <==> old(self).spec_materials().pending().contains(id),
    {
        self.materials.take_pending()
    }

    /// Rebuilds the batches if the prepared set changed since the last
    /// refresh, and leaves them as they are otherwise.
    pub fn refresh(&mut self)
        requires
            old(self).wf(),
        ensures
            final(self).wf(),
            !final(self).pending(),
            final(self).spec_materials() == old(self).spec_materials(),
            final(self).spec_batches().built_from(final(self).spec_materials().entries()),
            !old(self).pending() ==> final(self).spec_batches() == old(self).spec_batches(),
    {
        if self.changed {
            self.batches = build_material_batches(&self.materials);
            self.changed = false;
        }
    }
}

} // verus!
