use vstd::prelude::*;

use crate::mesher::VoxelBuffer;
use crate::streaming::{ChunkIntents, ChunkPosition};

verus! {

/// Where a chunk is in its life.
#[derive(Clone, Copy, Debug, PartialEq, Eq, Structural)]
pub enum ChunkState {
    Absent,
    Loading,
    Resident,
    Unloading,
}

/// A handle to a mesh held by the render sink.
pub type MeshHandle = u64;

/// What the store knows of one chunk: its state, the mesh it holds and its voxels.
pub type ChunkRecord = (ChunkState, Option<MeshHandle>, Option<VoxelBuffer>);

struct ChunkSlot {
    position: ChunkPosition,
    state: ChunkState,
    mesh: Option<MeshHandle>,
    voxels: Option<VoxelBuffer>,
}

spec fn record_of(s: ChunkSlot) -> ChunkRecord {
    (s.state, s.mesh, s.voxels)
}

spec fn holds(s: Seq<ChunkSlot>, p: ChunkPosition) -> bool {
    exists|i: int| 0 <= i < s.len() && #[trigger] s[i].position == p
}

spec fn unique(s: Seq<ChunkSlot>) -> bool {
    forall|i: int, j: int|
        0 <= i < s.len() && 0 <= j < s.len() && #[trigger] s[i].position == #[trigger] s[j].position ==> i == j
}

spec fn slot_index(s: Seq<ChunkSlot>, p: ChunkPosition) -> int {
    choose|i: int| 0 <= i < s.len() && #[trigger] s[i].position == p
}

spec fn records(s: Seq<ChunkSlot>) -> Map<ChunkPosition, ChunkRecord> {
    Map::new(|p: ChunkPosition| holds(s, p), |p: ChunkPosition| record_of(s[slot_index(s, p)]))
}

proof fn lemma_slot_index(s: Seq<ChunkSlot>, i: int)
    requires
        unique(s),
        0 <= i < s.len(),
    ensures
        holds(s, s[i].position),
        slot_index(s, s[i].position) == i,
        records(s)[s[i].position] == record_of(s[i]),
{
    assert(holds(s, s[i].position));
}

proof fn lemma_records_push(s: Seq<ChunkSlot>, x: ChunkSlot)
    requires
        unique(s),
        !holds(s, x.position),
    ensures
        unique(s.push(x)),
        records(s.push(x)) == records(s).insert(x.position, record_of(x)),
{
    let t = s.push(x);
    assert forall|i: int, j: int|
        0 <= i < t.len() && 0 <= j < t.len() && #[trigger] t[i].position == #[trigger] t[j].position implies i == j by {
        if i < s.len() && j == s.len() {
            assert(s[i].position == x.position);
        }
        if j < s.len() && i == s.len() {
            assert(s[j].position == x.position);
        }
        if i < s.len() && j < s.len() {
            assert(s[i] == t[i] && s[j] == t[j]);
        }
    }
    assert forall|p: ChunkPosition| #[trigger] holds(t, p) <==> (holds(s, p) || p == x.position) by {
        if holds(s, p) {
            let i = choose|i: int| 0 <= i < s.len() && #[trigger] s[i].position == p;
            assert(t[i] == s[i]);
        }
        if holds(t, p) && p != x.position {
            let i = choose|i: int| 0 <= i < t.len() && #[trigger] t[i].position == p;
            assert(t[i] == s[i]);
        }
        if p == x.position {
            assert(t[s.len() as int].position == p);
        }
    }
    assert forall|p: ChunkPosition| holds(t, p) implies #[trigger] records(t)[p] == records(s).insert(x.position, record_of(x))[p] by {
        if p == x.position {
            lemma_slot_index(t, s.len() as int);
        } else {
            let i = choose|i: int| 0 <= i < s.len() && #[trigger] s[i].position == p;
            assert(t[i] == s[i]);
            lemma_slot_index(t, i);
            lemma_slot_index(s, i);
        }
    }
    assert(records(t) =~= records(s).insert(x.position, record_of(x)));
}

proof fn lemma_records_update(s: Seq<ChunkSlot>, k: int, x: ChunkSlot)
    requires
        unique(s),
        0 <= k < s.len(),
        x.position == s[k].position,
    ensures
        unique(s.update(k, x)),
        records(s.update(k, x)) == records(s).insert(x.position, record_of(x)),
{
    let t = s.update(k, x);
    assert forall|i: int, j: int|
        0 <= i < t.len() && 0 <= j < t.len() && #[trigger] t[i].position == #[trigger] t[j].position implies i == j by {
        assert(t[i].position == s[i].position && t[j].position == s[j].position);
    }
    assert forall|p: ChunkPosition| #[trigger] holds(t, p) <==> holds(s, p) by {
        if holds(s, p) {
            let i = choose|i: int| 0 <= i < s.len() && #[trigger] s[i].position == p;
            assert(t[i].position == p);
        }
        if holds(t, p) {
            let i = choose|i: int| 0 <= i < t.len() && #[trigger] t[i].position == p;
            assert(s[i].position == p);
        }
    }
    assert forall|p: ChunkPosition| holds(t, p) implies #[trigger] records(t)[p] == records(s).insert(x.position, record_of(x))[p] by {
        let i = choose|i: int| 0 <= i < t.len() && #[trigger] t[i].position == p;
        lemma_slot_index(t, i);
        assert(s[i].position == p);
        lemma_slot_index(s, i);
    }
    assert(records(t) =~= records(s).insert(x.position, record_of(x)));
}

proof fn lemma_records_remove(s: Seq<ChunkSlot>, k: int)
    requires
        unique(s),
        0 <= k < s.len(),
    ensures
        unique(s.remove(k)),
        records(s.remove(k)) == records(s).remove(s[k].position),
{
    let t = s.remove(k);
    let q = s[k].position;
    assert forall|i: int| 0 <= i < t.len() implies #[trigger] t[i] == s[if i < k { i } else { i + 1 }] by {
    }
    assert forall|i: int, j: int|
        0 <= i < t.len() && 0 <= j < t.len() && #[trigger] t[i].position == #[trigger] t[j].position implies i == j by {
        let i2 = if i < k { i } else { i + 1 };
        let j2 = if j < k { j } else { j + 1 };
        assert(t[i] == s[i2] && t[j] == s[j2]);
    }
    assert forall|p: ChunkPosition| #[trigger] holds(t, p) <==> (holds(s, p) && p != q) by {
        if holds(s, p) && p != q {
            let i = choose|i: int| 0 <= i < s.len() && #[trigger] s[i].position == p;
            let i2 = if i < k { i } else { i - 1 };
            assert(t[i2] == s[i]);
        }
        if holds(t, p) {
            let i = choose|i: int| 0 <= i < t.len() && #[trigger] t[i].position == p;
            let i2 = if i < k { i } else { i + 1 };
            assert(t[i] == s[i2]);
            assert(s[i2].position == p);
        }
    }
    assert forall|p: ChunkPosition| holds(t, p) implies #[trigger] records(t)[p] == records(s).remove(q)[p] by {
        let i = choose|i: int| 0 <= i < t.len() && #[trigger] t[i].position == p;
        let i2 = if i < k { i } else { i + 1 };
        assert(t[i] == s[i2]);
        lemma_slot_index(t, i);
        lemma_slot_index(s, i2);
    }
    assert(records(t) =~= records(s).remove(q));
}

/// A load request: an absent chunk starts loading; any other is left as it is.
pub open spec fn after_request_load(m: Map<ChunkPosition, ChunkRecord>, p: ChunkPosition) -> (Map<ChunkPosition, ChunkRecord>, bool) {
    if m.contains_key(p) {
        (m, false)
    } else {
        (m.insert(p, (ChunkState::Loading, None, None)), true)
    }
}

/// A load finished with mesh `h`: a loading chunk becomes resident with it;
/// otherwise `h` is handed back, to be released.
pub open spec fn after_finish_load(m: Map<ChunkPosition, ChunkRecord>, p: ChunkPosition, v: VoxelBuffer, h: MeshHandle) -> (Map<ChunkPosition, ChunkRecord>, Option<MeshHandle>) {
    if m.contains_key(p) && m[p].0 == ChunkState::Loading {
        (m.insert(p, (ChunkState::Resident, Some(h), Some(v))), None)
    } else {
        (m, Some(h))
    }
}

/// A load failed: a loading chunk becomes absent again.
pub open spec fn after_fail_load(m: Map<ChunkPosition, ChunkRecord>, p: ChunkPosition) -> Map<ChunkPosition, ChunkRecord> {
    if m.contains_key(p) && m[p].0 == ChunkState::Loading {
        m.remove(p)
    } else {
        m
    }
}

/// An unload request: a resident chunk starts unloading and hands back its
/// mesh, to be released; a loading chunk is dropped; any other is left as it is.
pub open spec fn after_request_unload(m: Map<ChunkPosition, ChunkRecord>, p: ChunkPosition) -> (Map<ChunkPosition, ChunkRecord>, Option<MeshHandle>) {
    if m.contains_key(p) && m[p].0 == ChunkState::Resident {
        (m.insert(p, (ChunkState::Unloading, None, None)), m[p].1)
    } else if m.contains_key(p) && m[p].0 == ChunkState::Loading {
        (m.remove(p), None)
    } else {
        (m, None)
    }
}

/// An unload finished: an unloading chunk becomes absent.
pub open spec fn after_finish_unload(m: Map<ChunkPosition, ChunkRecord>, p: ChunkPosition) -> Map<ChunkPosition, ChunkRecord> {
    if m.contains_key(p) && m[p].0 == ChunkState::Unloading {
        m.remove(p)
    } else {
        m
    }
}

/// A whole unload: the request, then its completion once the mesh handed back
/// has been released.
pub open spec fn after_unload(m: Map<ChunkPosition, ChunkRecord>, p: ChunkPosition) -> (Map<ChunkPosition, ChunkRecord>, Option<MeshHandle>) {
    let (m1, h) = after_request_unload(m, p);
    (after_finish_unload(m1, p), h)
}

/// The records after the unloads of `ps`, in order.
pub open spec fn after_unloads(m: Map<ChunkPosition, ChunkRecord>, ps: Seq<ChunkPosition>) -> Map<ChunkPosition, ChunkRecord>
    decreases ps.len(),
{
    if ps.len() == 0 {
        m
    } else {
        after_unload(after_unloads(m, ps.drop_last()), ps.last()).0
    }
}

/// The meshes that the unloads of `ps` hand back, in order.
pub open spec fn released_by(m: Map<ChunkPosition, ChunkRecord>, ps: Seq<ChunkPosition>) -> Seq<MeshHandle>
    decreases ps.len(),
{
    if ps.len() == 0 {
        Seq::empty()
    } else {
        let rest = released_by(m, ps.drop_last());
        match after_unload(after_unloads(m, ps.drop_last()), ps.last()).1 {
            Some(h) => rest.push(h),
            None => rest,
        }
    }
}

/// The records after the load requests of `ps`, in order.
pub open spec fn after_load_requests(m: Map<ChunkPosition, ChunkRecord>, ps: Seq<ChunkPosition>) -> Map<ChunkPosition, ChunkRecord>
    decreases ps.len(),
{
    if ps.len() == 0 {
        m
    } else {
        after_request_load(after_load_requests(m, ps.drop_last()), ps.last()).0
    }
}

/// The chunks of `ps` whose load requests start a load, in order.
pub open spec fn started_by(m: Map<ChunkPosition, ChunkRecord>, ps: Seq<ChunkPosition>) -> Seq<ChunkPosition>
    decreases ps.len(),
{
    if ps.len() == 0 {
        Seq::empty()
    } else {
        let rest = started_by(m, ps.drop_last());
        if after_request_load(after_load_requests(m, ps.drop_last()), ps.last()).1 {
            rest.push(ps.last())
        } else {
            rest
        }
    }
}

/// A chunk taken from absent through loading, resident and unloading back to
/// absent leaves every record as it was, and the one mesh it was given is the
/// one handed back for release: as many meshes are released as were uploaded.
pub proof fn lemma_round_trip(m: Map<ChunkPosition, ChunkRecord>, p: ChunkPosition, v: VoxelBuffer, h: MeshHandle)
    requires
        !m.contains_key(p),
    ensures
        ({
            let (m1, started) = after_request_load(m, p);
            let (m2, returned) = after_finish_load(m1, p, v, h);
            let (m3, released) = after_request_unload(m2, p);
            let m4 = after_finish_unload(m3, p);
            &&& started
            &&& returned is None
            &&& released == Some(h)
            &&& m4 == m
        }),
{
    let m1 = m.insert(p, (ChunkState::Loading, None, None));
    let m2 = m1.insert(p, (ChunkState::Resident, Some(h), Some(v)));
    let m3 = m2.insert(p, (ChunkState::Unloading, None, None));
    assert(m3.remove(p) =~= m);
}

/// Every record is of a present chunk, and exactly the resident ones hold a
/// mesh and voxels.
pub open spec fn records_wf(m: Map<ChunkPosition, ChunkRecord>) -> bool {
    forall|p: ChunkPosition|
        #[trigger] m.contains_key(p) ==> m[p].0 != ChunkState::Absent && (m[p].1 is Some <==> m[p].0
            == ChunkState::Resident) && (m[p].2 is Some <==> m[p].0 == ChunkState::Resident)
}

/// The chunks of the world, keyed by position, with their voxels and meshes.
pub struct ChunkStore {
    slots: Vec<ChunkSlot>,
}

impl ChunkStore {
    pub closed spec fn view(&self) -> Map<ChunkPosition, ChunkRecord> {
        records(self.slots@)
    }

    pub closed spec fn wf(&self) -> bool {
        &&& unique(self.slots@)
        &&& forall|i: int|
            0 <= i < self.slots@.len() ==> {
                let s = #[trigger] self.slots@[i];
                s.state != ChunkState::Absent && (s.mesh is Some <==> s.state == ChunkState::Resident) && (
                s.voxels is Some <==> s.state == ChunkState::Resident)
            }
    }

    pub proof fn lemma_wf_records(&self)
        requires
            self.wf(),
        ensures
            records_wf(self@),
    {
        assert forall|p: ChunkPosition| #[trigger] self@.contains_key(p) implies self@[p].0 != ChunkState::Absent
            && (self@[p].1 is Some <==> self@[p].0 == ChunkState::Resident) && (self@[p].2 is Some
            <==> self@[p].0 == ChunkState::Resident) by {
            let i = choose|i: int| 0 <= i < self.slots@.len() && #[trigger] self.slots@[i].position == p;
            lemma_slot_index(self.slots@, i);
        }
    }

    /// An empty store.
    pub fn new() -> (r: ChunkStore)
        ensures
            r.wf(),
            r@ == Map::<ChunkPosition, ChunkRecord>::empty(),
    {
        let r = ChunkStore { slots: Vec::new() };
        assert(r@ =~= Map::<ChunkPosition, ChunkRecord>::empty());
        r
    }

    #[verifier::loop_isolation(false)]
    fn find(&self, p: ChunkPosition) -> (r: Option<usize>)
        requires
            self.wf(),
        ensures
            r matches Some(i) ==> i < self.slots@.len() && self.slots@[i as int].position == p
                && self@.contains_key(p) && self@[p] == record_of(self.slots@[i as int]),
            r is None ==> !self@.contains_key(p),
    {
        let mut i: usize = 0;
        while i < self.slots.len()
            invariant
                i <= self.slots@.len(),
                forall|j: int| 0 <= j < i ==> self.slots@[j].position != p,
            decreases self.slots@.len() - i,
        {
            if self.slots[i].position == p {
                proof {
                    lemma_slot_index(self.slots@, i as int);
                }
                return Some(i);
            }
            i = i + 1;
        }
        None
    }

    /// The state of the chunk at `p`.
    pub fn state(&self, p: ChunkPosition) -> (r: ChunkState)
        requires
            self.wf(),
        ensures
            r == (if self@.contains_key(p) { self@[p].0 } else { ChunkState::Absent }),
    {
        match self.find(p) {
            Some(i) => self.slots[i].state,
            None => ChunkState::Absent,
        }
    }

    /// The mesh that the chunk at `p` holds.
    pub fn mesh(&self, p: ChunkPosition) -> (r: Option<MeshHandle>)
        requires
            self.wf(),
        ensures
            r == (if self@.contains_key(p) { self@[p].1 } else { None }),
    {
        match self.find(p) {
            Some(i) => self.slots[i].mesh,
            None => None,
        }
    }

    /// The voxels of the chunk at `p`, where it is resident.
    pub fn voxels(&self, p: ChunkPosition) -> (r: Option<&VoxelBuffer>)
        requires
            self.wf(),
        ensures
            r is Some <==> self@.contains_key(p) && self@[p].0 == ChunkState::Resident,
            r matches Some(v) ==> self@[p].2 == Some(*v),
    {
        match self.find(p) {
            Some(i) => self.slots[i].voxels.as_ref(),
            None => None,
        }
    }

    /// The positions of the chunks that are loading or resident, in the
    /// order in which they were first requested.
    #[verifier::loop_isolation(false)]
    pub fn live_positions(&self) -> (r: Vec<ChunkPosition>)
        requires
            self.wf(),
        ensures
            forall|p: ChunkPosition|
                #[trigger] r@.contains(p) <==> self@.contains_key(p) && (self@[p].0 == ChunkState::Loading
                    || self@[p].0 == ChunkState::Resident),
            r@.no_duplicates(),
    {
        let mut r: Vec<ChunkPosition> = Vec::new();
        let ghost mut from: Seq<int> = Seq::empty();
        let mut i: usize = 0;
        while i < self.slots.len()
            invariant
                i <= self.slots@.len(),
                forall|p: ChunkPosition|
                    #[trigger] r@.contains(p) <==> exists|j: int|
                        0 <= j < i && #[trigger] self.slots@[j].position == p && (self.slots@[j].state
                            == ChunkState::Loading || self.slots@[j].state == ChunkState::Resident),
                from.len() == r@.len(),
                forall|k: int| 0 <= k < r@.len() ==> 0 <= #[trigger] from[k] < i && self.slots@[from[k]].position == r@[k],
                r@.no_duplicates(),
            decreases self.slots@.len() - i,
        {
            let s = &self.slots[i];
            if s.state == ChunkState::Loading || s.state == ChunkState::Resident {
                let ghost old_r = r@;
                r.push(s.position);
                proof {
                    assert forall|p: ChunkPosition| #[trigger] r@.contains(p) <==> (old_r.contains(p) || p == s.position) by {
                        if r@.contains(p) {
                            let k = choose|k: int| 0 <= k < r@.len() && r@[k] == p;
                            if k < old_r.len() {
                                assert(old_r[k] == p);
                            }
                        }
                        if old_r.contains(p) {
                            let k = choose|k: int| 0 <= k < old_r.len() && old_r[k] == p;
                            assert(r@[k] == p);
                        }
                        if p == s.position {
                            assert(r@[old_r.len() as int] == p);
                        }
                    }
                    assert forall|k: int| 0 <= k < old_r.len() implies old_r[k] != s.position by {
                        assert(self.slots@[from[k]].position == old_r[k]);
                    }
                    from = from.push(i as int);
                }
            }
            i = i + 1;
        }
        proof {
            assert forall|p: ChunkPosition| #[trigger] r@.contains(p) <==> self@.contains_key(p) && (self@[p].0 == ChunkState::Loading
                || self@[p].0 == ChunkState::Resident) by {
                if self@.contains_key(p) {
                    let i = choose|i: int| 0 <= i < self.slots@.len() && #[trigger] self.slots@[i].position == p;
                    lemma_slot_index(self.slots@, i);
                }
                if r@.contains(p) {
                    let j = choose|j: int|
                        0 <= j < self.slots@.len() && #[trigger] self.slots@[j].position == p && (self.slots@[j].state
                            == ChunkState::Loading || self.slots@[j].state == ChunkState::Resident);
                    lemma_slot_index(self.slots@, j);
                }
            }
        }
        r
    }

    /// Asks for the chunk at `p`; true where it was absent and now loads, so
    /// that its voxels are to be generated.
    pub fn request_load(&mut self, p: ChunkPosition) -> (r: bool)
        requires
            old(self).wf(),
        ensures
            final(self).wf(),
            (final(self)@, r) == after_request_load(old(self)@, p),
    {
        match self.find(p) {
            Some(_) => false,
            None => {
                let slot = ChunkSlot { position: p, state: ChunkState::Loading, mesh: None, voxels: None };
                proof {
                    if holds(self.slots@, p) {
                        let i = choose|i: int| 0 <= i < self.slots@.len() && #[trigger] self.slots@[i].position == p;
                        lemma_slot_index(self.slots@, i);
                    }
                    lemma_records_push(self.slots@, slot);
                }
                self.slots.push(slot);
                true
            },
        }
    }

    /// Completes the load of the chunk at `p` with its voxels and the mesh
    /// `mesh` built from them. Where the chunk no longer loads, the mesh is
    /// handed back, to be released.
    pub fn finish_load(&mut self, p: ChunkPosition, voxels: VoxelBuffer, mesh: MeshHandle) -> (r: Option<MeshHandle>)
        requires
            old(self).wf(),
        ensures
            final(self).wf(),
            (final(self)@, r) == after_finish_load(old(self)@, p, voxels, mesh),
    {
        match self.find(p) {
            Some(i) => {
                if self.slots[i].state != ChunkState::Loading {
                    return Some(mesh);
                }
                let slot = ChunkSlot { position: p, state: ChunkState::Resident, mesh: Some(mesh), voxels: Some(voxels) };
                proof {
                    lemma_records_update(self.slots@, i as int, slot);
                }
                self.slots.set(i, slot);
                None
            },
            None => Some(mesh),
        }
    }

    /// The voxels of the chunk at `p` could not be generated: it is absent
    /// again, and a later tick asks for it anew.
    pub fn fail_load(&mut self, p: ChunkPosition)
        requires
            old(self).wf(),
        ensures
            final(self).wf(),
            final(self)@ == after_fail_load(old(self)@, p),
    {
        if let Some(i) = self.find(p) {
            if self.slots[i].state == ChunkState::Loading {
                self.remove_slot(i);
            }
        }
    }

    fn remove_slot(&mut self, i: usize)
        requires
            old(self).wf(),
            i < old(self).slots@.len(),
        ensures
            final(self).wf(),
            final(self)@ == old(self)@.remove(old(self).slots@[i as int].position),
    {
        proof {
            lemma_records_remove(self.slots@, i as int);
        }
        let ghost before = self.slots@;
        let _ = self.slots.remove(i);
        proof {
            assert forall|k: int| 0 <= k < self.slots@.len() implies #[trigger] self.slots@[k] == before[if k < i { k } else { k + 1 }] by {
            }
        }
    }

    /// Asks to drop the chunk at `p`. A resident chunk starts unloading and
    /// hands back its mesh, to be released; a loading one is dropped.
    pub fn request_unload(&mut self, p: ChunkPosition) -> (r: Option<MeshHandle>)
        requires
            old(self).wf(),
        ensures
            final(self).wf(),
            (final(self)@, r) == after_request_unload(old(self)@, p),
    {
        match self.find(p) {
            Some(i) => {
                let state = self.slots[i].state;
                if state == ChunkState::Resident {
                    let mesh = self.slots[i].mesh;
                    let slot = ChunkSlot { position: p, state: ChunkState::Unloading, mesh: None, voxels: None };
                    proof {
                        lemma_records_update(self.slots@, i as int, slot);
                    }
                    self.slots.set(i, slot);
                    mesh
                } else if state == ChunkState::Loading {
                    self.remove_slot(i);
                    None
                } else {
                    None
                }
            },
            None => None,
        }
    }

    /// Applies one tick's intents: first every unload, each completed at once,
    /// then every load request. Returns the meshes to release and the chunks
    /// whose voxels are to be generated.
    pub fn apply_intents(&mut self, intents: &ChunkIntents) -> (r: (Vec<MeshHandle>, Vec<ChunkPosition>))
        requires
            old(self).wf(),
        ensures
            final(self).wf(),
            r.0@ == released_by(old(self)@, intents.unload@),
            final(self)@ == after_load_requests(after_unloads(old(self)@, intents.unload@), intents.load@),
            r.1@ == started_by(after_unloads(old(self)@, intents.unload@), intents.load@),
    {
        let ghost m0 = self@;
        let mut released: Vec<MeshHandle> = Vec::new();
        let mut i: usize = 0;
        while i < intents.unload.len()
            invariant
                self.wf(),
                i <= intents.unload@.len(),
                self@ == after_unloads(m0, intents.unload@.subrange(0, i as int)),
                released@ == released_by(m0, intents.unload@.subrange(0, i as int)),
            decreases intents.unload@.len() - i,
        {
            let p = intents.unload[i];
            proof {
                let s1 = intents.unload@.subrange(0, i + 1);
                assert(s1.drop_last() =~= intents.unload@.subrange(0, i as int));
                assert(s1.last() == p);
            }
            if let Some(h) = self.request_unload(p) {
                released.push(h);
            }
            self.finish_unload(p);
            i = i + 1;
        }
        proof {
            assert(intents.unload@.subrange(0, intents.unload@.len() as int) =~= intents.unload@);
        }
        let ghost m1 = self@;
        let mut started: Vec<ChunkPosition> = Vec::new();
        let mut j: usize = 0;
        while j < intents.load.len()
            invariant
                self.wf(),
                j <= intents.load@.len(),
                self@ == after_load_requests(m1, intents.load@.subrange(0, j as int)),
                started@ == started_by(m1, intents.load@.subrange(0, j as int)),
            decreases intents.load@.len() - j,
        {
            let p = intents.load[j];
            proof {
                let s1 = intents.load@.subrange(0, j + 1);
                assert(s1.drop_last() =~= intents.load@.subrange(0, j as int));
                assert(s1.last() == p);
            }
            if self.request_load(p) {
                started.push(p);
            }
            j = j + 1;
        }
        proof {
            assert(intents.load@.subrange(0, intents.load@.len() as int) =~= intents.load@);
        }
        (released, started)
    }

    /// Completes the unload of the chunk at `p`, whose mesh has been released.
    pub fn finish_unload(&mut self, p: ChunkPosition)
        requires
            old(self).wf(),
        ensures
            final(self).wf(),
            final(self)@ == after_finish_unload(old(self)@, p),
    {
        if let Some(i) = self.find(p) {
            if self.slots[i].state == ChunkState::Unloading {
                self.remove_slot(i);
            }
        }
    }
}

} // verus!
