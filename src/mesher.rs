use vstd::prelude::*;
use vstd::set_lib::{lemma_int_range, lemma_len_subset, set_int_range};

use crate::voxel::{air_voxel, merge_key_of, shows_face, visibility_of, BlockVoxel, VoxelVisibility};

verus! {

/// One of the six face directions of a cube, in the order in which meshing
/// walks them.
#[derive(Clone, Copy, Debug, PartialEq, Eq, Structural)]
pub enum Face {
    NegX,
    NegY,
    NegZ,
    PosX,
    PosY,
    PosZ,
}

/// A grid position `(x, y, z)`.
pub type Cell = (int, int, int);

/// Position `n` along the face normal, `u` and `v` across the face.
pub open spec fn place(f: Face, n: int, u: int, v: int) -> Cell {
    match f {
        Face::NegX | Face::PosX => (n, v, u),
        Face::NegY | Face::PosY => (v, n, u),
        _ => (u, v, n),
    }
}

pub open spec fn n_of(f: Face, c: Cell) -> int {
    match f {
        Face::NegX | Face::PosX => c.0,
        Face::NegY | Face::PosY => c.1,
        _ => c.2,
    }
}

pub open spec fn u_of(f: Face, c: Cell) -> int {
    match f {
        Face::NegX | Face::PosX => c.2,
        Face::NegY | Face::PosY => c.2,
        _ => c.0,
    }
}

pub open spec fn v_of(f: Face, c: Cell) -> int {
    match f {
        Face::NegX | Face::PosX => c.1,
        Face::NegY | Face::PosY => c.0,
        _ => c.1,
    }
}

pub open spec fn normal_sign(f: Face) -> int {
    match f {
        Face::NegX | Face::NegY | Face::NegZ => -1,
        _ => 1,
    }
}

/// The cell that a face of `c` looks at.
pub open spec fn neighbour(f: Face, c: Cell) -> Cell {
    place(f, n_of(f, c) + normal_sign(f), u_of(f, c), v_of(f, c))
}

/// The face direction walked at position `g` of the six.
pub open spec fn face_at(g: int) -> Face {
    if g == 0 {
        Face::NegX
    } else if g == 1 {
        Face::NegY
    } else if g == 2 {
        Face::NegZ
    } else if g == 3 {
        Face::PosX
    } else if g == 4 {
        Face::PosY
    } else {
        Face::PosZ
    }
}

pub open spec fn cell_of(p: [usize; 3]) -> Cell {
    (p@[0] as int, p@[1] as int, p@[2] as int)
}

/// `c` lies in the half-open box `[lo, hi)`.
pub open spec fn in_region(lo: Cell, hi: Cell, c: Cell) -> bool {
    lo.0 <= c.0 < hi.0 && lo.1 <= c.1 < hi.1 && lo.2 <= c.2 < hi.2
}

/// Position of cell `c` in a dense box of `sx` by `sy` by any cells, `x`
/// varying fastest.
pub open spec fn linear_index(sx: int, sy: int, c: Cell) -> int {
    c.0 + sx * (c.1 + sy * c.2)
}

/// A dense box of voxels, `x` varying fastest.
pub struct VoxelBuffer {
    pub size_x: usize,
    pub size_y: usize,
    pub size_z: usize,
    pub voxels: Vec<BlockVoxel>,
}

/// An axis-aligned rectangle of faces: its corner of least coordinates, its
/// extent along the face's `u` axis (`width`) and along its `v` axis (`height`).
#[derive(Clone, Copy, Debug, PartialEq, Eq, Structural)]
pub struct Quad {
    pub x: usize,
    pub y: usize,
    pub z: usize,
    pub width: usize,
    pub height: usize,
}

pub open spec fn corner(q: Quad) -> Cell {
    (q.x as int, q.y as int, q.z as int)
}

/// The quad, seen as faces in direction `f`, covers cell `c`.
pub open spec fn contains(f: Face, q: Quad, c: Cell) -> bool {
    let o = corner(q);
    &&& n_of(f, c) == n_of(f, o)
    &&& u_of(f, o) <= u_of(f, c) < u_of(f, o) + q.width
    &&& v_of(f, o) <= v_of(f, c) < v_of(f, o) + q.height
}

pub open spec fn covered(qs: Seq<Quad>, f: Face, c: Cell) -> bool {
    exists|k: int| 0 <= k < qs.len() && #[trigger] contains(f, qs[k], c)
}

/// `a` comes before `b` in the walk: layer by layer along the normal, then
/// row by row along `v`, then along `u`.
pub open spec fn scan_before(f: Face, a: Cell, b: Cell) -> bool {
    n_of(f, a) < n_of(f, b) || (n_of(f, a) == n_of(f, b) && (v_of(f, a) < v_of(f, b) || (
    v_of(f, a) == v_of(f, b) && u_of(f, a) < u_of(f, b))))
}

impl VoxelBuffer {
    pub open spec fn wf(&self) -> bool {
        self.voxels@.len() == self.size_x * self.size_y * self.size_z
    }

    pub open spec fn in_bounds(&self, c: Cell) -> bool {
        0 <= c.0 < self.size_x && 0 <= c.1 < self.size_y && 0 <= c.2 < self.size_z
    }

    pub open spec fn index_of(&self, c: Cell) -> int {
        linear_index(self.size_x as int, self.size_y as int, c)
    }

    pub open spec fn voxel_at(&self, c: Cell) -> BlockVoxel {
        self.voxels@[self.index_of(c)]
    }

    /// The cell shows its face in direction `f`.
    pub open spec fn face_visible(&self, f: Face, c: Cell) -> bool {
        shows_face(self.voxel_at(c), self.voxel_at(neighbour(f, c)))
    }

    /// The face of `c` in direction `f` is visible and merges with that of `o`:
    /// the two voxels have equal merge keys.
    pub open spec fn mergeable(&self, f: Face, o: Cell, c: Cell) -> bool {
        &&& self.face_visible(f, c)
        &&& merge_key_of(self.voxel_at(c)) == merge_key_of(self.voxel_at(o))
    }

    /// `[lo, hi)` is a region that keeps a one-voxel halo inside the buffer.
    pub open spec fn scan_region_ok(&self, lo: Cell, hi: Cell) -> bool {
        &&& self.wf()
        &&& 1 <= lo.0 <= hi.0 && hi.0 + 1 <= self.size_x
        &&& 1 <= lo.1 <= hi.1 && hi.1 + 1 <= self.size_y
        &&& 1 <= lo.2 <= hi.2 && hi.2 + 1 <= self.size_z
    }
}

/// The quad lies in `[lo, hi)` and is not degenerate.
pub open spec fn quad_in_region(f: Face, q: Quad, lo: Cell, hi: Cell) -> bool {
    &&& in_region(lo, hi, corner(q))
    &&& q.width >= 1
    &&& q.height >= 1
    &&& u_of(f, corner(q)) + q.width <= u_of(f, hi)
    &&& v_of(f, corner(q)) + q.height <= v_of(f, hi)
}

/// The greedy choice of `q` after the quads `prior`: its corner is the first
/// visible face in walk order that `prior` leaves uncovered, its first row cannot
/// grow along `u`, and it cannot grow by one more row along `v`.
pub open spec fn greedy_step(b: VoxelBuffer, f: Face, lo: Cell, hi: Cell, prior: Seq<Quad>, q: Quad) -> bool {
    let o = corner(q);
    let next_u = place(f, n_of(f, o), u_of(f, o) + q.width, v_of(f, o));
    &&& forall|c: Cell|
        in_region(lo, hi, c) && #[trigger] scan_before(f, c, o) && b.face_visible(f, c) ==> covered(
            prior,
            f,
            c,
        )
    &&& u_of(f, o) + q.width == u_of(f, hi) || !(b.mergeable(f, o, next_u) && !covered(
        prior,
        f,
        next_u,
    ))
    &&& v_of(f, o) + q.height == v_of(f, hi) || exists|a: int|
        0 <= a < q.width && !(b.mergeable(f, o, place(f, n_of(f, o), u_of(f, o) + a, v_of(f, o) + q.height))
            && !covered(prior, f, #[trigger] place(f, n_of(f, o), u_of(f, o) + a, v_of(f, o) + q.height)))
}

/// What holds of the quads of face `f` at every step of the walk.
pub open spec fn quads_sound(b: VoxelBuffer, f: Face, lo: Cell, hi: Cell, qs: Seq<Quad>) -> bool {
    &&& forall|j: int| 0 <= j < qs.len() ==> quad_in_region(f, #[trigger] qs[j], lo, hi)
    &&& forall|j: int, c: Cell|
        0 <= j < qs.len() && #[trigger] contains(f, qs[j], c) ==> b.mergeable(f, corner(qs[j]), c)
    &&& forall|j1: int, j2: int, c: Cell|
        0 <= j1 < j2 < qs.len() && #[trigger] contains(f, qs[j1], c) ==> !#[trigger] contains(
            f,
            qs[j2],
            c,
        )
    &&& forall|j: int| 0 <= j < qs.len() ==> greedy_step(b, f, lo, hi, qs.subrange(0, j), #[trigger] qs[j])
}

/// The quads of face `f` cover every visible face of `[lo, hi)` exactly once,
/// each merges only faces of equal keys, and each is the greedy choice.
pub open spec fn face_quads(b: VoxelBuffer, f: Face, lo: Cell, hi: Cell, qs: Seq<Quad>) -> bool {
    &&& quads_sound(b, f, lo, hi, qs)
    &&& forall|c: Cell| in_region(lo, hi, c) && #[trigger] b.face_visible(f, c) ==> covered(qs, f, c)
}

pub proof fn lemma_index_bounds(b: &VoxelBuffer, c: Cell)
    requires
        b.wf(),
        b.in_bounds(c),
    ensures
        0 <= c.1 + b.size_y * c.2 < b.size_y * b.size_z,
        0 <= b.index_of(c) < b.voxels@.len(),
        b.size_x * (c.1 + b.size_y * c.2) <= b.voxels@.len(),
        0 <= b.size_y * c.2 <= b.size_y * b.size_z <= b.voxels@.len(),
{
    let (sx, sy, sz) = (b.size_x as int, b.size_y as int, b.size_z as int);
    let (x, y, z) = c;
    assert(0 <= y + sy * z < sy * sz) by (nonlinear_arith)
        requires
            0 <= y < sy,
            0 <= z < sz,
    ;
    let k = y + sy * z;
    assert(0 <= x + sx * k < sx * (sy * sz) && sx * k <= sx * (sy * sz)) by (nonlinear_arith)
        requires
            0 <= x < sx,
            0 <= k < sy * sz,
    ;
    assert(sx * (sy * sz) == sx * sy * sz) by (nonlinear_arith);
    assert(0 <= sy * z <= sy * sz <= sx * (sy * sz)) by (nonlinear_arith)
        requires
            0 <= x < sx,
            0 <= z < sz,
            0 <= sy,
    ;
}

/// Along each of the face's axes, `[lo, hi)` lies inside the buffer's halo.
pub proof fn lemma_region_local(b: &VoxelBuffer, f: Face, lo: Cell, hi: Cell)
    requires
        b.scan_region_ok(lo, hi),
    ensures
        1 <= n_of(f, lo) <= n_of(f, hi) < usize::MAX,
        1 <= u_of(f, lo) <= u_of(f, hi) < usize::MAX,
        1 <= v_of(f, lo) <= v_of(f, hi) < usize::MAX,
        forall|n: int, u: int, v: int|
            n_of(f, lo) <= n < n_of(f, hi) && u_of(f, lo) <= u < u_of(f, hi) && v_of(f, lo) <= v
                < v_of(f, hi) ==> #[trigger] in_region(lo, hi, place(f, n, u, v)),
        forall|n: int, u: int, v: int|
            n_of(f, lo) - 1 <= n <= n_of(f, hi) && u_of(f, lo) <= u < u_of(f, hi) && v_of(f, lo)
                <= v < v_of(f, hi) ==> #[trigger] b.in_bounds(place(f, n, u, v)),
        forall|c: Cell|
            #[trigger] in_region(lo, hi, c) ==> b.in_bounds(c) && b.in_bounds(neighbour(f, c)),
{
}

pub proof fn lemma_index_injective(b: &VoxelBuffer, c1: Cell, c2: Cell)
    requires
        b.in_bounds(c1),
        b.in_bounds(c2),
        b.index_of(c1) == b.index_of(c2),
    ensures
        c1 == c2,
{
    lemma_linear_injective(b.size_x as int, b.size_y as int, c1, c2);
}

pub proof fn lemma_linear_injective(sx: int, sy: int, c1: Cell, c2: Cell)
    requires
        0 <= c1.0 < sx && 0 <= c1.1 < sy && 0 <= c1.2,
        0 <= c2.0 < sx && 0 <= c2.1 < sy && 0 <= c2.2,
        linear_index(sx, sy, c1) == linear_index(sx, sy, c2),
    ensures
        c1 == c2,
{
    let k1 = c1.1 + sy * c1.2;
    let k2 = c2.1 + sy * c2.2;
    assert(c1.0 == c2.0 && k1 == k2) by (nonlinear_arith)
        requires
            0 <= c1.0 < sx,
            0 <= c2.0 < sx,
            c1.0 + sx * k1 == c2.0 + sx * k2,
    ;
    assert(c1.1 == c2.1 && c1.2 == c2.2) by (nonlinear_arith)
        requires
            0 <= c1.1 < sy,
            0 <= c2.1 < sy,
            c1.1 + sy * c1.2 == c2.1 + sy * c2.2,
    ;
}

pub proof fn lemma_local_place(f: Face, c: Cell)
    ensures
        c == place(f, n_of(f, c), u_of(f, c), v_of(f, c)),
        #[trigger] place(f, n_of(f, c), u_of(f, c), v_of(f, c)) == c,
{
}

pub proof fn lemma_place_local(f: Face, n: int, u: int, v: int)
    ensures
        n_of(f, #[trigger] place(f, n, u, v)) == n,
        u_of(f, place(f, n, u, v)) == u,
        v_of(f, place(f, n, u, v)) == v,
{
}

pub(crate) fn place_exec(f: Face, n: usize, u: usize, v: usize) -> (r: (usize, usize, usize))
    ensures
        (r.0 as int, r.1 as int, r.2 as int) == place(f, n as int, u as int, v as int),
{
    match f {
        Face::NegX | Face::PosX => (n, v, u),
        Face::NegY | Face::PosY => (v, n, u),
        _ => (u, v, n),
    }
}

pub(crate) fn local_exec(f: Face, p: [usize; 3]) -> (r: (usize, usize, usize))
    ensures
        r.0 == n_of(f, cell_of(p)),
        r.1 == u_of(f, cell_of(p)),
        r.2 == v_of(f, cell_of(p)),
{
    match f {
        Face::NegX | Face::PosX => (p[0], p[2], p[1]),
        Face::NegY | Face::PosY => (p[1], p[2], p[0]),
        _ => (p[2], p[0], p[1]),
    }
}

pub(crate) fn is_negative(f: Face) -> (r: bool)
    ensures
        r == (normal_sign(f) == -1),
{
    match f {
        Face::NegX | Face::NegY | Face::NegZ => true,
        _ => false,
    }
}

impl VoxelBuffer {
    /// A buffer of the given size, filled with air.
    pub fn new(size_x: usize, size_y: usize, size_z: usize) -> (r: VoxelBuffer)
        requires
            size_x * size_y <= usize::MAX,
            size_x * size_y * size_z <= usize::MAX,
        ensures
            r.wf(),
            r.size_x == size_x,
            r.size_y == size_y,
            r.size_z == size_z,
            forall|i: int| 0 <= i < r.voxels@.len() ==> r.voxels@[i] == crate::voxel::air_voxel(),
    {
        let total = size_x * size_y * size_z;
        let mut voxels: Vec<BlockVoxel> = Vec::new();
        while voxels.len() < total
            invariant
                voxels@.len() <= total,
                forall|i: int| 0 <= i < voxels@.len() ==> voxels@[i] == crate::voxel::air_voxel(),
            decreases total - voxels@.len(),
        {
            voxels.push(BlockVoxel::air());
        }
        VoxelBuffer { size_x, size_y, size_z, voxels }
    }

    /// Position of `(x, y, z)` in `voxels`.
    pub fn linearize(&self, x: usize, y: usize, z: usize) -> (r: usize)
        requires
            self.wf(),
            self.in_bounds((x as int, y as int, z as int)),
        ensures
            r == self.index_of((x as int, y as int, z as int)),
            r < self.voxels@.len(),
    {
        let len = self.voxels.len();
        proof {
            lemma_index_bounds(self, (x as int, y as int, z as int));
            assert(self.voxels@.len() == len);
        }
        x + self.size_x * (y + self.size_y * z)
    }

    pub fn get(&self, x: usize, y: usize, z: usize) -> (r: BlockVoxel)
        requires
            self.wf(),
            self.in_bounds((x as int, y as int, z as int)),
        ensures
            r == self.voxel_at((x as int, y as int, z as int)),
    {
        let i = self.linearize(x, y, z);
        self.voxels[i]
    }

    pub fn set(&mut self, x: usize, y: usize, z: usize, voxel: BlockVoxel)
        requires
            old(self).wf(),
            old(self).in_bounds((x as int, y as int, z as int)),
        ensures
            final(self).wf(),
            final(self).size_x == old(self).size_x,
            final(self).size_y == old(self).size_y,
            final(self).size_z == old(self).size_z,
            final(self).voxels@ == old(self).voxels@.update(
                old(self).index_of((x as int, y as int, z as int)),
                voxel,
            ),
    {
        let i = self.linearize(x, y, z);
        self.voxels.set(i, voxel);
    }
}

fn cell_index(b: &VoxelBuffer, f: Face, n: usize, u: usize, v: usize) -> (r: usize)
    requires
        b.wf(),
        b.in_bounds(place(f, n as int, u as int, v as int)),
    ensures
        r == b.index_of(place(f, n as int, u as int, v as int)),
        r < b.voxels@.len(),
{
    let p = place_exec(f, n, u, v);
    b.linearize(p.0, p.1, p.2)
}

fn neighbour_index(b: &VoxelBuffer, f: Face, lo: Ghost<Cell>, hi: Ghost<Cell>, n: usize, u: usize, v: usize) -> (r: usize)
    requires
        b.scan_region_ok(lo@, hi@),
        in_region(lo@, hi@, place(f, n as int, u as int, v as int)),
    ensures
        r == b.index_of(neighbour(f, place(f, n as int, u as int, v as int))),
        r < b.voxels@.len(),
{
    let m = if is_negative(f) {
        n - 1
    } else {
        n + 1
    };
    cell_index(b, f, m, u, v)
}

#[verifier::loop_isolation(false)]
fn row_width(
    b: &VoxelBuffer,
    visited: &Vec<bool>,
    f: Face,
    lo: Ghost<Cell>,
    hi: Ghost<Cell>,
    o: Ghost<Cell>,
    ov: BlockVoxel,
    n: usize,
    u0: usize,
    v: usize,
    max_w: usize,
) -> (w: usize)
    requires
        b.scan_region_ok(lo@, hi@),
        visited@.len() == b.voxels@.len(),
        ov == b.voxel_at(o@),
        n_of(f, lo@) <= n < n_of(f, hi@),
        v_of(f, lo@) <= v < v_of(f, hi@),
        u_of(f, lo@) <= u0,
        u0 + max_w <= u_of(f, hi@),
    ensures
        w <= max_w,
        forall|a: int|
            0 <= a < w ==> b.mergeable(f, o@, #[trigger] place(f, n as int, u0 + a, v as int))
                && !visited@[b.index_of(place(f, n as int, u0 + a, v as int))],
        w < max_w ==> !(b.mergeable(f, o@, place(f, n as int, u0 + w, v as int))
            && !visited@[b.index_of(place(f, n as int, u0 + w, v as int))]),
{
    proof {
        lemma_region_local(b, f, lo@, hi@);
    }
    let mut w: usize = 0;
    let mut stop = false;
    while !stop && w < max_w
        invariant
            w <= max_w,
            forall|a: int|
                0 <= a < w ==> b.mergeable(f, o@, #[trigger] place(f, n as int, u0 + a, v as int))
                    && !visited@[b.index_of(place(f, n as int, u0 + a, v as int))],
            stop ==> w < max_w && !(b.mergeable(f, o@, place(f, n as int, u0 + w, v as int))
                && !visited@[b.index_of(place(f, n as int, u0 + w, v as int))]),
        decreases max_w - w + (if stop { 0int } else { 1int }),
    {
        let i = cell_index(b, f, n, u0 + w, v);
        let j = neighbour_index(b, f, lo, hi, n, u0 + w, v);
        let vox = b.voxels[i];
        let nb = b.voxels[j];
        if visited[i] || !vox.shows_face_towards(&nb) || !vox.same_merge_key(&ov) {
            stop = true;
        } else {
            w = w + 1;
        }
    }
    w
}

#[verifier::loop_isolation(false)]
fn mark_rect(
    visited: &mut Vec<bool>,
    b: &VoxelBuffer,
    f: Face,
    lo: Ghost<Cell>,
    hi: Ghost<Cell>,
    q: Quad,
    n: usize,
    u0: usize,
    v0: usize,
)
    requires
        b.scan_region_ok(lo@, hi@),
        old(visited)@.len() == b.voxels@.len(),
        corner(q) == place(f, n as int, u0 as int, v0 as int),
        n_of(f, lo@) <= n < n_of(f, hi@),
        u_of(f, lo@) <= u0,
        u0 + q.width <= u_of(f, hi@),
        v_of(f, lo@) <= v0,
        v0 + q.height <= v_of(f, hi@),
    ensures
        final(visited)@.len() == b.voxels@.len(),
        forall|c: Cell|
            in_region(lo@, hi@, c) ==> final(visited)@[b.index_of(c)] == (old(visited)@[b.index_of(c)]
                || contains(f, q, c)),
{
    proof {
        lemma_region_local(b, f, lo@, hi@);
    }
    let mut r: usize = 0;
    while r < q.height
        invariant
            r <= q.height,
            visited@.len() == b.voxels@.len(),
            forall|c: Cell|
                in_region(lo@, hi@, c) ==> visited@[b.index_of(c)] == (old(visited)@[b.index_of(c)] || (
                n_of(f, c) == n && u0 <= u_of(f, c) < u0 + q.width && v0 <= v_of(f, c) < v0 + r)),
        decreases q.height - r,
    {
        let mut a: usize = 0;
        while a < q.width
            invariant
                r < q.height,
                a <= q.width,
                visited@.len() == b.voxels@.len(),
                forall|c: Cell|
                    in_region(lo@, hi@, c) ==> visited@[b.index_of(c)] == (old(visited)@[b.index_of(c)]
                        || (n_of(f, c) == n && u0 <= u_of(f, c) < u0 + q.width && v0 <= v_of(f, c) < v0
                        + r) || (n_of(f, c) == n && u0 <= u_of(f, c) < u0 + a && v_of(f, c) == v0 + r)),
            decreases q.width - a,
        {
            let i = cell_index(b, f, n, u0 + a, v0 + r);
            let ghost p = place(f, n as int, (u0 + a) as int, (v0 + r) as int);
            let ghost before = visited@;
            visited.set(i, true);
            proof {
                assert forall|c: Cell| in_region(lo@, hi@, c) && c != p implies visited@[b.index_of(c)]
                    == before[b.index_of(c)] by {
                    lemma_index_bounds(b, c);
                    if b.index_of(c) == b.index_of(p) {
                        lemma_index_injective(b, c, p);
                    }
                }
                assert forall|c: Cell| in_region(lo@, hi@, c) && c == p implies visited@[b.index_of(c)] by {
                }
            }
            a = a + 1;
        }
        r = r + 1;
    }
}

/// `vis` marks exactly the cells of `[lo, hi)` that `qs` covers.
pub open spec fn visited_matches(b: VoxelBuffer, f: Face, lo: Cell, hi: Cell, vis: Seq<bool>, qs: Seq<Quad>) -> bool {
    forall|c: Cell|
        #![trigger vis[b.index_of(c)]]
        #![trigger covered(qs, f, c)]
        in_region(lo, hi, c) ==> (vis[b.index_of(c)] <==> covered(qs, f, c))
}

/// Extends the walk by the cell `(n, u, v)` of face `f`: where its face is
/// visible and not yet covered, it becomes the corner of a new quad.
#[verifier::loop_isolation(false)]
#[verifier::rlimit(50)]
fn visit_cell(
    b: &VoxelBuffer,
    visited: &mut Vec<bool>,
    quads: &mut Vec<Quad>,
    f: Face,
    lo: Ghost<Cell>,
    hi: Ghost<Cell>,
    hi_u: usize,
    hi_v: usize,
    n: usize,
    u: usize,
    v: usize,
)
    requires
        b.scan_region_ok(lo@, hi@),
        hi_u == u_of(f, hi@),
        hi_v == v_of(f, hi@),
        n_of(f, lo@) <= n < n_of(f, hi@),
        u_of(f, lo@) <= u < hi_u,
        v_of(f, lo@) <= v < hi_v,
        old(visited)@.len() == b.voxels@.len(),
        visited_matches(*b, f, lo@, hi@, old(visited)@, old(quads)@),
        quads_sound(*b, f, lo@, hi@, old(quads)@),
        forall|c: Cell|
            in_region(lo@, hi@, c) && scan_before(f, c, place(f, n as int, u as int, v as int))
                && b.face_visible(f, c) ==> covered(old(quads)@, f, c),
    ensures
        final(visited)@.len() == b.voxels@.len(),
        visited_matches(*b, f, lo@, hi@, final(visited)@, final(quads)@),
        quads_sound(*b, f, lo@, hi@, final(quads)@),
        forall|c: Cell|
            in_region(lo@, hi@, c) && (scan_before(f, c, place(f, n as int, u as int, v as int)) || c
                == place(f, n as int, u as int, v as int)) && b.face_visible(f, c) ==> covered(
                final(quads)@,
                f,
                c,
            ),
{
    proof {
        lemma_region_local(b, f, lo@, hi@);
        lemma_place_local(f, n as int, u as int, v as int);
    }
    let ghost pc = place(f, n as int, u as int, v as int);
    let p = place_exec(f, n, u, v);
    let i = b.linearize(p.0, p.1, p.2);
    let j = neighbour_index(b, f, lo, hi, n, u, v);
    let vox = b.voxels[i];
    let nbv = b.voxels[j];
    if visited[i] || !vox.shows_face_towards(&nbv) {
        return;
    }
    let w = row_width(b, visited, f, lo, hi, Ghost(pc), vox, n, u, v, hi_u - u);
    proof {
        if w == 0 {
            assert(place(f, n as int, u + w, v as int) == pc);
        }
    }
    let mut h: usize = 1;
    let mut stop = false;
    while !stop && v + h < hi_v
        invariant
            1 <= h,
            v + h <= hi_v,
            1 <= w,
            u + w <= hi_u,
            forall|r: int, a: int|
                0 <= r < h && 0 <= a < w ==> b.mergeable(f, pc, #[trigger] place(f, n as int, u + a, v + r))
                    && !visited@[b.index_of(place(f, n as int, u + a, v + r))],
            stop ==> v + h < hi_v && exists|a: int|
                0 <= a < w && !(b.mergeable(f, pc, #[trigger] place(f, n as int, u + a, v + h))
                    && !visited@[b.index_of(place(f, n as int, u + a, v + h))]),
        decreases hi_v - v - h + (if stop { 0int } else { 1int }),
    {
        let rw = row_width(b, visited, f, lo, hi, Ghost(pc), vox, n, u, v + h, w);
        if rw < w {
            stop = true;
            proof {
                assert(!(b.mergeable(f, pc, place(f, n as int, u + rw, v + h)) && !visited@[b.index_of(
                    place(f, n as int, u + rw, v + h),
                )]));
            }
        } else {
            proof {
                assert forall|r: int, a: int|
                    0 <= r < h + 1 && 0 <= a < w implies b.mergeable(
                    f,
                    pc,
                    #[trigger] place(f, n as int, u + a, v + r),
                ) && !visited@[b.index_of(place(f, n as int, u + a, v + r))] by {
                    if r == h {
                        assert(place(f, n as int, u + a, v + r) == place(f, n as int, u + a, (v + h) as int));
                    }
                }
            }
            h = h + 1;
        }
    }
    let q = Quad { x: p.0, y: p.1, z: p.2, width: w, height: h };
    let ghost old_q = quads@;
    let ghost old_vis = visited@;
    proof {
        assert(corner(q) == pc);
        assert forall|c: Cell| #[trigger] contains(f, q, c) implies in_region(lo@, hi@, c) && b.mergeable(
            f,
            pc,
            c,
        ) && !covered(old_q, f, c) by {
            let a = u_of(f, c) - u;
            let r = v_of(f, c) - v;
            lemma_local_place(f, c);
            assert(place(f, n as int, u + a, v + r) == c);
            assert(b.mergeable(f, pc, place(f, n as int, u + a, v + r)));
            assert(!old_vis[b.index_of(c)]);
        }
        lemma_greedy_step_of_rows(b, f, lo@, hi@, old_q, old_vis, q, n as int, u as int, v as int, stop);
    }
    mark_rect(visited, b, f, lo, hi, q, n, u, v);
    quads.push(q);
    proof {
        lemma_push_quad(b, f, lo@, hi@, old_q, old_vis, visited@, q);
        assert(contains(f, q, pc));
        assert(quads@[old_q.len() as int] == q);
    }
}

proof fn lemma_greedy_step_of_rows(
    b: &VoxelBuffer,
    f: Face,
    lo: Cell,
    hi: Cell,
    qs: Seq<Quad>,
    vis: Seq<bool>,
    q: Quad,
    n: int,
    u: int,
    v: int,
    stop: bool,
)
    requires
        b.scan_region_ok(lo, hi),
        visited_matches(*b, f, lo, hi, vis, qs),
        corner(q) == place(f, n, u, v),
        n_of(f, lo) <= n < n_of(f, hi),
        u_of(f, lo) <= u,
        u + q.width <= u_of(f, hi),
        v_of(f, lo) <= v,
        v + q.height <= v_of(f, hi),
        1 <= q.height,
        forall|c: Cell|
            in_region(lo, hi, c) && scan_before(f, c, place(f, n, u, v)) && b.face_visible(f, c)
                ==> covered(qs, f, c),
        u + q.width < u_of(f, hi) ==> !(b.mergeable(f, corner(q), place(f, n, u + q.width, v))
            && !vis[b.index_of(place(f, n, u + q.width, v))]),
        stop ==> v + q.height < v_of(f, hi) && exists|a: int|
            0 <= a < q.width && !(b.mergeable(f, corner(q), #[trigger] place(f, n, u + a, v + q.height))
                && !vis[b.index_of(place(f, n, u + a, v + q.height))]),
        !stop ==> v + q.height == v_of(f, hi),
    ensures
        greedy_step(*b, f, lo, hi, qs, q),
{
    lemma_region_local(b, f, lo, hi);
    lemma_place_local(f, n, u, v);
    let o = corner(q);
    if u + q.width < u_of(f, hi) {
        assert(in_region(lo, hi, place(f, n, u + q.width, v)));
    }
    if stop {
        let a = choose|a: int|
            0 <= a < q.width && !(b.mergeable(f, o, #[trigger] place(f, n, u + a, v + q.height))
                && !vis[b.index_of(place(f, n, u + a, v + q.height))]);
        assert(in_region(lo, hi, place(f, n, u + a, v + q.height)));
        assert(!(b.mergeable(f, o, place(f, n_of(f, o), u_of(f, o) + a, v_of(f, o) + q.height))
            && !covered(qs, f, place(f, n_of(f, o), u_of(f, o) + a, v_of(f, o) + q.height))));
    }
}

proof fn lemma_push_quad(
    b: &VoxelBuffer,
    f: Face,
    lo: Cell,
    hi: Cell,
    qs: Seq<Quad>,
    vis: Seq<bool>,
    vis2: Seq<bool>,
    q: Quad,
)
    requires
        b.scan_region_ok(lo, hi),
        visited_matches(*b, f, lo, hi, vis, qs),
        quads_sound(*b, f, lo, hi, qs),
        quad_in_region(f, q, lo, hi),
        greedy_step(*b, f, lo, hi, qs, q),
        forall|c: Cell|
            #[trigger] contains(f, q, c) ==> in_region(lo, hi, c) && b.mergeable(f, corner(q), c)
                && !covered(qs, f, c),
        forall|c: Cell|
            in_region(lo, hi, c) ==> vis2[b.index_of(c)] == (vis[b.index_of(c)] || contains(f, q, c)),
    ensures
        visited_matches(*b, f, lo, hi, vis2, qs.push(q)),
        quads_sound(*b, f, lo, hi, qs.push(q)),
        forall|c: Cell| covered(qs, f, c) ==> #[trigger] covered(qs.push(q), f, c),
        covered(qs.push(q), f, corner(q)),
{
    let qs2 = qs.push(q);
    let k = qs.len() as int;
    assert(qs2[k] == q);
    assert forall|c: Cell| #[trigger] covered(qs2, f, c) <==> covered(qs, f, c) || contains(f, q, c) by {
        if covered(qs, f, c) {
            let j = choose|j: int| 0 <= j < qs.len() && #[trigger] contains(f, qs[j], c);
            assert(qs2[j] == qs[j]);
        }
        if covered(qs2, f, c) && !contains(f, q, c) {
            let j = choose|j: int| 0 <= j < qs2.len() && #[trigger] contains(f, qs2[j], c);
            assert(qs2[j] == qs[j]);
        }
        if contains(f, q, c) {
            assert(contains(f, qs2[k], c));
        }
    }
    assert(contains(f, q, corner(q)));
    assert forall|j: int| 0 <= j < qs2.len() implies greedy_step(
        *b,
        f,
        lo,
        hi,
        qs2.subrange(0, j),
        #[trigger] qs2[j],
    ) by {
        if j < k {
            assert(qs2.subrange(0, j) =~= qs.subrange(0, j));
        } else {
            assert(qs2.subrange(0, j) =~= qs);
        }
    }
    assert forall|j1: int, j2: int, c: Cell|
        0 <= j1 < j2 < qs2.len() && #[trigger] contains(f, qs2[j1], c) implies !#[trigger] contains(
        f,
        qs2[j2],
        c,
    ) by {
        if j2 == k {
            assert(qs2[j1] == qs[j1]);
            assert(covered(qs, f, c));
        }
    }
    assert forall|j: int, c: Cell| 0 <= j < qs2.len() && #[trigger] contains(f, qs2[j], c) implies b.mergeable(
        f,
        corner(qs2[j]),
        c,
    ) by {
        if j < k {
            assert(qs2[j] == qs[j]);
        }
    }
}

/// The quads of face `f` over the region `[min, max)` of `b`.
#[verifier::loop_isolation(false)]
pub fn greedy_face(b: &VoxelBuffer, min: [usize; 3], max: [usize; 3], f: Face) -> (qs: Vec<Quad>)
    requires
        b.scan_region_ok(cell_of(min), cell_of(max)),
    ensures
        face_quads(*b, f, cell_of(min), cell_of(max), qs@),
{
    let ghost lo = cell_of(min);
    let ghost hi = cell_of(max);
    proof {
        lemma_region_local(b, f, lo, hi);
    }
    let (lo_n, lo_u, lo_v) = local_exec(f, min);
    let (hi_n, hi_u, hi_v) = local_exec(f, max);
    let len = b.voxels.len();
    let mut visited: Vec<bool> = Vec::new();
    while visited.len() < len
        invariant
            visited@.len() <= len,
            forall|i: int| 0 <= i < visited@.len() ==> !visited@[i],
        decreases len - visited@.len(),
    {
        visited.push(false);
    }
    let mut quads: Vec<Quad> = Vec::new();
    proof {
        assert forall|c: Cell| in_region(lo, hi, c) implies !visited@[b.index_of(c)] by {
            lemma_index_bounds(b, c);
        }
    }
    let mut n = lo_n;
    while n < hi_n
        invariant
            lo_n <= n <= hi_n,
            visited@.len() == len,
            visited_matches(*b, f, lo, hi, visited@, quads@),
            quads_sound(*b, f, lo, hi, quads@),
            forall|c: Cell|
                in_region(lo, hi, c) && n_of(f, c) < n && #[trigger] b.face_visible(f, c) ==> covered(
                    quads@,
                    f,
                    c,
                ),
        decreases hi_n - n,
    {
        let mut v = lo_v;
        while v < hi_v
            invariant
                lo_n <= n < hi_n,
                lo_v <= v <= hi_v,
                visited@.len() == len,
                visited_matches(*b, f, lo, hi, visited@, quads@),
                quads_sound(*b, f, lo, hi, quads@),
                forall|c: Cell|
                    in_region(lo, hi, c) && (n_of(f, c) < n || (n_of(f, c) == n && v_of(f, c) < v))
                        && #[trigger] b.face_visible(f, c) ==> covered(quads@, f, c),
            decreases hi_v - v,
        {
            let mut u = lo_u;
            while u < hi_u
                invariant
                    lo_n <= n < hi_n,
                    lo_v <= v < hi_v,
                    lo_u <= u <= hi_u,
                    visited@.len() == len,
                    visited_matches(*b, f, lo, hi, visited@, quads@),
                    quads_sound(*b, f, lo, hi, quads@),
                    forall|c: Cell|
                        in_region(lo, hi, c) && (n_of(f, c) < n || (n_of(f, c) == n && (v_of(f, c) < v
                            || (v_of(f, c) == v && u_of(f, c) < u)))) && #[trigger] b.face_visible(f, c)
                            ==> covered(quads@, f, c),
                decreases hi_u - u,
            {
                proof {
                    lemma_place_local(f, n as int, u as int, v as int);
                }
                visit_cell(b, &mut visited, &mut quads, f, Ghost(lo), Ghost(hi), hi_u, hi_v, n, u, v);
                proof {
                    assert forall|c: Cell|
                        in_region(lo, hi, c) && (n_of(f, c) < n || (n_of(f, c) == n && (v_of(f, c) < v
                            || (v_of(f, c) == v && u_of(f, c) < u + 1)))) && #[trigger] b.face_visible(
                            f,
                            c,
                        ) implies covered(quads@, f, c) by {
                        lemma_local_place(f, c);
                    }
                }
                u = u + 1;
            }
            v = v + 1;
        }
        n = n + 1;
    }
    quads
}

pub(crate) fn face_exec(g: usize) -> (r: Face)
    ensures
        r == face_at(g as int),
{
    if g == 0 {
        Face::NegX
    } else if g == 1 {
        Face::NegY
    } else if g == 2 {
        Face::NegZ
    } else if g == 3 {
        Face::PosX
    } else if g == 4 {
        Face::PosY
    } else {
        Face::PosZ
    }
}

/// Greedy meshing of the region `[min, max)` of `buffer`: one list of quads
/// for each of the six faces, in the order `face_at` gives.
pub fn greedy_quads(buffer: &VoxelBuffer, min: [usize; 3], max: [usize; 3]) -> (groups: Vec<Vec<Quad>>)
    requires
        buffer.scan_region_ok(cell_of(min), cell_of(max)),
    ensures
        groups@.len() == 6,
        forall|g: int|
            0 <= g < 6 ==> face_quads(*buffer, face_at(g), cell_of(min), cell_of(max), #[trigger] groups@[g]@),
{
    let mut groups: Vec<Vec<Quad>> = Vec::new();
    let mut g: usize = 0;
    while g < 6
        invariant
            buffer.scan_region_ok(cell_of(min), cell_of(max)),
            g <= 6,
            groups@.len() == g,
            forall|k: int|
                0 <= k < g ==> face_quads(*buffer, face_at(k), cell_of(min), cell_of(max), #[trigger] groups@[k]@),
        decreases 6 - g,
    {
        let qs = greedy_face(buffer, min, max, face_exec(g));
        groups.push(qs);
        g = g + 1;
    }
    groups
}

/// The positions in `voxels` of the cells of `[lo, hi)` that show a face in
/// direction `f`: one for each face a naive mesher would emit.
pub open spec fn visible_faces(b: VoxelBuffer, f: Face, lo: Cell, hi: Cell) -> Set<int> {
    Set::new(|i: int| exists|c: Cell| in_region(lo, hi, c) && b.face_visible(f, c) && b.index_of(c) == i)
}

/// No face gets more quads than it has visible cells, and there are no more of
/// those than voxels.
pub proof fn lemma_quad_count_bound(b: VoxelBuffer, f: Face, lo: Cell, hi: Cell, qs: Seq<Quad>)
    requires
        b.scan_region_ok(lo, hi),
        quads_sound(b, f, lo, hi, qs),
    ensures
        visible_faces(b, f, lo, hi).finite(),
        qs.len() <= visible_faces(b, f, lo, hi).len(),
        visible_faces(b, f, lo, hi).len() <= b.voxels@.len(),
{
    let vis = visible_faces(b, f, lo, hi);
    let os = Seq::new(qs.len(), |j: int| b.index_of(corner(qs[j])));
    assert forall|j: int| 0 <= j < qs.len() implies #[trigger] contains(f, qs[j], corner(qs[j])) && in_region(lo, hi, corner(qs[j]))
        && b.face_visible(f, corner(qs[j])) by {
        assert(quad_in_region(f, qs[j], lo, hi));
        assert(contains(f, qs[j], corner(qs[j])));
    }
    assert forall|j1: int, j2: int| 0 <= j1 < os.len() && 0 <= j2 < os.len() && j1 != j2 implies os[j1] != os[j2] by {
        if os[j1] == os[j2] {
            lemma_region_local(&b, f, lo, hi);
            assert(contains(f, qs[j1], corner(qs[j1])));
            assert(contains(f, qs[j2], corner(qs[j2])));
            lemma_index_injective(&b, corner(qs[j1]), corner(qs[j2]));
            if j1 < j2 {
                assert(!contains(f, qs[j2], corner(qs[j1])));
            } else {
                assert(!contains(f, qs[j1], corner(qs[j2])));
            }
        }
    }
    os.unique_seq_to_set();
    assert forall|i: int| os.to_set().contains(i) implies vis.contains(i) by {
        let j = choose|j: int| 0 <= j < os.len() && os[j] == i;
        assert(contains(f, qs[j], corner(qs[j])));
    }
    let all = set_int_range(0, b.voxels@.len() as int);
    lemma_int_range(0, b.voxels@.len() as int);
    assert forall|i: int| vis.contains(i) implies all.contains(i) by {
        let c = choose|c: Cell| in_region(lo, hi, c) && b.face_visible(f, c) && b.index_of(c) == i;
        lemma_region_local(&b, f, lo, hi);
        lemma_index_bounds(&b, c);
    }
    lemma_len_subset(vis, all);
    lemma_len_subset(os.to_set(), vis);
}

/// `[lo, hi)` holds `w` on the cells whose coordinates have an even sum and air
/// on the others, and everything around it is air.
pub open spec fn checkerboard(b: VoxelBuffer, lo: Cell, hi: Cell, w: BlockVoxel) -> bool {
    forall|c: Cell|
        b.in_bounds(c) ==> #[trigger] b.voxel_at(c) == if in_region(lo, hi, c) && (c.0 + c.1 + c.2) % 2 == 0 {
            w
        } else {
            air_voxel()
        }
}

proof fn lemma_checkerboard_quad(b: VoxelBuffer, f: Face, lo: Cell, hi: Cell, w: BlockVoxel, q: Quad)
    requires
        b.scan_region_ok(lo, hi),
        checkerboard(b, lo, hi, w),
        quad_in_region(f, q, lo, hi),
        forall|c: Cell| #[trigger] contains(f, q, c) ==> b.mergeable(f, corner(q), c),
    ensures
        q.width == 1 && q.height == 1,
{
    lemma_region_local(&b, f, lo, hi);
    assert(visibility_of(air_voxel()) == VoxelVisibility::Empty);
    let o = corner(q);
    assert(contains(f, q, o));
    if q.width > 1 {
        let c2 = place(f, n_of(f, o), u_of(f, o) + 1, v_of(f, o));
        assert(contains(f, q, c2));
        assert(in_region(lo, hi, c2));
        assert(c2.0 + c2.1 + c2.2 == o.0 + o.1 + o.2 + 1);
    }
    if q.height > 1 {
        let c2 = place(f, n_of(f, o), u_of(f, o), v_of(f, o) + 1);
        assert(contains(f, q, c2));
        assert(in_region(lo, hi, c2));
        assert(c2.0 + c2.1 + c2.2 == o.0 + o.1 + o.2 + 1);
    }
}

/// In a checkerboard no two faces merge across an air gap: every quad is a
/// single face, and each exposed face of a solid cell is the corner of exactly
/// one quad.
pub proof fn lemma_checkerboard_single_faces(b: VoxelBuffer, f: Face, lo: Cell, hi: Cell, w: BlockVoxel, qs: Seq<Quad>)
    requires
        b.scan_region_ok(lo, hi),
        checkerboard(b, lo, hi, w),
        face_quads(b, f, lo, hi, qs),
    ensures
        forall|j: int| 0 <= j < qs.len() ==> #[trigger] qs[j].width == 1 && qs[j].height == 1,
        forall|c: Cell|
            in_region(lo, hi, c) && #[trigger] b.face_visible(f, c) ==> exists|j: int|
                0 <= j < qs.len() && corner(qs[j]) == c,
        forall|j1: int, j2: int|
            0 <= j1 < qs.len() && 0 <= j2 < qs.len() && corner(#[trigger] qs[j1]) == corner(#[trigger] qs[j2])
                ==> j1 == j2,
{
    assert forall|j: int| 0 <= j < qs.len() implies #[trigger] qs[j].width == 1 && qs[j].height == 1 by {
        assert(quad_in_region(f, qs[j], lo, hi));
        lemma_checkerboard_quad(b, f, lo, hi, w, qs[j]);
    }
    assert forall|c: Cell| in_region(lo, hi, c) && #[trigger] b.face_visible(f, c) implies exists|j: int|
        0 <= j < qs.len() && corner(qs[j]) == c by {
        assert(covered(qs, f, c));
        let j = choose|j: int| 0 <= j < qs.len() && #[trigger] contains(f, qs[j], c);
        assert(qs[j].width == 1 && qs[j].height == 1);
        lemma_local_place(f, c);
        lemma_local_place(f, corner(qs[j]));
    }
    assert forall|j1: int, j2: int|
        0 <= j1 < qs.len() && 0 <= j2 < qs.len() && corner(#[trigger] qs[j1]) == corner(#[trigger] qs[j2]) implies j1 == j2 by {
        assert(quad_in_region(f, qs[j1], lo, hi));
        assert(quad_in_region(f, qs[j2], lo, hi));
        assert(contains(f, qs[j1], corner(qs[j1])));
        assert(contains(f, qs[j2], corner(qs[j2])));
        if j1 < j2 {
            assert(!contains(f, qs[j2], corner(qs[j1])));
        } else if j2 < j1 {
            assert(!contains(f, qs[j1], corner(qs[j2])));
        }
    }
}

proof fn lemma_not_covered_by_prefix(b: VoxelBuffer, f: Face, lo: Cell, hi: Cell, a: Seq<Quad>, k: int, c: Cell)
    requires
        quads_sound(b, f, lo, hi, a),
        0 <= k < a.len(),
        contains(f, a[k], c),
    ensures
        !covered(a.subrange(0, k), f, c),
{
    if covered(a.subrange(0, k), f, c) {
        let j = choose|j: int| 0 <= j < k && #[trigger] contains(f, a.subrange(0, k)[j], c);
        assert(a.subrange(0, k)[j] == a[j]);
        assert(contains(f, a[j], c));
    }
}

#[verifier::rlimit(60)]
proof fn lemma_next_quad_equal(b: VoxelBuffer, f: Face, lo: Cell, hi: Cell, a: Seq<Quad>, c: Seq<Quad>, k: int)
    requires
        b.scan_region_ok(lo, hi),
        quads_sound(b, f, lo, hi, a),
        quads_sound(b, f, lo, hi, c),
        0 <= k < a.len(),
        k < c.len(),
        a.subrange(0, k) == c.subrange(0, k),
    ensures
        a[k] == c[k],
{
    lemma_region_local(&b, f, lo, hi);
    let pre = a.subrange(0, k);
    let qa = a[k];
    let qc = c[k];
    let oa = corner(qa);
    let oc = corner(qc);
    assert(greedy_step(b, f, lo, hi, pre, qa));
    assert(greedy_step(b, f, lo, hi, pre, qc));
    assert(quad_in_region(f, qa, lo, hi));
    assert(quad_in_region(f, qc, lo, hi));
    assert(contains(f, qa, oa));
    assert(contains(f, qc, oc));
    assert(b.mergeable(f, oa, oa));
    assert(b.mergeable(f, oc, oc));
    lemma_not_covered_by_prefix(b, f, lo, hi, a, k, oa);
    lemma_not_covered_by_prefix(b, f, lo, hi, c, k, oc);
    if scan_before(f, oa, oc) {
        assert(covered(pre, f, oa));
    }
    if scan_before(f, oc, oa) {
        assert(covered(pre, f, oc));
    }
    lemma_local_place(f, oa);
    lemma_local_place(f, oc);
    assert(oa == oc);
    let n = n_of(f, oa);
    let u = u_of(f, oa);
    let v = v_of(f, oa);
    if qa.width < qc.width {
        let nx = place(f, n, u + qa.width, v);
        lemma_place_local(f, n, u + qa.width, v);
        assert(contains(f, qc, nx));
        lemma_not_covered_by_prefix(b, f, lo, hi, c, k, nx);
    }
    if qc.width < qa.width {
        let nx = place(f, n, u + qc.width, v);
        lemma_place_local(f, n, u + qc.width, v);
        assert(contains(f, qa, nx));
        lemma_not_covered_by_prefix(b, f, lo, hi, a, k, nx);
    }
    assert(qa.width == qc.width);
    if qa.height < qc.height {
        let i = choose|i: int|
            0 <= i < qa.width && !(b.mergeable(f, oa, place(f, n, u + i, v + qa.height))
                && !covered(pre, f, #[trigger] place(f, n, u + i, v + qa.height)));
        let nx = place(f, n, u + i, v + qa.height);
        lemma_place_local(f, n, u + i, v + qa.height);
        assert(contains(f, qc, nx));
        lemma_not_covered_by_prefix(b, f, lo, hi, c, k, nx);
    }
    if qc.height < qa.height {
        let i = choose|i: int|
            0 <= i < qc.width && !(b.mergeable(f, oc, place(f, n, u + i, v + qc.height))
                && !covered(pre, f, #[trigger] place(f, n, u + i, v + qc.height)));
        let nx = place(f, n, u + i, v + qc.height);
        lemma_place_local(f, n, u + i, v + qc.height);
        assert(contains(f, qa, nx));
        lemma_not_covered_by_prefix(b, f, lo, hi, a, k, nx);
    }
}

proof fn lemma_prefix_equal(b: VoxelBuffer, f: Face, lo: Cell, hi: Cell, a: Seq<Quad>, c: Seq<Quad>, k: int)
    requires
        b.scan_region_ok(lo, hi),
        quads_sound(b, f, lo, hi, a),
        quads_sound(b, f, lo, hi, c),
        0 <= k <= a.len(),
        k <= c.len(),
    ensures
        a.subrange(0, k) == c.subrange(0, k),
    decreases k,
{
    if k > 0 {
        lemma_prefix_equal(b, f, lo, hi, a, c, k - 1);
        lemma_next_quad_equal(b, f, lo, hi, a, c, k - 1);
        assert forall|i: int| 0 <= i < k implies a.subrange(0, k)[i] == c.subrange(0, k)[i] by {
            if i < k - 1 {
                assert(a.subrange(0, k - 1)[i] == c.subrange(0, k - 1)[i]);
            }
        }
        assert(a.subrange(0, k) =~= c.subrange(0, k));
    }
}

proof fn lemma_not_shorter(b: VoxelBuffer, f: Face, lo: Cell, hi: Cell, a: Seq<Quad>, c: Seq<Quad>)
    requires
        b.scan_region_ok(lo, hi),
        face_quads(b, f, lo, hi, a),
        face_quads(b, f, lo, hi, c),
    ensures
        c.len() <= a.len(),
{
    if a.len() < c.len() {
        let k = a.len() as int;
        lemma_prefix_equal(b, f, lo, hi, a, c, k);
        let q = c[k];
        let o = corner(q);
        assert(quad_in_region(f, q, lo, hi));
        assert(contains(f, q, o));
        assert(b.mergeable(f, o, o));
        assert(covered(a, f, o));
        let j = choose|j: int| 0 <= j < a.len() && #[trigger] contains(f, a[j], o);
        assert(a.subrange(0, k)[j] == c.subrange(0, k)[j]);
        assert(contains(f, c[j], o));
    }
}

/// Greedy meshing of a face is deterministic: one list of quads alone meets
/// `face_quads`, so two runs on one buffer give the same quads, in the same
/// order.
pub proof fn lemma_face_quads_unique(b: VoxelBuffer, f: Face, lo: Cell, hi: Cell, a: Seq<Quad>, c: Seq<Quad>)
    requires
        b.scan_region_ok(lo, hi),
        face_quads(b, f, lo, hi, a),
        face_quads(b, f, lo, hi, c),
    ensures
        a == c,
{
    lemma_not_shorter(b, f, lo, hi, a, c);
    lemma_not_shorter(b, f, lo, hi, c, a);
    lemma_prefix_equal(b, f, lo, hi, a, c, a.len() as int);
    assert(a.subrange(0, a.len() as int) =~= a);
    assert(c.subrange(0, c.len() as int) =~= c);
}

/// Two results of greedy meshing of one region of one buffer are the same.
pub proof fn lemma_greedy_quads_deterministic(b: VoxelBuffer, lo: Cell, hi: Cell, g1: Seq<Seq<Quad>>, g2: Seq<Seq<Quad>>)
    requires
        b.scan_region_ok(lo, hi),
        g1.len() == 6,
        g2.len() == 6,
        forall|g: int| 0 <= g < 6 ==> face_quads(b, face_at(g), lo, hi, #[trigger] g1[g]),
        forall|g: int| 0 <= g < 6 ==> face_quads(b, face_at(g), lo, hi, #[trigger] g2[g]),
    ensures
        g1 == g2,
{
    assert forall|g: int| 0 <= g < 6 implies g1[g] == g2[g] by {
        lemma_face_quads_unique(b, face_at(g), lo, hi, g1[g], g2[g]);
    }
    assert(g1 =~= g2);
}

/// `[lo, hi)` is filled with `w`, a voxel that is not empty, and every cell
/// around it is air.
pub open spec fn uniform_block(b: VoxelBuffer, lo: Cell, hi: Cell, w: BlockVoxel) -> bool {
    &&& visibility_of(w) != VoxelVisibility::Empty
    &&& forall|c: Cell|
        b.in_bounds(c) ==> #[trigger] b.voxel_at(c) == if in_region(lo, hi, c) {
            w
        } else {
            air_voxel()
        }
}

/// The layer of `[lo, hi)` whose faces in direction `f` look out of it.
pub open spec fn outer_layer(f: Face, lo: Cell, hi: Cell) -> int {
    if normal_sign(f) < 0 {
        n_of(f, lo)
    } else {
        n_of(f, hi) - 1
    }
}

proof fn lemma_uniform_visible(b: VoxelBuffer, f: Face, lo: Cell, hi: Cell, w: BlockVoxel, c: Cell)
    requires
        b.scan_region_ok(lo, hi),
        uniform_block(b, lo, hi, w),
        in_region(lo, hi, c),
    ensures
        b.face_visible(f, c) <==> n_of(f, c) == outer_layer(f, lo, hi),
        n_of(f, c) == outer_layer(f, lo, hi) ==> b.mergeable(f, place(f, outer_layer(f, lo, hi), u_of(f, lo), v_of(f, lo)), c),
{
    lemma_region_local(&b, f, lo, hi);
    lemma_local_place(f, c);
    let nb = neighbour(f, c);
    lemma_place_local(f, n_of(f, c) + normal_sign(f), u_of(f, c), v_of(f, c));
    assert(visibility_of(air_voxel()) == VoxelVisibility::Empty);
    assert(b.voxel_at(c) == w);
    if n_of(f, c) == outer_layer(f, lo, hi) {
        assert(!in_region(lo, hi, nb));
        assert(b.voxel_at(nb) == air_voxel());
        let o = place(f, outer_layer(f, lo, hi), u_of(f, lo), v_of(f, lo));
        lemma_place_local(f, outer_layer(f, lo, hi), u_of(f, lo), v_of(f, lo));
        lemma_place_local(f, outer_layer(f, lo, hi) + normal_sign(f), u_of(f, lo), v_of(f, lo));
        assert(in_region(lo, hi, o));
        assert(!in_region(lo, hi, neighbour(f, o)));
    } else {
        assert(in_region(lo, hi, nb));
    }
}

/// A block of one kind of voxel surrounded by air gets exactly one quad per
/// face direction: the whole outer layer of the block on that side.
#[verifier::rlimit(80)]
pub proof fn lemma_uniform_one_quad(b: VoxelBuffer, f: Face, lo: Cell, hi: Cell, w: BlockVoxel, qs: Seq<Quad>)
    requires
        b.scan_region_ok(lo, hi),
        lo.0 < hi.0 && lo.1 < hi.1 && lo.2 < hi.2,
        uniform_block(b, lo, hi, w),
        face_quads(b, f, lo, hi, qs),
    ensures
        qs.len() == 1,
        corner(qs[0]) == place(f, outer_layer(f, lo, hi), u_of(f, lo), v_of(f, lo)),
        qs[0].width == u_of(f, hi) - u_of(f, lo),
        qs[0].height == v_of(f, hi) - v_of(f, lo),
{
    lemma_region_local(&b, f, lo, hi);
    let layer = outer_layer(f, lo, hi);
    let first = place(f, layer, u_of(f, lo), v_of(f, lo));
    lemma_place_local(f, layer, u_of(f, lo), v_of(f, lo));
    assert(in_region(lo, hi, first));
    lemma_uniform_visible(b, f, lo, hi, w, first);
    assert(covered(qs, f, first));
    let q = qs[0];
    let o = corner(q);
    let empty = qs.subrange(0, 0);
    assert(greedy_step(b, f, lo, hi, empty, q));
    assert(!covered(empty, f, first));
    assert(quad_in_region(f, q, lo, hi));
    assert(contains(f, q, o));
    lemma_uniform_visible(b, f, lo, hi, w, o);
    assert(n_of(f, o) == layer);
    if scan_before(f, first, o) {
        assert(covered(empty, f, first));
    }
    lemma_local_place(f, o);
    assert(o == first);
    let (n, u, v) = (layer, u_of(f, lo), v_of(f, lo));
    if u + q.width < u_of(f, hi) {
        let nx = place(f, n, u + q.width, v);
        lemma_place_local(f, n, u + q.width, v);
        assert(in_region(lo, hi, nx));
        lemma_uniform_visible(b, f, lo, hi, w, nx);
        assert(!covered(empty, f, nx));
    }
    if v + q.height < v_of(f, hi) {
        let i = choose|i: int|
            0 <= i < q.width && !(b.mergeable(f, o, place(f, n, u + i, v + q.height))
                && !covered(empty, f, #[trigger] place(f, n, u + i, v + q.height)));
        let nx = place(f, n, u + i, v + q.height);
        lemma_place_local(f, n, u + i, v + q.height);
        assert(in_region(lo, hi, nx));
        lemma_uniform_visible(b, f, lo, hi, w, nx);
        assert(!covered(empty, f, nx));
    }
    if qs.len() > 1 {
        let q1 = qs[1];
        let o1 = corner(q1);
        assert(quad_in_region(f, q1, lo, hi));
        assert(contains(f, q1, o1));
        lemma_uniform_visible(b, f, lo, hi, w, o1);
        assert(contains(f, q, o1));
    }
}

/// In a checkerboard each face direction gets exactly as many quads as a naive
/// mesher emits faces: one per exposed face of a solid cell.
pub proof fn lemma_checkerboard_count(b: VoxelBuffer, f: Face, lo: Cell, hi: Cell, w: BlockVoxel, qs: Seq<Quad>)
    requires
        b.scan_region_ok(lo, hi),
        checkerboard(b, lo, hi, w),
        face_quads(b, f, lo, hi, qs),
    ensures
        qs.len() == visible_faces(b, f, lo, hi).len(),
{
    lemma_checkerboard_single_faces(b, f, lo, hi, w, qs);
    lemma_quad_count_bound(b, f, lo, hi, qs);
    lemma_region_local(&b, f, lo, hi);
    let vis = visible_faces(b, f, lo, hi);
    let os = Seq::new(qs.len(), |j: int| b.index_of(corner(qs[j])));
    assert forall|j1: int, j2: int| 0 <= j1 < os.len() && 0 <= j2 < os.len() && j1 != j2 implies os[j1] != os[j2] by {
        assert(quad_in_region(f, qs[j1], lo, hi));
        assert(quad_in_region(f, qs[j2], lo, hi));
        if os[j1] == os[j2] {
            lemma_index_injective(&b, corner(qs[j1]), corner(qs[j2]));
        }
    }
    os.unique_seq_to_set();
    assert forall|i: int| vis.contains(i) implies os.to_set().contains(i) by {
        let c = choose|c: Cell| in_region(lo, hi, c) && b.face_visible(f, c) && b.index_of(c) == i;
        let j = choose|j: int| 0 <= j < qs.len() && corner(qs[j]) == c;
        assert(os[j] == i);
    }
    assert forall|i: int| os.to_set().contains(i) implies vis.contains(i) by {
        let j = choose|j: int| 0 <= j < os.len() && os[j] == i;
        assert(quad_in_region(f, qs[j], lo, hi));
        assert(contains(f, qs[j], corner(qs[j])));
        assert(b.mergeable(f, corner(qs[j]), corner(qs[j])));
    }
    assert(os.to_set() =~= vis);
}

} // verus!
