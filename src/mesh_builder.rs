use vstd::prelude::*;

use crate::block_info::{resolve_face_texture, resolved_texture, BlockInfoRegistry, UNKNOWN_TEXTURE_ID};
use crate::mesher::{
    cell_of, corner, face_at, face_exec, face_quads, greedy_quads, is_negative, lemma_quad_count_bound,
    local_exec, n_of, normal_sign, place, place_exec, u_of, v_of, Cell, Face, Quad, VoxelBuffer,
};
use crate::streaming::{ChunkPosition, CHUNK_SIZE};

verus! {

/// A vertex position in world space.
pub type Vertex = (i64, i64, i64);

/// A face normal.
pub type Normal = (i32, i32, i32);

/// A texture coordinate, in blocks across the quad.
pub type Uv = (usize, usize);

/// Render-ready buffers of a chunk: four vertices and six indices per quad.
pub struct ChunkMesh {
    pub positions: Vec<Vertex>,
    pub normals: Vec<Normal>,
    pub uvs: Vec<Uv>,
    pub texture_ids: Vec<u32>,
    pub indices: Vec<usize>,
}

/// The outward unit normal of a face direction.
pub open spec fn face_normal(f: Face) -> (int, int, int) {
    match f {
        Face::NegX => (-1, 0, 0),
        Face::NegY => (0, -1, 0),
        Face::NegZ => (0, 0, -1),
        Face::PosX => (1, 0, 0),
        Face::PosY => (0, 1, 0),
        Face::PosZ => (0, 0, 1),
    }
}

/// Whether the quads of a face are wound counter-clockwise, so that each
/// triangle faces outward.
pub open spec fn counter_clockwise(f: Face) -> bool {
    f == Face::NegX || f == Face::PosY || f == Face::PosZ
}

/// Whether texture coordinates run against the face's `u` axis.
pub open spec fn flip_u(f: Face) -> bool {
    f == Face::NegY || f == Face::NegZ || f == Face::PosX
}

/// Corner `c` (0 to 3) of the quad: `c` bit 0 steps along `u`, bit 1 along `v`.
/// A face pointing to positive coordinates lies on the far side of its cells.
pub open spec fn quad_vertex(f: Face, q: Quad, c: int) -> Cell {
    let o = corner(q);
    let n = if normal_sign(f) > 0 { n_of(f, o) + 1 } else { n_of(f, o) };
    let du = if c == 1 || c == 3 { q.width as int } else { 0 };
    let dv = if c == 2 || c == 3 { q.height as int } else { 0 };
    place(f, n, u_of(f, o) + du, v_of(f, o) + dv)
}

/// The texture coordinate of corner `c`, with `v` flipped on every face.
pub open spec fn quad_uv(f: Face, q: Quad, c: int) -> (int, int) {
    let u = if c == 1 || c == 3 { q.width as int } else { 0 };
    let v = if c == 2 || c == 3 { q.height as int } else { 0 };
    (if flip_u(f) { q.width - u } else { u }, q.height - v)
}

/// Index `t` (0 to 5) of the two triangles of a quad whose vertices start at `s`.
pub open spec fn quad_index(f: Face, s: int, t: int) -> int {
    if counter_clockwise(f) {
        if t == 0 { s } else if t == 1 { s + 1 } else if t == 2 { s + 2 } else if t == 3 { s + 1 } else if t == 4 { s + 3 } else { s + 2 }
    } else {
        if t == 0 { s } else if t == 1 { s + 2 } else if t == 2 { s + 1 } else if t == 3 { s + 1 } else if t == 4 { s + 2 } else { s + 3 }
    }
}

/// The texture of a quad: that of the block of its corner cell for the side
/// its normal points to, or the unknown id where the block is not registered.
pub open spec fn quad_texture(reg: BlockInfoRegistry, b: VoxelBuffer, f: Face, q: Quad) -> u32 {
    let h = b.voxel_at(corner(q)).block_info_key_hash;
    if reg.entries().contains_key(h) {
        resolved_texture(reg.entries()[h].sides, face_normal(f))
    } else {
        UNKNOWN_TEXTURE_ID
    }
}

/// Where the chunk's local coordinates start in the world: its position times
/// the interior size, less half the interior size so that the chunk is centred.
pub open spec fn chunk_origin(p: ChunkPosition) -> Cell {
    (p.x * CHUNK_SIZE - CHUNK_SIZE / 2, p.y * CHUNK_SIZE - CHUNK_SIZE / 2, p.z * CHUNK_SIZE - CHUNK_SIZE / 2)
}

pub open spec fn vertex_at(m: ChunkMesh, i: int) -> Cell {
    (m.positions@[i].0 as int, m.positions@[i].1 as int, m.positions@[i].2 as int)
}

pub open spec fn vertex_holds(m: ChunkMesh, i: int, f: Face, q: Quad, c: int, tex: u32, origin: Cell) -> bool {
    let p = quad_vertex(f, q, c);
    &&& vertex_at(m, i) == (p.0 + origin.0, p.1 + origin.1, p.2 + origin.2)
    &&& (m.normals@[i].0 as int, m.normals@[i].1 as int, m.normals@[i].2 as int) == face_normal(f)
    &&& (m.uvs@[i].0 as int, m.uvs@[i].1 as int) == quad_uv(f, q, c)
    &&& m.texture_ids@[i] == tex
}

/// Quad `k` of the mesh is `q` of face `f` with texture `tex`.
pub open spec fn quad_holds(m: ChunkMesh, k: int, f: Face, q: Quad, tex: u32, origin: Cell) -> bool {
    &&& vertex_holds(m, 4 * k, f, q, 0, tex, origin)
    &&& vertex_holds(m, 4 * k + 1, f, q, 1, tex, origin)
    &&& vertex_holds(m, 4 * k + 2, f, q, 2, tex, origin)
    &&& vertex_holds(m, 4 * k + 3, f, q, 3, tex, origin)
    &&& forall|t: int| 0 <= t < 6 ==> #[trigger] m.indices@[6 * k + t] == quad_index(f, 4 * k, t)
}

/// The mesh holds the quads `tagged`, each with its face, in order.
pub open spec fn mesh_of(m: ChunkMesh, tagged: Seq<(Face, Quad)>, reg: BlockInfoRegistry, b: VoxelBuffer, origin: Cell) -> bool {
    &&& m.positions@.len() == 4 * tagged.len()
    &&& m.normals@.len() == 4 * tagged.len()
    &&& m.uvs@.len() == 4 * tagged.len()
    &&& m.texture_ids@.len() == 4 * tagged.len()
    &&& m.indices@.len() == 6 * tagged.len()
    &&& forall|k: int|
        0 <= k < tagged.len() ==> quad_holds(
            m,
            k,
            #[trigger] tagged[k].0,
            tagged[k].1,
            quad_texture(reg, b, tagged[k].0, tagged[k].1),
            origin,
        )
}

pub open spec fn tag_group(g: int, qs: Seq<Quad>) -> Seq<(Face, Quad)> {
    Seq::new(qs.len(), |i: int| (face_at(g), qs[i]))
}

/// The quads of all faces, in face order, each with its face.
pub open spec fn tagged_quads(groups: Seq<Seq<Quad>>) -> Seq<(Face, Quad)>
    decreases groups.len(),
{
    if groups.len() == 0 {
        Seq::empty()
    } else {
        tagged_quads(groups.drop_last()) + tag_group(groups.len() - 1, groups.last())
    }
}

fn face_normal_exec(f: Face) -> (r: [i32; 3])
    ensures
        (r@[0] as int, r@[1] as int, r@[2] as int) == face_normal(f),
{
    match f {
        Face::NegX => [-1, 0, 0],
        Face::NegY => [0, -1, 0],
        Face::NegZ => [0, 0, -1],
        Face::PosX => [1, 0, 0],
        Face::PosY => [0, 1, 0],
        Face::PosZ => [0, 0, 1],
    }
}

pub open spec fn origin_cell(o: (i64, i64, i64)) -> Cell {
    (o.0 as int, o.1 as int, o.2 as int)
}

fn quad_texture_exec(reg: &BlockInfoRegistry, b: &VoxelBuffer, f: Face, q: Quad) -> (r: u32)
    requires
        reg.wf(),
        b.wf(),
        b.in_bounds(corner(q)),
    ensures
        r == quad_texture(*reg, *b, f, q),
{
    let voxel = b.get(q.x, q.y, q.z);
    match reg.get_block_info_by_hash(voxel.block_info_key_hash) {
        Ok(info) => resolve_face_texture(info, face_normal_exec(f)),
        Err(_) => UNKNOWN_TEXTURE_ID,
    }
}

#[verifier::rlimit(80)]
#[verifier::loop_isolation(false)]
fn append_quad(
    m: &mut ChunkMesh,
    f: Face,
    q: Quad,
    tex: u32,
    origin: (i64, i64, i64),
    tagged: Ghost<Seq<(Face, Quad)>>,
    reg: Ghost<BlockInfoRegistry>,
    b: Ghost<VoxelBuffer>,
    lo: Ghost<Cell>,
    hi: Ghost<Cell>,
)
    requires
        mesh_of(*old(m), tagged@, reg@, b@, origin_cell(origin)),
        tex == quad_texture(reg@, b@, f, q),
        6 * tagged@.len() + 6 <= usize::MAX,
        b@.scan_region_ok(lo@, hi@),
        crate::mesher::quad_in_region(f, q, lo@, hi@),
        b@.size_x <= 0x7fff_ffff,
        b@.size_y <= 0x7fff_ffff,
        b@.size_z <= 0x7fff_ffff,
        -0x1_0000_0000_0000 <= origin.0 <= 0x1_0000_0000_0000,
        -0x1_0000_0000_0000 <= origin.1 <= 0x1_0000_0000_0000,
        -0x1_0000_0000_0000 <= origin.2 <= 0x1_0000_0000_0000,
    ensures
        mesh_of(*final(m), tagged@.push((f, q)), reg@, b@, origin_cell(origin)),
{
    proof {
        crate::mesher::lemma_region_local(&b@, f, lo@, hi@);
    }
    let ghost old_m = *m;
    let ghost k = tagged@.len() as int;
    let (n, u, v) = local_exec(f, [q.x, q.y, q.z]);
    proof {
        assert(crate::mesher::cell_of([q.x, q.y, q.z]) == corner(q));
    }
    let nn = if is_negative(f) {
        n
    } else {
        n + 1
    };
    let normal = face_normal_exec(f);
    let nt: Normal = (normal[0], normal[1], normal[2]);
    let s = m.positions.len();
    let mut c: usize = 0;
    while c < 4
        invariant
            c <= 4,
            s == 4 * k,
            m.positions@.len() == 4 * k + c,
            m.normals@.len() == 4 * k + c,
            m.uvs@.len() == 4 * k + c,
            m.texture_ids@.len() == 4 * k + c,
            m.indices@ == old_m.indices@,
            forall|i: int| 0 <= i < 4 * k ==> #[trigger] m.positions@[i] == old_m.positions@[i],
            forall|i: int| 0 <= i < 4 * k ==> #[trigger] m.normals@[i] == old_m.normals@[i],
            forall|i: int| 0 <= i < 4 * k ==> #[trigger] m.uvs@[i] == old_m.uvs@[i],
            forall|i: int| 0 <= i < 4 * k ==> #[trigger] m.texture_ids@[i] == old_m.texture_ids@[i],
            forall|j: int| 0 <= j < c ==> #[trigger] vertex_holds(*m, 4 * k + j, f, q, j, tex, origin_cell(origin)),
        decreases 4 - c,
    {
        let du = if c == 1 || c == 3 { q.width } else { 0 };
        let dv = if c == 2 || c == 3 { q.height } else { 0 };
        let p = place_exec(f, nn, u + du, v + dv);
        let w = (p.0 as i64 + origin.0, p.1 as i64 + origin.1, p.2 as i64 + origin.2);
        let tu = if c == 1 || c == 3 { q.width } else { 0 };
        let tv = if c == 2 || c == 3 { q.height } else { 0 };
        let uv = (if flip_u_exec(f) { q.width - tu } else { tu }, q.height - tv);
        let ghost before = *m;
        m.positions.push(w);
        m.normals.push(nt);
        m.uvs.push(uv);
        m.texture_ids.push(tex);
        proof {
            assert(vertex_holds(*m, 4 * k + c, f, q, c as int, tex, origin_cell(origin)));
            assert forall|j: int| 0 <= j < c + 1 implies #[trigger] vertex_holds(*m, 4 * k + j, f, q, j, tex, origin_cell(origin)) by {
                if j < c {
                    assert(vertex_holds(before, 4 * k + j, f, q, j, tex, origin_cell(origin)));
                }
            }
        }
        c = c + 1;
    }
    let ghost mv = *m;
    let ccw = counter_clockwise_exec(f);
    if ccw {
        m.indices.push(s);
        m.indices.push(s + 1);
        m.indices.push(s + 2);
        m.indices.push(s + 1);
        m.indices.push(s + 3);
        m.indices.push(s + 2);
    } else {
        m.indices.push(s);
        m.indices.push(s + 2);
        m.indices.push(s + 1);
        m.indices.push(s + 1);
        m.indices.push(s + 2);
        m.indices.push(s + 3);
    }
    proof {
        let t2 = tagged@.push((f, q));
        assert forall|t: int| 0 <= t < 6 implies #[trigger] m.indices@[6 * k + t] == quad_index(f, 4 * k, t) by {
        }
        assert forall|kk: int| 0 <= kk < t2.len() implies quad_holds(
            *m,
            kk,
            #[trigger] t2[kk].0,
            t2[kk].1,
            quad_texture(reg@, b@, t2[kk].0, t2[kk].1),
            origin_cell(origin),
        ) by {
            if kk < k {
                let (f2, q2) = tagged@[kk];
                let tex2 = quad_texture(reg@, b@, f2, q2);
                assert(t2[kk] == tagged@[kk]);
                assert(quad_holds(old_m, kk, f2, q2, tex2, origin_cell(origin)));
                assert(vertex_holds(old_m, 4 * kk, f2, q2, 0, tex2, origin_cell(origin)));
                assert(vertex_holds(*m, 4 * kk, f2, q2, 0, tex2, origin_cell(origin)));
                assert(vertex_holds(*m, 4 * kk + 1, f2, q2, 1, tex2, origin_cell(origin)));
                assert(vertex_holds(*m, 4 * kk + 2, f2, q2, 2, tex2, origin_cell(origin)));
                assert(vertex_holds(*m, 4 * kk + 3, f2, q2, 3, tex2, origin_cell(origin)));
                assert forall|t: int| 0 <= t < 6 implies #[trigger] m.indices@[6 * kk + t] == quad_index(f2, 4 * kk, t) by {
                    assert(old_m.indices@[6 * kk + t] == quad_index(f2, 4 * kk, t));
                }
            } else {
                assert(t2[kk] == (f, q));
                let (j0, j1, j2, j3) = (0int, 1int, 2int, 3int);
                assert(vertex_holds(mv, 4 * k + j0, f, q, j0, tex, origin_cell(origin)));
                assert(vertex_holds(mv, 4 * k + j1, f, q, j1, tex, origin_cell(origin)));
                assert(vertex_holds(mv, 4 * k + j2, f, q, j2, tex, origin_cell(origin)));
                assert(vertex_holds(mv, 4 * k + j3, f, q, j3, tex, origin_cell(origin)));
                assert(m.positions@ == mv.positions@ && m.normals@ == mv.normals@ && m.uvs@ == mv.uvs@
                    && m.texture_ids@ == mv.texture_ids@);
                assert(vertex_holds(*m, 4 * k, f, q, 0, tex, origin_cell(origin)));
            }
        }
    }
}

fn flip_u_exec(f: Face) -> (r: bool)
    ensures
        r == flip_u(f),
{
    match f {
        Face::NegY | Face::NegZ | Face::PosX => true,
        _ => false,
    }
}

fn counter_clockwise_exec(f: Face) -> (r: bool)
    ensures
        r == counter_clockwise(f),
{
    match f {
        Face::NegX | Face::PosY | Face::PosZ => true,
        _ => false,
    }
}

/// The interior of a buffer with a one-voxel halo, as a half-open box.
pub open spec fn interior_lo() -> Cell {
    (1, 1, 1)
}

pub open spec fn interior_hi(b: VoxelBuffer) -> Cell {
    (b.size_x - 1, b.size_y - 1, b.size_z - 1)
}

/// The render buffers of the chunk at `position` from its voxels, which carry
/// a one-voxel halo: the greedy quads of the interior, face by face, each with
/// its four corners in world space, normals, texture coordinates and texture
/// id, and its two triangles.
#[verifier::loop_isolation(false)]
pub fn build_chunk_mesh(buffer: &VoxelBuffer, position: ChunkPosition, registry: &BlockInfoRegistry) -> (r: ChunkMesh)
    requires
        buffer.wf(),
        registry.wf(),
        2 <= buffer.size_x <= 0x7fff_ffff,
        2 <= buffer.size_y <= 0x7fff_ffff,
        2 <= buffer.size_z <= 0x7fff_ffff,
        36 * buffer.voxels@.len() + 6 <= usize::MAX,
    ensures
        exists|groups: Seq<Seq<Quad>>|
            {
                &&& groups.len() == 6
                &&& forall|g: int|
                    0 <= g < 6 ==> face_quads(*buffer, face_at(g), interior_lo(), interior_hi(*buffer), #[trigger] groups[g])
                &&& mesh_of(r, tagged_quads(groups), *registry, *buffer, chunk_origin(position))
            },
{
    let ghost lo = interior_lo();
    let ghost hi = interior_hi(*buffer);
    let ghost len = buffer.voxels@.len() as int;
    let min = [1usize, 1, 1];
    let max = [buffer.size_x - 1, buffer.size_y - 1, buffer.size_z - 1];
    proof {
        assert(cell_of(min) == lo && cell_of(max) == hi);
    }
    let groups = greedy_quads(buffer, min, max);
    let ghost views = Seq::new(6, |g: int| groups@[g]@);
    let origin: (i64, i64, i64) = (
        position.x as i64 * 16 - 8,
        position.y as i64 * 16 - 8,
        position.z as i64 * 16 - 8,
    );
    let mut m = ChunkMesh {
        positions: Vec::new(),
        normals: Vec::new(),
        uvs: Vec::new(),
        texture_ids: Vec::new(),
        indices: Vec::new(),
    };
    let ghost mut tagged: Seq<(Face, Quad)> = Seq::empty();
    proof {
        assert(origin_cell(origin) == chunk_origin(position));
        assert(views.subrange(0, 0) =~= Seq::<Seq<Quad>>::empty());
    }
    let mut g: usize = 0;
    while g < 6
        invariant
            g <= 6,
            mesh_of(m, tagged, *registry, *buffer, origin_cell(origin)),
            tagged == tagged_quads(views.subrange(0, g as int)),
            tagged.len() <= g * len,
        decreases 6 - g,
    {
        let f = face_exec(g);
        let qs = &groups[g];
        proof {
            assert(views[g as int] == qs@);
            lemma_quad_count_bound(*buffer, f, lo, hi, qs@);
        }
        let mut j: usize = 0;
        while j < qs.len()
            invariant
                g < 6,
                j <= qs@.len(),
                qs@.len() <= len,
                mesh_of(m, tagged, *registry, *buffer, origin_cell(origin)),
                tagged == tagged_quads(views.subrange(0, g as int)) + tag_group(g as int, qs@.subrange(0, j as int)),
                tagged.len() <= g * len + j,
            decreases qs@.len() - j,
        {
            let q = qs[j];
            proof {
                assert(crate::mesher::quad_in_region(f, qs@[j as int], lo, hi));
                crate::mesher::lemma_region_local(buffer, f, lo, hi);
                assert(g * len + j < 6 * len) by (nonlinear_arith)
                    requires
                        g < 6,
                        j < len,
                ;
            }
            let tex = quad_texture_exec(registry, buffer, f, q);
            append_quad(&mut m, f, q, tex, origin, Ghost(tagged), Ghost(*registry), Ghost(*buffer), Ghost(lo), Ghost(hi));
            proof {
                let a = tagged_quads(views.subrange(0, g as int));
                let b1 = tag_group(g as int, qs@.subrange(0, j as int));
                let b2 = tag_group(g as int, qs@.subrange(0, j + 1));
                assert(b2 =~= b1.push((f, q)));
                assert((a + b1).push((f, q)) =~= a + b2);
                tagged = tagged.push((f, q));
            }
            j = j + 1;
        }
        proof {
            let sub = views.subrange(0, g + 1);
            assert(sub.drop_last() =~= views.subrange(0, g as int));
            assert(sub.last() == qs@);
            assert(qs@.subrange(0, qs@.len() as int) =~= qs@);
            assert(g * len + qs@.len() <= (g + 1) * len) by (nonlinear_arith)
                requires
                    qs@.len() <= len,
            ;
        }
        g = g + 1;
    }
    proof {
        assert(views.subrange(0, 6) =~= views);
        assert forall|g: int| 0 <= g < 6 implies face_quads(*buffer, face_at(g), interior_lo(), interior_hi(*buffer), #[trigger] views[g]) by {
            assert(views[g] == groups@[g]@);
        }
    }
    m
}

} // verus!
