use vstd::prelude::*;

verus! {

/// Number of blocks along each axis of a chunk's interior.
pub const CHUNK_SIZE: i32 = 16;

/// A chunk's position in chunk-grid units.
#[derive(Clone, Copy, Debug, PartialEq, Eq, Hash, Structural)]
pub struct ChunkPosition {
    pub x: i32,
    pub y: i32,
    pub z: i32,
}

/// The fixed parameters of streaming.
#[derive(Clone, Copy, Debug, PartialEq, Eq, Structural)]
pub struct StreamingConfig {
    pub horizontal_radius: i32,
    pub vertical_multiplier: i32,
    pub world_height_chunks: i32,
}

/// What one tick asks for: chunks to drop, then chunks to bring in.
#[derive(Clone, Debug)]
pub struct ChunkIntents {
    pub unload: Vec<ChunkPosition>,
    pub load: Vec<ChunkPosition>,
}

/// Squared distance of `c` from `v` in the horizontal plane.
pub open spec fn horizontal_distance_squared(c: ChunkPosition, v: ChunkPosition) -> int {
    (c.x - v.x) * (c.x - v.x) + (c.z - v.z) * (c.z - v.z)
}

/// The horizontal squared distance held against the horizontal radius, or
/// against the radius times the vertical multiplier.
pub open spec fn in_radius(c: ChunkPosition, v: ChunkPosition, cfg: StreamingConfig) -> bool {
    let d = horizontal_distance_squared(c, v);
    d <= cfg.horizontal_radius || d <= cfg.horizontal_radius * cfg.vertical_multiplier
}

/// The vertical reach of the load box.
pub open spec fn vertical_reach(cfg: StreamingConfig) -> int {
    cfg.horizontal_radius * cfg.vertical_multiplier
}

pub open spec fn y_from(v: ChunkPosition, cfg: StreamingConfig) -> int {
    if v.y - vertical_reach(cfg) > 0 { v.y - vertical_reach(cfg) } else { 0 }
}

pub open spec fn y_to(v: ChunkPosition, cfg: StreamingConfig) -> int {
    if v.y + vertical_reach(cfg) < cfg.world_height_chunks - 1 {
        v.y + vertical_reach(cfg)
    } else {
        cfg.world_height_chunks - 1
    }
}

/// `c` lies in the box of candidates around `v`.
pub open spec fn in_load_box(c: ChunkPosition, v: ChunkPosition, cfg: StreamingConfig) -> bool {
    &&& y_from(v, cfg) <= c.y <= y_to(v, cfg)
    &&& v.x - cfg.horizontal_radius <= c.x <= v.x + cfg.horizontal_radius
    &&& v.z - cfg.horizontal_radius <= c.z <= v.z + cfg.horizontal_radius
}

/// Walk order of the candidates: by `y`, then `x`, then `z`.
pub open spec fn walk_before(a: ChunkPosition, b: ChunkPosition) -> bool {
    a.y < b.y || (a.y == b.y && (a.x < b.x || (a.x == b.x && a.z < b.z)))
}

pub open spec fn strictly_walk_ordered(s: Seq<ChunkPosition>) -> bool {
    forall|i: int, j: int| 0 <= i < j < s.len() ==> walk_before(#[trigger] s[i], #[trigger] s[j])
}

/// The viewer's chunk lies where the load box fits in `i32`.
pub open spec fn viewer_ok(v: ChunkPosition, cfg: StreamingConfig) -> bool {
    &&& i32::MIN <= v.x - cfg.horizontal_radius
    &&& v.x + cfg.horizontal_radius <= i32::MAX
    &&& i32::MIN <= v.z - cfg.horizontal_radius
    &&& v.z + cfg.horizontal_radius <= i32::MAX
}

/// The intents of one tick for viewer chunk `v` and the resident chunks
/// `resident`: the resident chunks out of radius are unloaded, in their order;
/// the candidates in radius that are not resident and kept are loaded, in walk
/// order.
pub open spec fn tick_intents(
    v: ChunkPosition,
    resident: Seq<ChunkPosition>,
    cfg: StreamingConfig,
    unload: Seq<ChunkPosition>,
    load: Seq<ChunkPosition>,
) -> bool {
    &&& unload == resident.filter(|c: ChunkPosition| !in_radius(c, v, cfg))
    &&& strictly_walk_ordered(load)
    &&& forall|c: ChunkPosition|
        #[trigger] load.contains(c) <==> (in_load_box(c, v, cfg) && in_radius(c, v, cfg)
            && !resident.contains(c))
}

/// Whether chunk `chunk_position` is within the load radius of `player_chunk_position`.
pub fn is_chunk_in_radius(chunk_position: ChunkPosition, player_chunk_position: ChunkPosition, cfg: StreamingConfig) -> (r: bool)
    ensures
        r == in_radius(chunk_position, player_chunk_position, cfg),
{
    let dx = chunk_position.x as i128 - player_chunk_position.x as i128;
    let dz = chunk_position.z as i128 - player_chunk_position.z as i128;
    assert(dx * dx <= 0x1_0000_0000_0000_0000) by (nonlinear_arith)
        requires
            -0x1_0000_0000 <= dx <= 0x1_0000_0000,
    ;
    assert(dz * dz <= 0x1_0000_0000_0000_0000) by (nonlinear_arith)
        requires
            -0x1_0000_0000 <= dz <= 0x1_0000_0000,
    ;
    assert(0 <= dx * dx && 0 <= dz * dz) by (nonlinear_arith);
    let horizontal_distance = dx * dx + dz * dz;
    let vertical_distance = dx * dx + dz * dz;
    let r = cfg.horizontal_radius as i128;
    let m = cfg.vertical_multiplier as i128;
    assert(-0x4000_0000_0000_0000 <= r * m <= 0x4000_0000_0000_0000) by (nonlinear_arith)
        requires
            -0x8000_0000 <= r <= 0x8000_0000,
            -0x8000_0000 <= m <= 0x8000_0000,
    ;
    horizontal_distance <= r || vertical_distance <= r * m
}

/// The chunk that holds block `(x, y, z)`: each coordinate divided by the
/// chunk size, rounded down.
pub fn chunk_of_block(x: i32, y: i32, z: i32) -> (r: ChunkPosition)
    ensures
        CHUNK_SIZE * r.x <= x < CHUNK_SIZE * r.x + CHUNK_SIZE,
        CHUNK_SIZE * r.y <= y < CHUNK_SIZE * r.y + CHUNK_SIZE,
        CHUNK_SIZE * r.z <= z < CHUNK_SIZE * r.z + CHUNK_SIZE,
{
    ChunkPosition { x: floor_div_chunk(x), y: floor_div_chunk(y), z: floor_div_chunk(z) }
}

fn floor_div_chunk(a: i32) -> (q: i32)
    ensures
        CHUNK_SIZE * q <= a < CHUNK_SIZE * q + CHUNK_SIZE,
{
    let w = a as i64;
    if w >= 0 {
        let q = w / 16;
        assert(16 * q <= w < 16 * q + 16) by (nonlinear_arith)
            requires
                w >= 0,
                q == w / 16,
        ;
        q as i32
    } else {
        let m = -w - 1;
        let d = m / 16;
        let q = -d - 1;
        assert(16 * q <= w < 16 * q + 16) by (nonlinear_arith)
            requires
                m >= 0,
                m == -w - 1,
                d == m / 16,
                q == -d - 1,
        ;
        q as i32
    }
}

fn contains_position(s: &Vec<ChunkPosition>, c: ChunkPosition) -> (r: bool)
    ensures
        r == s@.contains(c),
{
    let mut i: usize = 0;
    while i < s.len()
        invariant
            i <= s@.len(),
            forall|j: int| 0 <= j < i ==> s@[j] != c,
        decreases s@.len() - i,
    {
        if s[i] == c {
            return true;
        }
        i = i + 1;
    }
    false
}

pub open spec fn before_point(c: ChunkPosition, y: int, x: int, z: int) -> bool {
    c.y < y || (c.y == y && (c.x < x || (c.x == x && c.z < z)))
}

/// The chunks in radius of `v` that the walk of the load box meets before
/// `(y, x, z)` and that are not in `kept`.
pub open spec fn loads_before(
    c: ChunkPosition,
    v: ChunkPosition,
    cfg: StreamingConfig,
    kept: Seq<ChunkPosition>,
    y: int,
    x: int,
    z: int,
) -> bool {
    in_load_box(c, v, cfg) && in_radius(c, v, cfg) && !kept.contains(c) && before_point(c, y, x, z)
}

/// The resident chunks out of radius of `v`, in their order.
fn chunks_to_unload(resident: &Vec<ChunkPosition>, v: ChunkPosition, cfg: StreamingConfig) -> (r: Vec<ChunkPosition>)
    ensures
        r@ == resident@.filter(|c: ChunkPosition| !in_radius(c, v, cfg)),
{
    let mut unload: Vec<ChunkPosition> = Vec::new();
    let mut i: usize = 0;
    while i < resident.len()
        invariant
            i <= resident@.len(),
            unload@ == resident@.subrange(0, i as int).filter(|c: ChunkPosition| !in_radius(c, v, cfg)),
        decreases resident@.len() - i,
    {
        let c = resident[i];
        let ghost s1 = resident@.subrange(0, i + 1);
        proof {
            reveal(Seq::filter);
            assert(s1.drop_last() =~= resident@.subrange(0, i as int));
            assert(s1.last() == c);
            let drop_pred = |c: ChunkPosition| !in_radius(c, v, cfg);
            assert(s1.filter(drop_pred) == if drop_pred(c) {
                resident@.subrange(0, i as int).filter(drop_pred).push(c)
            } else {
                resident@.subrange(0, i as int).filter(drop_pred)
            });
        }
        if !is_chunk_in_radius(c, v, cfg) {
            unload.push(c);
        }
        i = i + 1;
    }
    proof {
        assert(resident@.subrange(0, resident@.len() as int) =~= resident@);
    }
    unload
}

/// The chunks in radius of `v` in the load box that are not in `kept`, in
/// walk order.
#[verifier::loop_isolation(false)]
fn load_candidates(v: ChunkPosition, cfg: StreamingConfig, kept: &Vec<ChunkPosition>) -> (load: Vec<
    ChunkPosition,
>)
    requires
        viewer_ok(v, cfg),
    ensures
        strictly_walk_ordered(load@),
        forall|c: ChunkPosition|
            #[trigger] load@.contains(c) <==> (in_load_box(c, v, cfg) && in_radius(c, v, cfg)
                && !kept@.contains(c)),
{
    assert(-0x4000_0000_0000_0000 <= cfg.horizontal_radius * cfg.vertical_multiplier <= 0x4000_0000_0000_0000) by (nonlinear_arith)
        requires
            -0x8000_0000 <= cfg.horizontal_radius <= 0x8000_0000,
            -0x8000_0000 <= cfg.vertical_multiplier <= 0x8000_0000,
    ;
    let reach = cfg.horizontal_radius as i64 * cfg.vertical_multiplier as i64;
    let from_y: i64 = if v.y as i64 - reach > 0 {
        v.y as i64 - reach
    } else {
        0
    };
    let to_y: i64 = if v.y as i64 + reach < cfg.world_height_chunks as i64 - 1 {
        v.y as i64 + reach
    } else {
        cfg.world_height_chunks as i64 - 1
    };
    let from_x = v.x as i64 - cfg.horizontal_radius as i64;
    let to_x = v.x as i64 + cfg.horizontal_radius as i64;
    let from_z = v.z as i64 - cfg.horizontal_radius as i64;
    let to_z = v.z as i64 + cfg.horizontal_radius as i64;
    assert(from_y == y_from(v, cfg) && to_y == y_to(v, cfg));
    let mut load: Vec<ChunkPosition> = Vec::new();
    let mut y = from_y;
    while y <= to_y
        invariant
            from_y <= y,
            y <= to_y + 1 || y == from_y,
            strictly_walk_ordered(load@),
            forall|c: ChunkPosition| #[trigger] load@.contains(c) ==> before_point(c, y as int, from_x as int, from_z as int),
            forall|c: ChunkPosition|
                #[trigger] load@.contains(c) <==> loads_before(c, v, cfg, kept@, y as int, from_x as int, from_z as int),
        decreases to_y + 1 - y,
    {
        let mut x = from_x;
        while x <= to_x
            invariant
                from_y <= y <= to_y,
                from_x <= x,
                x <= to_x + 1 || x == from_x,
                strictly_walk_ordered(load@),
                forall|c: ChunkPosition| #[trigger] load@.contains(c) ==> before_point(c, y as int, x as int, from_z as int),
                forall|c: ChunkPosition|
                    #[trigger] load@.contains(c) <==> loads_before(c, v, cfg, kept@, y as int, x as int, from_z as int),
            decreases to_x + 1 - x,
        {
            let mut z = from_z;
            while z <= to_z
                invariant
                    from_y <= y <= to_y,
                    from_x <= x <= to_x,
                    from_z <= z,
                    z <= to_z + 1 || z == from_z,
                    strictly_walk_ordered(load@),
                    forall|c: ChunkPosition| #[trigger] load@.contains(c) ==> before_point(c, y as int, x as int, z as int),
                    forall|c: ChunkPosition|
                        #[trigger] load@.contains(c) <==> loads_before(c, v, cfg, kept@, y as int, x as int, z as int),
                decreases to_z + 1 - z,
            {
                let chunk_position = ChunkPosition { x: x as i32, y: y as i32, z: z as i32 };
                if is_chunk_in_radius(chunk_position, v, cfg) && !contains_position(kept, chunk_position) {
                    let ghost old_load = load@;
                    load.push(chunk_position);
                    proof {
                        assert forall|c: ChunkPosition| #[trigger] load@.contains(c) <==> (old_load.contains(c) || c == chunk_position) by {
                            if load@.contains(c) {
                                let k = choose|k: int| 0 <= k < load@.len() && load@[k] == c;
                                if k < old_load.len() {
                                    assert(old_load[k] == c);
                                }
                            }
                            if old_load.contains(c) {
                                let k = choose|k: int| 0 <= k < old_load.len() && old_load[k] == c;
                                assert(load@[k] == c);
                            }
                            if c == chunk_position {
                                assert(load@[old_load.len() as int] == c);
                            }
                        }
                        assert forall|i: int, j: int| 0 <= i < j < load@.len() implies walk_before(#[trigger] load@[i], #[trigger] load@[j]) by {
                            if j == old_load.len() {
                                assert(old_load.contains(load@[i]));
                            } else {
                                assert(old_load[i] == load@[i] && old_load[j] == load@[j]);
                            }
                        }
                    }
                }
                z = z + 1;
            }
            x = x + 1;
        }
        y = y + 1;
    }
    load
}

/// One tick of streaming: with the viewer in chunk `viewer`, the resident
/// chunks out of radius are to be unloaded, then the chunks of the load box
/// in radius and not resident loaded. Without a viewer, nothing is asked.
pub fn on_world_update(viewer: Option<ChunkPosition>, resident: &Vec<ChunkPosition>, cfg: StreamingConfig) -> (r: ChunkIntents)
    requires
        viewer matches Some(v) ==> viewer_ok(v, cfg),
    ensures
        viewer is None ==> r.unload@.len() == 0 && r.load@.len() == 0,
        viewer matches Some(v) ==> tick_intents(v, resident@, cfg, r.unload@, r.load@),
{
    let v = match viewer {
        Some(v) => v,
        None => {
            return ChunkIntents { unload: Vec::new(), load: Vec::new() };
        },
    };
    let unload = chunks_to_unload(resident, v, cfg);
    // The resident chunks in radius are kept; no candidate that is resident is loaded.
    let load = load_candidates(v, cfg, resident);
    ChunkIntents { unload, load }
}

proof fn lemma_filter_no_duplicates(s: Seq<ChunkPosition>, p: spec_fn(ChunkPosition) -> bool)
    requires
        s.no_duplicates(),
    ensures
        s.filter(p).no_duplicates(),
        forall|x: ChunkPosition| s.filter(p).contains(x) ==> s.contains(x),
    decreases s.len(),
{
    reveal(Seq::filter);
    if s.len() > 0 {
        let d = s.drop_last();
        assert forall|i: int, j: int| 0 <= i < d.len() && 0 <= j < d.len() && i != j implies d[i] != d[j] by {
            assert(d[i] == s[i] && d[j] == s[j]);
        }
        lemma_filter_no_duplicates(d, p);
        let fd = d.filter(p);
        assert forall|x: ChunkPosition| s.filter(p).contains(x) implies s.contains(x) by {
            if fd.contains(x) {
                assert(d.contains(x));
                let k = choose|k: int| 0 <= k < d.len() && d[k] == x;
                assert(s[k] == x);
            } else {
                if p(s.last()) {
                    let k = choose|k: int| 0 <= k < fd.len() + 1 && fd.push(s.last())[k] == x;
                    assert(k == fd.len());
                }
                assert(s[s.len() - 1] == x);
            }
        }
        if p(s.last()) {
            assert(!d.contains(s.last())) by {
                if d.contains(s.last()) {
                    let k = choose|k: int| 0 <= k < d.len() && d[k] == s.last();
                    assert(s[k] == s[s.len() - 1]);
                }
            }
            let f = fd.push(s.last());
            assert forall|i: int, j: int| 0 <= i < f.len() && 0 <= j < f.len() && i != j implies f[i] != f[j] by {
                if i == fd.len() {
                    assert(fd.contains(f[j]));
                } else if j == fd.len() {
                    assert(fd.contains(f[i]));
                }
            }
        }
    }
}

/// Over one tick, each resident chunk out of radius is unloaded exactly once,
/// and no chunk is both unloaded and loaded.
pub proof fn lemma_tick_unloads_once(
    v: ChunkPosition,
    resident: Seq<ChunkPosition>,
    cfg: StreamingConfig,
    unload: Seq<ChunkPosition>,
    load: Seq<ChunkPosition>,
)
    requires
        tick_intents(v, resident, cfg, unload, load),
        resident.no_duplicates(),
    ensures
        forall|c: ChunkPosition| resident.contains(c) && !in_radius(c, v, cfg) ==> #[trigger] unload.contains(c),
        forall|c: ChunkPosition| #[trigger] unload.contains(c) ==> resident.contains(c) && !in_radius(c, v, cfg),
        unload.no_duplicates(),
        forall|c: ChunkPosition| !(#[trigger] unload.contains(c) && load.contains(c)),
{
    let p = |c: ChunkPosition| !in_radius(c, v, cfg);
    lemma_filter_no_duplicates(resident, p);
    broadcast use vstd::seq_lib::group_filter_ensures;
    assert forall|c: ChunkPosition| resident.contains(c) && !in_radius(c, v, cfg) implies #[trigger] unload.contains(c) by {
        let k = choose|k: int| 0 <= k < resident.len() && resident[k] == c;
        assert(p(resident[k]));
    }
    assert forall|c: ChunkPosition| #[trigger] unload.contains(c) implies resident.contains(c) && !in_radius(c, v, cfg) by {
        let k = choose|k: int| 0 <= k < unload.len() && unload[k] == c;
        assert(p(unload[k]));
    }
}

} // verus!
