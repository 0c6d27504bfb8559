use vstd::prelude::*;
use vstd::string::StringExecFns;

use dashmap::DashMap;

verus! {

/// The texture id that stands for "no texture known".
pub const UNKNOWN_TEXTURE_ID: u32 = 255;

/// The six sides of a block.
#[derive(Clone, Copy, Debug, PartialEq, Eq, Structural)]
pub enum BlockSide {
    Front,
    Back,
    Left,
    Right,
    Top,
    Bottom,
}

/// The sides in the order in which ties are broken.
pub open spec fn side_at(k: int) -> BlockSide {
    if k == 0 {
        BlockSide::Front
    } else if k == 1 {
        BlockSide::Back
    } else if k == 2 {
        BlockSide::Left
    } else if k == 3 {
        BlockSide::Right
    } else if k == 4 {
        BlockSide::Top
    } else {
        BlockSide::Bottom
    }
}

pub open spec fn side_index(s: BlockSide) -> int {
    match s {
        BlockSide::Front => 0,
        BlockSide::Back => 1,
        BlockSide::Left => 2,
        BlockSide::Right => 3,
        BlockSide::Top => 4,
        BlockSide::Bottom => 5,
    }
}

/// The dot product of a side's outward unit normal with `n`.
pub open spec fn side_dot(s: BlockSide, n: (int, int, int)) -> int {
    match s {
        BlockSide::Front => n.2,
        BlockSide::Back => -n.2,
        BlockSide::Left => -n.0,
        BlockSide::Right => n.0,
        BlockSide::Top => n.1,
        BlockSide::Bottom => -n.1,
    }
}

/// The side whose normal has the greatest positive dot product with `n`, the
/// earliest of equal ones; `Front` where no dot product is positive.
pub open spec fn side_for_normal(n: (int, int, int), s: BlockSide) -> bool {
    if forall|k: int| 0 <= k < 6 ==> side_dot(#[trigger] side_at(k), n) <= 0 {
        s == BlockSide::Front
    } else {
        &&& side_dot(s, n) > 0
        &&& forall|k: int| 0 <= k < 6 ==> side_dot(#[trigger] side_at(k), n) <= side_dot(s, n)
        &&& forall|k: int| 0 <= k < side_index(s) ==> side_dot(#[trigger] side_at(k), n) < side_dot(s, n)
    }
}

pub proof fn lemma_side_for_normal_unique(n: (int, int, int), s1: BlockSide, s2: BlockSide)
    requires
        side_for_normal(n, s1),
        side_for_normal(n, s2),
    ensures
        s1 == s2,
{
    if !(forall|k: int| 0 <= k < 6 ==> side_dot(#[trigger] side_at(k), n) <= 0) {
        assert(side_at(side_index(s1)) == s1);
        assert(side_at(side_index(s2)) == s2);
        if side_index(s1) < side_index(s2) {
            assert(side_dot(side_at(side_index(s1)), n) < side_dot(s2, n));
        } else if side_index(s2) < side_index(s1) {
            assert(side_dot(side_at(side_index(s2)), n) < side_dot(s1, n));
        }
    }
}

pub open spec fn normal_of(v: [i32; 3]) -> (int, int, int) {
    (v@[0] as int, v@[1] as int, v@[2] as int)
}

fn side_exec(k: usize) -> (r: BlockSide)
    ensures
        r == side_at(k as int),
        k < 6 ==> side_index(r) == k,
{
    if k == 0 {
        BlockSide::Front
    } else if k == 1 {
        BlockSide::Back
    } else if k == 2 {
        BlockSide::Left
    } else if k == 3 {
        BlockSide::Right
    } else if k == 4 {
        BlockSide::Top
    } else {
        BlockSide::Bottom
    }
}

impl BlockSide {
    /// The side that a face normal points to (see `side_for_normal`).
    pub fn match_normal_vector(normal: [i32; 3]) -> (r: BlockSide)
        ensures
            side_for_normal(normal_of(normal), r),
    {
        let ghost n = normal_of(normal);
        let x = normal[0] as i64;
        let y = normal[1] as i64;
        let z = normal[2] as i64;
        let mut best: Option<BlockSide> = None;
        let mut best_dot: i64 = 0;
        let mut k: usize = 0;
        while k < 6
            invariant
                k <= 6,
                n == normal_of(normal),
                x == n.0 && y == n.1 && z == n.2,
                best.is_none() ==> best_dot == 0 && forall|j: int| 0 <= j < k ==> side_dot(#[trigger] side_at(j), n) <= 0,
                best.is_some() ==> {
                    let s = best.unwrap();
                    &&& side_index(s) < k
                    &&& best_dot == side_dot(s, n) > 0
                    &&& forall|j: int| 0 <= j < k ==> side_dot(#[trigger] side_at(j), n) <= best_dot
                    &&& forall|j: int| 0 <= j < side_index(s) ==> side_dot(#[trigger] side_at(j), n) < best_dot
                },
            decreases 6 - k,
        {
            let side = side_exec(k);
            let dot: i64 = match side {
                BlockSide::Front => z,
                BlockSide::Back => -z,
                BlockSide::Left => -x,
                BlockSide::Right => x,
                BlockSide::Top => y,
                BlockSide::Bottom => -y,
            };
            if dot > best_dot {
                best = Some(side);
                best_dot = dot;
            }
            k = k + 1;
        }
        match best {
            Some(s) => {
                proof {
                    assert(side_at(side_index(s)) == s);
                }
                s
            },
            None => BlockSide::Front,
        }
    }
}

/// Texture ids per side, with `all` as the fallback for the sides left unset.
#[derive(Clone, Copy, Debug, PartialEq, Eq, Structural)]
pub struct BlockSides {
    pub all: Option<u32>,
    pub front: Option<u32>,
    pub back: Option<u32>,
    pub left: Option<u32>,
    pub right: Option<u32>,
    pub top: Option<u32>,
    pub bottom: Option<u32>,
}

pub open spec fn or_else(a: Option<u32>, b: Option<u32>) -> Option<u32> {
    if a.is_some() {
        a
    } else {
        b
    }
}

pub open spec fn side_texture(s: BlockSides, side: BlockSide) -> Option<u32> {
    match side {
        BlockSide::Front => or_else(s.front, s.all),
        BlockSide::Back => or_else(s.back, s.all),
        BlockSide::Left => or_else(s.left, s.all),
        BlockSide::Right => or_else(s.right, s.all),
        BlockSide::Top => or_else(s.top, s.all),
        BlockSide::Bottom => or_else(s.bottom, s.all),
    }
}

fn or_exec(a: Option<u32>, b: Option<u32>) -> (r: Option<u32>)
    ensures
        r == or_else(a, b),
{
    match a {
        Some(t) => Some(t),
        None => b,
    }
}

impl BlockSides {
    pub open spec fn new_for_all_spec(texture_id: u32) -> BlockSides {
        BlockSides {
            all: Some(texture_id),
            front: None,
            back: None,
            left: None,
            right: None,
            top: None,
            bottom: None,
        }
    }

    pub fn get_side_texture_id(&self, side: BlockSide) -> (r: Option<u32>)
        ensures
            r == side_texture(*self, side),
    {
        match side {
            BlockSide::Front => or_exec(self.front, self.all),
            BlockSide::Back => or_exec(self.back, self.all),
            BlockSide::Left => or_exec(self.left, self.all),
            BlockSide::Right => or_exec(self.right, self.all),
            BlockSide::Top => or_exec(self.top, self.all),
            BlockSide::Bottom => or_exec(self.bottom, self.all),
        }
    }

    pub fn new_for_all(texture_id: u32) -> (r: BlockSides)
        ensures
            r == BlockSides::new_for_all_spec(texture_id),
    {
        BlockSides {
            all: Some(texture_id),
            front: None,
            back: None,
            left: None,
            right: None,
            top: None,
            bottom: None,
        }
    }

    /// One side set to `side_texture_id`, every other side falling back to
    /// `fallback_texture_id`.
    pub fn new_for_side(side: BlockSide, side_texture_id: u32, fallback_texture_id: u32) -> (r: BlockSides)
        ensures
            r.all == Some(fallback_texture_id),
            side_texture(r, side) == Some(side_texture_id),
            forall|s: BlockSide| s != side ==> side_texture(r, s) == Some(fallback_texture_id),
    {
        let mut r = BlockSides {
            all: Some(fallback_texture_id),
            front: None,
            back: None,
            left: None,
            right: None,
            top: None,
            bottom: None,
        };
        match side {
            BlockSide::Front => r.front = Some(side_texture_id),
            BlockSide::Back => r.back = Some(side_texture_id),
            BlockSide::Left => r.left = Some(side_texture_id),
            BlockSide::Right => r.right = Some(side_texture_id),
            BlockSide::Top => r.top = Some(side_texture_id),
            BlockSide::Bottom => r.bottom = Some(side_texture_id),
        }
        r
    }
}

/// The texture id of the face with normal `n`: that of the side the normal
/// points to, else `all`, else the unknown id.
pub open spec fn resolved_texture(s: BlockSides, n: (int, int, int)) -> u32 {
    let side = choose|side: BlockSide| side_for_normal(n, side);
    match side_texture(s, side) {
        Some(t) => t,
        None => UNKNOWN_TEXTURE_ID,
    }
}

pub const ATLAS_TEXTURE_DIRT: u32 = 0;
pub const ATLAS_TEXTURE_GRASS_SIDE: u32 = 1;
pub const ATLAS_TEXTURE_GRASS_TOP: u32 = 2;
pub const ATLAS_TEXTURE_COBBLESTONE: u32 = 3;

/// A kind of block: its name, an optional category that prefixes the name in
/// the registry, whether it lets light through, and its textures.
#[derive(Clone, Debug)]
pub struct BlockInfo {
    pub category: Option<String>,
    pub name: String,
    pub is_translucent: bool,
    pub sides: BlockSides,
}

/// `category:name`.
pub open spec fn qualified_name(category: Seq<char>, name: Seq<char>) -> Seq<char> {
    category + seq![':'] + name
}

pub open spec fn registry_name_of(info: BlockInfo) -> Seq<char> {
    match info.category {
        Some(c) => qualified_name(c@, info.name@),
        None => info.name@,
    }
}

/// The 64-bit CityHash of the UTF-8 encoding of `name`.
pub uninterp spec fn name_hash(name: Seq<char>) -> u64;

/// Relies on `fasthash::city::hash64`: the 64-bit CityHash of the name's UTF-8
/// bytes, which depends on those bytes alone.
#[verifier::external_body]
fn hash_registry_name(name: &str) -> (r: u64)
    ensures
        r == name_hash(name@),
{
    fasthash::city::hash64(name.as_bytes())
}

fn qualify(category: &str, name: &str) -> (r: String)
    ensures
        r@ == qualified_name(category@, name@),
{
    let mut r = category.to_owned();
    r.append(":");
    r.append(name);
    proof {
        reveal_strlit(":");
    }
    r
}

impl BlockInfo {
    pub fn get_registry_name(&self) -> (r: String)
        ensures
            r@ == registry_name_of(*self),
    {
        match &self.category {
            Some(category) => qualify(category.as_str(), self.name.as_str()),
            None => self.name.clone(),
        }
    }

    pub fn get_registry_name_hash(&self) -> (r: u64)
        ensures
            r == name_hash(registry_name_of(*self)),
    {
        let registry_name = self.get_registry_name();
        hash_registry_name(registry_name.as_str())
    }

    pub fn get_side_texture_id(&self, side: BlockSide) -> (r: Option<u32>)
        ensures
            r == side_texture(self.sides, side),
    {
        self.sides.get_side_texture_id(side)
    }
}

/// The texture id for the face of `info` with normal `normal`; the unknown id
/// where neither that side nor `all` is set.
pub fn resolve_face_texture(info: &BlockInfo, normal: [i32; 3]) -> (r: u32)
    ensures
        r == resolved_texture(info.sides, normal_of(normal)),
{
    let side = BlockSide::match_normal_vector(normal);
    proof {
        let c = choose|s: BlockSide| side_for_normal(normal_of(normal), s);
        lemma_side_for_normal_unique(normal_of(normal), c, side);
    }
    match info.get_side_texture_id(side) {
        Some(t) => t,
        None => UNKNOWN_TEXTURE_ID,
    }
}

/// A block whose textures set only `all` shows that texture on every face,
/// whatever the face's normal.
pub proof fn lemma_all_only_resolves_everywhere(sides: BlockSides, t: u32, n: (int, int, int))
    requires
        sides == BlockSides::new_for_all_spec(t),
    ensures
        resolved_texture(sides, n) == t,
{
}

/// Why the registry refused a request.
#[derive(Clone, Debug, PartialEq, Eq)]
pub enum BlockInfoError {
    /// A block of this registry name was registered before.
    DuplicateRegistration(String),
    /// No block is registered under the name or hash asked for.
    NotFound,
}

#[verifier::external_type_specification]
#[verifier::external_body]
#[verifier::reject_recursive_types(K)]
#[verifier::reject_recursive_types(V)]
#[verifier::reject_recursive_types(S)]
pub struct ExDashMap<K, V, S>(DashMap<K, V, S>);

/// The entries of a map from a name hash to a slot.
pub uninterp spec fn slots_of(m: DashMap<u64, usize>) -> Map<u64, usize>;

/// Relies on `dashmap::DashMap::new`: a new map is empty.
#[verifier::external_body]
fn slots_new() -> (r: DashMap<u64, usize>)
    ensures
        slots_of(r).dom().len() == 0 && slots_of(r).dom().finite(),
{
    DashMap::new()
}

/// Relies on `dashmap::DashMap::get`: the value stored under `key`, if any.
#[verifier::external_body]
fn slots_get(m: &DashMap<u64, usize>, key: u64) -> (r: Option<usize>)
    ensures
        r == (if slots_of(*m).contains_key(key) {
            Some(slots_of(*m)[key])
        } else {
            None
        }),
{
    m.get(&key).map(|entry| *entry.value())
}

/// Relies on `dashmap::DashMap::insert`: afterwards `key` maps to `value` and
/// every other key is unchanged.
#[verifier::external_body]
fn slots_insert(m: &mut DashMap<u64, usize>, key: u64, value: usize)
    ensures
        slots_of(*final(m)) == slots_of(*old(m)).insert(key, value),
{
    m.insert(key, value);
}

/// The registry of block kinds, keyed by the hash of their registry names.
pub struct BlockInfoRegistry {
    block_map: DashMap<u64, usize>,
    infos: Vec<BlockInfo>,
}

impl BlockInfoRegistry {
    /// Each hash maps to the slot of the block whose registry name has that
    /// hash, and each block is reached from its own hash.
    pub closed spec fn wf(&self) -> bool {
        let slots = slots_of(self.block_map);
        &&& forall|h: u64|
            #[trigger] slots.contains_key(h) ==> slots[h] < self.infos@.len() && name_hash(
                registry_name_of(self.infos@[slots[h] as int]),
            ) == h
        &&& forall|i: int|
            0 <= i < self.infos@.len() ==> {
                let h = name_hash(registry_name_of(#[trigger] self.infos@[i]));
                slots.contains_key(h) && slots[h] == i
            }
    }

    /// The registered blocks, by the hash of their registry names.
    pub closed spec fn entries(&self) -> Map<u64, BlockInfo> {
        let slots = slots_of(self.block_map);
        Map::new(|h: u64| slots.contains_key(h), |h: u64| self.infos@[slots[h] as int])
    }

    /// Every registered block is found under the hash of its registry name.
    pub proof fn lemma_entries_named(&self)
        requires
            self.wf(),
        ensures
            forall|h: u64|
                #[trigger] self.entries().contains_key(h) ==> name_hash(registry_name_of(self.entries()[h])) == h,
    {
    }

    /// An empty registry.
    pub fn new() -> (r: BlockInfoRegistry)
        ensures
            r.wf(),
            r.entries() == Map::<u64, BlockInfo>::empty(),
    {
        let r = BlockInfoRegistry { block_map: slots_new(), infos: Vec::new() };
        assert(r.entries() =~= Map::<u64, BlockInfo>::empty());
        r
    }

    /// Registers `block_info` under `category:name`, with `category` as its
    /// category, unless a block of that registry name hash is already there.
    pub fn register(&mut self, category: &str, block_info: BlockInfo) -> (r: Result<String, BlockInfoError>)
        requires
            old(self).wf(),
        ensures
            final(self).wf(),
            ({
                let h = name_hash(qualified_name(category@, block_info.name@));
                match r {
                    Ok(name) => {
                        &&& !old(self).entries().contains_key(h)
                        &&& name@ == qualified_name(category@, block_info.name@)
                        &&& final(self).entries().contains_key(h)
                        &&& final(self).entries().remove(h) == old(self).entries()
                        &&& final(self).entries()[h].name == block_info.name
                        &&& final(self).entries()[h].category matches Some(c) && c@ == category@
                        &&& final(self).entries()[h].is_translucent == block_info.is_translucent
                        &&& final(self).entries()[h].sides == block_info.sides
                    },
                    Err(e) => {
                        &&& old(self).entries().contains_key(h)
                        &&& e matches BlockInfoError::DuplicateRegistration(n) && n@ == qualified_name(
                            category@,
                            block_info.name@,
                        )
                        &&& final(self).entries() == old(self).entries()
                    },
                }
            }),
    {
        let registry_name = qualify(category, block_info.name.as_str());
        let key_hash = hash_registry_name(registry_name.as_str());
        if slots_get(&self.block_map, key_hash).is_some() {
            return Err(BlockInfoError::DuplicateRegistration(registry_name));
        }
        let mut info = block_info;
        info.category = Some(category.to_owned());
        proof {
            assert(registry_name_of(info) == qualified_name(category@, block_info.name@));
        }
        let slot = self.infos.len();
        let ghost old_entries = self.entries();
        let ghost old_infos = self.infos@;
        self.infos.push(info);
        slots_insert(&mut self.block_map, key_hash, slot);
        proof {
            let slots = slots_of(self.block_map);
            assert forall|i: int| 0 <= i < self.infos@.len() implies {
                let h = name_hash(registry_name_of(#[trigger] self.infos@[i]));
                slots.contains_key(h) && slots[h] == i
            } by {
                if i < slot {
                    assert(self.infos@[i] == old_infos[i]);
                }
            }
            assert(self.entries().remove(key_hash) =~= old_entries);
        }
        Ok(registry_name)
    }

    /// The block registered under the registry name `registry_name`.
    pub fn get_block_info(&self, registry_name: &str) -> (r: Result<&BlockInfo, BlockInfoError>)
        requires
            self.wf(),
        ensures
            ({
                let h = name_hash(registry_name@);
                match r {
                    Ok(info) => self.entries().contains_key(h) && *info == self.entries()[h],
                    Err(e) => !self.entries().contains_key(h) && e == BlockInfoError::NotFound,
                }
            }),
    {
        let key_hash = hash_registry_name(registry_name);
        self.get_block_info_by_hash(key_hash)
    }

    /// The block whose registry name has hash `key_hash`.
    pub fn get_block_info_by_hash(&self, key_hash: u64) -> (r: Result<&BlockInfo, BlockInfoError>)
        requires
            self.wf(),
        ensures
            match r {
                Ok(info) => self.entries().contains_key(key_hash) && *info == self.entries()[key_hash],
                Err(e) => !self.entries().contains_key(key_hash) && e == BlockInfoError::NotFound,
            },
    {
        match slots_get(&self.block_map, key_hash) {
            Some(slot) => Ok(&self.infos[slot]),
            None => Err(BlockInfoError::NotFound),
        }
    }
}

/// The category of the blocks registered at start-up.
pub const BASE_CATEGORY: &'static str = "potato_crust";

pub fn block_dirt() -> (r: BlockInfo)
    ensures
        r.name@ == "dirt"@,
        r.category.is_none(),
        !r.is_translucent,
        r.sides == BlockSides::new_for_all_spec(ATLAS_TEXTURE_DIRT),
{
    BlockInfo {
        category: None,
        name: "dirt".to_owned(),
        is_translucent: false,
        sides: BlockSides::new_for_all(ATLAS_TEXTURE_DIRT),
    }
}

pub fn block_grass() -> (r: BlockInfo)
    ensures
        r.name@ == "grass"@,
        r.category.is_none(),
        !r.is_translucent,
        r.sides == (BlockSides {
            all: Some(ATLAS_TEXTURE_GRASS_SIDE),
            front: None,
            back: None,
            left: None,
            right: None,
            top: Some(ATLAS_TEXTURE_GRASS_TOP),
            bottom: Some(ATLAS_TEXTURE_DIRT),
        }),
{
    BlockInfo {
        category: None,
        name: "grass".to_owned(),
        is_translucent: false,
        sides: BlockSides {
            all: Some(ATLAS_TEXTURE_GRASS_SIDE),
            front: None,
            back: None,
            left: None,
            right: None,
            top: Some(ATLAS_TEXTURE_GRASS_TOP),
            bottom: Some(ATLAS_TEXTURE_DIRT),
        },
    }
}

pub fn block_cobblestone() -> (r: BlockInfo)
    ensures
        r.name@ == "cobblestone"@,
        r.category.is_none(),
        !r.is_translucent,
        r.sides == BlockSides::new_for_all_spec(ATLAS_TEXTURE_COBBLESTONE),
{
    BlockInfo {
        category: None,
        name: "cobblestone".to_owned(),
        is_translucent: false,
        sides: BlockSides::new_for_all(ATLAS_TEXTURE_COBBLESTONE),
    }
}

/// The registry hash of base block `name`.
pub open spec fn base_hash(name: Seq<char>) -> u64 {
    name_hash(qualified_name(BASE_CATEGORY@, name))
}

pub open spec fn grass_sides() -> BlockSides {
    BlockSides {
        all: Some(ATLAS_TEXTURE_GRASS_SIDE),
        front: None,
        back: None,
        left: None,
        right: None,
        top: Some(ATLAS_TEXTURE_GRASS_TOP),
        bottom: Some(ATLAS_TEXTURE_DIRT),
    }
}

/// `info` is the opaque base block `name`, in the base category, with textures `sides`.
pub open spec fn is_base_block(info: BlockInfo, name: Seq<char>, sides: BlockSides) -> bool {
    &&& info.name@ == name
    &&& info.category matches Some(c) && c@ == BASE_CATEGORY@
    &&& !info.is_translucent
    &&& info.sides == sides
}

/// `reg` holds the three base blocks under their hashes.
pub open spec fn holds_base_blocks(reg: BlockInfoRegistry) -> bool {
    let e = reg.entries();
    &&& e.dom() =~= set![base_hash("dirt"@), base_hash("grass"@), base_hash("cobblestone"@)]
    &&& is_base_block(e[base_hash("dirt"@)], "dirt"@, BlockSides::new_for_all_spec(ATLAS_TEXTURE_DIRT))
    &&& is_base_block(e[base_hash("grass"@)], "grass"@, grass_sides())
    &&& is_base_block(
        e[base_hash("cobblestone"@)],
        "cobblestone"@,
        BlockSides::new_for_all_spec(ATLAS_TEXTURE_COBBLESTONE),
    )
}

impl BlockInfoRegistry {
    /// The registry of the base blocks dirt, grass and cobblestone. It fails,
    /// with a duplicate registration, exactly where two of their registry
    /// names hash alike.
    pub fn initialize() -> (r: Result<BlockInfoRegistry, BlockInfoError>)
        ensures
            r is Ok <==> (base_hash("dirt"@) != base_hash("grass"@) && base_hash("dirt"@) != base_hash(
                "cobblestone"@,
            ) && base_hash("grass"@) != base_hash("cobblestone"@)),
            r matches Ok(reg) ==> reg.wf() && holds_base_blocks(reg),
            r matches Err(e) ==> e is DuplicateRegistration,
    {
        let mut registry = BlockInfoRegistry::new();
        let r1 = registry.register(BASE_CATEGORY, block_dirt());
        assert(r1 is Ok);
        let ghost e1 = registry.entries();
        let r2 = registry.register(BASE_CATEGORY, block_grass());
        if let Err(e) = r2 {
            return Err(e);
        }
        let ghost e2 = registry.entries();
        let r3 = registry.register(BASE_CATEGORY, block_cobblestone());
        if let Err(e) = r3 {
            return Err(e);
        }
        proof {
            let (hd, hg, hc) = (base_hash("dirt"@), base_hash("grass"@), base_hash("cobblestone"@));
            let e3 = registry.entries();
            assert(e2.remove(hg)[hd] == e2[hd]);
            assert(e3.remove(hc)[hd] == e3[hd]);
            assert(e3.remove(hc)[hg] == e3[hg]);
            assert(is_base_block(e1[hd], "dirt"@, BlockSides::new_for_all_spec(ATLAS_TEXTURE_DIRT)));
            assert(registry.entries().dom() =~= set![
                base_hash("dirt"@),
                base_hash("grass"@),
                base_hash("cobblestone"@),
            ]) by {
                assert(registry.entries().dom() =~= registry.entries().remove(base_hash("cobblestone"@)).dom().insert(base_hash("cobblestone"@)));
            }
        }
        Ok(registry)
    }
}

} // verus!
