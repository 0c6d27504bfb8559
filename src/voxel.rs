use vstd::prelude::*;

verus! {

/// How a voxel takes part in face culling.
#[derive(Clone, Copy, Debug, PartialEq, Eq, Structural)]
pub enum VoxelVisibility {
    Empty,
    Translucent,
    Opaque,
}

/// A single grid cell: which block it holds and how it is seen.
#[derive(Clone, Copy, Debug, PartialEq, Eq, Structural)]
pub struct BlockVoxel {
    pub block_info_key_hash: u64,
    pub is_air: bool,
    pub is_translucent: bool,
}

/// The key on which two faces merge into one run.
pub type MergeKey = (bool, bool, u64);

pub open spec fn visibility_of(v: BlockVoxel) -> VoxelVisibility {
    if v.is_air || v.block_info_key_hash == 0 {
        VoxelVisibility::Empty
    } else if v.is_translucent {
        VoxelVisibility::Translucent
    } else {
        VoxelVisibility::Opaque
    }
}

pub open spec fn merge_key_of(v: BlockVoxel) -> MergeKey {
    (v.is_air, v.is_translucent, v.block_info_key_hash)
}

/// The empty voxel.
pub open spec fn air_voxel() -> BlockVoxel {
    BlockVoxel { block_info_key_hash: 0, is_air: true, is_translucent: true }
}

/// Whether a voxel shows a face towards a neighbour: a non-empty voxel shows it
/// towards an empty one, and an opaque voxel towards a translucent one.
pub open spec fn shows_face(v: BlockVoxel, neighbour: BlockVoxel) -> bool {
    visibility_of(v) != VoxelVisibility::Empty && match visibility_of(neighbour) {
        VoxelVisibility::Empty => true,
        VoxelVisibility::Translucent => visibility_of(v) == VoxelVisibility::Opaque,
        VoxelVisibility::Opaque => false,
    }
}

impl BlockVoxel {
    pub fn air() -> (r: BlockVoxel)
        ensures
            r == air_voxel(),
    {
        BlockVoxel { block_info_key_hash: 0, is_air: true, is_translucent: true }
    }

    pub fn get_visibility(&self) -> (r: VoxelVisibility)
        ensures
            r == visibility_of(*self),
    {
        if self.is_air || self.block_info_key_hash == 0 {
            VoxelVisibility::Empty
        } else if self.is_translucent {
            VoxelVisibility::Translucent
        } else {
            VoxelVisibility::Opaque
        }
    }

    pub fn merge_value(&self) -> (r: MergeKey)
        ensures
            r == merge_key_of(*self),
    {
        (self.is_air, self.is_translucent, self.block_info_key_hash)
    }

    pub fn merge_value_facing_neighbour(&self) -> (r: MergeKey)
        ensures
            r == merge_key_of(*self),
    {
        (self.is_air, self.is_translucent, self.block_info_key_hash)
    }

    /// Whether `self` and `other` have equal merge keys.
    pub fn same_merge_key(&self, other: &BlockVoxel) -> (r: bool)
        ensures
            r == (merge_key_of(*self) == merge_key_of(*other)),
    {
        self.is_air == other.is_air && self.is_translucent == other.is_translucent
            && self.block_info_key_hash == other.block_info_key_hash
    }

    /// Whether `self` shows its face towards `neighbour`.
    pub fn shows_face_towards(&self, neighbour: &BlockVoxel) -> (r: bool)
        ensures
            r == shows_face(*self, *neighbour),
    {
        let own = self.get_visibility();
        if own == VoxelVisibility::Empty {
            return false;
        }
        match neighbour.get_visibility() {
            VoxelVisibility::Empty => true,
            VoxelVisibility::Translucent => own == VoxelVisibility::Opaque,
            VoxelVisibility::Opaque => false,
        }
    }
}

impl Default for BlockVoxel {
    fn default() -> (r: BlockVoxel)
        ensures
            r == air_voxel(),
    {
        BlockVoxel::air()
    }
}

} // verus!
