use vstd::prelude::*;

verus! {

/// Money is counted in mils: a thousandth of a coin.
pub const MILS_PER_COIN: u64 = 1000;

/// Number of distinct resource kinds tracked by the economy.
pub const RESOURCE_KINDS: usize = 10;

/// Block types in the voxel grid.
#[derive(Debug, Clone, Copy, PartialEq, Eq, Hash, Structural)]
pub enum BlockType {
    Air,
    WallStone,
    WallWood,
    Water,
    Dirt,
    Grass,
    Wood,
    BurningWood,
    Stone,
    Iron,
    Gold,
}

impl BlockType {
    pub open spec fn solid(self) -> bool {
        !(self is Air || self is Water)
    }

    pub open spec fn walkable(self) -> bool {
        self is Air || self is Grass
    }

    /// Everything but air and water blocks movement.
    pub fn is_solid(&self) -> (r: bool)
        ensures
            r == self.solid(),
    {
        !matches!(self, BlockType::Air | BlockType::Water)
    }

    /// Agents can stand in air and on grass.
    pub fn is_walkable(&self) -> (r: bool)
        ensures
            r == self.walkable(),
    {
        matches!(self, BlockType::Air | BlockType::Grass)
    }
}

/// Resource types for the economy.
#[derive(Debug, Clone, Copy, PartialEq, Eq, Hash, Structural)]
pub enum ResourceType {
    Wood,
    Stone,
    Iron,
    Gold,
    Food,
    Water,
    Cloth,
    Tool,
    Weapon,
    Coin,
}

impl ResourceType {
    /// The slot of this resource in a per-resource table.
    pub open spec fn slot(self) -> nat {
        match self {
            ResourceType::Wood => 0,
            ResourceType::Stone => 1,
            ResourceType::Iron => 2,
            ResourceType::Gold => 3,
            ResourceType::Food => 4,
            ResourceType::Water => 5,
            ResourceType::Cloth => 6,
            ResourceType::Tool => 7,
            ResourceType::Weapon => 8,
            ResourceType::Coin => 9,
        }
    }

    pub fn index(&self) -> (r: usize)
        ensures
            r == self.slot(),
            r < RESOURCE_KINDS,
    {
        match self {
            ResourceType::Wood => 0,
            ResourceType::Stone => 1,
            ResourceType::Iron => 2,
            ResourceType::Gold => 3,
            ResourceType::Food => 4,
            ResourceType::Water => 5,
            ResourceType::Cloth => 6,
            ResourceType::Tool => 7,
            ResourceType::Weapon => 8,
            ResourceType::Coin => 9,
        }
    }
}

pub proof fn lemma_slot_injective(a: ResourceType, b: ResourceType)
    ensures
        a.slot() == b.slot() <==> a == b,
{
}

/// Skills that agents can learn.
#[derive(Debug, Clone, Copy, PartialEq, Eq, Hash, Structural)]
pub enum Skill {
    Mining,
    Woodcutting,
    Farming,
    Blacksmithing,
    Crafting,
    Combat,
    Diplomacy,
    Trading,
    Construction,
    Medicine,
}

/// Personality traits.
#[derive(Debug, Clone, Copy, PartialEq, Eq, Hash, Structural)]
pub enum Trait {
    Brave,
    Cowardly,
    Greedy,
    Generous,
    Honest,
    Deceptive,
    Loyal,
    Rebellious,
    Ambitious,
    Content,
    Aggressive,
    Peaceful,
}

/// Seasons of the simulated year.
#[derive(Debug, Clone, Copy, PartialEq, Eq, Structural)]
pub enum Season {
    Spring,
    Summer,
    Autumn,
    Winter,
}

/// Identifier of a terrain chunk.
#[derive(Debug, Clone, Copy, PartialEq, Eq, Hash, Structural)]
pub struct ChunkId(pub i32, pub i32, pub i32);

/// Integer grid coordinate.
#[derive(Debug, Clone, Copy, PartialEq, Eq, Hash, Structural)]
pub struct GridCoord {
    pub x: i32,
    pub y: i32,
    pub z: i32,
}

/// Chunk coordinate for spatial partitioning.
#[derive(Debug, Clone, Copy, PartialEq, Eq, Hash, Structural)]
pub struct ChunkCoord {
    pub x: i32,
    pub y: i32,
    pub z: i32,
}

/// Floor division, rounding towards negative infinity.
pub open spec fn floor_div(a: int, d: int) -> int
    recommends
        d > 0,
{
    a / d
}

pub open spec fn abs_diff(a: int, b: int) -> int {
    if a >= b {
        a - b
    } else {
        b - a
    }
}

impl GridCoord {
    pub open spec fn manhattan(self, other: GridCoord) -> int {
        abs_diff(self.x as int, other.x as int) + abs_diff(self.y as int, other.y as int)
            + abs_diff(self.z as int, other.z as int)
    }

    pub fn new(x: i32, y: i32, z: i32) -> (r: GridCoord)
        ensures
            r.x == x && r.y == y && r.z == z,
    {
        GridCoord { x, y, z }
    }

    /// The chunk holding this cell, for cubic chunks of side `chunk_size`.
    pub fn to_chunk_coord(&self, chunk_size: i32) -> (r: ChunkCoord)
        requires
            chunk_size > 0,
        ensures
            r.x == floor_div(self.x as int, chunk_size as int),
            r.y == floor_div(self.y as int, chunk_size as int),
            r.z == floor_div(self.z as int, chunk_size as int),
    {
        ChunkCoord {
            x: axis_chunk(self.x, chunk_size),
            y: axis_chunk(self.y, chunk_size),
            z: axis_chunk(self.z, chunk_size),
        }
    }

    /// Sum of the per-axis distances; the sum must fit an `i32`.
    pub fn manhattan_distance(&self, other: &GridCoord) -> (r: i32)
        requires
            self.manhattan(*other) <= i32::MAX,
        ensures
            r == self.manhattan(*other),
    {
        let dx = axis_distance(self.x, other.x);
        let dy = axis_distance(self.y, other.y);
        let dz = axis_distance(self.z, other.z);
        (dx + dy + dz) as i32
    }
}

fn axis_distance(a: i32, b: i32) -> (r: i64)
    ensures
        r == abs_diff(a as int, b as int),
{
    if a >= b {
        a as i64 - b as i64
    } else {
        b as i64 - a as i64
    }
}

fn axis_chunk(v: i32, size: i32) -> (r: i32)
    requires
        size > 0,
    ensures
        r == floor_div(v as int, size as int),
{
    if v >= 0 {
        let q = (v as u32) / (size as u32);
        proof {
            assert(q as int == v as int / size as int);
            assert(q <= v) by (nonlinear_arith)
                requires
                    q as int == v as int / size as int,
                    v >= 0,
                    size > 0,
            ;
        }
        q as i32
    } else {
        let m = (-(v as i64) - 1) as u32;
        let q = m / (size as u32);
        proof {
            lemma_negative_floor(v as int, size as int, m as int, q as int);
        }
        (-(q as i64) - 1) as i32
    }
}

proof fn lemma_negative_floor(v: int, d: int, m: int, q: int)
    requires
        v < 0,
        d > 0,
        m == -v - 1,
        q == m / d,
        v >= i32::MIN,
    ensures
        -q - 1 == v / d,
        -q - 1 >= i32::MIN,
{
    let r = m % d;
    assert(m == q * d + r && 0 <= r < d) by {
        vstd::arithmetic::div_mod::lemma_fundamental_div_mod(m, d);
    }
    assert(v == (-q - 1) * d + (d - 1 - r)) by (nonlinear_arith)
        requires
            m == q * d + r,
            m == -v - 1,
    ;
    vstd::arithmetic::div_mod::lemma_fundamental_div_mod_converse(v, d, -q - 1, d - 1 - r);
    assert(q <= m) by (nonlinear_arith)
        requires
            q == m / d,
            m >= 0,
            d > 0,
    ;
}

impl ChunkCoord {
    pub fn new(x: i32, y: i32, z: i32) -> (r: ChunkCoord)
        ensures
            r.x == x && r.y == y && r.z == z,
    {
        ChunkCoord { x, y, z }
    }
}

} // verus!
