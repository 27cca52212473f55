use vstd::prelude::*;

use crate::chance::roll_below;
use crate::ids::fresh_id;
use crate::types::GridCoord;

verus! {

/// Types of harvestable resource nodes.
#[derive(Debug, Clone, Copy, PartialEq, Eq, Structural)]
pub enum ResourceNodeType {
    Tree,
    Rock,
    Farm,
    IronDeposit,
}

/// A harvestable node of the world.
#[derive(Debug, Clone, Copy, PartialEq, Eq, Structural)]
pub struct ResourceNode {
    pub id: u128,
    pub resource_type: ResourceNodeType,
    pub position: GridCoord,
    pub quantity: u32,
}

impl ResourceNode {
    pub fn new(resource_type: ResourceNodeType, position: GridCoord, quantity: u32) -> (n: ResourceNode)
        ensures
            n.resource_type == resource_type,
            n.position == position,
            n.quantity == quantity,
    {
        ResourceNode { id: fresh_id(), resource_type, position, quantity }
    }
}

pub open spec fn sq(v: int) -> int {
    v * v
}

/// Squared distance between two grid cells.
pub open spec fn dist2(a: GridCoord, b: GridCoord) -> int {
    sq(a.x - b.x) + sq(a.y - b.y) + sq(a.z - b.z)
}

/// Squared distance between two grid cells.
pub fn distance_squared(a: GridCoord, b: GridCoord) -> (d: u128)
    ensures
        d == dist2(a, b),
{
    let dx = (a.x as i64 - b.x as i64);
    let dy = (a.y as i64 - b.y as i64);
    let dz = (a.z as i64 - b.z as i64);
    let ax: u128 = if dx < 0 { (-dx) as u128 } else { dx as u128 };
    let ay: u128 = if dy < 0 { (-dy) as u128 } else { dy as u128 };
    let az: u128 = if dz < 0 { (-dz) as u128 } else { dz as u128 };
    assert(ax * ax <= 0x1_0000_0000u128 * 0x1_0000_0000u128) by (nonlinear_arith)
        requires
            ax <= 0x1_0000_0000u128,
    ;
    assert(ay * ay <= 0x1_0000_0000u128 * 0x1_0000_0000u128) by (nonlinear_arith)
        requires
            ay <= 0x1_0000_0000u128,
    ;
    assert(az * az <= 0x1_0000_0000u128 * 0x1_0000_0000u128) by (nonlinear_arith)
        requires
            az <= 0x1_0000_0000u128,
    ;
    assert(sq(dx as int) == ax * ax && sq(dy as int) == ay * ay && sq(dz as int) == az * az) by (nonlinear_arith)
        requires
            ax == (if dx < 0 { -(dx as int) } else { dx as int }),
            ay == (if dy < 0 { -(dy as int) } else { dy as int }),
            az == (if dz < 0 { -(dz as int) } else { dz as int }),
    ;
    ax * ax + ay * ay + az * az
}

pub open spec fn of_type(t: ResourceNodeType) -> spec_fn(ResourceNode) -> bool {
    |n: ResourceNode| n.resource_type == t
}

/// All resource nodes of the world.
pub struct ResourceManager {
    pub nodes: Vec<ResourceNode>,
}

impl ResourceManager {
    pub fn new() -> (m: ResourceManager)
        ensures
            m.nodes@.len() == 0,
    {
        ResourceManager { nodes: Vec::new() }
    }

    pub fn add_node(&mut self, node: ResourceNode)
        ensures
            final(self).nodes@ == old(self).nodes@.push(node),
    {
        self.nodes.push(node);
    }

    /// The nodes of type `resource_type`, in order.
    pub fn get_nodes_by_type(&self, resource_type: ResourceNodeType) -> (v: Vec<ResourceNode>)
        ensures
            v@ == self.nodes@.filter(of_type(resource_type)),
    {
        let mut v: Vec<ResourceNode> = Vec::new();
        let mut i: usize = 0;
        while i < self.nodes.len()
            invariant
                i <= self.nodes@.len(),
                v@ == self.nodes@.subrange(0, i as int).filter(of_type(resource_type)),
            decreases self.nodes@.len() - i,
        {
            proof {
                let s = self.nodes@.subrange(0, i as int + 1);
                assert(s.drop_last() == self.nodes@.subrange(0, i as int));
                reveal(Seq::filter);
                assert(s == self.nodes@.subrange(0, i as int).push(self.nodes@[i as int]));
            }
            if self.nodes[i].resource_type == resource_type {
                v.push(self.nodes[i]);
            }
            i += 1;
        }
        assert(self.nodes@.subrange(0, self.nodes@.len() as int) == self.nodes@);
        v
    }

    /// The nearest node of `resource_type` that still holds something; the first such
    /// node on equal distances.
    pub fn find_nearest(&self, pos: GridCoord, resource_type: ResourceNodeType) -> (r: Option<usize>)
        ensures
            match r {
                Some(i) => {
                    &&& i < self.nodes@.len()
                    &&& self.nodes@[i as int].resource_type == resource_type
                    &&& self.nodes@[i as int].quantity > 0
                    &&& forall|k: int|
                        0 <= k < self.nodes@.len() && (#[trigger] self.nodes@[k]).resource_type == resource_type
                            && self.nodes@[k].quantity > 0 ==> dist2(pos, self.nodes@[i as int].position)
                            <= dist2(pos, self.nodes@[k].position)
                },
                None => forall|k: int|
                    0 <= k < self.nodes@.len() ==> !((#[trigger] self.nodes@[k]).resource_type == resource_type
                        && self.nodes@[k].quantity > 0),
            },
    {
        let mut best: Option<usize> = None;
        let mut best_d: u128 = 0;
        let mut i: usize = 0;
        while i < self.nodes.len()
            invariant
                i <= self.nodes@.len(),
                match best {
                    Some(b) => {
                        &&& b < i
                        &&& self.nodes@[b as int].resource_type == resource_type
                        &&& self.nodes@[b as int].quantity > 0
                        &&& best_d == dist2(pos, self.nodes@[b as int].position)
                        &&& forall|k: int|
                            0 <= k < i && (#[trigger] self.nodes@[k]).resource_type == resource_type
                                && self.nodes@[k].quantity > 0 ==> best_d <= dist2(pos, self.nodes@[k].position)
                    },
                    None => forall|k: int|
                        0 <= k < i ==> !((#[trigger] self.nodes@[k]).resource_type == resource_type
                            && self.nodes@[k].quantity > 0),
                },
            decreases self.nodes@.len() - i,
        {
            let n = self.nodes[i];
            if n.resource_type == resource_type && n.quantity > 0 {
                let d = distance_squared(pos, n.position);
                match best {
                    None => {
                        best = Some(i);
                        best_d = d;
                    },
                    Some(_) => {
                        if d < best_d {
                            best = Some(i);
                            best_d = d;
                        }
                    },
                }
            }
            i += 1;
        }
        best
    }

    /// Takes up to `amount` from the node with id `node_id`, never more than it holds;
    /// returns what was taken, or nothing if no node has that id.
    pub fn harvest(&mut self, node_id: u128, amount: u32) -> (r: Option<u32>)
        ensures
            final(self).nodes@.len() == old(self).nodes@.len(),
            match r {
                Some(h) => exists|i: int| {
                    &&& 0 <= i < old(self).nodes@.len()
                    &&& old(self).nodes@[i].id == node_id
                    &&& (forall|k: int| 0 <= k < i ==> (#[trigger] old(self).nodes@[k]).id != node_id)
                    &&& h == if amount < old(self).nodes@[i].quantity { amount } else { old(self).nodes@[i].quantity }
                    &&& final(self).nodes@ == old(self).nodes@.update(i, ResourceNode { quantity: (old(self).nodes@[i].quantity - h) as u32, ..old(self).nodes@[i] })
                },
                None => final(self).nodes@ == old(self).nodes@ && forall|k: int|
                    0 <= k < old(self).nodes@.len() ==> (#[trigger] old(self).nodes@[k]).id != node_id,
            },
    {
        let mut i: usize = 0;
        while i < self.nodes.len()
            invariant
                i <= self.nodes@.len(),
                self.nodes@ == old(self).nodes@,
                forall|k: int| 0 <= k < i ==> (#[trigger] self.nodes@[k]).id != node_id,
            decreases self.nodes@.len() - i,
        {
            if self.nodes[i].id == node_id {
                let mut n = self.nodes[i];
                let h = if amount < n.quantity { amount } else { n.quantity };
                n.quantity = n.quantity - h;
                self.nodes.set(i, n);
                return Some(h);
            }
            i += 1;
        }
        None
    }

    /// Regrows every node by `amount`, up to `cap`; a node already above the cap keeps
    /// its quantity.
    pub fn regenerate(&mut self, amount: u32, cap: u32)
        ensures
            final(self).nodes@.len() == old(self).nodes@.len(),
            forall|k: int| 0 <= k < old(self).nodes@.len() ==> #[trigger] final(self).nodes@[k] == (ResourceNode {
                quantity: if old(self).nodes@[k].quantity >= cap {
                    old(self).nodes@[k].quantity
                } else if old(self).nodes@[k].quantity + amount > cap {
                    cap
                } else {
                    (old(self).nodes@[k].quantity + amount) as u32
                },
                ..old(self).nodes@[k]
            }),
    {
        let mut i: usize = 0;
        while i < self.nodes.len()
            invariant
                i <= self.nodes@.len(),
                self.nodes@.len() == old(self).nodes@.len(),
                forall|k: int| i <= k < self.nodes@.len() ==> #[trigger] self.nodes@[k] == old(self).nodes@[k],
                forall|k: int| 0 <= k < i ==> #[trigger] self.nodes@[k] == (ResourceNode {
                    quantity: if old(self).nodes@[k].quantity >= cap {
                        old(self).nodes@[k].quantity
                    } else if old(self).nodes@[k].quantity + amount > cap {
                        cap
                    } else {
                        (old(self).nodes@[k].quantity + amount) as u32
                    },
                    ..old(self).nodes@[k]
                }),
            decreases self.nodes@.len() - i,
        {
            let mut n = self.nodes[i];
            if n.quantity < cap {
                n.quantity = if (n.quantity as u64) + (amount as u64) > cap as u64 {
                    cap
                } else {
                    n.quantity + amount
                };
            }
            self.nodes.set(i, n);
            i += 1;
        }
    }

    /// Replaces all nodes by `count` new ones of random type, on the ground within
    /// `world_size` cells of the origin on either horizontal axis, each holding from
    /// fifty to two hundred units.
    pub fn generate_random_nodes(&mut self, count: usize, world_size: u32)
        requires
            0 < world_size <= i32::MAX as u32,
        ensures
            final(self).nodes@.len() == count,
            forall|k: int| 0 <= k < count ==> {
                let n = #[trigger] final(self).nodes@[k];
                &&& 50 <= n.quantity < 200
                &&& -(world_size as int) <= n.position.x < world_size
                &&& -(world_size as int) <= n.position.z < world_size
                &&& n.position.y == 1
            },
    {
        self.nodes = Vec::new();
        let mut i: usize = 0;
        while i < count
            invariant
                0 < world_size <= i32::MAX as u32,
                i <= count,
                self.nodes@.len() == i,
                forall|k: int| 0 <= k < i ==> {
                    let n = #[trigger] self.nodes@[k];
                    &&& 50 <= n.quantity < 200
                    &&& -(world_size as int) <= n.position.x < world_size
                    &&& -(world_size as int) <= n.position.z < world_size
                    &&& n.position.y == 1
                },
            decreases count - i,
        {
            let kind = match roll_below(4) {
                0 => ResourceNodeType::Tree,
                1 => ResourceNodeType::Rock,
                2 => ResourceNodeType::Farm,
                _ => ResourceNodeType::IronDeposit,
            };
            let x = roll_below(2 * world_size) as i64 - world_size as i64;
            let z = roll_below(2 * world_size) as i64 - world_size as i64;
            let quantity = roll_below(150) + 50;
            self.nodes.push(ResourceNode::new(kind, GridCoord { x: x as i32, y: 1, z: z as i32 }, quantity));
            i += 1;
        }
    }
}

} // verus!
