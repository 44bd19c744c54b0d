//! Tree growth stages and the fixed rule tables attached to them: spawn
//! chance, harvest chance and harvest yield.

use vstd::prelude::*;

verus! {

/// Growth stage of a tree. `Empty` stands for an empty tree field; a present
/// tree is a `Sapling` (age 1-11), `Mature` (age 12-119) or `Elder` (age 120+).
#[derive(Clone, Copy, Debug, PartialEq, Eq, Structural)]
pub enum TreeKind {
    Empty,
    Sapling,
    Mature,
    Elder,
}

/// Age at which a sapling turns mature.
pub const SAPLING_GROW_AGE: u16 = 12;

/// Age at which a mature tree turns elder.
pub const MATURE_GROW_AGE: u16 = 120;

/// Chance (percent) that a tree of the given stage spawns a sapling this month.
pub open spec fn spawn_chance_of(kind: TreeKind) -> u32 {
    match kind {
        TreeKind::Empty => 0,
        TreeKind::Sapling => 0,
        TreeKind::Mature => 10,
        TreeKind::Elder => 20,
    }
}

/// Chance (percent) that a jack's chop of a tree of the given stage succeeds.
pub open spec fn harvest_chance_of(kind: TreeKind) -> u32 {
    match kind {
        TreeKind::Empty => 0,
        TreeKind::Sapling => 99,
        TreeKind::Mature => 75,
        TreeKind::Elder => 66,
    }
}

/// Lumber yielded by a successful harvest of a tree of the given stage.
pub open spec fn harvest_amount_of(kind: TreeKind) -> u32 {
    match kind {
        TreeKind::Empty => 0,
        TreeKind::Sapling => 0,
        TreeKind::Mature => 1,
        TreeKind::Elder => 2,
    }
}

/// The stage of a tree known to exist, by age alone: here age 0 still counts
/// as a sapling, unlike a packed cell's tree field where age 0 means no tree.
pub open spec fn growth_stage(age: u32) -> TreeKind {
    if age < SAPLING_GROW_AGE as u32 {
        TreeKind::Sapling
    } else if age < MATURE_GROW_AGE as u32 {
        TreeKind::Mature
    } else {
        TreeKind::Elder
    }
}

/// A single tree viewed as a value: its linear grid position and its age.
pub struct Tree {
    pub position: usize,
    pub age: u32,
}

impl Tree {
    pub fn new(position: usize, age: u32) -> (r: Self)
        ensures
            r.position == position,
            r.age == age,
    {
        Self { position, age }
    }

    pub fn get_tree_kind(&self) -> (r: TreeKind)
        ensures
            r == growth_stage(self.age),
    {
        if self.age < 12 {
            TreeKind::Sapling
        } else if self.age < 120 {
            TreeKind::Mature
        } else {
            TreeKind::Elder
        }
    }

    pub fn get_spawn_chance(&self) -> (r: u32)
        ensures
            r == spawn_chance_of(growth_stage(self.age)),
    {
        let kind = self.get_tree_kind();
        if kind == TreeKind::Mature {
            10
        } else if kind == TreeKind::Elder {
            20
        } else {
            0
        }
    }

    pub fn get_harvest_amount(&self) -> (r: u32)
        ensures
            r == harvest_amount_of(growth_stage(self.age)),
    {
        match self.get_tree_kind() {
            TreeKind::Sapling => 0,
            TreeKind::Mature => 1,
            TreeKind::Elder => 2,
            TreeKind::Empty => 0,
        }
    }

    /// Ages the tree by one month, saturating at 255: a tree's age stops
    /// incrementing once it reaches the top of its range.
    pub fn grow(&mut self)
        ensures
            final(self).age == (if old(self).age < 255 {
                (old(self).age + 1) as u32
            } else {
                255u32
            }),
            final(self).position == old(self).position,
    {
        if self.age < 255 {
            self.age = self.age + 1;
        } else {
            self.age = 255;
        }
    }
}

} // verus!
