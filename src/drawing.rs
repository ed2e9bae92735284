//! The in-memory drawing model: header limits, top-level entities and the
//! block table, with lookup of a block by name.
use vstd::prelude::*;
use crate::geom::Point3;
use crate::transform::{Placement, Rotation};

verus! {

/// An instance of a named block.
#[derive(Debug)]
pub struct Insert {
    pub name: String,
    pub location: Point3,
    pub rotation: Rotation,
    pub x_scale_factor: i64,
    pub y_scale_factor: i64,
    pub z_scale_factor: i64,
}

impl Insert {
    pub open spec fn placement_spec(&self) -> Placement {
        Placement {
            scale_x: self.x_scale_factor,
            scale_y: self.y_scale_factor,
            scale_z: self.z_scale_factor,
            rotation: self.rotation,
            offset: self.location,
        }
    }

    /// Where the instance puts the block's contents: its scale, rotation and
    /// location.
    pub fn placement(&self) -> (r: Placement)
        ensures
            r == self.placement_spec(),
    {
        Placement {
            scale_x: self.x_scale_factor,
            scale_y: self.y_scale_factor,
            scale_z: self.z_scale_factor,
            rotation: self.rotation,
            offset: self.location,
        }
    }
}

/// A linear dimension measured along the direction `rotation_angle`.
#[derive(Clone, Copy, Debug, PartialEq, Eq, Structural)]
pub struct RotatedDimension {
    pub definition_point_1: Point3,
    pub definition_point_2: Point3,
    pub definition_point_3: Point3,
    pub rotation_angle: Rotation,
}

/// The entity kinds that the flattener knows; `Other` stands for any further
/// kind, named by `kind`.
#[derive(Debug)]
pub enum Entity {
    Line { p1: Point3, p2: Point3 },
    Polyline { vertices: Vec<Point3> },
    Insert(Insert),
    RotatedDimension(RotatedDimension),
    Other { kind: String },
}

/// A named, reusable group of entities.
#[derive(Debug)]
pub struct Block {
    pub name: String,
    pub entities: Vec<Entity>,
}

/// The declared extents of a drawing.
#[derive(Clone, Copy, Debug, PartialEq, Eq, Structural)]
pub struct Header {
    pub minimum_drawing_limits: Point3,
    pub maximum_drawing_limits: Point3,
}

#[derive(Debug)]
pub struct Drawing {
    pub header: Header,
    pub entities: Vec<Entity>,
    pub blocks: Vec<Block>,
}

/// The index of the first block named `name`.
pub open spec fn block_index(blocks: Seq<Block>, name: Seq<char>) -> Option<int>
    decreases blocks.len(),
{
    if blocks.len() == 0 {
        None
    } else {
        match block_index(blocks.drop_last(), name) {
            Some(i) => Some(i),
            None => if blocks.last().name@ == name {
                Some(blocks.len() - 1)
            } else {
                None
            },
        }
    }
}

/// A found block is a block of that name, and no earlier block has it.
pub proof fn lemma_block_index(blocks: Seq<Block>, name: Seq<char>)
    ensures
        match block_index(blocks, name) {
            Some(i) => {
                &&& 0 <= i < blocks.len()
                &&& blocks[i].name@ == name
                &&& forall|j: int| 0 <= j < i ==> blocks[j].name@ != name
            },
            None => forall|j: int| 0 <= j < blocks.len() ==> blocks[j].name@ != name,
        },
    decreases blocks.len(),
{
    if blocks.len() > 0 {
        lemma_block_index(blocks.drop_last(), name);
        assert forall|j: int| 0 <= j < blocks.len() - 1 implies blocks[j] == blocks.drop_last()[j] by {}
    }
}

impl Drawing {
    /// The index of the first block whose name is `name`, if any.
    pub fn find_block(&self, name: &String) -> (r: Option<usize>)
        ensures
            match block_index(self.blocks@, name@) {
                Some(i) => r == Some(i as usize),
                None => r is None,
            },
    {
        let mut i: usize = 0;
        while i < self.blocks.len()
            invariant
                i <= self.blocks.len(),
                block_index(self.blocks@.take(i as int), name@) is None,
            decreases self.blocks.len() - i,
        {
            assert(self.blocks@.take(i + 1).drop_last() =~= self.blocks@.take(i as int));
            if self.blocks[i].name == *name {
                proof {
                    lemma_block_index(self.blocks@, name@);
                    lemma_block_index(self.blocks@.take(i as int), name@);
                    if let Some(k) = block_index(self.blocks@, name@) {
                        if k < i {
                            assert(self.blocks@.take(i as int)[k] == self.blocks@[k]);
                        }
                    }
                }
                return Some(i);
            }
            i += 1;
        }
        assert(self.blocks@.take(i as int) =~= self.blocks@);
        None
    }
}

} // verus!
