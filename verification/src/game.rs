//! The parts of the gameplay world: what an entity can carry, and the map
//! of the level.

use crate::bound::{Bounding, Direction};
use vstd::prelude::*;

verus! {

/// How much an entity can still take.
#[derive(Debug, Copy, Clone, PartialEq, Eq, Structural)]
pub struct Health {
    pub hp: i32,
}

/// The tile that an entity is: which of its edges stop what walks, and
/// which stop bullets.
#[derive(Debug, Copy, Clone, PartialEq, Eq, Structural)]
pub struct Block {
    pub pass_bounding: Bounding,
    pub bullet_bounding: Bounding,
}

impl Block {
    /// Whether the edge towards `to` stops what walks.
    pub fn blocks_pass(&self, to: Direction) -> (r: bool)
        ensures
            r == self.pass_bounding.blocks(to),
    {
        self.pass_bounding.check_bound(to)
    }

    /// Whether the edge towards `to` stops bullets.
    pub fn blocks_bullet(&self, to: Direction) -> (r: bool)
        ensures
            r == self.bullet_bounding.blocks(to),
    {
        self.bullet_bounding.check_bound(to)
    }
}

/// The entity is fixed and cannot be moved in any way.
#[derive(Debug, Copy, Clone, PartialEq, Eq, Structural)]
pub struct Fixed;

/// The entity can be pushed.
#[derive(Debug, Copy, Clone, PartialEq, Eq, Structural)]
pub struct Movable;

/// An item can be placed in the entity.
#[derive(Debug, Copy, Clone, PartialEq, Eq, Structural)]
pub struct Placeable;

/// The map of a level. Its top left corner is the origin.
pub trait TileMap<E> {
    /// The blocks, column by column.
    spec fn columns(&self) -> Seq<Seq<E>>;

    /// The block at (x, y), or nothing where the map has none.
    fn get_block(&self, x: i32, y: i32) -> (r: Option<&E>)
        ensures
            match block_at(self.columns(), x as int, y as int) {
                Some(block) => r is Some && *r->Some_0 == block,
                None => r is None,
            },
    ;
}

/// The block at (x, y) of `columns`, where there is one.
pub open spec fn block_at<E>(columns: Seq<Seq<E>>, x: int, y: int) -> Option<E> {
    if 0 <= x < columns.len() && 0 <= y < columns[x].len() {
        Some(columns[x][y])
    } else {
        None
    }
}

/// A map whose blocks never change places.
pub struct FixedMap<E> {
    blocks: Vec<Vec<E>>,
}

impl<E> FixedMap<E> {
    pub fn new(blocks: Vec<Vec<E>>) -> (r: Self)
        ensures
            r.columns() == blocks@.map_values(|c: Vec<E>| c@),
    {
        FixedMap { blocks }
    }
}

impl<E> TileMap<E> for FixedMap<E> {
    closed spec fn columns(&self) -> Seq<Seq<E>> {
        self.blocks@.map_values(|c: Vec<E>| c@)
    }

    fn get_block(&self, x: i32, y: i32) -> Option<&E> {
        if x < 0 || y < 0 {
            return None;
        }
        let x = x as usize;
        let y = y as usize;
        if x < self.blocks.len() {
            let column = &self.blocks[x];
            if y < column.len() {
                Some(&column[y])
            } else {
                None
            }
        } else {
            None
        }
    }
}

} // verus!
