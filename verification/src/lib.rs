//! A procedurally generated grid maze.
//!
//! The maze is a rectangle of rooms centred on the origin.  A randomized
//! depth-first carve, followed by a patch phase that stitches in orphaned
//! cells, opens doors between neighbouring rooms until every cell is
//! reachable from the start room.  Exactly one start room (at the origin)
//! and one end room (just outside the rectangle) exist.  A navigator then
//! moves a single agent through the finished maze with move/undo semantics.

use vstd::prelude::*;

pub mod alea;
pub mod doors;
pub mod grille;
pub mod labyrinthe;
pub mod modele;
pub mod piece;

verus! {

/// The way building a room can fail.
#[derive(Debug, Clone, Copy, PartialEq, Eq, Structural)]
pub enum ErreurLabyrinthe {
    /// A room was given a door list whose length its role does not allow.
    NombrePortesInvalide,
}

} // verus!
