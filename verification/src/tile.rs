//! The closed set of component kinds and their directional ports.

use vstd::prelude::*;

verus! {

/// One of the four sides of a grid cell. Each side carries a fixed unit
/// offset used to step from a cell to its neighbour in that direction.
#[derive(Clone, Copy, Debug, PartialEq, Eq, Structural)]
pub enum Side {
    Left,
    Right,
    Bottom,
    Top,
}

impl Side {
    /// Horizontal part of the unit offset of this side.
    pub open spec fn spec_dx(self) -> int {
        match self {
            Side::Left => -1,
            Side::Right => 1,
            Side::Bottom => 0,
            Side::Top => 0,
        }
    }

    /// Vertical part of the unit offset of this side; row indices grow downward.
    pub open spec fn spec_dy(self) -> int {
        match self {
            Side::Left => 0,
            Side::Right => 0,
            Side::Bottom => 1,
            Side::Top => -1,
        }
    }

    /// Horizontal unit offset of this side.
    pub fn x_offset(&self) -> (d: i32)
        ensures
            d == self.spec_dx(),
    {
        match self {
            Side::Left => -1,
            Side::Right => 1,
            Side::Bottom => 0,
            Side::Top => 0,
        }
    }

    /// Vertical unit offset of this side.
    pub fn y_offset(&self) -> (d: i32)
        ensures
            d == self.spec_dy(),
    {
        match self {
            Side::Left => 0,
            Side::Right => 0,
            Side::Bottom => 1,
            Side::Top => -1,
        }
    }
}

/// One circuit component. `Lamp`, `Battery` and `Cable` carry directional
/// ports; `P` and `N` form a junction whose directionality is structural
/// (current passes only from a `P` tile into an adjacent `N` tile).
#[derive(Clone, Copy, Debug, PartialEq, Eq, Structural)]
pub enum Tile {
    Lamp { entry: Side, exit: Side },
    Battery { plus_side: Side, minus_side: Side },
    Cable { entry: Side, exit: Side },
    P,
    N,
}

/// The kind of a tile, with the ports forgotten. The circuit traversal keys
/// its visited states on the kind of the previously crossed tile.
#[derive(Clone, Copy, Debug, PartialEq, Eq, Structural)]
pub enum Kind {
    Battery,
    Lamp,
    Cable,
    P,
    N,
}

impl Tile {
    /// The kind of this tile.
    pub open spec fn spec_kind(self) -> Kind {
        match self {
            Tile::Lamp { .. } => Kind::Lamp,
            Tile::Battery { .. } => Kind::Battery,
            Tile::Cable { .. } => Kind::Cable,
            Tile::P => Kind::P,
            Tile::N => Kind::N,
        }
    }

    /// The kind of this tile.
    pub fn kind(&self) -> (k: Kind)
        ensures
            k == self.spec_kind(),
    {
        match self {
            Tile::Lamp { .. } => Kind::Lamp,
            Tile::Battery { .. } => Kind::Battery,
            Tile::Cable { .. } => Kind::Cable,
            Tile::P => Kind::P,
            Tile::N => Kind::N,
        }
    }
}

} // verus!
