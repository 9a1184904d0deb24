//! What stands where in the first level: ground tiles, grass and props.
//!
//! The level is a row of columns of ground and, above it, a row of sections
//! that hold the props. This module says which picture goes where; how far
//! apart things stand is the host's to work out.

use vstd::prelude::*;

verus! {

/// Controls the rendering order of sprites. Higher values render on top of
/// lower values.
#[derive(Clone, Copy, Debug, PartialEq, Eq, Structural)]
pub struct ZIndex(pub i32);

/// Depth of the ground, the lowest layer.
pub const Z_GROUND: i32 = 0;

/// Depth of the grass.
pub const Z_GRASS: i32 = 1;

/// Depth of the rocks.
pub const Z_ROCKS: i32 = 2;

/// Depth of the boards.
pub const Z_BOARDS: i32 = 3;

/// Depth of the barrels.
pub const Z_BARRELS: i32 = 4;

/// Depth of the crates.
pub const Z_CRATES: i32 = 5;

/// Depth of the houses.
pub const Z_HOUSE: i32 = 6;

/// Depth of the trees, the topmost layer.
pub const Z_TREES: i32 = 7;

/// Rows of ground tiles in a column.
pub const GROUND_ROWS: u32 = 4;

/// Grass tufts on a column.
pub const TUFTS: u32 = 5;

/// The pictures of the ground.
#[derive(Clone, Copy, Debug, PartialEq, Eq, Structural)]
pub enum GroundTile {
    Slice,
    Tile01,
    Tile02,
    Tile03,
    Tile04,
}

/// The pictures of the grass.
#[derive(Clone, Copy, Debug, PartialEq, Eq, Structural)]
pub enum Grass {
    Grass01,
    Grass02,
}

/// A tuft of grass: its picture, and whether it is one of the taller tufts
/// that stand a little higher.
#[derive(Clone, Copy, Debug, PartialEq, Eq, Structural)]
pub struct Tuft {
    pub grass: Grass,
    pub tall: bool,
}

/// The pictures of the trees.
#[derive(Clone, Copy, Debug, PartialEq, Eq, Structural)]
pub enum Tree {
    Tree01,
    Tree02,
}

/// The pictures of the rocks that the level uses.
#[derive(Clone, Copy, Debug, PartialEq, Eq, Structural)]
pub enum Rock {
    Rock01,
    Rock04,
    Rock06,
}

/// The pictures of the barrels.
#[derive(Clone, Copy, Debug, PartialEq, Eq, Structural)]
pub enum Barrel {
    Barrel01,
    Barrel02,
    Barrel03,
}

/// The pictures of the crates.
#[derive(Clone, Copy, Debug, PartialEq, Eq, Structural)]
pub enum Crate {
    Crate01,
    Crate02,
    Crate03,
}

/// The pictures of the boards.
#[derive(Clone, Copy, Debug, PartialEq, Eq, Structural)]
pub enum Board {
    Board01,
    Board02,
    Board03,
    Board04,
}

/// What stands in the middle of a section besides trees, rocks and boards.
#[derive(Clone, Copy, Debug, PartialEq, Eq, Structural)]
pub enum Cluster {
    /// Two barrels of the same kind.
    Barrels(Barrel),
    /// A crate of the given kind and, beside it, a crate of the first kind.
    Crates(Crate),
}

/// A rock and its size: 0 for the smallest, 2 for the largest.
#[derive(Clone, Copy, Debug, PartialEq, Eq, Structural)]
pub struct Boulder {
    pub rock: Rock,
    pub size: u8,
}

/// The props of one section.
#[derive(Clone, Copy, Debug, PartialEq, Eq, Structural)]
pub struct Props {
    pub tree: Option<Tree>,
    pub rock: Option<Boulder>,
    pub cluster: Option<Cluster>,
    pub board: Option<Board>,
}

/// The ground tile in column `x`, row `y` counted from the bottom. The two
/// upper rows are plain; below them even and odd columns alternate.
pub open spec fn spec_ground_tile(x: u32, y: u32) -> GroundTile {
    if y == 1 {
        if x % 2 == 0 {
            GroundTile::Tile01
        } else {
            GroundTile::Tile03
        }
    } else if y == 0 {
        if x % 2 == 0 {
            GroundTile::Tile02
        } else {
            GroundTile::Tile04
        }
    } else {
        GroundTile::Slice
    }
}

/// The tuft at place `place` of column `x`. The places are spread evenly from
/// the left edge of the column to its right edge, so the last one stands on
/// the next column; every second one, the first included, is tall.
pub open spec fn spec_tuft(x: u32, place: u32) -> Tuft {
    let column = if place + 1 >= TUFTS {
        x + 1
    } else {
        x as int
    };
    Tuft {
        grass: if column % 2 == 0 {
            Grass::Grass01
        } else {
            Grass::Grass02
        },
        tall: place % 2 == 0,
    }
}

/// The props of section `section`: a tree in every third, a rock in every
/// second, barrels in every fourth, crates two sections after the barrels,
/// and a board in every fifth.
pub open spec fn spec_props(section: usize) -> Props {
    Props {
        tree: if section % 3 == 0 {
            Some(
                if section % 2 == 0 {
                    Tree::Tree01
                } else {
                    Tree::Tree02
                },
            )
        } else {
            None
        },
        rock: if section % 2 == 0 {
            Some(
                Boulder {
                    rock: if section % 6 == 2 {
                        Rock::Rock04
                    } else if section % 6 == 4 {
                        Rock::Rock06
                    } else {
                        Rock::Rock01
                    },
                    size: (section % 3) as u8,
                },
            )
        } else {
            None
        },
        cluster: if section % 4 == 0 {
            Some(
                Cluster::Barrels(
                    if section % 3 == 0 {
                        Barrel::Barrel01
                    } else if section % 3 == 1 {
                        Barrel::Barrel02
                    } else {
                        Barrel::Barrel03
                    },
                ),
            )
        } else if section % 4 == 2 {
            Some(
                Cluster::Crates(
                    if section % 3 == 0 {
                        Crate::Crate01
                    } else if section % 3 == 1 {
                        Crate::Crate02
                    } else {
                        Crate::Crate03
                    },
                ),
            )
        } else {
            None
        },
        board: if section % 5 == 0 {
            Some(
                if section % 4 == 0 {
                    Board::Board01
                } else if section % 4 == 1 {
                    Board::Board02
                } else if section % 4 == 2 {
                    Board::Board03
                } else {
                    Board::Board04
                },
            )
        } else {
            None
        },
    }
}

/// The ground tile in column `x`, row `y`.
pub fn ground_tile(x: u32, y: u32) -> (tile: GroundTile)
    ensures
        tile == spec_ground_tile(x, y),
{
    let even = x % 2 == 0;
    if y == 1 {
        if even {
            GroundTile::Tile01
        } else {
            GroundTile::Tile03
        }
    } else if y == 0 {
        if even {
            GroundTile::Tile02
        } else {
            GroundTile::Tile04
        }
    } else {
        GroundTile::Slice
    }
}

/// The tuft at place `place` of column `x`.
pub fn tuft(x: u32, place: u32) -> (tuft: Tuft)
    ensures
        tuft == spec_tuft(x, place),
{
    let odd = x % 2 == 1;
    let last = place >= TUFTS - 1;
    let grass = if odd == last {
        Grass::Grass01
    } else {
        Grass::Grass02
    };
    Tuft { grass, tall: place % 2 == 0 }
}

/// The props of section `section`.
pub fn props(section: usize) -> (props: Props)
    ensures
        props == spec_props(section),
{
    let tree = if section % 3 == 0 {
        Some(
            if section % 2 == 0 {
                Tree::Tree01
            } else {
                Tree::Tree02
            },
        )
    } else {
        None
    };
    let rock = if section % 2 == 0 {
        let kind = match section % 6 {
            2 => Rock::Rock04,
            4 => Rock::Rock06,
            _ => Rock::Rock01,
        };
        Some(Boulder { rock: kind, size: (section % 3) as u8 })
    } else {
        None
    };
    let cluster = if section % 4 == 0 {
        Some(
            Cluster::Barrels(
                match section % 3 {
                    0 => Barrel::Barrel01,
                    1 => Barrel::Barrel02,
                    _ => Barrel::Barrel03,
                },
            ),
        )
    } else if section % 4 == 2 {
        Some(
            Cluster::Crates(
                match section % 3 {
                    0 => Crate::Crate01,
                    1 => Crate::Crate02,
                    _ => Crate::Crate03,
                },
            ),
        )
    } else {
        None
    };
    let board = if section % 5 == 0 {
        Some(
            match section % 4 {
                0 => Board::Board01,
                1 => Board::Board02,
                2 => Board::Board03,
                _ => Board::Board04,
            },
        )
    } else {
        None
    };
    Props { tree, rock, cluster, board }
}

} // verus!
