use vstd::prelude::*;

verus! {

/// Every image the renderer knows, by name.
#[derive(Clone, Copy, Debug, PartialEq, Eq, Structural, Hash)]
pub enum Texture {
    Home,
    Human,
    HappyHome,
    Cake,
    SadHome,
    Player,
    HumanWithGoop,
    CakeWithGoop,
    BucketOfGoop,
    FloorMap,
    GoopMap,
    IceMap,
    VoidMap,
    Grass,
    FlowerMap,
    MossyMap,
}

/// Decorative kinds of wall; a satisfied home is a wall as well.
#[derive(Clone, Copy, Debug, PartialEq, Eq, Structural, Hash)]
pub enum WallKind {
    Void,
    Grass,
    Flowers,
    HappyHome,
}

/// The content of one grid cell.
#[derive(Clone, Copy, Debug, PartialEq, Eq, Structural, Hash)]
pub enum Tile {
    Floor,
    Wall(WallKind),
    SadHome,
    Home,
    Ice,
    FloorWithGoop,
    IceWithGoop,
}

/// One drawing layer of a tile: a single texture, or a connected tilemap
/// whose neighbour test is decided by its atlas (see `connects_to_tile`).
#[derive(Clone, Copy, Debug, PartialEq, Eq, Structural)]
pub enum TileGraphics {
    Texture(Texture),
    Tilemap { atlas: Texture },
}

/// Whether a tilemap drawn with `atlas` joins up with a neighbouring `tile`.
pub open spec fn atlas_connects(atlas: Texture, tile: Tile) -> bool {
    match atlas {
        Texture::FloorMap => !(tile is Wall || tile is Ice || tile is IceWithGoop),
        Texture::VoidMap => tile != Tile::Wall(WallKind::Void),
        Texture::IceMap => tile is Ice || tile is IceWithGoop,
        Texture::GoopMap => tile is IceWithGoop || tile is FloorWithGoop,
        _ => false,
    }
}

/// Whether a layer joins up with a neighbouring `tile`: a tilemap by its
/// atlas, a single texture never.
pub open spec fn layer_connects(layer: TileGraphics, tile: Tile) -> bool {
    match layer {
        TileGraphics::Tilemap { atlas } => atlas_connects(atlas, tile),
        TileGraphics::Texture(_) => false,
    }
}

/// Which of the eight pictures of a tilemap atlas draws a corner of a
/// tile: one bit each for a joining neighbour beside it, above or below it,
/// and diagonally.
pub fn tilemap_frame(horizontal: bool, vertical: bool, diagonal: bool) -> (r: u32)
    ensures
        r == (if horizontal {
            4u32
        } else {
            0u32
        }) + (if vertical {
            2u32
        } else {
            0u32
        }) + (if diagonal {
            1u32
        } else {
            0u32
        }),
        r < 8,
{
    let h: u32 = if horizontal {
        4
    } else {
        0
    };
    let v: u32 = if vertical {
        2
    } else {
        0
    };
    let d: u32 = if diagonal {
        1
    } else {
        0
    };
    h + v + d
}

/// The base (ground) layer of a tile.
pub open spec fn base_layer(t: Tile) -> Option<TileGraphics> {
    match t {
        Tile::Floor | Tile::SadHome | Tile::Home | Tile::FloorWithGoop => Some(
            TileGraphics::Tilemap { atlas: Texture::FloorMap },
        ),
        Tile::Wall(WallKind::HappyHome) => None,
        Tile::Wall(_) => Some(TileGraphics::Tilemap { atlas: Texture::VoidMap }),
        Tile::Ice | Tile::IceWithGoop => Some(TileGraphics::Tilemap { atlas: Texture::IceMap }),
    }
}

/// The picture drawn on top of the ground, for homes.
pub open spec fn picture_layer(t: Tile) -> Option<TileGraphics> {
    match t {
        Tile::Wall(WallKind::HappyHome) => Some(TileGraphics::Texture(Texture::HappyHome)),
        Tile::SadHome => Some(TileGraphics::Texture(Texture::SadHome)),
        Tile::Home => Some(TileGraphics::Texture(Texture::Home)),
        _ => None,
    }
}

/// The goop layer, for goop-covered tiles.
pub open spec fn goop_layer(t: Tile) -> Option<TileGraphics> {
    match t {
        Tile::IceWithGoop | Tile::FloorWithGoop => Some(
            TileGraphics::Tilemap { atlas: Texture::GoopMap },
        ),
        _ => None,
    }
}

impl TileGraphics {
    /// For a tilemap layer, whether it joins up with a neighbouring tile;
    /// a single texture joins nothing.
    pub fn connects_to_tile(&self, tile: Tile) -> (r: bool)
        ensures
            r == layer_connects(*self, tile),
    {
        match *self {
            TileGraphics::Texture(_) => false,
            TileGraphics::Tilemap { atlas } => match atlas {
                Texture::FloorMap => match tile {
                    Tile::Wall(_) => false,
                    Tile::Ice => false,
                    Tile::IceWithGoop => false,
                    _ => true,
                },
                Texture::VoidMap => match tile {
                    Tile::Wall(WallKind::Void) => false,
                    _ => true,
                },
                Texture::IceMap => match tile {
                    Tile::Ice | Tile::IceWithGoop => true,
                    _ => false,
                },
                Texture::GoopMap => match tile {
                    Tile::IceWithGoop | Tile::FloorWithGoop => true,
                    _ => false,
                },
                _ => false,
            },
        }
    }
}

impl Tile {
    /// The three drawing layers of the tile: ground, picture, goop.
    /// Grass and flower walls have no graphics defined.
    pub fn graphics(self) -> (r: [Option<TileGraphics>; 3])
        requires
            self != Tile::Wall(WallKind::Grass),
            self != Tile::Wall(WallKind::Flowers),
        ensures
            r[0] == base_layer(self),
            r[1] == picture_layer(self),
            r[2] == goop_layer(self),
    {
        let base = match self {
            Tile::Floor | Tile::SadHome | Tile::Home | Tile::FloorWithGoop => Some(
                TileGraphics::Tilemap { atlas: Texture::FloorMap },
            ),
            Tile::Wall(WallKind::HappyHome) => None,
            Tile::Wall(_) => Some(TileGraphics::Tilemap { atlas: Texture::VoidMap }),
            Tile::Ice | Tile::IceWithGoop => Some(TileGraphics::Tilemap { atlas: Texture::IceMap }),
        };
        let picture = match self {
            Tile::Wall(WallKind::HappyHome) => Some(TileGraphics::Texture(Texture::HappyHome)),
            Tile::SadHome => Some(TileGraphics::Texture(Texture::SadHome)),
            Tile::Home => Some(TileGraphics::Texture(Texture::Home)),
            _ => None,
        };
        let goop = match self {
            Tile::IceWithGoop | Tile::FloorWithGoop => Some(
                TileGraphics::Tilemap { atlas: Texture::GoopMap },
            ),
            _ => None,
        };
        [base, picture, goop]
    }
}

} // verus!
