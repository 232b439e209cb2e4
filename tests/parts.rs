use sokoban::direction::Direction;
use sokoban::entity::{Entity, EntityKind};
use sokoban::events::{Events, MoveEntity};
use sokoban::level::Level;
use sokoban::tile::{Texture, Tile, TileGraphics, WallKind};

fn row_major_cells() -> Vec<[isize; 2]> {
    let mut cells = Vec::new();
    for y in 0..8 {
        for x in 0..8 {
            cells.push([x, y]);
        }
    }
    cells
}

#[test]
fn random_level_from_a_cell_order() {
    let level = Level::randomized(&row_major_cells()).unwrap();
    assert_eq!(level.width(), 8);
    assert_eq!(level.height(), 8);
    for x in 0..7 {
        assert_eq!(level.data.tiles.get_tile([x, 0]), Some(Tile::Wall(WallKind::Void)));
    }
    assert_eq!(level.data.tiles.get_tile([7, 0]), Some(Tile::Ice));
    assert_eq!(level.data.tiles.get_tile([3, 1]), Some(Tile::Ice));
    assert_eq!(level.data.tiles.get_tile([4, 1]), Some(Tile::Home));
    assert_eq!(level.data.tiles.get_tile([6, 1]), Some(Tile::Home));
    assert_eq!(level.data.tiles.get_tile([7, 1]), Some(Tile::SadHome));
    assert_eq!(level.data.tiles.get_tile([0, 2]), Some(Tile::SadHome));
    assert_eq!(level.data.entities.len(), 15);
    assert_eq!(level.data.entities[0].1.pos, [1, 2]);
    assert_eq!(level.data.entities[0].1.kind, EntityKind::Player);
    for j in 1..4 {
        let e = level.data.entities[j].1;
        assert_eq!(e.kind, EntityKind::BucketOfGoop);
        assert_eq!(level.data.tiles.get_tile(e.pos), Some(Tile::FloorWithGoop));
    }
    assert_eq!(level.data.entities[4].1.kind, EntityKind::Cake);
    assert_eq!(level.data.entities[14].1.kind, EntityKind::Human);
    assert_eq!(level.data.entities[14].1.pos, [3, 4]);
    assert_eq!(level.data.n_humans, 5);
    assert_eq!(level.data.tiles.get_tile([6, 6]), Some(Tile::Floor));
    assert!(!level.has_won);
}

#[test]
fn random_level_avoids_border_and_corners() {
    let mut cells = row_major_cells();
    cells.reverse();
    let level = Level::randomized(&cells).unwrap();
    for (_, e) in level.data.entities.iter() {
        assert!(e.pos[0] > 0 && e.pos[0] < 7 && e.pos[1] > 0 && e.pos[1] < 7);
    }
    assert_eq!(level.data.entities[0].1.pos, [6, 5]);
}

#[test]
fn random_level_can_be_played() {
    let mut level = Level::randomized(&row_major_cells()).unwrap();
    level.input(Direction::Down);
    let mut animations = Vec::new();
    let mut sounds = Vec::new();
    level.update(&mut animations, &mut sounds);
    assert!(!animations.is_empty());
}

#[test]
fn tile_layers() {
    let g = Tile::Floor.graphics();
    assert_eq!(g[0], Some(TileGraphics::Tilemap { atlas: Texture::FloorMap }));
    assert_eq!(g[1], None);
    assert_eq!(g[2], None);
    let g = Tile::IceWithGoop.graphics();
    assert_eq!(g[0], Some(TileGraphics::Tilemap { atlas: Texture::IceMap }));
    assert_eq!(g[2], Some(TileGraphics::Tilemap { atlas: Texture::GoopMap }));
    let g = Tile::Wall(WallKind::HappyHome).graphics();
    assert_eq!(g[0], None);
    assert_eq!(g[1], Some(TileGraphics::Texture(Texture::HappyHome)));
    let g = Tile::SadHome.graphics();
    assert_eq!(g[1], Some(TileGraphics::Texture(Texture::SadHome)));
    let g = Tile::Wall(WallKind::Void).graphics();
    assert_eq!(g[0], Some(TileGraphics::Tilemap { atlas: Texture::VoidMap }));
}

#[test]
fn tilemap_neighbours() {
    let floor = TileGraphics::Tilemap { atlas: Texture::FloorMap };
    assert!(floor.connects_to_tile(Tile::Home));
    assert!(!floor.connects_to_tile(Tile::Ice));
    assert!(!floor.connects_to_tile(Tile::Wall(WallKind::Void)));
    let void = TileGraphics::Tilemap { atlas: Texture::VoidMap };
    assert!(!void.connects_to_tile(Tile::Wall(WallKind::Void)));
    assert!(void.connects_to_tile(Tile::Wall(WallKind::HappyHome)));
    let ice = TileGraphics::Tilemap { atlas: Texture::IceMap };
    assert!(ice.connects_to_tile(Tile::IceWithGoop));
    assert!(!ice.connects_to_tile(Tile::Floor));
    let goop = TileGraphics::Tilemap { atlas: Texture::GoopMap };
    assert!(goop.connects_to_tile(Tile::FloorWithGoop));
    assert!(!goop.connects_to_tile(Tile::Floor));
    assert!(!TileGraphics::Texture(Texture::Home).connects_to_tile(Tile::Floor));
}

#[test]
fn entities_and_their_textures() {
    let mut e = Entity::new(3, -2, EntityKind::Human);
    assert_eq!(e.pos, [3, -2]);
    assert!(!e.is_sliding);
    e.goopify();
    assert_eq!(e.kind, EntityKind::HumanWithGoop);
    e.goopify();
    assert_eq!(e.kind, EntityKind::HumanWithGoop);
    let mut c = Entity::new(0, 0, EntityKind::Cake);
    c.goopify();
    assert_eq!(c.kind, EntityKind::CakeWithGoop);
    let mut p = Entity::new(0, 0, EntityKind::Player);
    p.goopify();
    assert_eq!(p.kind, EntityKind::Player);
    assert_eq!(EntityKind::Player.get_texture(), Texture::Player);
    assert_eq!(EntityKind::CakeWithGoop.get_texture(), Texture::CakeWithGoop);
    assert_eq!(EntityKind::BucketOfGoop.get_texture(), Texture::BucketOfGoop);
}

#[test]
fn move_destinations() {
    assert_eq!(MoveEntity::new(0, [2, 2], Direction::Right).to(), [3, 2]);
    assert_eq!(MoveEntity::new(0, [2, 2], Direction::Left).to(), [1, 2]);
    assert_eq!(MoveEntity::new(0, [2, 2], Direction::Up).to(), [2, 3]);
    assert_eq!(MoveEntity::new(0, [2, 2], Direction::Down).to(), [2, 1]);
    assert!(!MoveEntity::new(0, [2, 2], Direction::Down).is_friction_push);
    let mut events = Events::new();
    assert!(events.empty());
    events.moves.push(MoveEntity::new(1, [0, 0], Direction::Up));
    assert!(!events.empty());
}
