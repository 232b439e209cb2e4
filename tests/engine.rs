use sokoban::direction::Direction;
use sokoban::entity::EntityKind;
use sokoban::events::{Animation, AnimationMoveKind};
use sokoban::level::Level;
use sokoban::sounds::SoundId;
use sokoban::tile::{Tile, WallKind};

fn one_level(text: &str) -> Level {
    let mut levels = Level::several_from_string(text).unwrap();
    assert_eq!(levels.len(), 1);
    levels.remove(0)
}

fn pos_of(level: &Level, id: u32) -> Option<[isize; 2]> {
    level.data.entities.iter().find(|(i, _)| *i == id).map(|(_, e)| e.pos)
}

fn kind_of(level: &Level, id: u32) -> Option<EntityKind> {
    level.data.entities.iter().find(|(i, _)| *i == id).map(|(_, e)| e.kind)
}

fn step(level: &mut Level) -> (Vec<Animation>, Vec<SoundId>) {
    let mut animations = Vec::new();
    let mut sounds = Vec::new();
    level.update(&mut animations, &mut sounds);
    (animations, sounds)
}

#[test]
fn push_into_wall_fails_for_the_whole_chain() {
    let mut level = one_level("pb#");
    level.input(Direction::Right);
    let (animations, sounds) = step(&mut level);
    assert_eq!(animations.len(), 2);
    assert!(matches!(animations[0], Animation::FailedMove { entity_id: 1, from: [1, 0], to: [2, 0], .. }));
    assert!(matches!(animations[1], Animation::FailedMove { entity_id: 0, from: [0, 0], to: [1, 0], .. }));
    assert_eq!(pos_of(&level, 0), Some([0, 0]));
    assert_eq!(pos_of(&level, 1), Some([1, 0]));
    assert_eq!(sounds, vec![SoundId::Push, SoundId::SpiderWalk]);
    assert!(level.data.active_events.empty());
}

#[test]
fn push_moves_both_entities() {
    let mut level = one_level("pb.");
    level.input(Direction::Right);
    let (animations, _) = step(&mut level);
    assert_eq!(pos_of(&level, 0), Some([1, 0]));
    assert_eq!(pos_of(&level, 1), Some([2, 0]));
    assert!(matches!(
        animations[0],
        Animation::Move { entity_id: 1, from: [1, 0], to: [2, 0], kind: AnimationMoveKind::Standard, .. }
    ));
    assert!(matches!(
        animations[1],
        Animation::Move { entity_id: 0, from: [0, 0], to: [1, 0], kind: AnimationMoveKind::Standard, .. }
    ));
}

#[test]
fn ice_slide_stops_next_to_the_wall() {
    let mut level = one_level("p%%#");
    level.input(Direction::Right);
    step(&mut level);
    assert_eq!(pos_of(&level, 0), Some([1, 0]));
    assert!(!level.data.active_events.empty());
    let (_, sounds) = step(&mut level);
    assert_eq!(pos_of(&level, 0), Some([2, 0]));
    assert!(sounds.is_empty());
    let (animations, _) = step(&mut level);
    assert!(matches!(animations[0], Animation::FailedMove { entity_id: 0, to: [3, 0], .. }));
    assert_eq!(pos_of(&level, 0), Some([2, 0]));
    assert!(level.data.entities[0].1.is_sliding);
    assert!(level.data.active_events.empty());
}

#[test]
fn player_ignores_input_while_a_move_is_pending() {
    let mut level = one_level("p%%#");
    level.input(Direction::Right);
    level.input(Direction::Left);
    assert_eq!(level.data.active_events.moves.len(), 1);
    assert_eq!(level.undo_stack.len(), 1);
    step(&mut level);
    level.input(Direction::Left);
    assert_eq!(level.data.active_events.moves.len(), 1);
    assert_eq!(level.undo_stack.len(), 1);
}

#[test]
fn human_on_goop_gets_goop_and_tile_stays() {
    let mut level = one_level("pb.");
    level.data.tiles.set_tile([2, 0], Tile::FloorWithGoop);
    level.input(Direction::Right);
    let (animations, _) = step(&mut level);
    assert_eq!(kind_of(&level, 1), Some(EntityKind::HumanWithGoop));
    assert_eq!(level.data.tiles.get_tile([2, 0]), Some(Tile::FloorWithGoop));
    assert!(animations
        .iter()
        .any(|a| matches!(a, Animation::Goopify { entity_id: 1, kind: EntityKind::HumanWithGoop })));
    assert_eq!(level.data.n_humans, 1);
}

#[test]
fn cake_on_sad_home_is_used_up() {
    let mut level = one_level("pcS");
    let changes = level.n_tile_changes;
    level.input(Direction::Right);
    let (animations, _) = step(&mut level);
    assert_eq!(level.data.tiles.get_tile([2, 0]), Some(Tile::Home));
    assert_eq!(level.n_tile_changes, changes + 1);
    assert_eq!(pos_of(&level, 1), None);
    assert!(level.data.entities.iter().all(|(_, e)| e.pos != [2, 0]));
    assert!(animations.iter().any(|a| matches!(
        a,
        Animation::Move { entity_id: 1, from: [1, 0], to: [2, 0], kind: AnimationMoveKind::Apply, .. }
    )));
    assert!(!level.has_won);
}

#[test]
fn last_human_home_wins() {
    let mut level = one_level("pbH");
    assert_eq!(level.data.n_humans, 1);
    level.input(Direction::Right);
    step(&mut level);
    assert_eq!(level.data.n_humans, 0);
    assert!(level.has_won);
    assert_eq!(level.data.tiles.get_tile([2, 0]), Some(Tile::Wall(WallKind::HappyHome)));
    assert_eq!(pos_of(&level, 1), None);
}

#[test]
fn one_of_two_humans_home_does_not_win() {
    let mut level = one_level("pbH\n.b.");
    assert_eq!(level.data.n_humans, 2);
    level.input(Direction::Right);
    step(&mut level);
    assert_eq!(level.data.n_humans, 1);
    assert!(!level.has_won);
}

#[test]
fn goop_human_eats_cake() {
    let mut level = one_level("pbc");
    level.data.entities[1].1.kind = EntityKind::HumanWithGoop;
    level.input(Direction::Right);
    let (animations, _) = step(&mut level);
    assert_eq!(kind_of(&level, 1), None);
    assert_eq!(kind_of(&level, 2), Some(EntityKind::Human));
    assert_eq!(level.data.n_humans, 1);
    assert!(animations.iter().any(|a| matches!(a, Animation::Goopify { entity_id: 2, kind: EntityKind::Human })));
    assert!(animations.iter().any(|a| matches!(
        a,
        Animation::Move { entity_id: 1, kind: AnimationMoveKind::Apply, .. }
    )));
}

#[test]
fn sliding_player_kicks_entity_on_ice() {
    let mut level = one_level("PB.");
    level.input(Direction::Right);
    assert!(!level.data.active_events.moves[0].is_friction_push);
    let (animations, sounds) = step(&mut level);
    assert!(matches!(
        animations[0],
        Animation::Move { entity_id: 0, kind: AnimationMoveKind::IceKick, .. }
    ));
    assert_eq!(pos_of(&level, 0), Some([0, 0]));
    assert_eq!(pos_of(&level, 1), Some([2, 0]));
    assert_eq!(sounds, vec![SoundId::SpiderWalk]);
}

#[test]
fn bucket_spills_goop_and_cannot_enter_homes() {
    let mut level = one_level("pg..");
    level.input(Direction::Right);
    step(&mut level);
    assert_eq!(level.data.tiles.get_tile([2, 0]), Some(Tile::FloorWithGoop));
    assert_eq!(level.n_tile_changes, 1);
    let mut level = one_level("pgH");
    level.input(Direction::Right);
    let (animations, _) = step(&mut level);
    assert!(matches!(animations[0], Animation::FailedMove { entity_id: 1, .. }));
    assert_eq!(pos_of(&level, 1), Some([1, 0]));
}

#[test]
fn undo_after_input_restores_the_state() {
    let mut level = one_level("pb.");
    let before = format!("{:?}", level.data);
    level.input(Direction::Right);
    assert!(level.data.has_input);
    assert!(level.undo());
    assert_eq!(format!("{:?}", level.data), before);
    assert!(level.undo_stack.is_empty());
    assert!(!level.undo());
}

#[test]
fn undo_after_update_restores_positions() {
    let mut level = one_level("pb.");
    level.input(Direction::Right);
    step(&mut level);
    assert_eq!(pos_of(&level, 0), Some([1, 0]));
    assert!(level.undo());
    assert_eq!(pos_of(&level, 0), Some([0, 0]));
    assert_eq!(pos_of(&level, 1), Some([1, 0]));
}

#[test]
fn solidity_of_cells() {
    let level = one_level("pb#\n...");
    assert!(level.tile_is_solid([-1, 0]));
    assert!(level.tile_is_solid([0, 2]));
    assert!(level.tile_is_solid([2, 1]));
    assert!(level.tile_is_solid([0, 1]));
    assert!(!level.tile_is_solid([0, 0]));
    assert_eq!(level.width(), 3);
    assert_eq!(level.height(), 2);
}

#[test]
fn pushed_human_takes_goop_from_spilt_bucket_tile() {
    let mut level = one_level("pbG..");
    assert_eq!(level.data.tiles.get_tile([2, 0]), Some(Tile::Floor));
    level.input(Direction::Right);
    step(&mut level);
    assert_eq!(level.data.tiles.get_tile([3, 0]), Some(Tile::FloorWithGoop));
    assert_eq!(kind_of(&level, 1), Some(EntityKind::Human));
    assert_eq!(level.n_tile_changes, 1);
    level.input(Direction::Right);
    let (animations, _) = step(&mut level);
    assert_eq!(pos_of(&level, 1), Some([3, 0]));
    assert_eq!(kind_of(&level, 1), Some(EntityKind::HumanWithGoop));
    assert_eq!(kind_of(&level, 2), Some(EntityKind::BucketOfGoop));
    assert_eq!(level.data.tiles.get_tile([3, 0]), Some(Tile::FloorWithGoop));
    assert_eq!(level.data.tiles.get_tile([4, 0]), Some(Tile::FloorWithGoop));
    assert_eq!(level.n_tile_changes, 2);
    assert_eq!(level.data.n_humans, 1);
    let goopified: Vec<u32> = animations
        .iter()
        .filter_map(|a| match a {
            Animation::Goopify { entity_id, .. } => Some(*entity_id),
            _ => None,
        })
        .collect();
    assert_eq!(goopified, vec![1]);
}

#[test]
fn bucket_glyphs_stand_on_ice_and_floor() {
    let level = one_level("pgG");
    assert_eq!(level.data.tiles.get_tile([1, 0]), Some(Tile::Ice));
    assert_eq!(level.data.tiles.get_tile([2, 0]), Some(Tile::Floor));
    assert_eq!(kind_of(&level, 1), Some(EntityKind::BucketOfGoop));
    assert_eq!(kind_of(&level, 2), Some(EntityKind::BucketOfGoop));
}

#[test]
fn slide_ends_in_an_ice_kick() {
    let mut level = one_level("p%B.");
    level.input(Direction::Right);
    step(&mut level);
    assert_eq!(pos_of(&level, 0), Some([1, 0]));
    let (animations, sounds) = step(&mut level);
    assert_eq!(animations.len(), 2);
    assert!(matches!(
        animations[0],
        Animation::Move {
            entity_id: 0,
            from: [1, 0],
            to: [2, 0],
            accelerate: false,
            decelerate: true,
            kind: AnimationMoveKind::IceKick
        }
    ));
    assert!(matches!(
        animations[1],
        Animation::Move {
            entity_id: 1,
            from: [2, 0],
            to: [3, 0],
            accelerate: true,
            decelerate: true,
            kind: AnimationMoveKind::Standard
        }
    ));
    assert_eq!(pos_of(&level, 0), Some([1, 0]));
    assert_eq!(pos_of(&level, 1), Some([3, 0]));
    assert!(sounds.is_empty());
}
