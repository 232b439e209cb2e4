use sokoban::entity::EntityKind;
use sokoban::level::Level;
use sokoban::parse::ParseError;
use sokoban::tile::{Tile, WallKind};

#[test]
fn reads_rows_from_the_bottom_up() {
    let levels = Level::several_from_string("#H\np.\n").unwrap();
    assert_eq!(levels.len(), 1);
    let l = &levels[0];
    assert_eq!(l.width(), 2);
    assert_eq!(l.height(), 2);
    assert_eq!(l.data.tiles.buffer.len(), 4);
    assert_eq!(l.data.tiles.get_tile([0, 0]), Some(Tile::Floor));
    assert_eq!(l.data.tiles.get_tile([0, 1]), Some(Tile::Wall(WallKind::Void)));
    assert_eq!(l.data.tiles.get_tile([1, 1]), Some(Tile::Home));
    assert_eq!(l.data.tiles.get_tile([2, 0]), None);
    assert_eq!(l.data.tiles.get_tile([0, -1]), None);
    assert_eq!(l.data.entities.len(), 1);
    assert_eq!(l.data.entities[0].1.pos, [0, 0]);
    assert_eq!(l.data.entities[0].1.kind, EntityKind::Player);
    assert_eq!(l.player_id, 0);
}

#[test]
fn several_levels_keep_their_order() {
    let text = "// first\np.b\n\n  .P.  \n.S.\n// end\n";
    let levels = Level::several_from_string(text).unwrap();
    assert_eq!(levels.len(), 2);
    assert_eq!(levels[0].width(), 3);
    assert_eq!(levels[0].height(), 1);
    assert_eq!(levels[0].data.n_humans, 1);
    assert_eq!(levels[1].height(), 2);
    assert_eq!(levels[1].data.tiles.get_tile([1, 1]), Some(Tile::Ice));
    assert_eq!(levels[1].data.tiles.get_tile([1, 0]), Some(Tile::SadHome));
    assert_eq!(levels[1].data.entities[0].1.pos, [1, 1]);
}

#[test]
fn glyphs_place_entities_on_their_tiles() {
    let l = &Level::several_from_string("pPgGbBcC%").unwrap_err();
    assert_eq!(*l, ParseError::DuplicatePlayer);
    let levels = Level::several_from_string("pgGbBcC%.").unwrap();
    let l = &levels[0];
    let tiles: Vec<Tile> = (0..9).map(|x| l.data.tiles.get_tile([x, 0]).unwrap()).collect();
    assert_eq!(
        tiles,
        vec![
            Tile::Floor,
            Tile::Ice,
            Tile::Floor,
            Tile::Floor,
            Tile::Ice,
            Tile::Floor,
            Tile::Ice,
            Tile::Ice,
            Tile::Floor
        ]
    );
    let kinds: Vec<EntityKind> = l.data.entities.iter().map(|(_, e)| e.kind).collect();
    assert_eq!(
        kinds,
        vec![
            EntityKind::Player,
            EntityKind::BucketOfGoop,
            EntityKind::BucketOfGoop,
            EntityKind::Human,
            EntityKind::Human,
            EntityKind::Cake,
            EntityKind::Cake
        ]
    );
    let ids: Vec<u32> = l.data.entities.iter().map(|(i, _)| *i).collect();
    assert_eq!(ids, vec![0, 1, 2, 3, 4, 5, 6]);
    assert_eq!(l.data.n_humans, 2);
    assert_eq!(l.entity_id_ctr, 7);
}

#[test]
fn missing_player_is_an_error() {
    assert_eq!(Level::several_from_string("...\n.b.").unwrap_err(), ParseError::MissingPlayer);
    assert_eq!(Level::several_from_string("...\n\np..").unwrap_err(), ParseError::MissingPlayer);
}

#[test]
fn two_players_are_an_error() {
    assert_eq!(Level::several_from_string("p..\n..P").unwrap_err(), ParseError::DuplicatePlayer);
}

#[test]
fn unequal_rows_are_an_error() {
    assert_eq!(Level::several_from_string("p..\n..").unwrap_err(), ParseError::InconsistentWidth);
}

#[test]
fn unknown_glyph_is_an_error() {
    assert_eq!(Level::several_from_string("p.x").unwrap_err(), ParseError::UnknownCharacter('x'));
}

#[test]
fn empty_text_has_no_levels() {
    assert_eq!(Level::several_from_string("").unwrap().len(), 0);
    assert_eq!(Level::several_from_string("\n  \n// nothing\n").unwrap().len(), 0);
}

#[test]
fn bottom_block_is_checked_first() {
    assert_eq!(
        Level::several_from_string("p.x\n\n...").unwrap_err(),
        ParseError::MissingPlayer
    );
}

#[test]
fn crlf_lines_are_trimmed() {
    let levels = Level::several_from_string("p.\r\n.b\r\n").unwrap();
    assert_eq!(levels[0].width(), 2);
    assert_eq!(levels[0].data.entities[0].1.pos, [1, 0]);
    assert_eq!(levels[0].data.entities[1].1.pos, [0, 1]);
    assert_eq!(levels[0].player_id, 1);
}
