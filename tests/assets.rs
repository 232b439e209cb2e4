use sokoban::assets::{
    complete_metadata, read_texture_config, tilemap_layer, ConfigFault, TextureMetaData,
};
use sokoban::direction::{Direction, Input};
use sokoban::level::Level;
use sokoban::navigation::{decide_input, level_after_win, Action, Refusal, Slide};
use sokoban::tile::{tilemap_frame, Texture, TileGraphics};

fn text(v: &[char]) -> String {
    v.iter().collect()
}

#[test]
fn asset_list_assigns_pictures_in_order() {
    let config = read_texture_config(
        "// assets\nHome; texture; assets/home.png\n\n FloorMap ; map ; assets/floor_\nCake;texture;cake.png\n",
    )
    .unwrap();
    assert_eq!(config.metadata.len(), 16);
    assert_eq!(config.metadata[Texture::Home.index()], Some(TextureMetaData { index: 0, n_textures: 1 }));
    assert_eq!(config.metadata[Texture::FloorMap.index()], Some(TextureMetaData { index: 1, n_textures: 8 }));
    assert_eq!(config.metadata[Texture::Cake.index()], Some(TextureMetaData { index: 9, n_textures: 1 }));
    assert_eq!(config.metadata[Texture::Player.index()], None);
    assert_eq!(config.files.len(), 10);
    assert_eq!(text(&config.files[0]), "assets/home.png");
    assert_eq!(text(&config.files[1]), "assets/floor_0.png");
    assert_eq!(text(&config.files[8]), "assets/floor_7.png");
    assert_eq!(text(&config.files[9]), "cake.png");
    let full = complete_metadata(&config.metadata);
    assert_eq!(full[Texture::Player.index()], TextureMetaData { index: 0, n_textures: 1 });
    assert_eq!(full[Texture::Cake.index()], TextureMetaData { index: 9, n_textures: 1 });
}

#[test]
fn asset_list_faults() {
    let e = read_texture_config("Home; texture").unwrap_err();
    assert_eq!((e.line, e.fault), (0, ConfigFault::InvalidConfigArgNumber));
    let e = read_texture_config("\nHouse; texture; a.png").unwrap_err();
    assert_eq!((e.line, e.fault), (1, ConfigFault::UnknownResourceName));
    assert_eq!(text(&e.text), "House");
    let e = read_texture_config("Home; texture; a.png\nHome; map; b").unwrap_err();
    assert_eq!((e.line, e.fault), (1, ConfigFault::DuplicateResource));
    assert_eq!(text(&e.text), "Home");
    let e = read_texture_config("Cake; picture; a.png").unwrap_err();
    assert_eq!((e.line, e.fault), (0, ConfigFault::InvalidResourceType));
    assert_eq!(text(&e.text), "picture");
}

#[test]
fn texture_names_and_indices() {
    for i in 0..16 {
        let t = Texture::from_index(i);
        assert_eq!(t.index(), i);
    }
    assert_eq!(Texture::MossyMap.name(), "MossyMap");
    assert_eq!(Texture::HappyHome.index(), 2);
}

#[test]
fn tilemap_pictures() {
    assert_eq!(tilemap_frame(true, false, true), 5);
    assert_eq!(tilemap_frame(false, true, false), 2);
    let map = TextureMetaData { index: 10, n_textures: 8 };
    assert_eq!(tilemap_layer(map, tilemap_frame(true, true, true)), 17);
    let single = TextureMetaData { index: 3, n_textures: 1 };
    assert_eq!(tilemap_layer(single, 6), 3);
}

#[test]
fn neighbourhood_of_ice() {
    let level = &Level::several_from_string("%%.\n%p.\n...").unwrap()[0];
    let ice = TileGraphics::Tilemap { atlas: Texture::IceMap };
    let n = level.data.tiles.neighbourhood(ice, 0, 1);
    assert_eq!(n, [false, false, false, false, true, false, false, true, true]);
}

#[test]
fn navigation_between_levels() {
    assert_eq!(decide_input(Input::Randomize, 0, 3, false), Action::Randomize);
    assert_eq!(decide_input(Input::Undo, 0, 3, false), Action::Undo);
    assert_eq!(
        decide_input(Input::PrevLevel, 0, 3, false),
        Action::Refuse(Refusal::NoPreviousLevel)
    );
    assert_eq!(
        decide_input(Input::PrevLevel, 2, 3, false),
        Action::Load { level: 1, slide: Slide::Back }
    );
    assert_eq!(
        decide_input(Input::NextLevel, 1, 3, false),
        Action::Load { level: 2, slide: Slide::Forward }
    );
    assert_eq!(
        decide_input(Input::NextLevel, 2, 3, false),
        Action::Refuse(Refusal::NoMoreLevels)
    );
    assert_eq!(decide_input(Input::Confirm, 1, 3, false), Action::Restart { level: 1 });
    assert_eq!(decide_input(Input::Restart, 2, 3, true), Action::Restart { level: 2 });
    assert_eq!(
        decide_input(Input::Confirm, 1, 3, true),
        Action::Load { level: 2, slide: Slide::Forward }
    );
    assert_eq!(
        decide_input(Input::Move(Direction::Up), 1, 3, false),
        Action::Queue(Direction::Up)
    );
    assert_eq!(level_after_win(1, 3), 2);
    assert_eq!(level_after_win(2, 3), 0);
}
