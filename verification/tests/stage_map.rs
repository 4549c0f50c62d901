use keystone_cc::chunk_grammar::{ChunkGrammarConfig, ChunkTemplate, Dir, TileKind, MAP_SIZE};
use keystone_cc::chunk_grammar::Port;
use keystone_cc::generator::{
    assemble_layout, boundary_margin, build_mandatory_chain, generate_map_from_config, GoalTarget,
};
use keystone_cc::placement::place_chunk;
use keystone_cc::layout_search::find_path_to_goal;
use keystone_cc::stone_type::StoneType;
use keystone_cc::tiles::{
    frame_cell, plan_frame, plan_solid_tiles, stone_sprite_index, tile_has_collider,
    tile_id_for_kind, tileset_grid, FrameTile, TileRotation,
};

fn template(id: &str, rows: &[&str]) -> ChunkTemplate {
    ChunkTemplate {
        id: id.to_string(),
        map: rows.iter().map(|r| r.to_string()).collect(),
        required_count: 0,
    }
}

fn small_config() -> ChunkGrammarConfig {
    ChunkGrammarConfig {
        map_size: (6, 2),
        stone_type: StoneType::Type2,
        start_chunks: vec![template("start", &["@E"])],
        middle_chunks: vec![template("step", &["IE"])],
        goal_chunks: vec![template("goal", &["IG"])],
    }
}

#[test]
fn opposite_directions() {
    assert_eq!(Dir::Left.opposite(), Dir::Right);
    assert_eq!(Dir::Right.opposite(), Dir::Left);
    assert_eq!(Dir::Right.opposite().opposite(), Dir::Right);
}

#[test]
fn generated_stage_joins_start_and_goal() {
    let config = small_config();
    assert!(config.usable());
    let map = generate_map_from_config(config).expect("a layout exists");
    assert_eq!(map.map_size, MAP_SIZE);
    assert_eq!(map.boundary_margin, (12, 9));
    assert_eq!(map.stone_type, StoneType::Type2);
    let ids: Vec<&str> = map.placed_chunks.iter().map(|c| c.id.as_str()).collect();
    assert_eq!(ids, vec!["start", "step", "step", "step", "goal"]);
    assert_eq!(map.tile_position(TileKind::PlayerSpawn), Some((12, 9)));
    let goal = map.tile_position(TileKind::Goal).unwrap();
    assert_eq!(goal.0, 17);
    let ascii = map.ascii_map();
    assert_eq!(ascii.len(), (MAP_SIZE.0 * MAP_SIZE.1) as usize);
    assert!(ascii.contains(&'@'));
    assert!(ascii.contains(&'G'));
}

#[test]
fn unusable_configs_are_detected() {
    let mut config = small_config();
    config.goal_chunks.clear();
    assert!(!config.usable());
    let mut config = small_config();
    config.start_chunks = vec![template("start", &["@."])];
    assert!(!config.usable());
}

#[test]
fn frame_cells_follow_the_corner_rules() {
    let size = (30, 20);
    let margin = (12, 9);
    assert_eq!(frame_cell(0, 0, size, margin), None);
    let corner = frame_cell(11, 8, size, margin).unwrap();
    assert!(corner.boundary);
    assert_eq!(corner.tile, FrameTile::Fixed(112, TileRotation::Upright));
    let turned = frame_cell(13, 8, size, margin).unwrap();
    assert_eq!(turned.tile, FrameTile::Fixed(114, TileRotation::QuarterTurn));
    let inside = frame_cell(14, 10, size, margin).unwrap();
    assert!(!inside.boundary);
    assert_eq!(inside.tile, FrameTile::Background);
    assert!(frame_cell(12, 9, size, margin).unwrap().entry_ladder);
    let floor = frame_cell(15, 11, size, margin).unwrap();
    assert!(floor.edge_bottom);
    assert_eq!(floor.tile, FrameTile::Fixed(133, TileRotation::Upright));
    assert!(frame_cell(17, 10, size, margin).unwrap().exit_ladder);
}

#[test]
fn frame_and_tiles_are_planned() {
    let map = generate_map_from_config(small_config()).unwrap();
    let mut rng = rand::rng();
    let frame = plan_frame(&map, &mut rng);
    // The ring of cells from (11, 8) to (18, 11): 8 columns of 4 rows.
    assert_eq!(frame.len(), 32);
    for p in &frame {
        if let FrameTile::Fixed(id, _) = p.cell.tile {
            assert_eq!(p.tile_id, id);
        } else {
            let background = [
                251, 252, 253, 254, 268, 269, 270, 271, 285, 286, 287, 288, 302, 303, 304, 305,
            ];
            assert!(background.contains(&p.tile_id));
        }
        if p.grass {
            assert!(p.cell.edge_bottom);
        }
    }
    let solids = plan_solid_tiles(&map, &mut rng);
    for s in &solids {
        assert!(s.tile_id == 235 || s.tile_id == 236);
        assert!(matches!(s.moss, None | Some(224) | Some(225)));
    }
}

#[test]
fn tileset_layout_and_sprites() {
    let grid = tileset_grid();
    assert_eq!(grid.columns, 17);
    assert_eq!(grid.rows, 33);
    assert_eq!(grid.spacing, 3);
    assert!(tile_has_collider(235) && tile_has_collider(236) && !tile_has_collider(178));
    assert_eq!(stone_sprite_index(StoneType::Type1), 42);
    assert_eq!(stone_sprite_index(StoneType::Type2), 44);
    assert_eq!(stone_sprite_index(StoneType::Type3), 2);
    assert_eq!(stone_sprite_index(StoneType::Type4), 5);
    let mut rng = rand::rng();
    let id = tile_id_for_kind(&mut rng, TileKind::Solid).unwrap();
    assert!(id == 235 || id == 236);
    assert_eq!(tile_id_for_kind(&mut rng, TileKind::Goal), None);
}

#[test]
fn goal_column_reaches_the_floor_and_is_guarded() {
    let config = ChunkGrammarConfig {
        map_size: (6, 3),
        stone_type: StoneType::Type1,
        start_chunks: vec![template("start", &["@E"])],
        middle_chunks: vec![template("step", &["IE"])],
        goal_chunks: vec![template("goal", &[".G", "I."])],
    };
    assert!(config.usable());
    let map = generate_map_from_config(config).unwrap();
    assert_eq!(map.boundary_margin, (12, 8));
    let tiles = map.map_iter();
    let has = |x: isize, y: isize, k: TileKind| tiles.iter().any(|&((tx, ty), tk)| tx == x && ty == y && tk == k);
    for y in 8..=9 {
        assert!(has(17, y, TileKind::Goal), "goal missing at height {}", y);
        assert!(has(16, y, TileKind::Solid), "guard missing at height {}", y);
    }
    assert!(!has(17, 10, TileKind::Goal));
}

#[test]
fn search_finds_chain_of_steps_to_goal() {
    let mids = vec![template("step", &["IE"]).to_inner_template(true)];
    let mut rng = rand::rng();
    let start = Port { x: 1, y: 0, dir: Dir::Right };
    let found = find_path_to_goal(&mut rng, (6, 2), &mids, &vec![0], start, (3, 0))
        .expect("two steps reach the goal");
    assert_eq!(found.1, vec![0, 0]);
    assert_eq!(found.0.len(), 2);
    assert_eq!(found.0[1].exits_world[0].x, 3);
    assert_eq!(found.0[1].exits_world[0].y, 0);
}

#[test]
fn search_without_candidates_or_reachable_goal_fails() {
    let mids = vec![template("step", &["IE"]).to_inner_template(true)];
    let mut rng = rand::rng();
    let start = Port { x: 1, y: 0, dir: Dir::Right };
    assert!(find_path_to_goal(&mut rng, (6, 2), &mids, &vec![], start, (3, 0)).is_none());
    assert!(find_path_to_goal(&mut rng, (6, 2), &mids, &vec![0], start, (3, 1)).is_none());
}

#[test]
fn generation_without_room_for_chance_succeeds() {
    for _ in 0..5 {
        let mut config = small_config();
        config.map_size = (6, 1);
        let map = generate_map_from_config(config).expect("every choice leads to a layout");
        let ids: Vec<&str> = map.placed_chunks.iter().map(|c| c.id.as_str()).collect();
        assert_eq!(ids, vec!["start", "step", "step", "step", "goal"]);
    }
}

#[test]
fn required_chunks_are_chained_in_the_given_order() {
    let mids = vec![
        template("step", &["IE"]).to_inner_template(true),
        template("deep", &["..IE"]).to_inner_template(true),
    ];
    let start = Port { x: 1, y: 0, dir: Dir::Right };
    let (chunks, end) = build_mandatory_chain(&mids, &vec![0, 0], start, (6, 2)).expect("two steps fit");
    assert_eq!(chunks.len(), 2);
    assert_eq!((end.x, end.y), (3, 0));
    assert!(build_mandatory_chain(&mids, &vec![], start, (6, 2)).is_some());
    // The second template's entry lies two cells in; the chain starts one cell in.
    assert!(build_mandatory_chain(&mids, &vec![1], start, (6, 2)).is_none());
}

#[test]
fn attempts_are_assembled_only_when_the_path_meets_the_goal() {
    let start_t = template("start", &["@E"]).to_inner_template(false);
    let goal_t = template("goal", &["IG"]).to_inner_template(true);
    let start = place_chunk(&start_t, (0, 0)).unwrap();
    let exit = Port { x: 1, y: 0, dir: Dir::Right };
    let margin = boundary_margin((6, 2));
    let target = GoalTarget { origin: (1, 0), entry: (1, 0) };
    let layout = assemble_layout(&start, &vec![], &vec![], exit, &goal_t, target, margin).expect("goal meets the start");
    assert_eq!(layout.placed_chunks.len(), 2);
    assert_eq!(layout.boundary_margin, margin);
    assert_eq!(layout.placed_chunks[1].tiles_world[0].x, 2 + margin.0);
    let away = GoalTarget { origin: (3, 0), entry: (3, 0) };
    assert!(assemble_layout(&start, &vec![], &vec![], exit, &goal_t, away, margin).is_none());
}

#[test]
fn template_width_counts_bytes() {
    let t = template("wide", &["I\u{e9}E", "#"]).to_inner_template(true);
    assert_eq!(t.size, (4, 2));
    assert_eq!(t.exits[0].x, 2);
}
