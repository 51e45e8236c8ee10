use organism::cell;
use organism::coord;
use organism::organ;
use organism::organ_direction::{self, OrganDirection};
use organism::organ_owner::OrganeOwner;
use organism::organ_type::OrganType;
use organism::protein::Protein;

#[test]
fn test_pos_new() {
    let pos = coord::new(26, 13);
    assert_eq!(coord::x(pos), 26);
    assert_eq!(coord::y(pos), 13);
}

#[test]
fn test_pos_manhattan_distance() {
    let pos1 = coord::new(1, 1);
    let pos2 = coord::new(4, 5);
    assert_eq!(coord::manhattan_distance(pos1, pos2), 7);
}

#[test]
fn test_pos_is_adjacent() {
    let pos1 = coord::new(1, 1);
    let pos2 = coord::new(1, 2);
    assert!(coord::is_adjacent(pos1, pos2));
}

#[test]
fn test_pos_is_not_adjacent() {
    let pos1 = coord::new(1, 1);
    let pos2 = coord::new(1, 3);
    assert!(!coord::is_adjacent(pos1, pos2));
}

#[test]
fn test_partial_eq() {
    let pos1 = coord::new(1, 1);
    let pos2 = coord::new(1, 1);
    assert_eq!(pos1, pos2);
}

#[test]
fn test_partial_not_eq() {
    let pos1 = coord::new(1, 1);
    let pos2 = coord::new(1, 2);
    assert_ne!(pos1, pos2);
}

#[test]
fn test_clone() {
    let pos1 = coord::new(1, 1);
    let pos2 = pos1.clone();
    assert_eq!(pos1, pos2);
}

#[test]
fn coord_test_pos_new() {
    let pos = coord::new(26, 13);
    assert_eq!(coord::x(pos), 26);
    assert_eq!(coord::y(pos), 13);
}

#[test]
fn coord_test_pos_manhattan_distance() {
    assert_eq!(coord::manhattan_distance(coord::new(1, 1), coord::new(4, 5)), 7);
}

#[test]
fn coord_test_pos_is_adjacent() {
    assert!(coord::is_adjacent(coord::new(1, 1), coord::new(1, 2)));
}

#[test]
fn coord_test_pos_is_not_adjacent() {
    assert!(!coord::is_adjacent(coord::new(1, 1), coord::new(1, 3)));
}

#[test]
fn coord_test_partial_eq() {
    assert_eq!(coord::new(1, 1), coord::new(1, 1));
}

#[test]
fn coord_test_partial_not_eq() {
    assert_ne!(coord::new(1, 1), coord::new(1, 2));
}

#[test]
fn coord_test_clone() {
    let pos1 = coord::new(1, 1);
    assert_eq!(pos1, pos1.clone());
}

#[test]
fn output_test_pos_new() {
    let pos = coord::new(26, 13);
    assert_eq!(coord::x(pos), 26);
    assert_eq!(coord::y(pos), 13);
}

#[test]
fn output_test_pos_manhattan_distance() {
    assert_eq!(coord::manhattan_distance(coord::new(1, 1), coord::new(4, 5)), 7);
}

#[test]
fn output_test_pos_is_adjacent() {
    assert!(coord::is_adjacent(coord::new(1, 1), coord::new(1, 2)));
}

#[test]
fn output_test_pos_is_not_adjacent() {
    assert!(!coord::is_adjacent(coord::new(1, 1), coord::new(1, 3)));
}

#[test]
fn output_test_partial_eq() {
    assert_eq!(coord::new(1, 1), coord::new(1, 1));
}

#[test]
fn output_test_partial_not_eq() {
    assert_ne!(coord::new(1, 1), coord::new(1, 2));
}

#[test]
fn output_test_clone() {
    let pos1 = coord::new(1, 1);
    assert_eq!(pos1, pos1.clone());
}

#[test]
fn all_rust_code_test_pos_new() {
    let pos = coord::new(1, 2);
    assert_eq!(coord::x(pos), 1);
    assert_eq!(coord::y(pos), 2);
}

#[test]
fn all_rust_code_test_pos_manhattan_distance() {
    assert_eq!(coord::manhattan_distance(coord::new(1, 1), coord::new(4, 5)), 7);
}

#[test]
fn all_rust_code_test_pos_is_adjacent() {
    assert!(coord::is_adjacent(coord::new(1, 1), coord::new(1, 2)));
}

#[test]
fn all_rust_code_test_pos_is_not_adjacent() {
    assert!(!coord::is_adjacent(coord::new(1, 1), coord::new(1, 3)));
}

#[test]
fn all_rust_code_test_partial_eq() {
    assert_eq!(coord::new(1, 1), coord::new(1, 1));
}

#[test]
fn all_rust_code_test_partial_not_eq() {
    assert_ne!(coord::new(1, 1), coord::new(1, 2));
}

#[test]
fn all_rust_code_test_clone() {
    let pos1 = coord::new(1, 1);
    assert_eq!(pos1, pos1.clone());
}

#[test]
fn cell_test_cell() {
    let cell = cell::new(false, Some(Protein::A), None);
    assert_eq!(cell::is_obstacle(cell), false);
    assert_eq!(cell::get_protein(cell), Some(Protein::A));
    assert_eq!(cell::contains_organ(cell), false);
    assert_eq!(cell::contains_protein(cell), true);
}

#[test]
fn cell_test_cell_wall() {
    let cell = cell::new(true, None, None);
    assert_eq!(cell::is_obstacle(cell), true);
    assert_eq!(cell::get_protein(cell), None);
    assert_eq!(cell::contains_organ(cell), false);
    assert_eq!(cell::contains_protein(cell), false);
}

#[test]
fn cell_test_cell_organ() {
    let cell = cell::new(false, None, Some(1));
    assert_eq!(cell::is_obstacle(cell), false);
    assert_eq!(cell::get_protein(cell), None);
    assert_eq!(cell::contains_organ(cell), true);
    assert_eq!(cell::contains_protein(cell), false);
}

#[test]
fn output_test_cell() {
    let cell = cell::new(false, Some(Protein::A), None);
    assert_eq!(cell::is_obstacle(cell), false);
    assert_eq!(cell::get_protein(cell), Some(Protein::A));
    assert_eq!(cell::contains_organ(cell), false);
    assert_eq!(cell::contains_protein(cell), true);
}

#[test]
fn output_test_cell_wall() {
    let cell = cell::new(true, None, None);
    assert_eq!(cell::is_obstacle(cell), true);
    assert_eq!(cell::get_protein(cell), None);
    assert_eq!(cell::contains_organ(cell), false);
    assert_eq!(cell::contains_protein(cell), false);
}

#[test]
fn output_test_cell_organ() {
    let cell = cell::new(false, None, Some(1));
    assert_eq!(cell::is_obstacle(cell), false);
    assert_eq!(cell::get_protein(cell), None);
    assert_eq!(cell::contains_organ(cell), true);
    assert_eq!(cell::contains_protein(cell), false);
}

#[test]
fn organ_test_new() {
    let organ = organ::new(0, OrganType::Root, OrganDirection::North, 0);
    assert_eq!(organ::get_owner(organ), 0);
    assert_eq!(organ::get_type(organ), OrganType::Root);
    assert_eq!(organ::get_direction(organ), OrganDirection::North);
}

#[test]
fn organ_test_add_root_coord() {
    let organ = organ::new(1, OrganType::Tentacle, OrganDirection::East, 0);
    let organ = organ::add_root_coord(organ, 0xFFFF);
    assert_eq!(organ::get_owner(organ), 1);
    assert_eq!(organ::get_type(organ), OrganType::Tentacle);
    assert_eq!(organ::get_direction(organ), OrganDirection::East);
    assert_eq!(0xFFFF, organ::get_root_coord(organ));
}

#[test]
fn organ_test_get_owner() {
    let organ = organ::new(0, OrganType::Root, OrganDirection::North, 0);
    assert_eq!(organ::get_owner(organ), 0);
}

#[test]
fn organ_test_get_direction() {
    let organ = organ::new(0, OrganType::Root, OrganDirection::North, 0);
    assert_eq!(organ::get_direction(organ), OrganDirection::North);
}

#[test]
fn organ_test_get_type() {
    let organ = organ::new(0, OrganType::Root, OrganDirection::North, 0);
    assert_eq!(organ::get_type(organ), OrganType::Root);
}

#[test]
fn organ_test_is_faced_to() {
    let organ = organ::new(0, OrganType::Root, OrganDirection::North, 0);
    let organ_coord = coord::new(0, 1);
    let coord = coord::new(0, 0);
    assert!(organ::is_faced_to(organ, organ_coord, coord));
}

#[test]
fn organ_test_is_root() {
    let organ = organ::new(0, OrganType::Root, OrganDirection::North, 0);
    assert!(organ::is_root(organ));
}

#[test]
fn organ_test_is_harvester() {
    let organ = organ::new(0, OrganType::Harvester, OrganDirection::North, 0);
    assert!(organ::is_harvester(organ));
}

#[test]
fn output_test_new() {
    let organ = organ::new(0, OrganType::Root, OrganDirection::North, 0);
    assert_eq!(organ::get_owner(organ), 0);
    assert_eq!(organ::get_type(organ), OrganType::Root);
    assert_eq!(organ::get_direction(organ), OrganDirection::North);
}

#[test]
fn output_test_add_root_coord() {
    let organ = organ::new(1, OrganType::Tentacle, OrganDirection::East, 0);
    let organ = organ::add_root_coord(organ, 0xFFFF);
    assert_eq!(organ::get_owner(organ), 1);
    assert_eq!(organ::get_type(organ), OrganType::Tentacle);
    assert_eq!(organ::get_direction(organ), OrganDirection::East);
    assert_eq!(0xFFFF, organ::get_root_coord(organ));
}

#[test]
fn output_test_get_owner() {
    let organ = organ::new(0, OrganType::Root, OrganDirection::North, 0);
    assert_eq!(organ::get_owner(organ), 0);
}

#[test]
fn output_test_get_direction() {
    let organ = organ::new(0, OrganType::Root, OrganDirection::North, 0);
    assert_eq!(organ::get_direction(organ), OrganDirection::North);
}

#[test]
fn output_test_get_type() {
    let organ = organ::new(0, OrganType::Root, OrganDirection::North, 0);
    assert_eq!(organ::get_type(organ), OrganType::Root);
}

#[test]
fn output_test_is_faced_to() {
    let organ = organ::new(0, OrganType::Root, OrganDirection::North, 0);
    assert!(organ::is_faced_to(organ, coord::new(0, 1), coord::new(0, 0)));
}

#[test]
fn output_test_is_root() {
    let organ = organ::new(0, OrganType::Root, OrganDirection::North, 0);
    assert!(organ::is_root(organ));
}

#[test]
fn output_test_is_harvester() {
    let organ = organ::new(0, OrganType::Harvester, OrganDirection::North, 0);
    assert!(organ::is_harvester(organ));
}

#[test]
fn organ_type_test_organ_type_from_str() {
    assert_eq!(OrganType::from_str("ROOT"), OrganType::Root);
    assert_eq!(OrganType::from_str("BASIC"), OrganType::Basic);
    assert_eq!(OrganType::from_str("HARVESTER"), OrganType::Harvester);
    assert_eq!(OrganType::from_str("SPORER"), OrganType::Sporer);
    assert_eq!(OrganType::from_str("TENTACLE"), OrganType::Tentacle);
}

#[test]
fn organ_type_test_organ_type_to_str() {
    assert_eq!(OrganType::Root.to_str(), "ROOT");
    assert_eq!(OrganType::Basic.to_str(), "BASIC");
    assert_eq!(OrganType::Harvester.to_str(), "HARVESTER");
    assert_eq!(OrganType::Sporer.to_str(), "SPORER");
    assert_eq!(OrganType::Tentacle.to_str(), "TENTACLE");
}

#[test]
fn output_test_organ_type_from_str() {
    assert_eq!(OrganType::from_str("ROOT"), OrganType::Root);
    assert_eq!(OrganType::from_str("BASIC"), OrganType::Basic);
    assert_eq!(OrganType::from_str("HARVESTER"), OrganType::Harvester);
    assert_eq!(OrganType::from_str("SPORER"), OrganType::Sporer);
    assert_eq!(OrganType::from_str("TENTACLE"), OrganType::Tentacle);
}

#[test]
fn output_test_organ_type_to_str() {
    assert_eq!(OrganType::Root.to_str(), "ROOT");
    assert_eq!(OrganType::Basic.to_str(), "BASIC");
    assert_eq!(OrganType::Harvester.to_str(), "HARVESTER");
    assert_eq!(OrganType::Sporer.to_str(), "SPORER");
    assert_eq!(OrganType::Tentacle.to_str(), "TENTACLE");
}

#[test]
fn all_rust_code_test_organ_type_from_str() {
    assert_eq!(OrganType::from_str("ROOT"), OrganType::Root);
    assert_eq!(OrganType::from_str("BASIC"), OrganType::Basic);
    assert_eq!(OrganType::from_str("HARVESTER"), OrganType::Harvester);
    assert_eq!(OrganType::from_str("SPORER"), OrganType::Sporer);
    assert_eq!(OrganType::from_str("TENTACLE"), OrganType::Tentacle);
}

#[test]
fn all_rust_code_test_organ_type_to_str() {
    assert_eq!(OrganType::Root.to_str(), "ROOT");
    assert_eq!(OrganType::Basic.to_str(), "BASIC");
    assert_eq!(OrganType::Harvester.to_str(), "HARVESTER");
    assert_eq!(OrganType::Sporer.to_str(), "SPORER");
    assert_eq!(OrganType::Tentacle.to_str(), "TENTACLE");
}

#[test]
fn organ_direction_test_organ_direction_from_str() {
    assert_eq!(OrganDirection::from_str("NORTH"), OrganDirection::North);
    assert_eq!(OrganDirection::from_str("WEST"), OrganDirection::West);
    assert_eq!(OrganDirection::from_str("SOUTH"), OrganDirection::South);
    assert_eq!(OrganDirection::from_str("EAST"), OrganDirection::East);
}

#[test]
fn organ_direction_test_organ_direction_from_char() {
    assert_eq!(OrganDirection::from_char('N'), OrganDirection::North);
    assert_eq!(OrganDirection::from_char('W'), OrganDirection::West);
    assert_eq!(OrganDirection::from_char('S'), OrganDirection::South);
    assert_eq!(OrganDirection::from_char('E'), OrganDirection::East);
}

#[test]
fn organ_direction_test_organ_direction_to_char() {
    assert_eq!(OrganDirection::North.to_char(), 'N');
    assert_eq!(OrganDirection::West.to_char(), 'W');
    assert_eq!(OrganDirection::South.to_char(), 'S');
    assert_eq!(OrganDirection::East.to_char(), 'E');
}

#[test]
fn organ_direction_test_organ_direction_opposite() {
    assert_eq!(OrganDirection::North.opposite(), OrganDirection::South);
    assert_eq!(OrganDirection::West.opposite(), OrganDirection::East);
    assert_eq!(OrganDirection::South.opposite(), OrganDirection::North);
    assert_eq!(OrganDirection::East.opposite(), OrganDirection::West);
}

#[test]
fn organ_direction_test_organ_direction_turn_left() {
    assert_eq!(OrganDirection::North.turn_left(), OrganDirection::West);
    assert_eq!(OrganDirection::West.turn_left(), OrganDirection::South);
    assert_eq!(OrganDirection::South.turn_left(), OrganDirection::East);
    assert_eq!(OrganDirection::East.turn_left(), OrganDirection::North);
}

#[test]
fn organ_direction_test_organ_direction_turn_right() {
    assert_eq!(OrganDirection::North.turn_right(), OrganDirection::East);
    assert_eq!(OrganDirection::West.turn_right(), OrganDirection::North);
    assert_eq!(OrganDirection::South.turn_right(), OrganDirection::West);
    assert_eq!(OrganDirection::East.turn_right(), OrganDirection::South);
}

#[test]
fn organ_direction_test_organ_direction_move_pos() {
    let pos = coord::new(1, 1);
    assert_eq!(OrganDirection::North.move_pos(pos), coord::new(1, 0));
    assert_eq!(OrganDirection::West.move_pos(pos), coord::new(0, 1));
    assert_eq!(OrganDirection::South.move_pos(pos), coord::new(1, 2));
    assert_eq!(OrganDirection::East.move_pos(pos), coord::new(2, 1));
}

#[test]
fn organ_direction_test_found_next_direction() {
    let src = coord::new(1, 1);
    assert_eq!(organ_direction::found_next_direction(src, coord::new(1, 2)), OrganDirection::South);
    assert_eq!(organ_direction::found_next_direction(src, coord::new(1, 0)), OrganDirection::North);
    assert_eq!(organ_direction::found_next_direction(src, coord::new(0, 1)), OrganDirection::West);
    assert_eq!(organ_direction::found_next_direction(src, coord::new(2, 1)), OrganDirection::East);
}

#[test]
fn output_test_organ_direction_from_str() {
    assert_eq!(OrganDirection::from_str("NORTH"), OrganDirection::North);
    assert_eq!(OrganDirection::from_str("WEST"), OrganDirection::West);
    assert_eq!(OrganDirection::from_str("SOUTH"), OrganDirection::South);
    assert_eq!(OrganDirection::from_str("EAST"), OrganDirection::East);
}

#[test]
fn output_test_organ_direction_from_char() {
    assert_eq!(OrganDirection::from_char('N'), OrganDirection::North);
    assert_eq!(OrganDirection::from_char('W'), OrganDirection::West);
    assert_eq!(OrganDirection::from_char('S'), OrganDirection::South);
    assert_eq!(OrganDirection::from_char('E'), OrganDirection::East);
}

#[test]
fn output_test_organ_direction_to_char() {
    assert_eq!(OrganDirection::North.to_char(), 'N');
    assert_eq!(OrganDirection::West.to_char(), 'W');
    assert_eq!(OrganDirection::South.to_char(), 'S');
    assert_eq!(OrganDirection::East.to_char(), 'E');
}

#[test]
fn output_test_organ_direction_opposite() {
    assert_eq!(OrganDirection::North.opposite(), OrganDirection::South);
    assert_eq!(OrganDirection::West.opposite(), OrganDirection::East);
    assert_eq!(OrganDirection::South.opposite(), OrganDirection::North);
    assert_eq!(OrganDirection::East.opposite(), OrganDirection::West);
}

#[test]
fn output_test_organ_direction_turn_left() {
    assert_eq!(OrganDirection::North.turn_left(), OrganDirection::West);
    assert_eq!(OrganDirection::West.turn_left(), OrganDirection::South);
    assert_eq!(OrganDirection::South.turn_left(), OrganDirection::East);
    assert_eq!(OrganDirection::East.turn_left(), OrganDirection::North);
}

#[test]
fn output_test_organ_direction_turn_right() {
    assert_eq!(OrganDirection::North.turn_right(), OrganDirection::East);
    assert_eq!(OrganDirection::West.turn_right(), OrganDirection::North);
    assert_eq!(OrganDirection::South.turn_right(), OrganDirection::West);
    assert_eq!(OrganDirection::East.turn_right(), OrganDirection::South);
}

#[test]
fn output_test_organ_direction_move_pos() {
    let pos = coord::new(1, 1);
    assert_eq!(OrganDirection::North.move_pos(pos), coord::new(1, 0));
    assert_eq!(OrganDirection::West.move_pos(pos), coord::new(0, 1));
    assert_eq!(OrganDirection::South.move_pos(pos), coord::new(1, 2));
    assert_eq!(OrganDirection::East.move_pos(pos), coord::new(2, 1));
}

#[test]
fn output_test_found_next_direction() {
    let src = coord::new(1, 1);
    assert_eq!(organ_direction::found_next_direction(src, coord::new(1, 2)), OrganDirection::South);
    assert_eq!(organ_direction::found_next_direction(src, coord::new(1, 0)), OrganDirection::North);
    assert_eq!(organ_direction::found_next_direction(src, coord::new(0, 1)), OrganDirection::West);
    assert_eq!(organ_direction::found_next_direction(src, coord::new(2, 1)), OrganDirection::East);
}

#[test]
fn all_rust_code_test_organ_direction_from_str() {
    assert_eq!(OrganDirection::from_str("NORTH"), OrganDirection::North);
    assert_eq!(OrganDirection::from_str("WEST"), OrganDirection::West);
    assert_eq!(OrganDirection::from_str("SOUTH"), OrganDirection::South);
    assert_eq!(OrganDirection::from_str("EAST"), OrganDirection::East);
}

#[test]
fn all_rust_code_test_organ_direction_from_char() {
    assert_eq!(OrganDirection::from_char('N'), OrganDirection::North);
    assert_eq!(OrganDirection::from_char('W'), OrganDirection::West);
    assert_eq!(OrganDirection::from_char('S'), OrganDirection::South);
    assert_eq!(OrganDirection::from_char('E'), OrganDirection::East);
}

#[test]
fn all_rust_code_test_organ_direction_to_char() {
    assert_eq!(OrganDirection::North.to_char(), 'N');
    assert_eq!(OrganDirection::West.to_char(), 'W');
    assert_eq!(OrganDirection::South.to_char(), 'S');
    assert_eq!(OrganDirection::East.to_char(), 'E');
}

#[test]
fn all_rust_code_test_organ_direction_opposite() {
    assert_eq!(OrganDirection::North.opposite(), OrganDirection::South);
    assert_eq!(OrganDirection::West.opposite(), OrganDirection::East);
    assert_eq!(OrganDirection::South.opposite(), OrganDirection::North);
    assert_eq!(OrganDirection::East.opposite(), OrganDirection::West);
}

#[test]
fn all_rust_code_test_organ_direction_turn_left() {
    assert_eq!(OrganDirection::North.turn_left(), OrganDirection::West);
    assert_eq!(OrganDirection::West.turn_left(), OrganDirection::South);
    assert_eq!(OrganDirection::South.turn_left(), OrganDirection::East);
    assert_eq!(OrganDirection::East.turn_left(), OrganDirection::North);
}

#[test]
fn all_rust_code_test_organ_direction_turn_right() {
    assert_eq!(OrganDirection::North.turn_right(), OrganDirection::East);
    assert_eq!(OrganDirection::West.turn_right(), OrganDirection::North);
    assert_eq!(OrganDirection::South.turn_right(), OrganDirection::West);
    assert_eq!(OrganDirection::East.turn_right(), OrganDirection::South);
}

#[test]
fn all_rust_code_test_organ_direction_move_pos() {
    let pos = coord::new(1, 1);
    assert_eq!(OrganDirection::North.move_pos(pos), coord::new(1, 0));
    assert_eq!(OrganDirection::West.move_pos(pos), coord::new(0, 1));
    assert_eq!(OrganDirection::South.move_pos(pos), coord::new(1, 2));
    assert_eq!(OrganDirection::East.move_pos(pos), coord::new(2, 1));
}

#[test]
fn all_rust_code_test_found_next_direction() {
    let src = coord::new(1, 1);
    assert_eq!(organ_direction::found_next_direction(src, coord::new(1, 2)), OrganDirection::South);
    assert_eq!(organ_direction::found_next_direction(src, coord::new(1, 0)), OrganDirection::North);
    assert_eq!(organ_direction::found_next_direction(src, coord::new(0, 1)), OrganDirection::West);
    assert_eq!(organ_direction::found_next_direction(src, coord::new(2, 1)), OrganDirection::East);
}

#[test]
fn organ_owner_test_organ_owner_from_i32() {
    assert_eq!(OrganeOwner::from_i32(1), Some(OrganeOwner::PlayerOwner));
    assert_eq!(OrganeOwner::from_i32(0), Some(OrganeOwner::EnemyOwner));
    assert_eq!(OrganeOwner::from_i32(-1), Some(OrganeOwner::NotOrgan));
}

#[test]
fn output_test_organ_owner_from_i32() {
    assert_eq!(OrganeOwner::from_i32(1), Some(OrganeOwner::PlayerOwner));
    assert_eq!(OrganeOwner::from_i32(0), Some(OrganeOwner::EnemyOwner));
    assert_eq!(OrganeOwner::from_i32(-1), Some(OrganeOwner::NotOrgan));
}

#[test]
fn all_rust_code_test_organ_owner_from_i32() {
    assert_eq!(OrganeOwner::from_i32(1), Some(OrganeOwner::PlayerOwner));
    assert_eq!(OrganeOwner::from_i32(0), Some(OrganeOwner::EnemyOwner));
    assert_eq!(OrganeOwner::from_i32(-1), Some(OrganeOwner::NotOrgan));
}

#[test]
fn test_protein_round_trip() {
    assert_eq!(Protein::from_str("A"), Some(Protein::A));
    assert_eq!(Protein::from_str("D"), Some(Protein::D));
    assert_eq!(Protein::A.to_str(), "A");
    assert_eq!(Protein::C.to_str(), "C");
    assert_eq!(Protein::from_id(2), Some(Protein::C));
    assert_eq!(Protein::B.to_id(), 1);
}

#[test]
fn test_coord_round_trip_all_positions() {
    for x in 0..=26u8 {
        for y in 0..=13u8 {
            let c = coord::new(x, y);
            assert_eq!(coord::x(c), x);
            assert_eq!(coord::y(c), y);
        }
    }
}

#[test]
fn test_distance_symmetry() {
    let a = coord::new(3, 7);
    let b = coord::new(11, 2);
    assert_eq!(
        coord::manhattan_distance(a, b),
        coord::manhattan_distance(b, a)
    );
}

#[test]
fn test_cell_codec_exactly_one_payload() {
    let wall = cell::new(true, None, None);
    assert!(cell::is_obstacle(wall));
    assert!(!cell::is_protein(wall));
    assert!(!cell::is_organ(wall));

    let empty = cell::new(false, None, None);
    assert!(cell::is_empty(empty));
    assert!(!cell::is_obstacle(empty));

    let organ_cell = cell::new(
        false,
        None,
        Some(organ::new(1, OrganType::Tentacle, OrganDirection::West, coord::new(5, 5))),
    );
    assert!(cell::is_organ(organ_cell));
    assert_eq!(cell::get_protein(organ_cell), None);
    assert!(cell::is_tentacle(organ_cell));
    assert!(cell::is_owned_by(organ_cell, 1));
    assert!(!cell::is_owned_by(organ_cell, 0));
    assert!(cell::has_root_coord(organ_cell, coord::new(5, 5)));
}

#[test]
fn test_organ_codec_full_round_trip() {
    let o = organ::new(1, OrganType::Sporer, OrganDirection::South, coord::new(20, 11));
    assert_eq!(organ::get_owner(o), 1);
    assert_eq!(organ::get_type(o), OrganType::Sporer);
    assert_eq!(organ::get_direction(o), OrganDirection::South);
    assert_eq!(organ::get_root_coord(o), coord::new(20, 11));
}
