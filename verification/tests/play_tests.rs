use organism::action;
use organism::action_type::ActionType;
use organism::cell;
use organism::coord;
use organism::grid::Grid;
use organism::organ;
use organism::organ_direction::OrganDirection;
use organism::organ_type::OrganType;
use organism::play;
use organism::player::Player;
use organism::protein::Protein;

#[test]
fn test_can_attack_enemy_organ_in_one_cell() {
    let mut grid = Grid::new(3, 3);
    let player = Player::new(1);
    let coord = coord::new(1, 1);
    let organ_own = organ::new(1, OrganType::Basic, OrganDirection::North, coord);
    let organ_opp = organ::new(0, OrganType::Basic, OrganDirection::North, coord);
    grid.set_cell(0, 1, cell::new(false, None, Some(organ_own)));
    grid.set_cell(1, 2, cell::new(false, None, Some(organ_opp)));
    assert_eq!(
        play::can_attack_enemy_organ_in_one_cell(&grid, &player, coord),
        Some(OrganDirection::South)
    );
    assert_eq!(play::can_attack_enemy_organ_in_one_cell(&grid, &player, coord::new(1, 2)), None);
    assert_eq!(play::can_attack_enemy_organ_in_one_cell(&grid, &player, coord::new(1, 0)), None);
    assert_eq!(play::can_attack_enemy_organ_in_one_cell(&grid, &player, coord::new(0, 1)), None);
    assert_eq!(play::can_attack_enemy_organ_in_one_cell(&grid, &player, coord::new(2, 1)), None);
    assert_eq!(play::can_attack_enemy_organ_in_one_cell(&grid, &player, coord::new(0, 0)), None);
    assert_eq!(
        play::can_attack_enemy_organ_in_one_cell(&grid, &player, coord::new(0, 2)),
        Some(OrganDirection::East)
    );
}

#[test]
fn test_can_attack_enemy_organ_in_two_cell() {
    let mut grid = Grid::new(3, 3);
    let player = Player::new(1);
    let coord = coord::new(1, 0);
    let organ_own = organ::new(1, OrganType::Basic, OrganDirection::North, coord);
    let organ_opp = organ::new(0, OrganType::Basic, OrganDirection::North, coord);
    grid.set_cell(0, 0, cell::new(false, None, Some(organ_own)));
    grid.set_cell(1, 2, cell::new(false, None, Some(organ_opp)));
    assert_eq!(
        play::can_attack_enemy_organ_in_two_cell(&grid, &player, coord),
        Some(OrganDirection::South)
    );
}

#[test]
fn test_frontier_of_lone_root() {
    let mut grid = Grid::new(5, 5);
    let root = coord::new(0, 0);
    grid.add_organ(root, organ::new(0, OrganType::Root, OrganDirection::North, root));
    let mut frontier: Vec<u16> = Vec::new();
    play::fill_all_possible_coord(&mut frontier, root, root, &grid);
    assert_eq!(frontier.len(), 2);
    assert!(frontier.contains(&coord::new(1, 0)));
    assert!(frontier.contains(&coord::new(0, 1)));
}

#[test]
fn test_frontier_skips_occupied_and_foreign_cells() {
    let mut grid = Grid::new(5, 5);
    let root = coord::new(0, 0);
    grid.add_organ(root, organ::new(0, OrganType::Root, OrganDirection::North, root));
    grid.add_organ(coord::new(1, 0), organ::new(0, OrganType::Basic, OrganDirection::North, root));
    let mut frontier: Vec<u16> = Vec::new();
    play::fill_all_possible_coord(&mut frontier, root, root, &grid);
    assert!(!frontier.contains(&coord::new(1, 0)));
    assert!(frontier.contains(&coord::new(0, 1)));
    assert!(frontier.contains(&coord::new(2, 0)));
    assert!(frontier.contains(&coord::new(1, 1)));
    assert_eq!(frontier.len(), 3);
}

#[test]
fn test_choose_action_basic_growth() {
    let mut grid = Grid::new(5, 5);
    let root = coord::new(0, 0);
    grid.add_organ(root, organ::new(0, OrganType::Root, OrganDirection::North, root));
    let mut player = Player::new(0);
    player.add_protein(Protein::D, 1);
    let action = play::found_an_action(&grid, &player, root);
    assert_eq!(action::get_type(action), ActionType::Growth);
    assert_eq!(action::get_organ_type(action), OrganType::Basic);
    assert_eq!(action::get_coord_source(action), root);
    let target = action::get_coord_target(action);
    assert!(target == coord::new(1, 0) || target == coord::new(0, 1));
}

#[test]
fn test_choose_action_one_step_kill() {
    let mut grid = Grid::new(5, 5);
    let root = coord::new(0, 0);
    grid.add_organ(root, organ::new(0, OrganType::Root, OrganDirection::North, root));
    let enemy_root = coord::new(2, 0);
    grid.set_cell(
        2,
        0,
        cell::new(false, None, Some(organ::new(1, OrganType::Root, OrganDirection::North, enemy_root))),
    );
    let mut player = Player::new(0);
    player.add_protein(Protein::B, 1);
    player.add_protein(Protein::D, 1);
    let action = play::found_an_action(&grid, &player, root);
    assert_eq!(action::get_type(action), ActionType::Growth);
    assert_eq!(action::get_organ_type(action), OrganType::Tentacle);
    assert_eq!(action::get_coord_target(action), coord::new(1, 0));
    assert_eq!(action::get_direction(action), OrganDirection::East);
}

#[test]
fn test_choose_action_blocked_by_enemy_tentacle() {
    let mut grid = Grid::new(5, 5);
    let root = coord::new(0, 0);
    grid.add_organ(root, organ::new(0, OrganType::Root, OrganDirection::North, root));
    let tentacle_coord = coord::new(2, 0);
    grid.set_cell(
        2,
        0,
        cell::new(
            false,
            None,
            Some(organ::new(1, OrganType::Tentacle, OrganDirection::West, tentacle_coord)),
        ),
    );
    let mut player = Player::new(0);
    player.add_protein(Protein::B, 1);
    player.add_protein(Protein::D, 1);

    // the guarded cell is shut to player zero but not to the tentacle's owner
    let probe0 = organ::new(0, OrganType::Basic, OrganDirection::North, root);
    let probe1 = organ::new(1, OrganType::Basic, OrganDirection::North, tentacle_coord);
    assert!(!grid.can_add_organ_without_root_coord(coord::new(1, 0), probe0));
    assert!(grid.can_add_organ_without_root_coord(coord::new(1, 0), probe1));

    // the guarded cell never enters the frontier, so the chosen move ignores it
    let mut frontier: Vec<u16> = Vec::new();
    play::fill_all_possible_coord(&mut frontier, root, root, &grid);
    assert!(!frontier.contains(&coord::new(1, 0)));
    assert_eq!(frontier, vec![coord::new(0, 1)]);

    let action = play::found_an_action(&grid, &player, root);
    assert_ne!(action::get_coord_target(action), coord::new(1, 0));
    assert_eq!(action::get_type(action), ActionType::Wait);
}

#[test]
fn test_choose_action_harvester_next_to_protein() {
    let mut grid = Grid::new(5, 5);
    let root = coord::new(0, 0);
    grid.add_organ(root, organ::new(0, OrganType::Root, OrganDirection::North, root));
    grid.set_cell(2, 0, cell::new(false, Some(Protein::A), None));
    let mut player = Player::new(0);
    player.add_protein(Protein::B, 1);
    player.add_protein(Protein::C, 1);
    let action = play::found_an_action(&grid, &player, root);
    assert_eq!(action::get_type(action), ActionType::Growth);
    assert_eq!(action::get_organ_type(action), OrganType::Harvester);
    assert_eq!(action::get_coord_target(action), coord::new(1, 0));
}

#[test]
fn test_choose_action_nothing_affordable() {
    let mut grid = Grid::new(5, 5);
    let root = coord::new(0, 0);
    grid.add_organ(root, organ::new(0, OrganType::Root, OrganDirection::North, root));
    let player = Player::new(0);
    let action = play::found_an_action(&grid, &player, root);
    assert_eq!(action::get_type(action), ActionType::Wait);
}
