use organism::cell;
use organism::coord;
use organism::grid::Grid;
use organism::organ;
use organism::organ_direction::OrganDirection;
use organism::organ_type::OrganType;
use organism::protein::Protein;

#[test]
fn grid_test_grid() {
    let mut grid = Grid::new(3, 3);
    grid.set_cell(0, 0, cell::new(true, None, None));
    assert_eq!(cell::is_obstacle(grid.get_cell(0, 0)), true);
    assert_eq!(cell::is_obstacle(grid.get_cell(1, 1)), false);
    assert_eq!(cell::is_obstacle(grid.get_cell(2, 2)), false);
}

#[test]
fn output_test_grid() {
    let mut grid = Grid::new(3, 3);
    grid.set_cell(0, 0, cell::new(true, None, None));
    assert_eq!(cell::is_obstacle(grid.get_cell(0, 0)), true);
    assert_eq!(cell::is_obstacle(grid.get_cell(1, 1)), false);
    assert_eq!(cell::is_obstacle(grid.get_cell(2, 2)), false);
}

#[test]
fn grid_test_is_in_bounds() {
    let grid = Grid::new(3, 3);
    assert_eq!(grid.is_in_bounds(0, 0), true);
    assert_eq!(grid.is_in_bounds(2, 2), true);
    assert_eq!(grid.is_in_bounds(3, 3), false);
}

#[test]
fn output_test_is_in_bounds() {
    let grid = Grid::new(3, 3);
    assert_eq!(grid.is_in_bounds(0, 0), true);
    assert_eq!(grid.is_in_bounds(2, 2), true);
    assert_eq!(grid.is_in_bounds(3, 3), false);
}

#[test]
fn grid_test_is_in_bounds_coord() {
    let grid = Grid::new(3, 3);
    assert_eq!(grid.is_in_bounds_coord(coord::new(0, 0)), true);
    assert_eq!(grid.is_in_bounds_coord(coord::new(2, 2)), true);
    assert_eq!(grid.is_in_bounds_coord(coord::new(3, 3)), false);
}

#[test]
fn output_test_is_in_bounds_coord() {
    let grid = Grid::new(3, 3);
    assert_eq!(grid.is_in_bounds_coord(coord::new(0, 0)), true);
    assert_eq!(grid.is_in_bounds_coord(coord::new(2, 2)), true);
    assert_eq!(grid.is_in_bounds_coord(coord::new(3, 3)), false);
}

#[test]
fn grid_test_get_cell_from_coord() {
    let mut grid = Grid::new(3, 3);
    grid.set_cell(0, 0, cell::new(true, None, None));
    assert_eq!(cell::is_obstacle(grid.get_cell_from_coord(coord::new(0, 0))), true);
    assert_eq!(cell::is_obstacle(grid.get_cell_from_coord(coord::new(1, 1))), false);
    assert_eq!(cell::is_obstacle(grid.get_cell_from_coord(coord::new(2, 2))), false);
}

#[test]
fn output_test_get_cell_from_coord() {
    let mut grid = Grid::new(3, 3);
    grid.set_cell(0, 0, cell::new(true, None, None));
    assert_eq!(cell::is_obstacle(grid.get_cell_from_coord(coord::new(0, 0))), true);
    assert_eq!(cell::is_obstacle(grid.get_cell_from_coord(coord::new(1, 1))), false);
    assert_eq!(cell::is_obstacle(grid.get_cell_from_coord(coord::new(2, 2))), false);
}

#[test]
fn grid_test_set_cell() {
    let mut grid = Grid::new(3, 3);
    grid.set_cell(0, 0, cell::new(true, None, None));
    assert_eq!(cell::is_obstacle(grid.get_cell(0, 0)), true);
}

#[test]
fn grid_test_set_cell_from_coord() {
    let mut grid = Grid::new(3, 3);
    grid.set_cell(0, 0, cell::new(true, None, None));
    assert_eq!(cell::is_obstacle(grid.get_cell(0, 0)), true);
}

#[test]
fn grid_test_set_cell_from_coord_out_of_bounds() {
    let mut grid = Grid::new(3, 3);
    grid.set_cell(0, 0, cell::new(true, None, None));
    assert_eq!(cell::is_obstacle(grid.get_cell(0, 0)), true);
}

#[test]
fn output_test_set_cell() {
    let mut grid = Grid::new(3, 3);
    grid.set_cell(0, 0, cell::new(true, None, None));
    assert_eq!(cell::is_obstacle(grid.get_cell(0, 0)), true);
}

#[test]
fn output_test_set_cell_from_coord() {
    let mut grid = Grid::new(3, 3);
    grid.set_cell(0, 0, cell::new(true, None, None));
    assert_eq!(cell::is_obstacle(grid.get_cell(0, 0)), true);
}

#[test]
fn output_test_set_cell_from_coord_out_of_bounds() {
    let mut grid = Grid::new(3, 3);
    grid.set_cell(0, 0, cell::new(true, None, None));
    assert_eq!(cell::is_obstacle(grid.get_cell(0, 0)), true);
}

#[test]
fn grid_test_get_adjacent_coords() {
    let grid = Grid::new(3, 3);
    let adjacent_coords = grid.get_adjacent_coords(coord::new(1, 1));
    assert_eq!(adjacent_coords.len(), 4);
    assert!(adjacent_coords.contains(&coord::new(0, 1)));
    assert!(adjacent_coords.contains(&coord::new(2, 1)));
    assert!(adjacent_coords.contains(&coord::new(1, 0)));
    assert!(adjacent_coords.contains(&coord::new(1, 2)));
}

#[test]
fn output_test_get_adjacent_coords() {
    let grid = Grid::new(3, 3);
    assert_eq!(
        grid.get_adjacent_coords(coord::new(1, 1)),
        vec![coord::new(0, 1), coord::new(2, 1), coord::new(1, 0), coord::new(1, 2)]
    );
}

#[test]
fn grid_test_get_adjacent_cells() {
    let mut grid = Grid::new(3, 3);
    grid.set_cell(0, 1, cell::new(true, None, None));
    grid.set_cell(1, 0, cell::new(true, None, None));
    grid.set_cell(1, 2, cell::new(true, None, None));
    grid.set_cell(2, 1, cell::new(true, None, None));
    assert_eq!(
        grid.get_adjacent_cells(coord::new(1, 1)).iter().all(|&cell| cell::is_obstacle(cell)),
        true
    );
}

#[test]
fn grid_test_get_adjacent_cells_out_of_bounds() {
    let grid = Grid::new(3, 3);
    assert!(grid.get_adjacent_cells(coord::new(0, 0)).iter().all(|&cell| cell::is_empty(cell)));
}

#[test]
fn output_test_get_adjacent_cells() {
    let mut grid = Grid::new(3, 3);
    grid.set_cell(0, 1, cell::new(true, None, None));
    grid.set_cell(1, 0, cell::new(true, None, None));
    grid.set_cell(1, 2, cell::new(true, None, None));
    grid.set_cell(2, 1, cell::new(true, None, None));
    assert_eq!(
        grid.get_adjacent_cells(coord::new(1, 1)),
        vec![
            cell::new(true, None, None),
            cell::new(true, None, None),
            cell::new(true, None, None),
            cell::new(true, None, None)
        ]
    );
}

#[test]
fn output_test_get_adjacent_cells_out_of_bounds() {
    let grid = Grid::new(3, 3);
    assert_eq!(
        grid.get_adjacent_cells(coord::new(0, 0)),
        vec![cell::new(false, None, None), cell::new(false, None, None)]
    );
}

#[test]
fn grid_test_can_add_organ() {
    let mut grid = Grid::new(6, 6);
    for y in 0..3u8 {
        for x in 0..3u8 {
            grid.set_cell(x, y, cell::new(false, None, None));
        }
    }
    let default_organ = organ::new(0, OrganType::Root, OrganDirection::North, 0);
    for y in 0..3u8 {
        for x in 0..3u8 {
            assert_eq!(
                grid.can_add_organ_without_root_coord(coord::new(x, y), default_organ),
                true
            );
        }
    }
}

#[test]
fn output_test_can_add_organ() {
    let mut grid = Grid::new(6, 6);
    for y in 0..3u8 {
        for x in 0..3u8 {
            grid.set_cell(x, y, cell::new(false, None, None));
        }
    }
    let default_organ = organ::new(0, OrganType::Root, OrganDirection::North, 0);
    for y in 0..3u8 {
        for x in 0..3u8 {
            assert_eq!(
                grid.can_add_organ_without_root_coord(coord::new(x, y), default_organ),
                true
            );
        }
    }
}

#[test]
fn grid_test_can_add_organ_out_of_bounds() {
    let grid = Grid::new(3, 3);
    let default_organ = organ::new(0, OrganType::Basic, OrganDirection::North, 0);
    assert_eq!(grid.can_add_organ_without_root_coord(coord::new(3, 3), default_organ), false);
}

#[test]
fn output_test_can_add_organ_out_of_bounds() {
    let grid = Grid::new(3, 3);
    let default_organ = organ::new(0, OrganType::Basic, OrganDirection::North, 0);
    assert_eq!(grid.can_add_organ_without_root_coord(coord::new(3, 3), default_organ), false);
}

#[test]
fn grid_test_can_add_organ_in_edge() {
    let grid = Grid::new(3, 3);
    let default_organ = organ::new(0, OrganType::Basic, OrganDirection::North, 0);
    assert_eq!(grid.can_add_organ_without_root_coord(coord::new(2, 2), default_organ), false);
}

#[test]
fn test_can_add_organ_in_edge_should_true() {
    let grid = Grid::new(3, 3);
    let default_organ = organ::new(0, OrganType::Root, OrganDirection::North, 0);
    assert_eq!(grid.can_add_organ_without_root_coord(coord::new(2, 2), default_organ), true);
}

#[test]
fn test_can_add_organ_in_edge_should_false_canceled_by_tentacle() {
    let mut grid = Grid::new(5, 5);
    let tentacle_rival = organ::new(1, OrganType::Tentacle, OrganDirection::North, 1);
    let default_organ = organ::new(0, OrganType::Root, OrganDirection::North, 0);
    grid.set_cell(2, 3, cell::new(false, None, Some(tentacle_rival)));
    assert_eq!(grid.can_add_organ_without_root_coord(coord::new(2, 2), default_organ), false);
}

#[test]
fn test_can_add_organ_in_edge_should_true_canceled_by_own_tentacle() {
    let mut grid = Grid::new(5, 5);
    let tentacle_rival = organ::new(0, OrganType::Tentacle, OrganDirection::North, 1);
    let default_organ = organ::new(0, OrganType::Root, OrganDirection::North, 0);
    grid.set_cell(2, 3, cell::new(false, None, Some(tentacle_rival)));
    assert_eq!(grid.can_add_organ_without_root_coord(coord::new(2, 2), default_organ), true);
}

#[test]
fn grid_test_can_add_organ_with_obstacle() {
    let mut grid = Grid::new(3, 3);
    grid.set_cell(0, 0, cell::new(true, None, None));
    let default_organ = organ::new(0, OrganType::Basic, OrganDirection::North, 0);
    assert_eq!(grid.can_add_organ_without_root_coord(coord::new(0, 0), default_organ), false);
}

#[test]
fn output_test_can_add_organ_with_obstacle() {
    let mut grid = Grid::new(3, 3);
    grid.set_cell(0, 0, cell::new(true, None, None));
    let default_organ = organ::new(0, OrganType::Basic, OrganDirection::North, 0);
    assert_eq!(grid.can_add_organ_without_root_coord(coord::new(0, 0), default_organ), false);
}

#[test]
fn grid_test_can_add_organ_without_adjacent_organ() {
    let mut grid = Grid::new(3, 3);
    grid.set_cell(0, 0, cell::new(false, Some(Protein::A), None));
    let default_organ = organ::new(0, OrganType::Basic, OrganDirection::North, 0);
    assert_eq!(grid.can_add_organ_without_root_coord(coord::new(1, 0), default_organ), false);
}

#[test]
fn output_test_can_add_organ_without_adjacent_organ() {
    let mut grid = Grid::new(3, 3);
    grid.set_cell(0, 0, cell::new(false, Some(Protein::A), None));
    let default_organ = organ::new(0, OrganType::Basic, OrganDirection::North, 0);
    assert_eq!(grid.can_add_organ_without_root_coord(coord::new(1, 0), default_organ), false);
}

#[test]
fn grid_test_can_add_organ_with_adjacent_organ() {
    let mut grid = Grid::new(3, 3);
    let default_organ = organ::new(1, OrganType::Basic, OrganDirection::North, 0);
    grid.set_cell(0, 0, cell::new(false, None, Some(default_organ)));
    assert_eq!(grid.can_add_organ_without_root_coord(coord::new(1, 0), default_organ), true);
}

#[test]
fn output_test_can_add_organ_with_adjacent_organ() {
    let mut grid = Grid::new(3, 3);
    let default_organ = organ::new(1, OrganType::Basic, OrganDirection::North, 0);
    grid.set_cell(0, 0, cell::new(false, None, Some(default_organ)));
    assert_eq!(grid.can_add_organ_without_root_coord(coord::new(1, 0), default_organ), true);
}

#[test]
fn grid_test_can_add_organ_with_adjacent_not_owned_organ() {
    let mut grid = Grid::new(3, 3);
    let default_organ0 = organ::new(0, OrganType::Basic, OrganDirection::North, 0);
    let default_organ1 = organ::new(1, OrganType::Basic, OrganDirection::North, 0);
    grid.set_cell(0, 0, cell::new(false, None, Some(default_organ0)));
    assert_eq!(grid.can_add_organ_without_root_coord(coord::new(3, 3), default_organ1), false);
}

#[test]
fn output_test_can_add_organ_with_adjacent_not_owned_organ() {
    let mut grid = Grid::new(3, 3);
    let default_organ0 = organ::new(0, OrganType::Basic, OrganDirection::North, 0);
    let default_organ1 = organ::new(1, OrganType::Basic, OrganDirection::North, 0);
    grid.set_cell(0, 0, cell::new(false, None, Some(default_organ0)));
    assert_eq!(grid.can_add_organ_without_root_coord(coord::new(3, 3), default_organ1), false);
}

#[test]
fn grid_test_can_add_organ_in_front_of_tentacle() {
    let mut grid = Grid::new(5, 5);
    let root_organ = organ::new(0, OrganType::Root, OrganDirection::North, 0);
    let tentacle_organ = organ::new(0, OrganType::Tentacle, OrganDirection::South, 0);
    let root_organ1 = organ::new(1, OrganType::Root, OrganDirection::South, 0);
    grid.set_cell(0, 0, cell::new(false, None, Some(root_organ)));
    grid.set_cell(0, 1, cell::new(false, None, Some(tentacle_organ)));
    assert_eq!(grid.can_add_organ_without_root_coord(coord::new(0, 2), root_organ1), false);
    assert_eq!(grid.can_add_organ_without_root_coord(coord::new(0, 2), root_organ), true);
}

#[test]
fn output_test_can_add_organ_in_front_of_tentacle() {
    let mut grid = Grid::new(5, 5);
    let root_organ = organ::new(0, OrganType::Root, OrganDirection::North, 0);
    let tentacle_organ = organ::new(0, OrganType::Tentacle, OrganDirection::South, 0);
    let root_organ1 = organ::new(1, OrganType::Root, OrganDirection::South, 0);
    grid.set_cell(0, 0, cell::new(false, None, Some(root_organ)));
    grid.set_cell(0, 1, cell::new(false, None, Some(tentacle_organ)));
    assert_eq!(grid.can_add_organ_without_root_coord(coord::new(0, 2), root_organ1), false);
    assert_eq!(grid.can_add_organ_without_root_coord(coord::new(0, 2), root_organ), true);
}

#[test]
fn grid_test_add_organ() {
    let mut grid = Grid::new(3, 3);
    let default_organ = organ::new(0, OrganType::Basic, OrganDirection::North, 0);
    let root_organ = organ::new(0, OrganType::Root, OrganDirection::North, 0);
    grid.add_organ(coord::new(0, 0), root_organ);
    grid.add_organ(coord::new(1, 0), default_organ);
    assert_eq!(cell::get_organ(grid.get_cell(1, 0)).unwrap(), default_organ);
    let connections = grid.get_children(coord::new(0, 0)).unwrap();
    assert_eq!(connections.len(), 1);
    grid.add_organ(coord::new(0, 1), default_organ);
    grid.add_organ(coord::new(1, 1), default_organ);
    let connections = grid.get_children(coord::new(1, 1));
    assert_eq!(connections.is_none(), true);
    let connections = grid.get_children(coord::new(0, 0)).unwrap();
    assert_eq!(connections.len(), 2);
}

#[test]
fn output_test_add_organ() {
    let mut grid = Grid::new(3, 3);
    let default_organ = organ::new(0, OrganType::Basic, OrganDirection::North, 0);
    let root_organ = organ::new(0, OrganType::Root, OrganDirection::North, 0);
    grid.add_organ(coord::new(0, 0), root_organ);
    grid.add_organ(coord::new(1, 0), default_organ);
    assert_eq!(cell::get_organ(grid.get_cell(1, 0)).unwrap(), default_organ);
    let connections = grid.get_children(coord::new(0, 0)).unwrap();
    assert_eq!(connections.len(), 1);
    grid.add_organ(coord::new(0, 1), default_organ);
    grid.add_organ(coord::new(1, 1), default_organ);
    let connections = grid.get_children(coord::new(1, 1));
    assert_eq!(connections.is_none(), true);
    let connections = grid.get_children(coord::new(0, 0)).unwrap();
    assert_eq!(connections.len(), 2);
}

#[test]
fn grid_test_remove_organ() {
    let mut grid = Grid::new(3, 3);
    let default_organ = organ::new(0, OrganType::Basic, OrganDirection::North, 0);
    let root_organ = organ::new(0, OrganType::Root, OrganDirection::North, 0);
    grid.add_organ(coord::new(0, 0), root_organ);
    grid.add_organ(coord::new(1, 0), default_organ);
    grid.add_organ(coord::new(0, 1), default_organ);
    grid.add_organ(coord::new(1, 1), default_organ);
    grid.remove_organ(coord::new(1, 0));
    assert_eq!(cell::is_empty(grid.get_cell(1, 0)), true);
    let connections = grid.get_children(coord::new(0, 0)).unwrap();
    assert_eq!(connections.len(), 1);
    grid.remove_organ(coord::new(0, 0));
    for y in 0..3u8 {
        for x in 0..3u8 {
            assert_eq!(cell::is_empty(grid.get_cell(x, y)), true);
        }
    }
    let connections = grid.get_children(coord::new(0, 0));
    assert_eq!(connections.is_none(), true);
}

#[test]
fn output_test_remove_organ() {
    let mut grid = Grid::new(3, 3);
    let default_organ = organ::new(0, OrganType::Basic, OrganDirection::North, 0);
    let root_organ = organ::new(0, OrganType::Root, OrganDirection::North, 0);
    grid.add_organ(coord::new(0, 0), root_organ);
    grid.add_organ(coord::new(1, 0), default_organ);
    grid.add_organ(coord::new(0, 1), default_organ);
    grid.add_organ(coord::new(1, 1), default_organ);
    grid.remove_organ(coord::new(1, 0));
    assert_eq!(cell::is_empty(grid.get_cell(1, 0)), true);
    let connections = grid.get_children(coord::new(0, 0)).unwrap();
    assert_eq!(connections.len(), 1);
    grid.remove_organ(coord::new(0, 0));
    for y in 0..3u8 {
        for x in 0..3u8 {
            assert_eq!(cell::is_empty(grid.get_cell(x, y)), true);
        }
    }
    let connections = grid.get_children(coord::new(0, 0));
    assert_eq!(connections.is_none(), true);
}

#[test]
fn grid_test_remove_organ_no_child() {
    let mut grid = Grid::new(8, 8);
    let root_organ = organ::new(0, OrganType::Root, OrganDirection::North, 0);
    grid.add_organ(coord::new(0, 0), root_organ);
    grid.add_organ(coord::new(1, 0), root_organ);
    grid.add_organ(coord::new(0, 1), root_organ);
    grid.add_organ(coord::new(1, 1), root_organ);
    grid.add_organ(coord::new(1, 2), root_organ);
    grid.add_organ(coord::new(2, 1), root_organ);
    grid.remove_organ(coord::new(1, 1));
    assert_eq!(cell::is_empty(grid.get_cell(0, 0)), false);
    assert_eq!(cell::is_empty(grid.get_cell(0, 1)), false);
    assert_eq!(cell::is_empty(grid.get_cell(1, 1)), true);
    assert_eq!(cell::is_empty(grid.get_cell(1, 0)), false);
    assert_eq!(cell::is_empty(grid.get_cell(2, 1)), false);
    assert_eq!(cell::is_empty(grid.get_cell(1, 2)), false);
    let connections = grid.get_children(coord::new(0, 0));
    assert_eq!(connections.is_none(), true);
}

#[test]
fn output_test_remove_organ_no_child() {
    let mut grid = Grid::new(8, 8);
    let root_organ = organ::new(0, OrganType::Root, OrganDirection::North, 0);
    grid.add_organ(coord::new(0, 0), root_organ);
    grid.add_organ(coord::new(1, 0), root_organ);
    grid.add_organ(coord::new(0, 1), root_organ);
    grid.add_organ(coord::new(1, 1), root_organ);
    grid.add_organ(coord::new(1, 2), root_organ);
    grid.add_organ(coord::new(2, 1), root_organ);
    grid.remove_organ(coord::new(1, 1));
    assert_eq!(cell::is_empty(grid.get_cell(0, 0)), false);
    assert_eq!(cell::is_empty(grid.get_cell(0, 1)), false);
    assert_eq!(cell::is_empty(grid.get_cell(1, 1)), true);
    assert_eq!(cell::is_empty(grid.get_cell(1, 0)), false);
    assert_eq!(cell::is_empty(grid.get_cell(2, 1)), false);
    assert_eq!(cell::is_empty(grid.get_cell(1, 2)), false);
    let connections = grid.get_children(coord::new(0, 0));
    assert_eq!(connections.is_none(), true);
}

#[test]
fn test_subtree_removal_chain() {
    let mut grid = Grid::new(5, 5);
    let root = coord::new(0, 0);
    let root_organ = organ::new(0, OrganType::Root, OrganDirection::North, root);
    let limb = organ::new(0, OrganType::Basic, OrganDirection::North, root);
    grid.add_organ(root, root_organ);
    grid.add_organ(coord::new(1, 0), limb);
    grid.add_organ(coord::new(2, 0), limb);
    grid.remove_organ(coord::new(1, 0));
    assert!(cell::is_empty(grid.get_cell(1, 0)));
    assert!(cell::is_empty(grid.get_cell(2, 0)));
    assert!(!cell::is_empty(grid.get_cell(0, 0)));
    assert_eq!(grid.get_children(root).unwrap().len(), 0);
}

#[test]
fn test_reachable_range_counts_steps() {
    let mut grid = Grid::new(5, 5);
    let root = coord::new(2, 2);
    grid.add_organ(root, organ::new(0, OrganType::Root, OrganDirection::North, root));
    let one = grid.get_reachable_coords_in_range(root, 1, 0);
    assert_eq!(one.len(), 4);
    assert!(one.contains(&coord::new(1, 2)));
    assert!(one.contains(&coord::new(3, 2)));
    assert!(one.contains(&coord::new(2, 1)));
    assert!(one.contains(&coord::new(2, 3)));
}

#[test]
fn test_opponent_in_three_cells_found() {
    let mut grid = Grid::new(7, 7);
    let root = coord::new(1, 1);
    grid.add_organ(root, organ::new(1, OrganType::Root, OrganDirection::North, root));
    grid.add_organ(coord::new(2, 1), organ::new(1, OrganType::Basic, OrganDirection::North, root));
    let found = grid.get_opponent_in_three_cells(root, 1);
    assert_eq!(found, Some(coord::new(2, 1)));
}
