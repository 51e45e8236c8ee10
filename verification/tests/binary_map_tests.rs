use organism::binary_map::BinaryMap;

#[test]
fn test_nb_bit_of_type() {
    let mut binary_map = BinaryMap::new(3, 3);
    binary_map.set_bit(0, true);
    binary_map.set_bit(1, true);
    binary_map.set_bit(2, true);
    binary_map.set_bit(3, true);
    binary_map.set_bit(4, true);
    binary_map.set_bit(5, true);
    binary_map.set_bit(6, true);
    binary_map.set_bit(7, true);
    binary_map.set_bit(8, true);
    assert_eq!(binary_map.get_bit(0), true);
    assert_eq!(binary_map.get_bit(1), true);
    assert_eq!(binary_map.get_bit(2), true);
    assert_eq!(binary_map.get_bit(3), true);
    assert_eq!(binary_map.get_bit(4), true);
    assert_eq!(binary_map.get_bit(5), true);
    assert_eq!(binary_map.get_bit(6), true);
    assert_eq!(binary_map.get_bit(7), true);
    assert_eq!(binary_map.get_bit(8), true);
}

#[test]
fn test_binary_map() {
    let mut binary_map = BinaryMap::new(3, 3);
    binary_map.set_bit(0, true);
    binary_map.set_bit(1, true);
    binary_map.set_bit(2, true);
    binary_map.set_bit(3, true);
    binary_map.set_bit(4, true);
    binary_map.set_bit(5, true);
    binary_map.set_bit(6, true);
    binary_map.set_bit(7, true);
    binary_map.set_bit(8, true);
    assert_eq!(binary_map.get_row(0), 0b111);
    assert_eq!(binary_map.get_row(1), 0b111);
    assert_eq!(binary_map.get_row(2), 0b111);
    assert_eq!(binary_map.get_next_coord(0, 0), None);
    assert_eq!(binary_map.get_next_coord(0, 1), None);
    assert_eq!(binary_map.get_next_coord(0, 2), None);
    assert_eq!(binary_map.get_next_coord(1, 0), None);
    assert_eq!(binary_map.get_next_coord(1, 1), None);
    assert_eq!(binary_map.get_next_coord(1, 2), None);
    assert_eq!(binary_map.get_next_coord(2, 0), None);
    assert_eq!(binary_map.get_next_coord(2, 1), None);
    assert_eq!(binary_map.get_next_coord(2, 2), None);
}

#[test]
fn test_binary_map_clear_and_openings() {
    let mut binary_map = BinaryMap::new(4, 3);
    binary_map.set_bit(5, true);
    assert_eq!(binary_map.get_row(1), 0b0010);
    assert_eq!(binary_map.get_next_coord(1, 1), Some(organism::coord::new(0, 1)));
    binary_map.clear();
    assert_eq!(binary_map.get_bit(5), false);
    assert_eq!(binary_map.get_row(1), 0);
}
