use untitled_th::bound::{Bounding, Direction};
use untitled_th::game::{Block, FixedMap, Health, TileMap};

#[test]
fn a_block_stops_what_its_boundings_say() {
    let block = Block { pass_bounding: Bounding::UpPass, bullet_bounding: Bounding::No };
    assert!(block.blocks_pass(Direction::Left));
    assert!(!block.blocks_pass(Direction::Up));
    assert!(!block.blocks_bullet(Direction::Left));
    assert_eq!(Health { hp: -3 }.hp, -3);
}

#[test]
fn a_block_is_found_by_its_column_and_row() {
    let map = FixedMap::new(vec![vec!['a', 'b'], vec!['c'], vec![]]);
    assert_eq!(map.get_block(0, 0), Some(&'a'));
    assert_eq!(map.get_block(0, 1), Some(&'b'));
    assert_eq!(map.get_block(1, 0), Some(&'c'));
    assert_eq!(map.get_block(0, 2), None);
    assert_eq!(map.get_block(1, 1), None);
    assert_eq!(map.get_block(2, 0), None);
    assert_eq!(map.get_block(3, 0), None);
    assert_eq!(map.get_block(-1, 0), None);
    assert_eq!(map.get_block(0, -1), None);
    assert_eq!(map.get_block(i32::MIN, i32::MAX), None);
}
