use untitled_th::bound::{Bounding, Direction, DOWN_VALUE, LEFT_VALUE, RIGHT_VALUE, UP_VALUE};

fn all_boundings() -> Vec<Bounding> {
    vec![
        Bounding::No,
        Bounding::Left,
        Bounding::Right,
        Bounding::Up,
        Bounding::Down,
        Bounding::LeftUp,
        Bounding::RightUp,
        Bounding::LeftDown,
        Bounding::RightDown,
        Bounding::UpDown,
        Bounding::LeftRight,
        Bounding::UpPass,
        Bounding::LeftPass,
        Bounding::RightPass,
        Bounding::DownPass,
        Bounding::AllBlock,
    ]
}

#[test]
fn the_bits_of_the_directions() {
    assert_eq!(Direction::Left.bit(), 0b0010);
    assert_eq!(Direction::Right.bit(), 0b0001);
    assert_eq!(Direction::Up.bit(), 0b1000);
    assert_eq!(Direction::Down.bit(), 0b0100);
    assert_eq!((LEFT_VALUE, RIGHT_VALUE, UP_VALUE, DOWN_VALUE), (2, 1, 8, 4));
}

#[test]
fn the_bits_of_the_boundings() {
    assert_eq!(Bounding::No.bits(), 0);
    assert_eq!(Bounding::Left.bits(), LEFT_VALUE);
    assert_eq!(Bounding::Right.bits(), RIGHT_VALUE);
    assert_eq!(Bounding::Up.bits(), UP_VALUE);
    assert_eq!(Bounding::Down.bits(), DOWN_VALUE);
    assert_eq!(Bounding::LeftUp.bits(), LEFT_VALUE | UP_VALUE);
    assert_eq!(Bounding::RightUp.bits(), RIGHT_VALUE | UP_VALUE);
    assert_eq!(Bounding::LeftDown.bits(), LEFT_VALUE | DOWN_VALUE);
    assert_eq!(Bounding::RightDown.bits(), RIGHT_VALUE | DOWN_VALUE);
    assert_eq!(Bounding::UpDown.bits(), UP_VALUE | DOWN_VALUE);
    assert_eq!(Bounding::LeftRight.bits(), LEFT_VALUE | RIGHT_VALUE);
    assert_eq!(Bounding::UpPass.bits(), LEFT_VALUE | RIGHT_VALUE | DOWN_VALUE);
    assert_eq!(Bounding::LeftPass.bits(), UP_VALUE | RIGHT_VALUE | DOWN_VALUE);
    assert_eq!(Bounding::RightPass.bits(), UP_VALUE | LEFT_VALUE | DOWN_VALUE);
    assert_eq!(Bounding::DownPass.bits(), UP_VALUE | LEFT_VALUE | RIGHT_VALUE);
    assert_eq!(Bounding::AllBlock.bits(), 0b1111);
}

#[test]
fn the_boundings_are_all_the_masks() {
    let mut bits: Vec<u8> = all_boundings().iter().map(|b| b.bits()).collect();
    bits.sort();
    assert_eq!(bits, (0u8..16).collect::<Vec<u8>>());
    for b in all_boundings() {
        assert_eq!(Bounding::from_bits(b.bits()), Some(b));
    }
    assert_eq!(Bounding::from_bits(16), None);
    assert_eq!(Bounding::from_bits(255), None);
}

#[test]
fn check_bound_reads_the_bit_of_the_direction() {
    for b in all_boundings() {
        for d in [Direction::Left, Direction::Right, Direction::Up, Direction::Down] {
            assert_eq!(b.check_bound(d), b.bits() & d.bit() != 0);
        }
    }
}

#[test]
fn all_block_blocks_all_and_up_pass_lets_up_through() {
    for d in [Direction::Left, Direction::Right, Direction::Up, Direction::Down] {
        assert!(Bounding::AllBlock.check_bound(d));
        assert!(!Bounding::No.check_bound(d));
    }
    assert!(Bounding::UpPass.check_bound(Direction::Left));
    assert!(Bounding::UpPass.check_bound(Direction::Right));
    assert!(Bounding::UpPass.check_bound(Direction::Down));
    assert!(!Bounding::UpPass.check_bound(Direction::Up));
    assert!(Bounding::LeftUp.check_bound(Direction::Left));
    assert!(Bounding::LeftUp.check_bound(Direction::Up));
    assert!(!Bounding::LeftUp.check_bound(Direction::Right));
    assert!(!Bounding::LeftUp.check_bound(Direction::Down));
}
