use laser_puzzle::block::Block;
use laser_puzzle::block_type::{BlockType, MirrorState};
use laser_puzzle::point::Point;

#[test]
fn point_from_tuple() {
    let p = Point::new_from_tuple((3, -2));
    assert_eq!(p, Point { x: 3, y: -2 });
}

#[test]
fn adjacency_is_symmetric() {
    let a = Block::new(2, 3);
    let cases = [
        Block::new(3, 3),
        Block::new(1, 3),
        Block::new(2, 4),
        Block::new(2, 2),
        Block::new(3, 4),
        Block::new(2, 3),
        Block::new(5, 3),
    ];
    for b in cases.iter() {
        assert_eq!(a.is_adjacent(b), b.is_adjacent(&a));
    }
}

#[test]
fn adjacency_cases() {
    let a = Block::new(0, 0);
    assert!(a.is_adjacent(&Block::new(1, 0)));
    assert!(a.is_adjacent(&Block::new(0, -1)));
    assert!(!a.is_adjacent(&Block::new(0, 0)));
    assert!(!a.is_adjacent(&Block::new(1, 1)));
    assert!(!a.is_adjacent(&Block::new(-1, 1)));
    assert!(!a.is_adjacent(&Block::new(2, 0)));
}

#[test]
fn get_adjacent_yields_four_neighbours() {
    let p = Block::new(4, -7);
    let n = p.get_adjacent();
    assert_eq!(n.len(), 4);
    assert_eq!(
        n,
        vec![Block::new(5, -7), Block::new(3, -7), Block::new(4, -6), Block::new(4, -8)]
    );
    for b in n.iter() {
        assert!(p.is_adjacent(b));
    }
}

#[test]
fn from_char_alphabet() {
    assert_eq!(BlockType::from_char(&'o'), BlockType::Empty);
    assert_eq!(BlockType::from_char(&'x'), BlockType::Blocking);
    assert_eq!(BlockType::from_char(&'/'), BlockType::Mirror(MirrorState::Default));
    assert_eq!(BlockType::from_char(&'\\'), BlockType::Mirror(MirrorState::Flipped));
    assert_eq!(BlockType::try_from_char(&'q'), None);
    assert_eq!(BlockType::try_from_char(&'x'), Some(BlockType::Blocking));
}

#[test]
fn rotating_twice_restores_cell() {
    let m = BlockType::Mirror(MirrorState::Default);
    assert_eq!(m.rotated(), BlockType::Mirror(MirrorState::Flipped));
    assert_eq!(m.rotated().rotated(), m);
    assert_eq!(BlockType::Blocking.rotated(), BlockType::Blocking);
    assert_eq!(BlockType::Empty.rotated(), BlockType::Empty);
    assert!(m.is_mirror());
    assert!(!BlockType::Empty.is_mirror());
}
