use real_tetris::tetrimino::Tetrimino;

#[test]
fn from_index_enumerates_the_seven_kinds_in_order() {
    assert_eq!(Tetrimino::from_index(0), Tetrimino::L);
    assert_eq!(Tetrimino::from_index(1), Tetrimino::J);
    assert_eq!(Tetrimino::from_index(2), Tetrimino::O);
    assert_eq!(Tetrimino::from_index(3), Tetrimino::T);
    assert_eq!(Tetrimino::from_index(4), Tetrimino::Z);
    assert_eq!(Tetrimino::from_index(5), Tetrimino::S);
    assert_eq!(Tetrimino::from_index(6), Tetrimino::I);
}

#[test]
fn random_spawn_is_roughly_uniform() {
    // Over N draws each of the 7 kinds is expected N/7 = 10000 times with
    // a standard deviation of about 93; a band of +/- 1000 is more than
    // ten standard deviations wide, so a uniform selector stays inside it
    // for all practical purposes while a skewed one does not.
    const N: usize = 70_000;
    let mut counts = [0usize; 7];
    for _ in 0..N {
        let slot = match Tetrimino::random() {
            Tetrimino::L => 0,
            Tetrimino::J => 1,
            Tetrimino::O => 2,
            Tetrimino::T => 3,
            Tetrimino::Z => 4,
            Tetrimino::S => 5,
            Tetrimino::I => 6,
        };
        counts[slot] += 1;
    }
    for (slot, &count) in counts.iter().enumerate() {
        assert!(
            (9_000..=11_000).contains(&count),
            "kind {slot} appeared {count} times over {N} draws"
        );
    }
}
