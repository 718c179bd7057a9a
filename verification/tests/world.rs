use terminalshooter::world::{self, Rng, CELLS, HEIGHT, UNREACHED, WIDTH};

#[test]
fn arena_is_connected() {
    // The player's start cell (9.5, 12.5) lies in cell (9, 12).
    let distances = world::routes(9, 12);
    assert_eq!(distances.len(), CELLS);
    for y in 0..HEIGHT {
        let row = world::map_row(y);
        assert_eq!(row.chars().count(), WIDTH);
        for (x, cell) in row.chars().enumerate() {
            if cell == '.' {
                assert_ne!(distances[y * WIDTH + x], UNREACHED);
            }
        }
    }
}

#[test]
fn map_matches_the_arena_picture() {
    let picture = [
        "###################",
        "#.................#",
        "#.................#",
        "#....##....##.....#",
        "#....##....##.....#",
        "#.................#",
        "#.................#",
        "#.................#",
        "#.................#",
        "#....##....##.....#",
        "#....##....##.....#",
        "#.................#",
        "#.................#",
        "#.................#",
        "###################",
    ];
    for (y, line) in picture.iter().enumerate() {
        assert_eq!(world::map_row(y), *line);
    }
}

#[test]
fn outside_the_grid_is_wall() {
    assert!(world::wall(-1, 2));
    assert!(world::wall(2, -1));
    assert!(world::wall(19, 2));
    assert!(world::wall(2, 15));
    assert!(world::wall(5, 3));
    assert!(!world::wall(4, 3));
}

#[test]
fn route_distances_go_around_cover() {
    let field = world::routes(4, 3);
    // Straight through the pillar would be 3 steps; over its top it is 5.
    assert_eq!(field[3 * WIDTH + 4], 0);
    assert_eq!(field[3 * WIDTH + 7], 5);
    assert_eq!(field[3 * WIDTH + 5], UNREACHED);
    assert_eq!(field[0], UNREACHED);
}

#[test]
fn wall_target_reaches_nothing() {
    let field = world::routes(0, 0);
    assert!(field.iter().all(|&d| d == UNREACHED));
}

#[test]
fn next_step_descends_towards_the_target() {
    let field = world::routes(9, 12);
    assert_eq!(world::next_step(9, 10, &field), Some((9, 11)));
    // Ties go to the first of left, right, up, down.
    assert_eq!(world::next_step(10, 11, &field), Some((9, 11)));
    assert_eq!(world::next_step(9, 12, &field), None);
    assert_eq!(world::next_step(0, 0, &field), None);
    // Following steps reaches the target in exactly the field's distance.
    let (mut x, mut y) = (1, 1);
    let mut steps = 0;
    while let Some((nx, ny)) = world::next_step(x, y, &field) {
        assert_eq!(field[ny as usize * WIDTH + nx as usize] + 1, field[y as usize * WIDTH + x as usize]);
        x = nx;
        y = ny;
        steps += 1;
    }
    assert_eq!((x, y), (9, 12));
    assert_eq!(steps, field[WIDTH + 1]);
}

#[test]
fn rng_is_xorshift_and_never_zero() {
    let mut zero = Rng::new(0);
    let mut one = Rng::new(1);
    assert_eq!(zero.next_u64(), one.next_u64());
    let mut rng = Rng::new(1);
    let mut x: u64 = 1;
    x ^= x << 13;
    x ^= x >> 7;
    x ^= x << 17;
    assert_eq!(rng.next_u64(), x);
    assert_eq!(x, 1082269761);
    let mut rng = Rng::new(42);
    for _ in 0..1000 {
        assert_ne!(rng.next_u64(), 0);
    }
    let mut a = Rng::new(7);
    let mut b = a.clone();
    let v = b.next_u64();
    assert_eq!(a.index(10), (v % 10) as usize);
    assert!(a.index(3) < 3);
}
