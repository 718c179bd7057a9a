use terminalshooter::game::wave_kind;
use terminalshooter::spawn::spawn_wave;
use terminalshooter::world::{routes, wall, Rng, CELLS, UNREACHED, WIDTH};

#[test]
fn spawned_enemies_are_reachable_spaced_and_safe() {
    // The player starts at (9.5, 12.5); a cell may take an enemy when its
    // centre lies at least five cells away.
    let (px, py) = (9.5f32, 12.5f32);
    let field = routes(9, 12);
    let far: Vec<bool> = (0..CELLS)
        .map(|c| {
            let x = (c % WIDTH) as f32 + 0.5;
            let y = (c / WIDTH) as f32 + 0.5;
            (x - px).hypot(y - py) >= 5.0
        })
        .collect();
    for seed in 1..50u64 {
        let placed = spawn_wave(&field, &far, &mut Rng::new(seed), 1);
        assert_eq!(placed.len(), 5);
        for (i, ((x, y), kind)) in placed.iter().enumerate() {
            let (ex, ey) = (*x as f32 + 0.5, *y as f32 + 0.5);
            assert!(!wall(*x, *y));
            assert!((ex - px).hypot(ey - py) >= 5.0);
            assert_ne!(field[*y as usize * WIDTH + *x as usize], UNREACHED);
            assert_eq!(*kind, wave_kind(1, i));
            assert!(placed[..i].iter().all(|((ox, oy), _)| {
                (ex - (*ox as f32 + 0.5)).hypot(ey - (*oy as f32 + 0.5)) > 1.2
            }));
        }
    }
}

#[test]
fn later_waves_are_spaced_and_far_too() {
    let field = routes(9, 12);
    let far: Vec<bool> = (0..CELLS)
        .map(|c| {
            let dx = (c % WIDTH) as i64 - 9;
            let dy = (c / WIDTH) as i64 - 12;
            dx * dx + dy * dy >= 25
        })
        .collect();
    for seed in 1..20u64 {
        for wave in 2..=5u8 {
            let placed = spawn_wave(&field, &far, &mut Rng::new(seed), wave);
            assert_eq!(placed.len(), 3 + 2 * wave as usize);
            for (i, ((x, y), _)) in placed.iter().enumerate() {
                assert!(far[*y as usize * WIDTH + *x as usize]);
                for ((ox, oy), _) in &placed[..i] {
                    assert!((x - ox) * (x - ox) + (y - oy) * (y - oy) >= 2);
                }
            }
        }
    }
}

#[test]
fn spawns_follow_the_seed() {
    let field = routes(9, 12);
    let far = vec![true; CELLS];
    let a = spawn_wave(&field, &far, &mut Rng::new(7), 3);
    let b = spawn_wave(&field, &far, &mut Rng::new(7), 3);
    let c = spawn_wave(&field, &far, &mut Rng::new(8), 3);
    assert_eq!(a, b);
    assert_ne!(a, c);
}

#[test]
fn no_candidates_means_no_enemies() {
    let field = routes(9, 12);
    let far = vec![false; CELLS];
    let mut rng = Rng::new(5);
    assert!(spawn_wave(&field, &far, &mut rng, 2).is_empty());
    // The generator was not drawn from.
    assert_eq!(rng.next_u64(), Rng::new(5).next_u64());
}

#[test]
fn every_wave_fills_from_every_floor_cell() {
    for py in 0..15i32 {
        for px in 0..WIDTH as i32 {
            if wall(px, py) {
                continue;
            }
            for (ox, oy) in [(0.5f32, 0.5f32), (0.01, 0.99), (0.99, 0.01)] {
                let (x, y) = (px as f32 + ox, py as f32 + oy);
                let field = routes(px, py);
                let far: Vec<bool> = (0..CELLS)
                    .map(|c| {
                        let cx = (c % WIDTH) as f32 + 0.5;
                        let cy = (c / WIDTH) as f32 + 0.5;
                        (cx - x).hypot(cy - y) >= 5.0
                    })
                    .collect();
                for wave in 1..=5u8 {
                    let placed = spawn_wave(&field, &far, &mut Rng::new(3), wave);
                    assert_eq!(placed.len(), 3 + 2 * wave as usize, "player at ({x}, {y})");
                }
            }
        }
    }
}
