use terminalshooter::game::{Phase, PickupKind};
use terminalshooter::minimap::{minimap, MinimapView};
use terminalshooter::render::{green, mm_wall, Frame, HALF_BLOCK};
use terminalshooter::screens::{draw_menu, MenuView};
use terminalshooter::spawn::spawn_wave;
use terminalshooter::world::{routes, Rng, CELLS, WIDTH};

/// The cells of the first wave of a run from `seed`, with the player at
/// the centre of cell (9, 12).
fn first_wave(seed: u64) -> Vec<(i32, i32)> {
    let field = routes(9, 12);
    let far: Vec<bool> = (0..CELLS)
        .map(|c| {
            let x = (c % WIDTH) as f32 + 0.5;
            let y = (c / WIDTH) as f32 + 0.5;
            (x - 9.5).hypot(y - 12.5) >= 5.0
        })
        .collect();
    spawn_wave(&field, &far, &mut Rng::new(seed), 1)
        .into_iter()
        .map(|(cell, _)| cell)
        .collect()
}

#[test]
fn menus_have_no_world_pixels_or_crosshair_and_fit_all_sizes() {
    for (w, h) in [(40, 16), (120, 36), (220, 70)] {
        for phase in [Phase::Title, Phase::Paused, Phase::Tactical, Phase::Help, Phase::Lost, Phase::Won] {
            let view = MenuView {
                phase,
                player: (9, 12),
                enemies: first_wave(1),
                score: 0,
                kills: 0,
                wave: 1,
                seconds: 0,
                release_events: false,
            };
            let frame = draw_menu(w, h, &view);
            assert!(frame.cells.iter().all(|cell| cell.glyph != HALF_BLOCK));
            assert_eq!(frame.cells.len(), w * h);
            assert!(frame.plain().lines().all(|line| line.chars().count() == w));
        }
    }
}

#[test]
fn minimap_uses_containing_cell_and_never_rounds_into_cover() {
    // The player stands at (4.9, 3.5), in cell (4, 3), facing the pillar
    // cell (5, 3).
    let view = MinimapView {
        player: (4, 3),
        pickups: vec![((2, 7), PickupKind::Medkit), ((16, 7), PickupKind::Medkit)],
        enemies: first_wave(1),
        facing: (5, 3),
        facing_visible: true,
    };
    let mut frame = Frame::new(80, 30);
    minimap(&mut frame, &view);
    // Origin (2,2), containing cell (4,3) => half-pixel (6,5).
    assert_eq!(frame.cells[2 * 80 + 6].bg, green());
    assert_eq!(frame.cells[2 * 80 + 7].bg, mm_wall());
}

#[test]
fn first_waves_have_five_enemies() {
    for seed in 1..50 {
        assert_eq!(first_wave(seed).len(), 5);
    }
}
