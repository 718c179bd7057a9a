use terminalshooter::game::{Phase, PickupKind};
use terminalshooter::hud::{crosshair, hud, Bearing, HudView};
use terminalshooter::minimap::{minimap, minimap_dots, MinimapView};
use terminalshooter::render::{gold, green, white, Frame, HALF_BLOCK};
use terminalshooter::screens::{draw_menu, shows_menu, MenuView};

fn menu_view(phase: Phase) -> MenuView {
    MenuView {
        phase,
        player: (9, 12),
        enemies: vec![(3, 2), (15, 12)],
        score: 1200,
        kills: 9,
        wave: 2,
        seconds: 75,
        release_events: false,
    }
}

fn rows(frame: &Frame) -> Vec<String> {
    frame.plain().lines().map(|l| l.to_string()).collect()
}

#[test]
fn menus_fit_all_sizes_and_show_their_titles() {
    for (w, h) in [(40, 16), (120, 36), (220, 70)] {
        for (phase, title) in [
            (Phase::Title, "TERMINAL // BREACH"),
            (Phase::Paused, "PAUSED"),
            (Phase::Tactical, "TACTICAL MAP"),
            (Phase::Help, "FIELD MANUAL"),
            (Phase::Won, "ARENA CLEARED"),
            (Phase::Lost, "RUN ENDED"),
        ] {
            let frame = draw_menu(w, h, &menu_view(phase));
            assert_eq!(frame.width, w);
            assert_eq!(frame.height, h);
            let text = rows(&frame);
            assert!(text[1].contains(title), "{title} at {w}x{h}");
            assert!(text[0].starts_with("│─"));
            assert!(text[h - 1].ends_with("─│"));
            assert!(!frame.cells.iter().any(|c| c.glyph == HALF_BLOCK));
        }
    }
}

#[test]
fn title_screen_shows_the_briefing_and_input_note() {
    let frame = draw_menu(120, 36, &menu_view(Phase::Title));
    let text = frame.plain();
    assert!(text.contains("ENTER or CLICK to deploy"));
    assert!(text.contains("N I G H T   S H I F T"));
    assert!(text.contains("TERMINAL KEY REPEAT // F TOGGLE-FIRE"));
    let mut view = menu_view(Phase::Title);
    view.release_events = true;
    let small = draw_menu(40, 16, &view);
    let text = small.plain();
    assert!(!text.contains("N I G H T"));
    assert!(!text.contains("KEY RELEASE INPUT ACTIVE"));
    let tall = draw_menu(60, 20, &view);
    assert!(tall.plain().contains("KEY RELEASE INPUT ACTIVE"));
    // The call to deploy is gold, centred in row 4 + 7.
    let line = "ENTER or CLICK to deploy";
    let x = (60 - line.chars().count()) / 2;
    assert_eq!(tall.cells[11 * 60 + x].fg, gold());
}

#[test]
fn result_and_pause_screens() {
    let frame = draw_menu(40, 16, &menu_view(Phase::Won));
    let text = rows(&frame);
    assert!(text[6].contains("SCORE 1200   KILLS 9"));
    assert!(text[8].contains("WAVE 2/5   TIME 75s"));
    assert!(text[10].contains("R / ENTER: new run   CTRL-C: quit"));
    let frame = draw_menu(40, 16, &menu_view(Phase::Paused));
    let text = rows(&frame);
    assert!(text[7].contains("P / ESC to resume"));
    assert!(text[9].contains("CTRL-C to quit"));
}

#[test]
fn tactical_map_marks_enemies_and_player() {
    let frame = draw_menu(40, 16, &menu_view(Phase::Tactical));
    let text = rows(&frame);
    // Nine rows fit; the player's row 12 is shown from arena row 6.
    let left = (40 - 19) / 2;
    let row4: String = text[4].chars().skip(left).take(19).collect();
    assert_eq!(row4, "#.................#");
    let row = 4 + 12 - 6;
    assert_eq!(text[row].chars().nth(left + 9), Some('@'));
    assert_eq!(text[row].chars().nth(left + 15), Some('E'));
    // The enemy in row 2 is above the shown rows.
    assert_eq!(text.iter().filter(|l| l.contains('E') && !l.contains("ESC")).count(), 1);
    assert!(text[14].contains("M / P / ESC: back"));
}

#[test]
fn tiny_terminals_ask_for_a_resize() {
    let frame = draw_menu(39, 16, &menu_view(Phase::Playing));
    assert!(rows(&frame)[8].contains("Resize terminal to at least 40x16"));
    let frame = draw_menu(100, 15, &menu_view(Phase::Title));
    assert!(rows(&frame)[7].contains("Resize terminal to at least 40x16"));
}

fn hud_view() -> HudView {
    HudView {
        hp: 88,
        shells: 5,
        reserve: 42,
        reload_percent: None,
        wave: 1,
        alive: 5,
        score: 0,
        fps: 60,
        break_secs: None,
        dash: None,
        auto_fire: true,
        mouse: false,
        message: None,
        nearest: Some((Bearing::Left, 7)),
    }
}

#[test]
fn hud_lines_show_health_ammo_and_objective() {
    let mut frame = Frame::new(100, 30);
    hud(&mut frame, &hud_view());
    let text = rows(&frame);
    assert!(text[26].starts_with(" HP  88   SHELLS 5/6 +42"));
    assert!(text[27].starts_with(" WAVE 1/5  LEFT 5  SCORE 0   60 FPS"));
    assert!(text[28].starts_with(" X dodge READY | F fire ON | R reload | L mouse OFF | H help"));
    assert!(text[29].starts_with(" Yellow enemy = attack incoming. Shoot or dodge."));
    assert!(text[26].contains("VITAL [━━━━━━━━━·]"));
    assert!(text[27].contains("LOAD  ▮ ▮ ▮ ▮ ▮ · "));
    assert_eq!(frame.cells[26 * 100 + 1].fg, green());
}

#[test]
fn hud_reports_reload_breaks_and_last_hostiles() {
    let mut view = hud_view();
    view.hp = 7;
    view.reload_percent = Some(5);
    view.break_secs = Some(3);
    view.dash = Some("1.2".to_string());
    view.alive = 2;
    let mut frame = Frame::new(64, 20);
    hud(&mut frame, &view);
    let text = rows(&frame);
    assert!(text[16].starts_with(" HP   7   RELOAD   5%"));
    assert!(text[17].starts_with(" WAVE CLEAR // NEXT IN 3 // +25 HP"));
    assert!(text[18].starts_with(" X dodge 1.2s | F fire ON | R reload "));
    assert!(!text[18].contains("mouse"));
    assert!(text[19].starts_with(" LAST HOSTILES: LEFT  7m"));
    assert!(!text[16].contains("VITAL"));
    view.message = Some("HIT -12  //  X TO DODGE".to_string());
    let mut frame = Frame::new(64, 20);
    hud(&mut frame, &view);
    assert!(rows(&frame)[19].starts_with(" HIT -12  //  X TO DODGE"));
    assert_ne!(frame.cells[16 * 64 + 1].fg, green());
}

fn minimap_view() -> MinimapView {
    MinimapView {
        player: (9, 12),
        pickups: vec![((2, 7), PickupKind::Medkit), ((16, 7), PickupKind::Ammo)],
        enemies: vec![(9, 10)],
        facing: (9, 11),
        facing_visible: true,
    }
}

#[test]
fn minimap_marks_the_player_cell_last() {
    let dots = minimap_dots(&minimap_view(), 40, 16);
    // A compact 9 by 9 window with its frame, then two pickups in reach,
    // the enemy, the faced cell and the player.
    let last = dots.last().unwrap();
    assert_eq!(last.color, green());
    // Window origin: (9 - 4, 12 - 4) clamped to (5, 6).
    assert_eq!((last.x, last.y), (2 + 9 - 5, 2 + 12 - 6));
    assert_eq!(dots.len(), 11 * 11 + 3);
    let mut frame = Frame::new(40, 16);
    minimap(&mut frame, &minimap_view());
    let cell = frame.cells[(8 / 2) * 40 + 6];
    assert_eq!(cell.glyph, HALF_BLOCK);
    assert_eq!(cell.fg, green());
    assert_eq!(frame.cells[(7 / 2) * 40 + 6].bg, white());
}

#[test]
fn full_minimap_shows_the_whole_arena() {
    let dots = minimap_dots(&minimap_view(), 100, 30);
    assert_eq!(dots.len(), 21 * 17 + 5);
    assert_eq!((dots[0].x, dots[0].y), (1, 1));
}

#[test]
fn play_is_shown_only_on_large_enough_terminals() {
    assert!(!shows_menu(Phase::Playing, 40, 16));
    assert!(shows_menu(Phase::Playing, 39, 16));
    assert!(shows_menu(Phase::Playing, 40, 15));
    assert!(shows_menu(Phase::Paused, 120, 36));
}

#[test]
fn crosshair_is_green_and_white_on_a_hit() {
    let mut frame = Frame::new(40, 16);
    crosshair(&mut frame, 20, 12, false);
    // (20, 12) is the upper half of cell (20, 6); (20, 9) the lower half of (20, 4).
    assert_eq!(frame.cells[6 * 40 + 20].fg, green());
    assert_eq!(frame.cells[4 * 40 + 20].bg, green());
    assert_eq!(frame.cells[6 * 40 + 17].fg, green());
    assert_eq!(frame.cells[6 * 40 + 23].fg, green());
    assert_eq!(frame.cells[7 * 40 + 20].bg, green());
    crosshair(&mut frame, 20, 12, true);
    assert_eq!(frame.cells[6 * 40 + 20].fg, white());
}
