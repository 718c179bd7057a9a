use terminalshooter::game::Phase;
use terminalshooter::input::{
    Command, Event, GameView, Input, Key, KeyKind, KeySet, MouseButton, ACTION_DEBOUNCE, TAP_HOLD,
};

const MS: u64 = 1_000_000;
const SEC: u64 = 1_000_000_000;
/// One simulation step of 1/120 s.
const TICK: u64 = SEC / 120;

fn playing() -> GameView {
    GameView { phase: Phase::Playing, mouse: true, in_break: false }
}

fn view(phase: Phase) -> GameView {
    GameView { phase, mouse: true, in_break: false }
}

fn key(c: char, kind: KeyKind) -> Event {
    Event::Key { key: Key::Char(c), kind, shift: false, control: false }
}

fn click_down() -> Event {
    Event::Down { column: 50, row: 15, button: MouseButton::Left }
}

fn click_up() -> Event {
    Event::Up { column: 50, row: 15, button: MouseButton::Left }
}

fn motion(column: u16, row: u16) -> Event {
    Event::Moved { column, row, drag: None }
}

fn none() -> KeySet {
    KeySet::new()
}

/// The steps, among `from..=to`, whose controls fire.
fn firing_steps(input: &mut Input, from: u64, to: u64) -> Vec<u64> {
    (from..=to).filter(|t| input.take_controls(t * TICK, &none()).fire).collect()
}

#[test]
fn quick_click_or_space_tap_between_ticks_fires_exactly_once() {
    for (down, up) in [(click_down(), click_up()), (key(' ', KeyKind::Press), key(' ', KeyKind::Release))] {
        let mut input = Input::new(1, true);
        let mut shots = 0;
        for (event, now) in [(down, MS), (up, 2 * MS)] {
            let r = input.handle(event, now, playing(), &none());
            shots += r.commands.iter().filter(|c| **c == Command::Shoot).count();
        }
        // Dodge reads the current controls too; it must not consume the click.
        let r = input.handle(key('x', KeyKind::Press), 3 * MS, playing(), &none());
        assert!(matches!(r.commands[..], [Command::Dash(_)]));
        shots += firing_steps(&mut input, 1, 120).len();
        assert_eq!(shots, 1);
    }
}

#[test]
fn clicks_respect_cooldown_and_are_cleared_on_focus_loss() {
    let mut input = Input::new(1, false);
    let r = input.handle(click_down(), MS, playing(), &none());
    assert_eq!(r.commands, vec![Command::Shoot]);
    input.handle(click_up(), 2 * MS, playing(), &none());
    assert!(firing_steps(&mut input, 1, 120).is_empty(), "a click fires on its press, not on later steps");
    let r = input.handle(click_down(), 1100 * MS, playing(), &none());
    assert_eq!(r.commands, vec![Command::Shoot], "the second press fires immediately");
    input.handle(Event::FocusLost, 1200 * MS, playing(), &none());
    input.handle(key('p', KeyKind::Press), 1300 * MS, view(Phase::Paused), &none());
    assert!(!input.take_controls(1400 * MS, &none()).fire, "resuming must discard old holds");
}

#[test]
fn mouse_down_fires_before_any_tick_and_mouse_up_never_fires() {
    for from_title in [false, true] {
        let mut input = Input::new(1, false);
        let phase = if from_title { Phase::Title } else { Phase::Playing };
        let r = input.handle(click_down(), 0, view(phase), &none());
        if from_title {
            assert_eq!(r.commands, vec![Command::Start, Command::Shoot]);
            input.settle(r.deploying, Phase::Title, Phase::Playing);
        } else {
            assert_eq!(r.commands, vec![Command::Shoot]);
        }
        let r = input.handle(click_up(), 500 * MS, playing(), &none());
        assert!(r.commands.is_empty());
        assert!(!input.take_controls(510 * MS, &none()).fire);
    }
}

#[test]
fn holding_mouse_continues_firing_until_release() {
    let mut input = Input::new(1, false);
    // Begin by holding the click that deploys from the title screen.
    let r = input.handle(click_down(), 0, view(Phase::Title), &none());
    assert!(r.deploying);
    input.settle(r.deploying, Phase::Title, Phase::Playing);
    for tick in 1..=480u64 {
        if tick == 120 {
            let r = input.handle(key('l', KeyKind::Press), SEC, playing(), &none());
            assert_eq!(r.commands, vec![Command::ToggleMouse]);
        }
        assert!(input.take_controls(tick * TICK, &none()).fire, "holding must keep firing");
    }
    input.handle(click_up(), 4 * SEC, playing(), &none());
    assert!(firing_steps(&mut input, 481, 600).is_empty());
}

#[test]
fn left_drag_recovers_a_hold_and_firing_resumes_after_wave_break() {
    let mut input = Input::new(1, false);
    let in_break = GameView { phase: Phase::Playing, mouse: true, in_break: true };
    let drag = Event::Moved { column: 50, row: 15, drag: Some(MouseButton::Left) };
    input.handle(drag, 0, in_break, &none());
    assert_eq!(firing_steps(&mut input, 1, 60).len(), 60);
    input.handle(Event::FocusLost, 500 * MS, playing(), &none());
    input.handle(drag, 600 * MS, view(Phase::Paused), &none());
    input.handle(key('p', KeyKind::Press), 700 * MS, view(Phase::Paused), &none());
    assert!(!input.take_controls(800 * MS, &none()).fire);
}

#[test]
fn enhanced_keys_stop_on_release_and_fallback_keys_expire() {
    let mut input = Input::new(1, true);
    input.handle(key('w', KeyKind::Press), 0, playing(), &none());
    assert_eq!(input.controls(10 * SEC, &none()).forward, 1);
    input.handle(key('w', KeyKind::Release), 10 * SEC, playing(), &none());
    assert_eq!(input.controls(10 * SEC, &none()).forward, 0);
    let mut input = Input::new(1, false);
    input.handle(key('w', KeyKind::Press), 0, playing(), &none());
    assert_eq!(input.controls(20 * MS, &none()).forward, 1);
    assert_eq!(input.controls(60 * MS, &none()).forward, 0);
}

#[test]
fn physical_holds_work_without_repeats_and_stop_independently_on_release() {
    for letter in ['w', 'a', 's', 'd', 'q', 'e'] {
        let mut input = Input::with_key_state(1, false, true);
        let mut down = KeySet::new();
        down.insert(Key::Char(letter));
        input.handle(key(letter, KeyKind::Press), 0, playing(), &down);
        let c = input.controls(10 * SEC, &down);
        assert_eq!(c.forward.abs() + c.strafe.abs() + c.turn.abs(), 1);
        let c = input.controls(10 * SEC + MS, &none());
        assert_eq!((c.forward, c.strafe, c.turn), (0, 0, 0));
    }
    let mut input = Input::with_key_state(1, false, true);
    let mut down = KeySet::new();
    down.insert(Key::Char('w'));
    down.insert(Key::Char('d'));
    input.handle(key('w', KeyKind::Press), 0, playing(), &down);
    input.handle(key('d', KeyKind::Press), 10 * MS, playing(), &down);
    assert_eq!(input.controls(10 * SEC, &down).forward, 1);
    assert_eq!(input.controls(10 * SEC, &down).strafe, 1);
    let mut only_d = KeySet::new();
    only_d.insert(Key::Char('d'));
    assert_eq!(input.controls(10 * SEC + 10 * MS, &only_d).forward, 0);
    assert_eq!(input.controls(10 * SEC + 10 * MS, &only_d).strafe, 1);
    input.handle(Event::FocusLost, 10 * SEC + 20 * MS, playing(), &only_d);
    input.handle(key('p', KeyKind::Press), 11 * SEC, view(Phase::Paused), &only_d);
    assert_eq!(
        input.controls(11 * SEC + 100 * MS, &only_d).strafe,
        0,
        "focus loss must require a fresh terminal press"
    );
}

#[test]
fn fallback_repeats_sustain_movement_but_never_assume_an_initial_hold() {
    let mut input = Input::with_key_state(1, false, false);
    input.handle(key('w', KeyKind::Press), 0, playing(), &none());
    for i in 6..50u64 {
        assert_eq!(input.controls(i * 10 * MS, &none()).forward, 0);
    }
    for i in 10..40u64 {
        let now = i * 50 * MS;
        // Legacy terminal repeats arrive as ordinary presses.
        input.handle(key('w', KeyKind::Press), now, playing(), &none());
        assert_eq!(input.controls(now + 40 * MS, &none()).forward, 1);
        if i > 10 {
            assert_eq!(input.controls(now + 80 * MS, &none()).forward, 1);
        }
    }
    assert_eq!(input.controls(2150 * MS, &none()).forward, 0);
    input.handle(key(' ', KeyKind::Press), 3 * SEC, playing(), &none());
    let steps: Vec<u64> = (1..=120u64)
        .filter(|i| input.take_controls(3 * SEC + i * TICK, &none()).fire)
        .collect();
    // Every firing step lies within one shot delay (0.38 s) of the first, so
    // a Space tap yields one shot.
    assert_eq!(steps.first(), Some(&1));
    assert!(steps.iter().all(|s| (s - 1) * TICK < 380 * MS));
}

#[test]
fn repeated_toggle_key_does_not_flicker_state() {
    let mut input = Input::new(1, false);
    let r = input.handle(key('f', KeyKind::Press), 0, playing(), &none());
    assert_eq!(r.commands, vec![Command::ToggleAutoFire]);
    for i in 1..10u64 {
        let r = input.handle(key('f', KeyKind::Repeat), i * 100 * MS, playing(), &none());
        assert!(r.commands.is_empty());
    }
    let r = input.handle(key('f', KeyKind::Press), 2 * SEC, playing(), &none());
    assert_eq!(r.commands, vec![Command::ToggleAutoFire]);
}

#[test]
fn focus_loss_pauses_and_clears_movement_and_firing() {
    let mut input = Input::new(1, true);
    input.handle(key('w', KeyKind::Press), 0, playing(), &none());
    let r = input.handle(Event::FocusLost, 100 * MS, playing(), &none());
    assert_eq!(r.commands, vec![Command::Overlay(Phase::Paused), Command::StopAutoFire]);
    assert_eq!(input.controls(200 * MS, &none()).forward, 0);
    let r = input.handle(key('p', KeyKind::Press), SEC, view(Phase::Paused), &none());
    assert_eq!(r.commands, vec![Command::Overlay(Phase::Paused)]);
}

#[test]
fn mouse_l_toggle_and_motion_work_at_windowed_and_fullscreen_coordinates() {
    for (x, y) in [(40u16, 12u16), (180, 55)] {
        let mut input = Input::new(1, false);
        assert!(input.handle(motion(x, y), 0, playing(), &none()).commands.is_empty());
        let r = input.handle(motion(x + 5, y), 100 * MS, playing(), &none());
        assert_eq!(r.commands, vec![Command::Turn(5)]);
        let r = input.handle(key('l', KeyKind::Press), SEC, playing(), &none());
        assert_eq!(r.commands, vec![Command::ToggleMouse]);
        let off = GameView { phase: Phase::Playing, mouse: false, in_break: false };
        assert!(input.handle(motion(x + 10, y), 1100 * MS, off, &none()).commands.is_empty());
        input.handle(key('l', KeyKind::Press), 2 * SEC, off, &none());
        let r = input.handle(motion(x + 20, y), 2100 * MS, playing(), &none());
        assert!(r.commands.is_empty(), "re-enabling must reset the baseline");
        let r = input.handle(motion(x + 22, y), 2200 * MS, playing(), &none());
        assert_eq!(r.commands, vec![Command::Turn(2)]);
    }
}

#[test]
fn title_motion_does_not_start_and_restart_resets_game() {
    let mut input = Input::new(1, false);
    assert!(input.handle(motion(40, 12), 0, view(Phase::Title), &none()).commands.is_empty());
    let enter = Event::Key { key: Key::Enter, kind: KeyKind::Press, shift: false, control: false };
    let r = input.handle(enter, 100 * MS, view(Phase::Title), &none());
    assert_eq!(r.commands, vec![Command::Start]);
    let r = input.handle(key('r', KeyKind::Press), SEC, view(Phase::Lost), &none());
    assert_eq!(r.commands, vec![Command::Restart(2)]);
}

#[test]
fn action_presses_within_the_debounce_are_ignored() {
    let mut input = Input::new(1, false);
    let r = input.handle(key('m', KeyKind::Press), 0, playing(), &none());
    assert_eq!(r.commands, vec![Command::ToggleMinimap]);
    let r = input.handle(key('m', KeyKind::Press), ACTION_DEBOUNCE, playing(), &none());
    assert!(r.commands.is_empty());
    let r = input.handle(key('m', KeyKind::Press), 2 * ACTION_DEBOUNCE + 1, playing(), &none());
    assert_eq!(r.commands, vec![Command::ToggleMinimap]);
}

#[test]
fn escape_and_restart_follow_the_screen() {
    let mut input = Input::new(7, true);
    let esc = Event::Key { key: Key::Esc, kind: KeyKind::Press, shift: false, control: false };
    let r = input.handle(esc, 0, view(Phase::Tactical), &none());
    assert_eq!(r.commands, vec![Command::Resume]);
    assert!(!r.outcome.quit);
    let r = input.handle(esc, SEC, view(Phase::Title), &none());
    assert!(r.outcome.quit);
    let enter = Event::Key { key: Key::Enter, kind: KeyKind::Press, shift: false, control: false };
    let r = input.handle(enter, 2 * SEC, view(Phase::Won), &none());
    assert_eq!(r.commands, vec![Command::Restart(8)]);
    let shift_m = Event::Key { key: Key::Char('M'), kind: KeyKind::Press, shift: true, control: false };
    let r = input.handle(shift_m, 3 * SEC, playing(), &none());
    assert_eq!(r.commands, vec![Command::Overlay(Phase::Tactical)]);
    let ctrl_c = Event::Key { key: Key::Char('c'), kind: KeyKind::Press, shift: false, control: true };
    let r = input.handle(ctrl_c, 4 * SEC, playing(), &none());
    assert!(r.outcome.quit);
}

#[test]
fn continuous_fire_cannot_be_toggled_during_a_break() {
    let mut input = Input::new(1, true);
    let in_break = GameView { phase: Phase::Playing, mouse: true, in_break: true };
    let r = input.handle(key('f', KeyKind::Press), 0, in_break, &none());
    assert!(r.commands.is_empty());
}

#[test]
fn tap_hold_is_shorter_than_repeat_hold() {
    let mut input = Input::new(1, false);
    input.handle(key('d', KeyKind::Press), 0, playing(), &none());
    assert_eq!(input.controls(TAP_HOLD, &none()).strafe, 1);
    assert_eq!(input.controls(TAP_HOLD + 1, &none()).strafe, 0);
}
