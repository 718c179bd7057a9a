use terminalshooter::game::Phase;
use terminalshooter::input::{Event, Key, KeyKind};
use terminalshooter::session::{admits, bell, keeps_resize_pause, size_step, too_small, viewport, SizeStep};

#[test]
fn viewport_is_limited_by_the_mode() {
    assert_eq!(viewport(300, 100, false, false), (120, 36));
    assert_eq!(viewport(150, 40, false, false), (120, 36));
    assert_eq!(viewport(300, 100, true, false), (120, 36));
    assert_eq!(viewport(300, 100, false, true), (220, 70));
    assert_eq!(viewport(80, 24, false, true), (80, 24));
    assert_eq!(viewport(0, 0, false, false), (1, 1));
}

#[test]
fn small_terminals_only_take_focus_resize_and_interrupt() {
    assert!(too_small(39, 30) && too_small(80, 15) && !too_small(40, 16));
    let w = Event::Key { key: Key::Char('w'), kind: KeyKind::Press, shift: false, control: false };
    let ctrl_c = Event::Key { key: Key::Char('c'), kind: KeyKind::Press, shift: false, control: true };
    assert!(!admits(true, w));
    assert!(admits(false, w));
    assert!(admits(true, ctrl_c));
    assert!(admits(true, Event::Resize));
    assert!(admits(true, Event::FocusLost));
    assert!(!admits(true, Event::ScrollUp));
}

#[test]
fn shrinking_pauses_and_growing_resumes() {
    let s = size_step(true, Phase::Playing, false);
    assert_eq!(s, SizeStep { pause: true, resume: false, clear_input: true, resize_pause: true });
    let s = size_step(true, Phase::Paused, s.resize_pause);
    assert_eq!(s, SizeStep { pause: false, resume: false, clear_input: true, resize_pause: true });
    let s = size_step(false, Phase::Paused, s.resize_pause);
    assert_eq!(s, SizeStep { pause: false, resume: true, clear_input: true, resize_pause: false });
    let s = size_step(false, Phase::Paused, false);
    assert_eq!(s, SizeStep { pause: false, resume: false, clear_input: false, resize_pause: false });
    assert!(!keeps_resize_pause(true, Event::FocusLost));
    assert!(keeps_resize_pause(true, Event::Resize));
}

#[test]
fn bell_rings_on_shots_and_wounds() {
    assert!(bell(true, 1, 2, 100, 100));
    assert!(bell(true, 1, 1, 100, 88));
    assert!(!bell(true, 1, 1, 100, 100));
    assert!(!bell(false, 1, 2, 100, 88));
}
