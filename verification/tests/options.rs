use terminalshooter::options::{detect_color, parse, Launch, Options};
use terminalshooter::render::ColorMode;

fn args(list: &[&str]) -> Vec<String> {
    list.iter().map(|s| s.to_string()).collect()
}

#[test]
fn defaults_without_arguments() {
    let r = parse(&args(&[]), ColorMode::TrueColor, 99);
    assert_eq!(
        r,
        Ok(Launch::Run(Options {
            color: ColorMode::TrueColor,
            fps: 60,
            large: false,
            compact: false,
            mouse: true,
            seed: 99,
            bench: false,
        }))
    );
}

#[test]
fn options_are_read_in_order() {
    let r = parse(&args(&["--256", "--large", "--compact", "--no-mouse", "--fps", "120", "--seed", "42", "--bench"]), ColorMode::TrueColor, 1);
    assert_eq!(
        r,
        Ok(Launch::Run(Options {
            color: ColorMode::Palette,
            fps: 120,
            large: false,
            compact: true,
            mouse: false,
            seed: 42,
            bench: true,
        }))
    );
    assert_eq!(parse(&args(&["--help", "--bogus"]), ColorMode::Palette, 1), Ok(Launch::Help));
    assert_eq!(parse(&args(&["-h"]), ColorMode::Palette, 1), Ok(Launch::Help));
    assert_eq!(parse(&args(&["--setup-keyboard"]), ColorMode::Palette, 1), Ok(Launch::SetupKeyboard));
}

#[test]
fn bad_arguments_are_refused() {
    assert_eq!(parse(&args(&["--fps"]), ColorMode::Palette, 1), Err("--fps needs a number".to_string()));
    assert_eq!(parse(&args(&["--fps", "fast"]), ColorMode::Palette, 1), Err("Invalid FPS".to_string()));
    assert_eq!(parse(&args(&["--fps", "14"]), ColorMode::Palette, 1), Err("--fps must be 15–120".to_string()));
    assert_eq!(parse(&args(&["--fps", "121"]), ColorMode::Palette, 1), Err("--fps must be 15–120".to_string()));
    assert_eq!(parse(&args(&["--seed"]), ColorMode::Palette, 1), Err("--seed needs a number".to_string()));
    assert_eq!(parse(&args(&["--seed", "-1"]), ColorMode::Palette, 1), Err("Invalid seed".to_string()));
    assert_eq!(
        parse(&args(&["--wat"]), ColorMode::Palette, 1),
        Err("Unknown option: --wat. Use --help.".to_string())
    );
}

#[test]
fn fps_bounds_are_inclusive() {
    match parse(&args(&["--fps", "15"]), ColorMode::Palette, 1) {
        Ok(Launch::Run(o)) => assert_eq!(o.fps, 15),
        other => panic!("unexpected {:?}", other),
    }
    match parse(&args(&["--seed", "+18446744073709551615"]), ColorMode::Palette, 1) {
        Ok(Launch::Run(o)) => assert_eq!(o.seed, u64::MAX),
        other => panic!("unexpected {:?}", other),
    }
}

#[test]
fn color_detection() {
    assert_eq!(detect_color("Apple_Terminal", "truecolor", ""), ColorMode::Palette);
    assert_eq!(detect_color("", "truecolor", ""), ColorMode::TrueColor);
    assert_eq!(detect_color("", "24bit", ""), ColorMode::TrueColor);
    assert_eq!(detect_color("WezTerm", "", ""), ColorMode::TrueColor);
    assert_eq!(detect_color("", "", "1"), ColorMode::TrueColor);
    assert_eq!(detect_color("xterm", "", ""), ColorMode::Palette);
}
