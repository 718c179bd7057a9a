//! Command-line options of the game.
use vstd::prelude::*;
use vstd::string::*;
use crate::render::ColorMode;
use crate::strings::{all_digits, is_digit, same_text, parse_u32, parse_u64, parsed_unsigned};

verus! {

/// How to run the game.
#[derive(Clone, Copy, Debug, PartialEq, Eq, Structural)]
pub struct Options {
    pub color: ColorMode,
    pub fps: u32,
    pub large: bool,
    pub compact: bool,
    pub mouse: bool,
    pub seed: u64,
    pub bench: bool,
}

/// What the command line asks for.
#[derive(Clone, Copy, Debug, PartialEq, Eq, Structural)]
pub enum Launch {
    Run(Options),
    Help,
    SetupKeyboard,
}

/// The options before any argument: colour from the environment, 60 FPS,
/// the default viewport, mouse look on, seed from the clock, no benchmark.
pub open spec fn default_options(color: ColorMode, seed: u64) -> Options {
    Options { color, fps: 60, large: false, compact: false, mouse: true, seed, bench: false }
}

/// The result of reading `args` on top of `o`. `--help`/`-h` and
/// `--setup-keyboard` stop at once; `--256`, `--truecolor`, `--large`,
/// `--compact` (the last two exclude each other), `--no-mouse` and
/// `--bench` set options; `--fps N` takes 15 to 120 frames per second and
/// `--seed N` any 64-bit seed; anything else is refused.
pub open spec fn read_args(args: Seq<String>, o: Options) -> Result<Launch, Seq<char>>
    decreases args.len(),
{
    if args.len() == 0 {
        Ok(Launch::Run(o))
    } else {
        let a = args[0]@;
        let rest = args.drop_first();
        if a == "--help"@ || a == "-h"@ {
            Ok(Launch::Help)
        } else if a == "--setup-keyboard"@ {
            Ok(Launch::SetupKeyboard)
        } else if a == "--256"@ {
            read_args(rest, Options { color: ColorMode::Palette, ..o })
        } else if a == "--truecolor"@ {
            read_args(rest, Options { color: ColorMode::TrueColor, ..o })
        } else if a == "--large"@ {
            read_args(rest, Options { large: true, compact: false, ..o })
        } else if a == "--compact"@ {
            read_args(rest, Options { compact: true, large: false, ..o })
        } else if a == "--no-mouse"@ {
            read_args(rest, Options { mouse: false, ..o })
        } else if a == "--bench"@ {
            read_args(rest, Options { bench: true, ..o })
        } else if a == "--fps"@ {
            if rest.len() == 0 {
                Err("--fps needs a number"@)
            } else {
                match parsed_unsigned(rest[0]@, u32::MAX as int) {
                    None => Err("Invalid FPS"@),
                    Some(n) => if 15 <= n <= 120 {
                        read_args(rest.drop_first(), Options { fps: n as u32, ..o })
                    } else {
                        Err("--fps must be 15–120"@)
                    },
                }
            }
        } else if a == "--seed"@ {
            if rest.len() == 0 {
                Err("--seed needs a number"@)
            } else {
                match parsed_unsigned(rest[0]@, u64::MAX as int) {
                    None => Err("Invalid seed"@),
                    Some(n) => read_args(rest.drop_first(), Options { seed: n as u64, ..o }),
                }
            }
        } else {
            Err("Unknown option: "@ + a + ". Use --help."@)
        }
    }
}

/// Reads the command-line arguments (without the program name), starting
/// from the colour mode found in the environment and a seed from the
/// clock.
pub fn parse(args: &Vec<String>, color: ColorMode, seed: u64) -> (r: Result<Launch, String>)
    ensures
        match r {
            Ok(l) => read_args(args@, default_options(color, seed)) == Ok::<Launch, Seq<char>>(l),
            Err(e) => read_args(args@, default_options(color, seed)) == Err::<Launch, Seq<char>>(e@),
        },
{
    let mut o = Options { color, fps: 60, large: false, compact: false, mouse: true, seed, bench: false };
    let mut i: usize = 0;
    assert(args@.skip(0) =~= args@);
    while i < args.len()
        invariant
            i <= args@.len(),
            read_args(args@.skip(i as int), o) == read_args(args@, default_options(color, seed)),
        decreases args.len() - i,
    {
        let ghost rest = args@.skip(i as int);
        assert(rest[0] == args@[i as int]);
        assert(rest.drop_first() =~= args@.skip(i + 1));
        let a = args[i].as_str();
        if same_text(a, "--help") || same_text(a, "-h") {
            return Ok(Launch::Help);
        } else if same_text(a, "--setup-keyboard") {
            return Ok(Launch::SetupKeyboard);
        } else if same_text(a, "--256") {
            o.color = ColorMode::Palette;
        } else if same_text(a, "--truecolor") {
            o.color = ColorMode::TrueColor;
        } else if same_text(a, "--large") {
            o.large = true;
            o.compact = false;
        } else if same_text(a, "--compact") {
            o.compact = true;
            o.large = false;
        } else if same_text(a, "--no-mouse") {
            o.mouse = false;
        } else if same_text(a, "--bench") {
            o.bench = true;
        } else if same_text(a, "--fps") {
            if i + 1 >= args.len() {
                return Err(String::from_str("--fps needs a number"));
            }
            assert(rest.drop_first()[0] == args@[i + 1]);
            match parse_u32(args[i + 1].as_str()) {
                None => {
                    return Err(String::from_str("Invalid FPS"));
                },
                Some(n) => {
                    if !(15 <= n && n <= 120) {
                        return Err(String::from_str("--fps must be 15–120"));
                    }
                    o.fps = n;
                },
            }
            assert(rest.drop_first().drop_first() =~= args@.skip(i + 2));
            i = i + 1;
        } else if same_text(a, "--seed") {
            if i + 1 >= args.len() {
                return Err(String::from_str("--seed needs a number"));
            }
            assert(rest.drop_first()[0] == args@[i + 1]);
            match parse_u64(args[i + 1].as_str()) {
                None => {
                    return Err(String::from_str("Invalid seed"));
                },
                Some(n) => {
                    o.seed = n;
                },
            }
            assert(rest.drop_first().drop_first() =~= args@.skip(i + 2));
            i = i + 1;
        } else {
            let mut e = String::from_str("Unknown option: ");
            e.append(a);
            e.append(". Use --help.");
            return Err(e);
        }
        i = i + 1;
    }
    assert(args@.skip(i as int).len() == 0);
    Ok(Launch::Run(o))
}

} // verus!

verus! {

/// The colour mode suggested by the environment: 24-bit colour when
/// `COLORTERM` says so, the terminal program is known to support it, or
/// Windows Terminal runs (`WT_SESSION` set), but never in Apple's
/// Terminal; the 256-colour palette otherwise.
pub open spec fn suggested_color(term_program: Seq<char>, colorterm: Seq<char>, wt_session: Seq<char>) -> ColorMode {
    if term_program != "Apple_Terminal"@ && (colorterm == "truecolor"@ || colorterm == "24bit"@
        || term_program == "iTerm.app"@ || term_program == "WezTerm"@ || term_program
        == "ghostty"@ || term_program == "vscode"@ || wt_session.len() > 0) {
        ColorMode::TrueColor
    } else {
        ColorMode::Palette
    }
}

/// The colour mode suggested by the values of `TERM_PROGRAM`, `COLORTERM`
/// and `WT_SESSION` (empty when unset).
pub fn detect_color(term_program: &str, colorterm: &str, wt_session: &str) -> (r: ColorMode)
    ensures
        r == suggested_color(term_program@, colorterm@, wt_session@),
{
    if !same_text(term_program, "Apple_Terminal") && (same_text(colorterm, "truecolor")
        || same_text(colorterm, "24bit") || same_text(term_program, "iTerm.app") || same_text(
        term_program,
        "WezTerm",
    ) || same_text(term_program, "ghostty") || same_text(term_program, "vscode")
        || wt_session.unicode_len() > 0) {
        ColorMode::TrueColor
    } else {
        ColorMode::Palette
    }
}

/// Options that pass for a run: at most one of the large and compact
/// viewports, and 15 to 120 frames per second.
pub open spec fn sound_options(o: Options) -> bool {
    !(o.large && o.compact) && 15 <= o.fps <= 120
}

/// Reading arguments keeps options sound: whatever the arguments say, a
/// run never gets both viewports or a frame rate outside 15 to 120.
pub proof fn lemma_parsed_options_are_sound(args: Seq<String>, o: Options)
    requires
        sound_options(o),
    ensures
        read_args(args, o) matches Ok(Launch::Run(r)) ==> sound_options(r),
    decreases args.len(),
{
    if args.len() > 0 {
        let rest = args.drop_first();
        lemma_parsed_options_are_sound(rest, Options { color: ColorMode::Palette, ..o });
        lemma_parsed_options_are_sound(rest, Options { color: ColorMode::TrueColor, ..o });
        lemma_parsed_options_are_sound(rest, Options { large: true, compact: false, ..o });
        lemma_parsed_options_are_sound(rest, Options { compact: true, large: false, ..o });
        lemma_parsed_options_are_sound(rest, Options { mouse: false, ..o });
        lemma_parsed_options_are_sound(rest, Options { bench: true, ..o });
        if rest.len() > 0 {
            let after = rest.drop_first();
            if let Some(n) = parsed_unsigned(rest[0]@, u32::MAX as int) {
                if 15 <= n <= 120 {
                    lemma_parsed_options_are_sound(after, Options { fps: n as u32, ..o });
                }
            }
            if let Some(n) = parsed_unsigned(rest[0]@, u64::MAX as int) {
                lemma_parsed_options_are_sound(after, Options { seed: n as u64, ..o });
            }
        }
    }
}

/// Every run that the command line asks for has sound options.
pub proof fn lemma_command_line_is_sound(args: Seq<String>, color: ColorMode, seed: u64)
    ensures
        read_args(args, default_options(color, seed)) matches Ok(Launch::Run(r)) ==> sound_options(r),
{
    lemma_parsed_options_are_sound(args, default_options(color, seed));
}

/// The colour mode that the colour flags among `args` leave, starting
/// from `color`: `--truecolor` selects 24-bit colour, `--256` the palette,
/// and the last such flag wins.
pub open spec fn flagged_color(args: Seq<String>, color: ColorMode) -> ColorMode
    decreases args.len(),
{
    if args.len() == 0 {
        color
    } else {
        flagged_color(
            args.drop_first(),
            if args[0]@ == "--truecolor"@ {
                ColorMode::TrueColor
            } else if args[0]@ == "--256"@ {
                ColorMode::Palette
            } else {
                color
            },
        )
    }
}

proof fn lemma_numbers_are_not_flags(s: Seq<char>, max: int)
    requires
        parsed_unsigned(s, max) is Some,
    ensures
        s != "--truecolor"@,
        s != "--256"@,
{
    reveal_strlit("--truecolor");
    reveal_strlit("--256");
    let body = if s.len() > 0 && s[0] == '+' { s.drop_first() } else { s };
    assert(body.len() > 0);
    assert(all_digits(body));
    assert(is_digit(body[0]));
    assert("--truecolor"@[0] == '-');
    assert("--256"@[0] == '-');
}

/// The colour of a run is set by the colour flags on the command line,
/// the last one winning, and is the suggested colour when there is none.
pub proof fn lemma_color_flags(args: Seq<String>, o: Options)
    ensures
        read_args(args, o) matches Ok(Launch::Run(r)) ==> r.color == flagged_color(args, o.color),
    decreases args.len(),
{
    if args.len() > 0 {
        reveal_strlit("--help");
        reveal_strlit("-h");
        reveal_strlit("--setup-keyboard");
        reveal_strlit("--256");
        reveal_strlit("--truecolor");
        reveal_strlit("--large");
        reveal_strlit("--compact");
        reveal_strlit("--no-mouse");
        reveal_strlit("--bench");
        reveal_strlit("--fps");
        reveal_strlit("--seed");
        let a = args[0]@;
        let rest = args.drop_first();
        let next = if a == "--truecolor"@ {
            ColorMode::TrueColor
        } else if a == "--256"@ {
            ColorMode::Palette
        } else {
            o.color
        };
        assert(flagged_color(args, o.color) == flagged_color(rest, next));
        if a == "--256"@ {
            assert(a.len() == 5);
            assert(a != "--help"@ && a != "-h"@ && a != "--setup-keyboard"@);
            assert(read_args(args, o) == read_args(rest, Options { color: ColorMode::Palette, ..o }));
            lemma_color_flags(rest, Options { color: ColorMode::Palette, ..o });
        } else if a == "--truecolor"@ {
            lemma_color_flags(rest, Options { color: ColorMode::TrueColor, ..o });
        } else if a == "--large"@ {
            lemma_color_flags(rest, Options { large: true, compact: false, ..o });
        } else if a == "--compact"@ {
            lemma_color_flags(rest, Options { compact: true, large: false, ..o });
        } else if a == "--no-mouse"@ {
            lemma_color_flags(rest, Options { mouse: false, ..o });
        } else if a == "--bench"@ {
            lemma_color_flags(rest, Options { bench: true, ..o });
        } else if a == "--fps"@ && rest.len() > 0 {
            assert(a[2] == 'f' && "--256"@[2] == '2' && "--truecolor"@[2] == 't');
            assert(next == o.color);
            if let Some(n) = parsed_unsigned(rest[0]@, u32::MAX as int) {
                lemma_numbers_are_not_flags(rest[0]@, u32::MAX as int);
                assert(flagged_color(rest, o.color) == flagged_color(rest.drop_first(), o.color));
                if 15 <= n <= 120 {
                    lemma_color_flags(rest.drop_first(), Options { fps: n as u32, ..o });
                }
            }
        } else if a == "--seed"@ && rest.len() > 0 {
            if let Some(n) = parsed_unsigned(rest[0]@, u64::MAX as int) {
                lemma_numbers_are_not_flags(rest[0]@, u64::MAX as int);
                assert(flagged_color(rest, o.color) == flagged_color(rest.drop_first(), o.color));
                lemma_color_flags(rest.drop_first(), Options { seed: n as u64, ..o });
            }
        }
    }
}

} // verus!
