//! Decisions of the frame loop: the size of the drawn frame, what a
//! terminal too small to play in still accepts, pausing while it is too
//! small, and when to ring the bell.
use vstd::prelude::*;
use crate::game::Phase;
use crate::input::{Event, Key};

verus! {

/// The largest frame drawn: 220 by 70 for a large viewport, else (by
/// default, and for a compact one) 120 by 36; a larger terminal leaves
/// spare space.
pub open spec fn viewport_limit(compact: bool, large: bool) -> (int, int) {
    if large && !compact {
        (220, 70)
    } else {
        (120, 36)
    }
}

/// `v` limited to `1 ..= max`.
pub open spec fn limited(v: int, max: int) -> int {
    if v > max {
        max
    } else if v < 1 {
        1
    } else {
        v
    }
}

/// The size of the frame drawn on a terminal of `cols` by `rows`.
pub fn viewport(cols: u16, rows: u16, compact: bool, large: bool) -> (r: (usize, usize))
    ensures
        r.0 == limited(cols as int, viewport_limit(compact, large).0),
        r.1 == limited(rows as int, viewport_limit(compact, large).1),
{
    let (max_cols, max_rows): (u16, u16) = if large && !compact {
        (220, 70)
    } else {
        (120, 36)
    };
    let c = if cols > max_cols { max_cols } else { cols };
    let r = if rows > max_rows { max_rows } else { rows };
    (if c < 1 { 1 } else { c as usize }, if r < 1 { 1 } else { r as usize })
}

/// A terminal smaller than 40 by 16 is too small to play in.
pub fn too_small(cols: u16, rows: u16) -> (r: bool)
    ensures
        r == (cols < 40 || rows < 16),
{
    cols < 40 || rows < 16
}

/// Ctrl-C, however it is reported.
pub open spec fn is_interrupt(event: Event) -> bool {
    event matches Event::Key { key: Key::Char('c'), control: true, .. }
}

/// Whether `event` is handled: on a terminal too small to play in only
/// focus loss, resizing and Ctrl-C are.
pub fn admits(too_small: bool, event: Event) -> (r: bool)
    ensures
        r == (!too_small || event == Event::FocusLost || event == Event::Resize || is_interrupt(event)),
{
    if !too_small {
        return true;
    }
    match event {
        Event::FocusLost | Event::Resize => true,
        Event::Key { key: Key::Char(c), control, .. } => c == 'c' && control,
        _ => false,
    }
}

/// What the loop does about the terminal's size at the start of a frame.
#[derive(Clone, Copy, Debug, PartialEq, Eq, Structural)]
pub struct SizeStep {
    /// Open the pause overlay.
    pub pause: bool,
    /// Return straight to play.
    pub resume: bool,
    /// Forget held input.
    pub clear_input: bool,
    /// Whether play was paused because the terminal is too small.
    pub resize_pause: bool,
}

/// The step for a terminal that is too small (`too_small`) or not, in
/// `phase`, when play was paused for its size (`resize_pause`) or not:
/// shrinking pauses play and forgets input; growing back returns to play
/// only when the pause was for the size.
pub fn size_step(too_small: bool, phase: Phase, resize_pause: bool) -> (r: SizeStep)
    ensures
        too_small ==> r == (SizeStep {
            pause: phase == Phase::Playing,
            resume: false,
            clear_input: true,
            resize_pause: resize_pause || phase == Phase::Playing,
        }),
        !too_small && resize_pause ==> r == (SizeStep {
            pause: false,
            resume: true,
            clear_input: true,
            resize_pause: false,
        }),
        !too_small && !resize_pause ==> r == (SizeStep {
            pause: false,
            resume: false,
            clear_input: false,
            resize_pause: false,
        }),
{
    if too_small {
        let playing = phase == Phase::Playing;
        SizeStep { pause: playing, resume: false, clear_input: true, resize_pause: resize_pause || playing }
    } else if resize_pause {
        SizeStep { pause: false, resume: true, clear_input: true, resize_pause: false }
    } else {
        SizeStep { pause: false, resume: false, clear_input: false, resize_pause: false }
    }
}

/// Whether to ring the bell after a frame: with sound on, when a shot was
/// fired or health was lost.
pub fn bell(sound: bool, shots_before: u32, shots_after: u32, hp_before: i32, hp_after: i32) -> (r: bool)
    ensures
        r == (sound && (shots_after > shots_before || hp_after < hp_before)),
{
    sound && (shots_after > shots_before || hp_after < hp_before)
}

/// Losing focus ends a pause for the terminal's size: growing the
/// terminal must not resume a game without focus.
pub fn keeps_resize_pause(resize_pause: bool, event: Event) -> (r: bool)
    ensures
        r == (resize_pause && event != Event::FocusLost),
{
    resize_pause && !(event == Event::FocusLost)
}

/// The notice shown at start when held keys can only be told from key
/// repeat: the terminal reports no releases (`release_events`) and the
/// physical keyboard cannot be read (`native`).
pub fn key_repeat_notice(release_events: bool, native: bool) -> (r: Option<String>)
    ensures
        r matches Some(m) ==> !release_events && !native
            && m@ == "KEY REPEAT MODE // Run ./play.sh --setup-keyboard for smooth holds"@,
        r is None ==> release_events || native,
{
    if !release_events && !native {
        Some("KEY REPEAT MODE // Run ./play.sh --setup-keyboard for smooth holds".to_owned())
    } else {
        None
    }
}

/// The drawn frame is never larger than the terminal or the viewport: by
/// default (and with `--compact`) at most 120 by 36, with `--large` alone
/// at most 220 by 70; a terminal within that size is drawn whole, and a
/// larger one leaves spare space.
pub proof fn lemma_viewport_sizes(cols: u16, rows: u16, compact: bool, large: bool)
    ensures
        ({
            let (mc, mr) = if large && !compact { (220int, 70int) } else { (120int, 36int) };
            let w = limited(cols as int, viewport_limit(compact, large).0);
            let h = limited(rows as int, viewport_limit(compact, large).1);
            &&& 1 <= w <= mc
            &&& 1 <= h <= mr
            &&& 1 <= cols <= mc ==> w == cols
            &&& 1 <= rows <= mr ==> h == rows
            &&& cols > mc ==> w == mc
            &&& rows > mr ==> h == mr
        }),
{
}

} // verus!
