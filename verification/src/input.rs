//! Keyboard and mouse handling: which keys are held, when a held key
//! lapses, and what each terminal event asks the game to do. Times are
//! nanoseconds since an origin chosen by the caller.
use vstd::prelude::*;
use crate::game::Phase;

verus! {

/// A key, with letters already folded to lower case by `lowercase`.
#[derive(Clone, Copy, Debug, PartialEq, Eq, Structural)]
pub enum Key {
    Up,
    Down,
    Left,
    Right,
    Enter,
    Esc,
    Char(char),
    Other,
}

/// `key` with an upper-case ASCII letter replaced by its lower case.
pub open spec fn spec_lowercase(key: Key) -> Key {
    match key {
        Key::Char(c) => if 'A' <= c <= 'Z' {
            Key::Char(((c as u32) + 32) as char)
        } else {
            key
        },
        _ => key,
    }
}

/// `key` with an upper-case ASCII letter replaced by its lower case.
pub fn lowercase(key: Key) -> (r: Key)
    ensures
        r == spec_lowercase(key),
{
    match key {
        Key::Char(c) => {
            if 'A' <= c && c <= 'Z' {
                let v = (c as u8) + 32;
                Key::Char(v as char)
            } else {
                key
            }
        },
        _ => key,
    }
}

/// An association from keys to values, each key at most once.
pub struct KeyTable<V> {
    entries: Vec<(Key, V)>,
}

impl<V: Copy> KeyTable<V> {
    /// No key occurs twice.
    pub closed spec fn wf(&self) -> bool {
        forall|i: int, j: int|
            0 <= i < j < self.entries@.len() ==> #[trigger] self.entries@[i].0 != #[trigger] self.entries@[j].0
    }

    /// The value stored for `k`.
    pub closed spec fn lookup(&self, k: Key) -> Option<V> {
        if exists|i: int| 0 <= i < self.entries@.len() && #[trigger] self.entries@[i].0 == k {
            Some(self.entries@[choose|i: int| 0 <= i < self.entries@.len() && #[trigger] self.entries@[i].0 == k].1)
        } else {
            None
        }
    }

    proof fn lemma_lookup_at(&self, i: int)
        requires
            self.wf(),
            0 <= i < self.entries@.len(),
        ensures
            self.lookup(self.entries@[i].0) == Some(self.entries@[i].1),
    {
        let k = self.entries@[i].0;
        let j = choose|j: int| 0 <= j < self.entries@.len() && #[trigger] self.entries@[j].0 == k;
        if j < i {
            assert(self.entries@[j].0 != self.entries@[i].0);
        } else if i < j {
            assert(self.entries@[i].0 != self.entries@[j].0);
        }
    }

    /// An empty table.
    pub fn new() -> (r: Self)
        ensures
            r.wf(),
            forall|k: Key| r.lookup(k) is None,
    {
        KeyTable { entries: Vec::new() }
    }

    fn find(&self, k: Key) -> (r: Option<usize>)
        requires
            self.wf(),
        ensures
            r matches Some(i) ==> i < self.entries@.len() && self.entries@[i as int].0 == k,
            r is None ==> self.lookup(k) is None,
            r matches Some(i) ==> self.lookup(k) == Some(self.entries@[i as int].1),
    {
        let mut i: usize = 0;
        while i < self.entries.len()
            invariant
                self.wf(),
                i <= self.entries@.len(),
                forall|j: int| 0 <= j < i ==> #[trigger] self.entries@[j].0 != k,
            decreases self.entries.len() - i,
        {
            if self.entries[i].0 == k {
                proof {
                    self.lemma_lookup_at(i as int);
                }
                return Some(i);
            }
            i = i + 1;
        }
        None
    }

    /// The value stored for `k`.
    pub fn get(&self, k: Key) -> (r: Option<V>)
        requires
            self.wf(),
        ensures
            r == self.lookup(k),
    {
        match self.find(k) {
            Some(i) => Some(self.entries[i].1),
            None => None,
        }
    }

    /// Stores `v` for `k` and returns the value stored before.
    pub fn insert(&mut self, k: Key, v: V) -> (r: Option<V>)
        requires
            old(self).wf(),
        ensures
            final(self).wf(),
            r == old(self).lookup(k),
            final(self).lookup(k) == Some(v),
            forall|o: Key| o != k ==> #[trigger] final(self).lookup(o) == old(self).lookup(o),
    {
        let ghost before = *self;
        match self.find(k) {
            Some(i) => {
                let previous = self.entries[i].1;
                self.entries.set(i, (k, v));
                proof {
                    self.lemma_lookup_at(i as int);
                    assert forall|o: Key| o != k implies #[trigger] self.lookup(o) == before.lookup(o) by {
                        if exists|j: int| 0 <= j < before.entries@.len() && #[trigger] before.entries@[j].0 == o {
                            let j = choose|j: int| 0 <= j < before.entries@.len() && #[trigger] before.entries@[j].0 == o;
                            before.lemma_lookup_at(j);
                            self.lemma_lookup_at(j);
                        } else {
                            assert(!exists|j: int| 0 <= j < self.entries@.len() && #[trigger] self.entries@[j].0 == o) by {
                                if exists|j: int| 0 <= j < self.entries@.len() && #[trigger] self.entries@[j].0 == o {
                                    let j = choose|j: int| 0 <= j < self.entries@.len() && #[trigger] self.entries@[j].0 == o;
                                    assert(before.entries@[j].0 == o);
                                }
                            }
                        }
                    }
                }
                Some(previous)
            },
            None => {
                self.entries.push((k, v));
                proof {
                    let n = before.entries@.len() as int;
                    assert forall|i: int, j: int|
                        0 <= i < j < self.entries@.len() implies #[trigger] self.entries@[i].0 != #[trigger] self.entries@[j].0 by {
                        if j == n {
                            assert(self.entries@[i] == before.entries@[i]);
                            assert(before.entries@[i].0 != k);
                        } else {
                            assert(self.entries@[i] == before.entries@[i]);
                            assert(self.entries@[j] == before.entries@[j]);
                        }
                    }
                    self.lemma_lookup_at(n);
                    assert forall|o: Key| o != k implies #[trigger] self.lookup(o) == before.lookup(o) by {
                        if exists|j: int| 0 <= j < before.entries@.len() && #[trigger] before.entries@[j].0 == o {
                            let j = choose|j: int| 0 <= j < before.entries@.len() && #[trigger] before.entries@[j].0 == o;
                            before.lemma_lookup_at(j);
                            assert(self.entries@[j] == before.entries@[j]);
                            self.lemma_lookup_at(j);
                        } else {
                            assert(!exists|j: int| 0 <= j < self.entries@.len() && #[trigger] self.entries@[j].0 == o) by {
                                if exists|j: int| 0 <= j < self.entries@.len() && #[trigger] self.entries@[j].0 == o {
                                    let j = choose|j: int| 0 <= j < self.entries@.len() && #[trigger] self.entries@[j].0 == o;
                                    if j < n {
                                        assert(before.entries@[j].0 == o);
                                    }
                                }
                            }
                        }
                    }
                }
                None
            },
        }
    }

    /// Removes the entry for `k`.
    pub fn remove(&mut self, k: Key)
        requires
            old(self).wf(),
        ensures
            final(self).wf(),
            final(self).lookup(k) is None,
            forall|o: Key| o != k ==> #[trigger] final(self).lookup(o) == old(self).lookup(o),
    {
        let ghost before = *self;
        match self.find(k) {
            Some(i) => {
                self.entries.remove(i);
                proof {
                    let m = i as int;
                    assert forall|a: int, b: int|
                        0 <= a < b < self.entries@.len() implies #[trigger] self.entries@[a].0 != #[trigger] self.entries@[b].0 by {
                        let a0 = if a < m { a } else { a + 1 };
                        let b0 = if b < m { b } else { b + 1 };
                        assert(self.entries@[a] == before.entries@[a0]);
                        assert(self.entries@[b] == before.entries@[b0]);
                    }
                    assert(!exists|j: int| 0 <= j < self.entries@.len() && #[trigger] self.entries@[j].0 == k) by {
                        if exists|j: int| 0 <= j < self.entries@.len() && #[trigger] self.entries@[j].0 == k {
                            let j = choose|j: int| 0 <= j < self.entries@.len() && #[trigger] self.entries@[j].0 == k;
                            let j0 = if j < m { j } else { j + 1 };
                            assert(self.entries@[j] == before.entries@[j0]);
                        }
                    }
                    assert forall|o: Key| o != k implies #[trigger] self.lookup(o) == before.lookup(o) by {
                        if exists|j: int| 0 <= j < before.entries@.len() && #[trigger] before.entries@[j].0 == o {
                            let j = choose|j: int| 0 <= j < before.entries@.len() && #[trigger] before.entries@[j].0 == o;
                            before.lemma_lookup_at(j);
                            let j1 = if j < m { j } else { j - 1 };
                            assert(self.entries@[j1] == before.entries@[j]);
                            self.lemma_lookup_at(j1);
                        } else {
                            assert(!exists|j: int| 0 <= j < self.entries@.len() && #[trigger] self.entries@[j].0 == o) by {
                                if exists|j: int| 0 <= j < self.entries@.len() && #[trigger] self.entries@[j].0 == o {
                                    let j = choose|j: int| 0 <= j < self.entries@.len() && #[trigger] self.entries@[j].0 == o;
                                    let j0 = if j < m { j } else { j + 1 };
                                    assert(self.entries@[j] == before.entries@[j0]);
                                }
                            }
                        }
                    }
                }
            },
            None => {
            },
        }
    }

    /// Removes every entry.
    pub fn clear(&mut self)
        ensures
            final(self).wf(),
            forall|k: Key| final(self).lookup(k) is None,
    {
        self.entries.clear();
    }
}

} // verus!

verus! {

/// The keys that the physical keyboard reports as down.
pub struct KeySet {
    keys: Vec<Key>,
}

impl KeySet {
    /// Whether `k` is reported down.
    pub closed spec fn contains(&self, k: Key) -> bool {
        self.keys@.contains(k)
    }

    /// No key is down.
    pub fn new() -> (r: Self)
        ensures
            forall|k: Key| !r.contains(k),
    {
        KeySet { keys: Vec::new() }
    }

    /// Reports `k` down as well.
    pub fn insert(&mut self, k: Key)
        ensures
            forall|o: Key| #[trigger] final(self).contains(o) == (old(self).contains(o) || o == k),
    {
        self.keys.push(k);
        proof {
            assert forall|o: Key| #[trigger] self.contains(o) == (old(self).contains(o) || o == k) by {
                if old(self).contains(o) {
                    let i = choose|i: int| 0 <= i < old(self).keys@.len() && old(self).keys@[i] == o;
                    assert(self.keys@[i] == o);
                }
                if self.contains(o) && o != k {
                    let i = choose|i: int| 0 <= i < self.keys@.len() && self.keys@[i] == o;
                    assert(old(self).keys@[i] == o);
                }
                if o == k {
                    assert(self.keys@[self.keys@.len() - 1] == k);
                }
            }
        }
    }

    /// Whether `k` is reported down.
    pub fn has(&self, k: Key) -> (r: bool)
        ensures
            r == self.contains(k),
    {
        let mut i: usize = 0;
        while i < self.keys.len()
            invariant
                i <= self.keys@.len(),
                forall|j: int| 0 <= j < i ==> self.keys@[j] != k,
            decreases self.keys.len() - i,
        {
            if self.keys[i] == k {
                return true;
            }
            i = i + 1;
        }
        false
    }
}

/// A key held down: until when a terminal press counts as held (`None`:
/// until released), whether Shift was down, and whether the physical
/// keyboard confirmed the press.
#[derive(Clone, Copy, Debug, PartialEq, Eq, Structural)]
pub struct HeldKey {
    pub expires: Option<u64>,
    pub shift: bool,
    pub native: bool,
}

/// Whether a held key is still held at `now`: a physically confirmed key
/// while the keyboard reports it down (and can be read at all), any other
/// until it expires.
pub open spec fn still_held(h: HeldKey, k: Key, now: u64, native: bool, down: KeySet) -> bool {
    if h.native {
        native && down.contains(k)
    } else {
        match h.expires {
            None => true,
            Some(t) => t >= now,
        }
    }
}

impl KeyTable<HeldKey> {
    /// Drops the keys that are no longer held at `now`.
    fn expire(&mut self, now: u64, native: bool, down: &KeySet)
        requires
            old(self).wf(),
        ensures
            final(self).wf(),
            forall|k: Key|
                #[trigger] final(self).lookup(k) == (match old(self).lookup(k) {
                    Some(h) => if still_held(h, k, now, native, *down) {
                        Some(h)
                    } else {
                        None
                    },
                    None => None,
                }),
    {
        let ghost before = *self;
        let mut kept: Vec<(Key, HeldKey)> = Vec::new();
        let ghost mut from: Seq<int> = seq![];
        let mut i: usize = 0;
        while i < self.entries.len()
            invariant
                *self == before,
                before.wf(),
                i <= before.entries@.len(),
                from.len() == kept@.len(),
                forall|a: int|
                    0 <= a < from.len() ==> 0 <= #[trigger] from[a] < i && kept@[a]
                        == before.entries@[from[a]] && still_held(
                        kept@[a].1,
                        kept@[a].0,
                        now,
                        native,
                        *down,
                    ),
                forall|a: int, b: int| 0 <= a < b < from.len() ==> #[trigger] from[a] < #[trigger] from[b],
                forall|j: int|
                    0 <= j < i && still_held(
                        before.entries@[j].1,
                        before.entries@[j].0,
                        now,
                        native,
                        *down,
                    ) ==> exists|a: int| 0 <= a < from.len() && #[trigger] from[a] == j,
            decreases self.entries.len() - i,
        {
            let (k, h) = self.entries[i];
            let keep = if h.native {
                native && down.has(k)
            } else {
                match h.expires {
                    None => true,
                    Some(t) => t >= now,
                }
            };
            assert((k, h) == before.entries@[i as int]);
            assert(keep == still_held(h, k, now, native, *down));
            let ghost old_from = from;
            if keep {
                kept.push((k, h));
                proof {
                    from = from.push(i as int);
                }
            }
            proof {
                assert forall|j: int|
                    0 <= j < i + 1 && still_held(
                        before.entries@[j].1,
                        before.entries@[j].0,
                        now,
                        native,
                        *down,
                    ) implies exists|a: int| 0 <= a < from.len() && #[trigger] from[a] == j by {
                    if j < i {
                        let a = choose|a: int| 0 <= a < old_from.len() && #[trigger] old_from[a] == j;
                        assert(from[a] == j);
                    } else {
                        assert(from[old_from.len() as int] == j);
                    }
                }
            }
            i = i + 1;
        }
        self.entries = kept;
        proof {
            assert forall|a: int, b: int|
                0 <= a < b < self.entries@.len() implies #[trigger] self.entries@[a].0 != #[trigger] self.entries@[b].0 by {
                assert(from[a] < from[b]);
            }
            assert forall|k: Key|
                #[trigger] self.lookup(k) == (match before.lookup(k) {
                    Some(h) => if still_held(h, k, now, native, *down) {
                        Some(h)
                    } else {
                        None
                    },
                    None => None,
                }) by {
                if exists|j: int| 0 <= j < before.entries@.len() && #[trigger] before.entries@[j].0 == k {
                    let j = choose|j: int| 0 <= j < before.entries@.len() && #[trigger] before.entries@[j].0 == k;
                    before.lemma_lookup_at(j);
                    if still_held(before.entries@[j].1, k, now, native, *down) {
                        let a = choose|a: int| 0 <= a < from.len() && #[trigger] from[a] == j;
                        self.lemma_lookup_at(a);
                    } else {
                        if exists|a: int| 0 <= a < self.entries@.len() && #[trigger] self.entries@[a].0 == k {
                            let a = choose|a: int| 0 <= a < self.entries@.len() && #[trigger] self.entries@[a].0 == k;
                            let j2 = from[a];
                            if j2 != j {
                                if j2 < j {
                                    assert(before.entries@[j2].0 != before.entries@[j].0);
                                } else {
                                    assert(before.entries@[j].0 != before.entries@[j2].0);
                                }
                            }
                        }
                    }
                } else {
                    if exists|a: int| 0 <= a < self.entries@.len() && #[trigger] self.entries@[a].0 == k {
                        let a = choose|a: int| 0 <= a < self.entries@.len() && #[trigger] self.entries@[a].0 == k;
                        assert(before.entries@[from[a]].0 == k);
                    }
                }
            }
        }
    }
}

} // verus!

verus! {

/// How long a repeated terminal press of a movement key may follow the
/// previous one to count as key repeat.
pub const REPEAT_WINDOW: u64 = 150_000_000;
/// How long a movement key counts as held after a repeated press.
pub const REPEAT_HOLD: u64 = 100_000_000;
/// How long a movement key counts as held after a lone press.
pub const TAP_HOLD: u64 = 45_000_000;
/// How long after a press of an action key another press is ignored.
pub const ACTION_DEBOUNCE: u64 = 250_000_000;

/// Mouse buttons.
#[derive(Clone, Copy, Debug, PartialEq, Eq, Structural)]
pub enum MouseButton {
    Left,
    Right,
    Middle,
}

/// Kinds of key events.
#[derive(Clone, Copy, Debug, PartialEq, Eq, Structural)]
pub enum KeyKind {
    Press,
    Repeat,
    Release,
}

/// A terminal event.
#[derive(Clone, Copy, Debug, PartialEq, Eq, Structural)]
pub enum Event {
    FocusLost,
    Resize,
    /// Mouse motion, with the button dragged if any.
    Moved { column: u16, row: u16, drag: Option<MouseButton> },
    Down { column: u16, row: u16, button: MouseButton },
    Up { column: u16, row: u16, button: MouseButton },
    ScrollUp,
    ScrollDown,
    Key { key: Key, kind: KeyKind, shift: bool, control: bool },
    Other,
}

/// Movement and fire controls, each axis -1, 0 or 1.
#[derive(Clone, Copy, Debug, PartialEq, Eq, Structural)]
pub struct KeyControls {
    pub forward: i8,
    pub strafe: i8,
    pub turn: i8,
    pub sprint: bool,
    pub fire: bool,
}

/// What the game is to do, in order.
#[derive(Clone, Copy, Debug, PartialEq, Eq, Structural)]
pub enum Command {
    /// Toggle an overlay screen.
    Overlay(Phase),
    /// Return to the screen an overlay covers.
    Resume,
    /// Leave the title screen and play.
    Start,
    Shoot,
    Reload,
    Dash(KeyControls),
    /// Turn by this many mouse columns.
    Turn(i32),
    /// Raise (`true`) or lower the mouse sensitivity.
    Sensitivity(bool),
    /// Start a new run from this seed, keeping the settings.
    Restart(u64),
    ToggleMinimap,
    ToggleMouse,
    ToggleSound,
    ToggleAutoFire,
    StopAutoFire,
}

/// What the game looks like to the input handler.
#[derive(Clone, Copy, Debug, PartialEq, Eq, Structural)]
pub struct GameView {
    pub phase: Phase,
    pub mouse: bool,
    /// A break between waves is running.
    pub in_break: bool,
}

/// Whether to quit, and whether to repaint in full.
#[derive(Clone, Copy, Debug, PartialEq, Eq, Structural)]
pub struct Outcome {
    pub quit: bool,
    pub redraw: bool,
}

impl Default for Outcome {
    fn default() -> (r: Self)
        ensures
            r == (Outcome { quit: false, redraw: false }),
    {
        Outcome { quit: false, redraw: false }
    }
}

/// The response to one event: the commands for the game, the outcome, and
/// whether `Input::settle` is to run once the commands are done (it does
/// not after quitting, a key release, or a key press ignored as repeat).
pub struct Reaction {
    pub commands: Vec<Command>,
    pub outcome: Outcome,
    pub settle: bool,
    pub deploying: bool,
}

/// The movement keys: arrows, W A S D, Q E and Space.
pub open spec fn is_movement(k: Key) -> bool {
    ||| k == Key::Up || k == Key::Down || k == Key::Left || k == Key::Right
    ||| k == Key::Char('w') || k == Key::Char('a') || k == Key::Char('s') || k == Key::Char('d')
    ||| k == Key::Char('q') || k == Key::Char('e') || k == Key::Char(' ')
}

/// Whether `k` is a movement key.
pub fn movement_key(k: Key) -> (r: bool)
    ensures
        r == is_movement(k),
{
    match k {
        Key::Up | Key::Down | Key::Left | Key::Right => true,
        Key::Char(c) => c == 'w' || c == 'a' || c == 's' || c == 'd' || c == 'q' || c == 'e' || c
            == ' ',
        _ => false,
    }
}

/// The commands for action key `key` (not a movement key), pressed with
/// Shift (`shift`) or not, in `view`; `seed` is the seed of a new run and
/// `dash` the controls a dodge takes its direction from.
pub open spec fn action_commands(
    key: Key,
    shift: bool,
    view: GameView,
    seed: u64,
    dash: KeyControls,
) -> Seq<Command> {
    let phase = view.phase;
    if key == Key::Esc {
        if phase == Phase::Playing {
            seq![Command::Overlay(Phase::Paused)]
        } else if phase == Phase::Paused || phase == Phase::Tactical || phase == Phase::Help {
            seq![Command::Resume]
        } else {
            seq![]
        }
    } else if key == Key::Enter && phase == Phase::Title {
        seq![Command::Start]
    } else if (key == Key::Enter || key == Key::Char('r')) && (phase == Phase::Lost || phase
        == Phase::Won) {
        seq![Command::Restart(seed)]
    } else if key == Key::Char('r') {
        seq![Command::Reload]
    } else if key == Key::Char('x') {
        seq![Command::Dash(dash)]
    } else if key == Key::Char('f') && phase == Phase::Playing && !view.in_break {
        seq![Command::ToggleAutoFire]
    } else if key == Key::Char('p') {
        if phase == Phase::Playing || phase == Phase::Paused {
            seq![Command::Overlay(Phase::Paused)]
        } else if phase == Phase::Tactical || phase == Phase::Help {
            seq![Command::Resume]
        } else {
            seq![]
        }
    } else if key == Key::Char('m') && phase == Phase::Tactical {
        seq![Command::Resume]
    } else if key == Key::Char('m') && shift && phase == Phase::Playing {
        seq![Command::Overlay(Phase::Tactical)]
    } else if key == Key::Char('m') {
        seq![Command::ToggleMinimap]
    } else if key == Key::Char('h') && (phase == Phase::Playing || phase == Phase::Title || phase
        == Phase::Help) {
        seq![Command::Overlay(Phase::Help)]
    } else if key == Key::Char('l') {
        seq![Command::ToggleMouse]
    } else if key == Key::Char('b') {
        seq![Command::ToggleSound]
    } else if key == Key::Char('[') {
        seq![Command::Sensitivity(false)]
    } else if key == Key::Char(']') {
        seq![Command::Sensitivity(true)]
    } else {
        seq![]
    }
}

/// Escape quits from the title and end screens.
pub open spec fn action_quits(key: Key, view: GameView) -> bool {
    key == Key::Esc && !(view.phase == Phase::Playing || view.phase == Phase::Paused || view.phase
        == Phase::Tactical || view.phase == Phase::Help)
}

/// `a - b`, or 0 when `b` is later.
pub open spec fn elapsed(a: u64, b: u64) -> int {
    if a > b { a - b } else { 0 }
}

/// -1, 0 or 1 for a pair of opposite keys.
pub open spec fn axis(positive: bool, negative: bool) -> i8 {
    (if positive { 1int } else { 0int } - if negative { 1int } else { 0int }) as i8
}

} // verus!

verus! {

/// The state of keyboard and mouse input.
pub struct Input {
    held: KeyTable<HeldKey>,
    movement_events: KeyTable<u64>,
    actions: KeyTable<u64>,
    release_events: bool,
    mouse_position: Option<(u16, u16)>,
    left_mouse: bool,
    fire_pressed: bool,
    seed: u64,
    native: bool,
}

impl Input {
    /// The key tables are well formed.
    pub closed spec fn wf(&self) -> bool {
        self.held.wf() && self.movement_events.wf() && self.actions.wf()
    }

    /// How key `k` is held, if it is.
    pub closed spec fn held_key(&self, k: Key) -> Option<HeldKey> {
        self.held.lookup(k)
    }

    /// When movement key `k` was last pressed, until its release.
    pub closed spec fn last_movement(&self, k: Key) -> Option<u64> {
        self.movement_events.lookup(k)
    }

    /// When action key `k` was last pressed, until its release.
    pub closed spec fn last_action(&self, k: Key) -> Option<u64> {
        self.actions.lookup(k)
    }

    /// The terminal reports key releases.
    pub closed spec fn release_events(&self) -> bool {
        self.release_events
    }

    /// The last mouse position, if one is known.
    pub closed spec fn mouse_position(&self) -> Option<(u16, u16)> {
        self.mouse_position
    }

    /// The left button is held.
    pub closed spec fn left_mouse(&self) -> bool {
        self.left_mouse
    }

    /// Space was pressed since the controls were last taken.
    pub closed spec fn fire_pressed(&self) -> bool {
        self.fire_pressed
    }

    /// The seed of the current run.
    pub closed spec fn seed(&self) -> u64 {
        self.seed
    }

    /// The physical keyboard is consulted for held keys.
    pub closed spec fn native(&self) -> bool {
        self.native
    }

    /// Whether `k` is held.
    pub open spec fn holds(&self, k: Key) -> bool {
        self.held_key(k) is Some
    }

    /// The controls given by the held keys, the pending Space press and
    /// the left mouse button: W or Up forward and S or Down back, D right
    /// and A left, E or Right and Q or Left to turn, Shift with W to
    /// sprint, and fire.
    pub open spec fn current_controls(&self) -> KeyControls {
        KeyControls {
            forward: axis(
                self.holds(Key::Char('w')) || self.holds(Key::Up),
                self.holds(Key::Char('s')) || self.holds(Key::Down),
            ),
            strafe: axis(self.holds(Key::Char('d')), self.holds(Key::Char('a'))),
            turn: axis(
                self.holds(Key::Char('e')) || self.holds(Key::Right),
                self.holds(Key::Char('q')) || self.holds(Key::Left),
            ),
            sprint: match self.held_key(Key::Char('w')) {
                Some(h) => h.shift,
                None => false,
            },
            fire: self.fire_pressed() || self.left_mouse() || self.holds(Key::Char(' ')),
        }
    }

    /// Nothing is held, the mouse position is unknown; the action and
    /// repeat timings, the seed and the modes are kept.
    pub open spec fn cleared_from(&self, old: Input) -> bool {
        &&& forall|k: Key| #[trigger] self.held_key(k) is None
        &&& forall|k: Key| #[trigger] self.last_movement(k) is None
        &&& forall|k: Key| #[trigger] self.last_action(k) == old.last_action(k)
        &&& self.mouse_position() is None
        &&& !self.left_mouse()
        &&& !self.fire_pressed()
        &&& self.release_events() == old.release_events()
        &&& self.seed() == old.seed()
        &&& self.native() == old.native()
    }

    /// Input for a run from `seed`, on a terminal that reports key
    /// releases (`release_events`) or not, without a physical keyboard
    /// reader.
    pub fn new(seed: u64, release_events: bool) -> (r: Self)
        ensures
            r.wf(),
            r.seed() == seed,
            r.release_events() == release_events,
            !r.native(),
            forall|k: Key| #[trigger] r.held_key(k) is None,
            forall|k: Key| #[trigger] r.last_movement(k) is None,
            forall|k: Key| #[trigger] r.last_action(k) is None,
            r.mouse_position() is None,
            !r.left_mouse(),
            !r.fire_pressed(),
    {
        Self::with_key_state(seed, release_events, false)
    }

    /// As `new`, consulting the physical keyboard for held keys when a
    /// reader exists (`key_state`) and the terminal does not report
    /// releases.
    pub fn with_key_state(seed: u64, release_events: bool, key_state: bool) -> (r: Self)
        ensures
            r.wf(),
            r.seed() == seed,
            r.release_events() == release_events,
            r.native() == (key_state && !release_events),
            forall|k: Key| #[trigger] r.held_key(k) is None,
            forall|k: Key| #[trigger] r.last_movement(k) is None,
            forall|k: Key| #[trigger] r.last_action(k) is None,
            r.mouse_position() is None,
            !r.left_mouse(),
            !r.fire_pressed(),
    {
        Input {
            held: KeyTable::new(),
            movement_events: KeyTable::new(),
            actions: KeyTable::new(),
            release_events,
            mouse_position: None,
            left_mouse: false,
            fire_pressed: false,
            seed,
            native: key_state && !release_events,
        }
    }

    /// Forgets held keys, repeats, the mouse position and pending fire.
    pub fn clear(&mut self)
        requires
            old(self).wf(),
        ensures
            final(self).wf(),
            final(self).cleared_from(*old(self)),
    {
        self.held.clear();
        self.movement_events.clear();
        self.mouse_position = None;
        self.left_mouse = false;
        self.fire_pressed = false;
    }

    /// The controls at `now`, after dropping keys that are no longer held;
    /// `down` holds the keys the physical keyboard reports down.
    pub fn controls(&mut self, now: u64, down: &KeySet) -> (r: KeyControls)
        requires
            old(self).wf(),
        ensures
            final(self).wf(),
            forall|k: Key|
                #[trigger] final(self).held_key(k) == (match old(self).held_key(k) {
                    Some(h) => if still_held(h, k, now, old(self).native(), *down) {
                        Some(h)
                    } else {
                        None
                    },
                    None => None,
                }),
            forall|k: Key| #[trigger] final(self).last_movement(k) == old(self).last_movement(k),
            forall|k: Key| #[trigger] final(self).last_action(k) == old(self).last_action(k),
            final(self).release_events() == old(self).release_events(),
            final(self).mouse_position() == old(self).mouse_position(),
            final(self).left_mouse() == old(self).left_mouse(),
            final(self).fire_pressed() == old(self).fire_pressed(),
            final(self).seed() == old(self).seed(),
            final(self).native() == old(self).native(),
            r == final(self).current_controls(),
    {
        self.held.expire(now, self.native, down);
        let w = self.held.get(Key::Char('w'));
        let up = self.held.get(Key::Up).is_some();
        let s = self.held.get(Key::Char('s')).is_some();
        let dn = self.held.get(Key::Down).is_some();
        let d = self.held.get(Key::Char('d')).is_some();
        let a = self.held.get(Key::Char('a')).is_some();
        let e = self.held.get(Key::Char('e')).is_some();
        let rt = self.held.get(Key::Right).is_some();
        let q = self.held.get(Key::Char('q')).is_some();
        let lt = self.held.get(Key::Left).is_some();
        let space = self.held.get(Key::Char(' ')).is_some();
        let fwd = w.is_some() || up;
        let back = s || dn;
        KeyControls {
            forward: (if fwd { 1i8 } else { 0i8 }) - (if back { 1i8 } else { 0i8 }),
            strafe: (if d { 1i8 } else { 0i8 }) - (if a { 1i8 } else { 0i8 }),
            turn: (if e || rt { 1i8 } else { 0i8 }) - (if q || lt { 1i8 } else { 0i8 }),
            sprint: match w {
                Some(h) => h.shift,
                None => false,
            },
            fire: self.fire_pressed || self.left_mouse || space,
        }
    }

    /// `after` is `self` after taking the controls `r` at `now` with `down`
    /// reported down: keys that are no longer held are dropped, a pending
    /// press of Space is consumed, and the controls fire for that press,
    /// the left button or a held Space.
    pub open spec fn took_controls(&self, after: Input, now: u64, down: KeySet, r: KeyControls) -> bool {
        &&& forall|k: Key|
            #[trigger] after.held_key(k) == (match self.held_key(k) {
                Some(h) => if still_held(h, k, now, self.native(), down) {
                    Some(h)
                } else {
                    None
                },
                None => None,
            })
        &&& forall|k: Key| #[trigger] after.last_movement(k) == self.last_movement(k)
        &&& forall|k: Key| #[trigger] after.last_action(k) == self.last_action(k)
        &&& after.release_events() == self.release_events()
        &&& after.mouse_position() == self.mouse_position()
        &&& after.left_mouse() == self.left_mouse()
        &&& !after.fire_pressed()
        &&& after.seed() == self.seed()
        &&& after.native() == self.native()
        &&& r == (KeyControls {
            fire: self.fire_pressed() || after.left_mouse() || after.holds(Key::Char(' ')),
            ..after.current_controls()
        })
    }

    /// As `controls`, and consumes a pending press of Space: a press and
    /// release between two steps still fires once.
    pub fn take_controls(&mut self, now: u64, down: &KeySet) -> (r: KeyControls)
        requires
            old(self).wf(),
        ensures
            final(self).wf(),
            old(self).took_controls(*final(self), now, *down, r),
    {
        let controls = self.controls(now, down);
        let ghost mid = *self;
        self.fire_pressed = false;
        proof {
            assert(self.movement_events == mid.movement_events);
            assert(self.actions == mid.actions);
            assert(self.held == mid.held);
            assert forall|k: Key| #[trigger] self.last_movement(k) == old(self).last_movement(k) by {
                assert(mid.last_movement(k) == old(self).last_movement(k));
            }
            assert forall|k: Key| #[trigger] self.last_action(k) == old(self).last_action(k) by {
                assert(mid.last_action(k) == old(self).last_action(k));
            }
        }
        controls
    }
}

} // verus!

verus! {

/// A pending press fires once: of two steps in a row with no event in
/// between, the first fires for a press of Space made before it, and the
/// second fires only while the left button or Space is still held.
pub proof fn lemma_press_fires_once(
    a: Input,
    b: Input,
    c: Input,
    t1: u64,
    t2: u64,
    d1: KeySet,
    d2: KeySet,
    r1: KeyControls,
    r2: KeyControls,
)
    requires
        a.took_controls(b, t1, d1, r1),
        b.took_controls(c, t2, d2, r2),
    ensures
        a.fire_pressed() ==> r1.fire,
        r2.fire == (a.left_mouse() || c.holds(Key::Char(' '))),
        !c.fire_pressed(),
{
}

} // verus!

verus! {

impl Input {
    /// `self` is `old` with the mouse state and the pending fire replaced
    /// by the given values.
    pub open spec fn same_keys_as(&self, old: Input) -> bool {
        &&& forall|k: Key| #[trigger] self.held_key(k) == old.held_key(k)
        &&& forall|k: Key| #[trigger] self.last_movement(k) == old.last_movement(k)
        &&& forall|k: Key| #[trigger] self.last_action(k) == old.last_action(k)
        &&& self.release_events() == old.release_events()
        &&& self.seed() == old.seed()
        &&& self.native() == old.native()
    }

    /// How a press of movement key `k` at `now` is held: until released on
    /// a terminal that reports releases; else for a short tap, longer when
    /// it repeats an earlier press within the repeat window. It counts as
    /// physically confirmed when it was before or the keyboard reports it
    /// down now.
    pub open spec fn pressed_hold(&self, k: Key, now: u64, shift: bool, down: KeySet) -> HeldKey {
        let repeating = match self.last_movement(k) {
            Some(t) => elapsed(now, t) <= REPEAT_WINDOW,
            None => false,
        };
        let hold: int = if repeating { REPEAT_HOLD as int } else { TAP_HOLD as int };
        HeldKey {
            expires: if self.release_events() {
                None
            } else {
                Some((if now + hold <= u64::MAX { now + hold } else { u64::MAX as int }) as u64)
            },
            shift,
            native: (match self.held_key(k) {
                Some(h) => h.native,
                None => false,
            }) || (self.native() && down.contains(k)),
        }
    }

    /// Handles a press of movement key `k`: while playing it is held and
    /// Space also fires once; on the title screen Space starts the game.
    /// `after` is `self` after a press of movement key `k` at `now` that
    /// yields `commands`.
    pub open spec fn movement_pressed(
        &self,
        after: Input,
        k: Key,
        now: u64,
        shift: bool,
        view: GameView,
        down: KeySet,
        commands: Seq<Command>,
    ) -> bool {
        &&& view.phase == Phase::Playing ==> {
            &&& commands == Seq::<Command>::empty()
            &&& after.held_key(k) == Some(self.pressed_hold(k, now, shift, down))
            &&& after.last_movement(k) == Some(now)
            &&& forall|o: Key| o != k ==> #[trigger] after.held_key(o) == self.held_key(o)
            &&& forall|o: Key| o != k ==> #[trigger] after.last_movement(o) == self.last_movement(o)
            &&& forall|o: Key| #[trigger] after.last_action(o) == self.last_action(o)
            &&& after.fire_pressed() == (self.fire_pressed() || k == Key::Char(' '))
        }
        &&& view.phase != Phase::Playing ==> {
            &&& commands == (if view.phase == Phase::Title && k == Key::Char(' ') {
                seq![Command::Start]
            } else {
                Seq::<Command>::empty()
            })
            &&& after.same_keys_as(*self)
            &&& after.fire_pressed() == self.fire_pressed()
        }
        &&& after.release_events() == self.release_events()
        &&& after.seed() == self.seed()
        &&& after.native() == self.native()
        &&& after.mouse_position() == self.mouse_position()
        &&& after.left_mouse() == self.left_mouse()
    }

    fn press_movement(&mut self, k: Key, now: u64, shift: bool, view: GameView, down: &KeySet) -> (r: Vec<Command>)
        requires
            old(self).wf(),
            is_movement(k),
        ensures
            final(self).wf(),
            old(self).movement_pressed(*final(self), k, now, shift, view, *down, r@),
    {
        let mut commands: Vec<Command> = Vec::new();
        if view.phase == Phase::Playing {
            let ghost before = *self;
            if k == Key::Char(' ') {
                self.fire_pressed = true;
            }
            let previous = self.held.get(k);
            let last = self.movement_events.insert(k, now);
            let repeating = match last {
                Some(t) => now.saturating_sub(t) <= REPEAT_WINDOW,
                None => false,
            };
            let was_native = match previous {
                Some(h) => h.native,
                None => false,
            };
            let native = was_native || (self.native && down.has(k));
            let expires = if self.release_events {
                None
            } else {
                Some(now.saturating_add(if repeating { REPEAT_HOLD } else { TAP_HOLD }))
            };
            let h = HeldKey { expires, shift, native };
            self.held.insert(k, h);
            proof {
                assert(h == before.pressed_hold(k, now, shift, *down));
            }
        } else if view.phase == Phase::Title && k == Key::Char(' ') {
            commands.push(Command::Start);
        }
        commands
    }
}

} // verus!

verus! {

/// The seed after `seed`, wrapping around.
pub open spec fn next_seed(seed: u64) -> u64 {
    if seed == u64::MAX { 0 } else { (seed + 1) as u64 }
}

/// Whether `key` on screen `phase` starts a new run.
pub open spec fn restarts(key: Key, phase: Phase) -> bool {
    (key == Key::Enter || key == Key::Char('r')) && (phase == Phase::Lost || phase == Phase::Won)
}

impl Input {
    /// A press of an action key acts unless it is a terminal repeat or
    /// follows the previous press of that key within the debounce time.
    pub open spec fn fresh_action(&self, k: Key, kind: KeyKind, now: u64) -> bool {
        kind != KeyKind::Repeat && match self.last_action(k) {
            None => true,
            Some(t) => elapsed(now, t) > ACTION_DEBOUNCE,
        }
    }

    /// `after` is `self` after a press of action key `k` at `now` that
    /// yields `commands`, quits or not (`quit`) and acts or not (`acted`).
    pub open spec fn action_pressed(
        &self,
        after: Input,
        k: Key,
        kind: KeyKind,
        shift: bool,
        now: u64,
        view: GameView,
        down: KeySet,
        commands: Seq<Command>,
        quit: bool,
        acted: bool,
    ) -> bool {
        &&& acted == self.fresh_action(k, kind, now)
        &&& after.last_action(k) == Some(now)
        &&& forall|o: Key| o != k ==> #[trigger] after.last_action(o) == self.last_action(o)
        &&& forall|o: Key| #[trigger] after.last_movement(o) == self.last_movement(o)
        &&& after.release_events() == self.release_events()
        &&& after.native() == self.native()
        &&& after.left_mouse() == self.left_mouse()
        &&& after.fire_pressed() == self.fire_pressed()
        &&& !acted ==> {
            &&& commands == Seq::<Command>::empty()
            &&& !quit
            &&& forall|o: Key| #[trigger] after.held_key(o) == self.held_key(o)
            &&& after.seed() == self.seed()
            &&& after.mouse_position() == self.mouse_position()
        }
        &&& acted ==> {
            &&& quit == action_quits(k, view)
            &&& after.seed() == (if restarts(k, view.phase) {
                next_seed(self.seed())
            } else {
                self.seed()
            })
            &&& after.mouse_position() == (if k == Key::Char('l') {
                None
            } else {
                self.mouse_position()
            })
            &&& k == Key::Char('x') ==> forall|o: Key|
                #[trigger] after.held_key(o) == (match self.held_key(o) {
                    Some(h) => if still_held(h, o, now, self.native(), down) {
                        Some(h)
                    } else {
                        None
                    },
                    None => None,
                })
            &&& k != Key::Char('x') ==> forall|o: Key| #[trigger] after.held_key(o) == self.held_key(o)
            &&& commands == action_commands(k, shift, view, after.seed(), after.current_controls())
        }
    }

    fn press_action(
        &mut self,
        k: Key,
        kind: KeyKind,
        shift: bool,
        now: u64,
        view: GameView,
        down: &KeySet,
    ) -> (r: (Vec<Command>, bool, bool))
        requires
            old(self).wf(),
            !is_movement(k),
        ensures
            final(self).wf(),
            old(self).action_pressed(*final(self), k, kind, shift, now, view, *down, r.0@, r.1, r.2),
    {
        let previous = self.actions.insert(k, now);
        let fresh = kind != KeyKind::Repeat && match previous {
            None => true,
            Some(t) => now.saturating_sub(t) > ACTION_DEBOUNCE,
        };
        let mut commands: Vec<Command> = Vec::new();
        if !fresh {
            return (commands, false, false);
        }
        let phase = view.phase;
        let mut quit = false;
        if k == Key::Esc {
            if phase == Phase::Playing {
                commands.push(Command::Overlay(Phase::Paused));
            } else if phase == Phase::Paused || phase == Phase::Tactical || phase == Phase::Help {
                commands.push(Command::Resume);
            } else {
                quit = true;
            }
        } else if k == Key::Enter && phase == Phase::Title {
            commands.push(Command::Start);
        } else if (k == Key::Enter || k == Key::Char('r')) && (phase == Phase::Lost || phase
            == Phase::Won) {
            self.seed = self.seed.wrapping_add(1);
            commands.push(Command::Restart(self.seed));
        } else if k == Key::Char('r') {
            commands.push(Command::Reload);
        } else if k == Key::Char('x') {
            let dash = self.controls(now, down);
            commands.push(Command::Dash(dash));
        } else if k == Key::Char('f') && phase == Phase::Playing && !view.in_break {
            commands.push(Command::ToggleAutoFire);
        } else if k == Key::Char('p') {
            if phase == Phase::Playing || phase == Phase::Paused {
                commands.push(Command::Overlay(Phase::Paused));
            } else if phase == Phase::Tactical || phase == Phase::Help {
                commands.push(Command::Resume);
            }
        } else if k == Key::Char('m') && phase == Phase::Tactical {
            commands.push(Command::Resume);
        } else if k == Key::Char('m') && shift && phase == Phase::Playing {
            commands.push(Command::Overlay(Phase::Tactical));
        } else if k == Key::Char('m') {
            commands.push(Command::ToggleMinimap);
        } else if k == Key::Char('h') && (phase == Phase::Playing || phase == Phase::Title || phase
            == Phase::Help) {
            commands.push(Command::Overlay(Phase::Help));
        } else if k == Key::Char('l') {
            self.mouse_position = None;
            commands.push(Command::ToggleMouse);
        } else if k == Key::Char('b') {
            commands.push(Command::ToggleSound);
        } else if k == Key::Char('[') {
            commands.push(Command::Sensitivity(false));
        } else if k == Key::Char(']') {
            commands.push(Command::Sensitivity(true));
        }
        (commands, quit, true)
    }
}

} // verus!

verus! {

/// The action keys. A press acts when it is not a terminal repeat and
/// comes more than 250 ms after the last press of that key (or is its
/// first). An acting press of R reloads, but after a run R and Enter start
/// a new one from the next seed; Enter deploys from the title; Esc pauses
/// play, returns from the pause, map and help screens, and quits from the
/// others. While playing, X dodges with the controls of the held keys, F
/// toggles continuous fire (not during a break), P pauses, M toggles the
/// minimap and Shift+M opens the tactical map, H opens the help, L toggles
/// mouse look, B the beep, and `[` and `]` lower and raise the mouse
/// sensitivity.
pub proof fn lemma_action_keys(
    a: Input,
    after: Input,
    k: Key,
    kind: KeyKind,
    shift: bool,
    now: u64,
    view: GameView,
    down: KeySet,
    commands: Seq<Command>,
    quit: bool,
    acted: bool,
)
    requires
        a.action_pressed(after, k, kind, shift, now, view, down, commands, quit, acted),
    ensures
        acted == (kind != KeyKind::Repeat && match a.last_action(k) {
            None => true,
            Some(t) => now > t && now - t > 250_000_000,
        }),
        !acted ==> commands.len() == 0 && !quit,
        acted ==> {
            let p = view.phase;
            let over = p == Phase::Won || p == Phase::Lost;
            &&& k == Key::Char('r') && !over ==> commands == seq![Command::Reload]
            &&& (k == Key::Char('r') || k == Key::Enter) && over ==> {
                &&& after.seed() == (if a.seed() == u64::MAX { 0 } else { (a.seed() + 1) as u64 })
                &&& commands == seq![Command::Restart(after.seed())]
            }
            &&& k == Key::Enter && p == Phase::Title ==> commands == seq![Command::Start]
            &&& k == Key::Esc && p == Phase::Playing ==> commands == seq![Command::Overlay(Phase::Paused)] && !quit
            &&& k == Key::Esc && (p == Phase::Paused || p == Phase::Tactical || p == Phase::Help)
                ==> commands == seq![Command::Resume] && !quit
            &&& k == Key::Esc && (p == Phase::Title || over) ==> commands.len() == 0 && quit
            &&& k != Key::Esc ==> !quit
            &&& p == Phase::Playing ==> {
                &&& k == Key::Char('x') ==> commands.len() == 1 && commands[0] is Dash
                &&& k == Key::Char('f') && !view.in_break ==> commands == seq![Command::ToggleAutoFire]
                &&& k == Key::Char('f') && view.in_break ==> commands.len() == 0
                &&& k == Key::Char('p') ==> commands == seq![Command::Overlay(Phase::Paused)]
                &&& k == Key::Char('m') && !shift ==> commands == seq![Command::ToggleMinimap]
                &&& k == Key::Char('m') && shift ==> commands == seq![Command::Overlay(Phase::Tactical)]
                &&& k == Key::Char('h') ==> commands == seq![Command::Overlay(Phase::Help)]
                &&& k == Key::Char('l') ==> commands == seq![Command::ToggleMouse]
                &&& k == Key::Char('b') ==> commands == seq![Command::ToggleSound]
                &&& k == Key::Char('[') ==> commands == seq![Command::Sensitivity(false)]
                &&& k == Key::Char(']') ==> commands == seq![Command::Sensitivity(true)]
            }
        },
{
}

} // verus!

verus! {

/// Movement keys. While playing, a press holds its key: until released on
/// a terminal that reports releases; otherwise for 45 ms, or 100 ms when
/// it comes within 150 ms of the previous press of that key (key repeat).
/// Space also fires once. On the title screen Space deploys; elsewhere
/// movement keys do nothing.
pub proof fn lemma_movement_keys(
    a: Input,
    after: Input,
    k: Key,
    now: u64,
    shift: bool,
    view: GameView,
    down: KeySet,
    commands: Seq<Command>,
)
    requires
        a.movement_pressed(after, k, now, shift, view, down, commands),
    ensures
        view.phase == Phase::Playing ==> {
            let repeating = match a.last_movement(k) {
                Some(t) => now <= t || now - t <= 150_000_000,
                None => false,
            };
            let hold: int = if repeating { 100_000_000 } else { 45_000_000 };
            &&& commands.len() == 0
            &&& after.holds(k)
            &&& after.held_key(k).unwrap().expires == (if a.release_events() {
                None
            } else {
                Some((if now + hold <= u64::MAX { now + hold } else { u64::MAX as int }) as u64)
            })
            &&& after.held_key(k).unwrap().shift == shift
            &&& after.fire_pressed() == (a.fire_pressed() || k == Key::Char(' '))
        },
        view.phase == Phase::Title ==> commands == (if k == Key::Char(' ') {
            seq![Command::Start]
        } else {
            seq![]
        }),
        view.phase != Phase::Playing && view.phase != Phase::Title ==> commands.len() == 0,
        view.phase != Phase::Playing ==> after.held_key(k) == a.held_key(k),
{
}

/// The controls from the held keys: W or Up forward and S or Down back, D
/// right and A left, E or Right and Q or Left to turn (each -1, 0 or 1,
/// opposite keys cancelling), Shift held with W to sprint, and fire for a
/// pending press of Space, the left button or a held Space.
pub proof fn lemma_controls_from_keys(i: Input)
    ensures
        i.current_controls().forward == (if i.holds(Key::Char('w')) || i.holds(Key::Up) { 1int } else { 0int })
            - (if i.holds(Key::Char('s')) || i.holds(Key::Down) { 1int } else { 0int }),
        i.current_controls().strafe == (if i.holds(Key::Char('d')) { 1int } else { 0int }) - (if i.holds(
            Key::Char('a'),
        ) { 1int } else { 0int }),
        i.current_controls().turn == (if i.holds(Key::Char('e')) || i.holds(Key::Right) { 1int } else { 0int })
            - (if i.holds(Key::Char('q')) || i.holds(Key::Left) { 1int } else { 0int }),
        i.current_controls().sprint == (i.holds(Key::Char('w')) && i.held_key(Key::Char('w')).unwrap().shift),
        i.current_controls().fire == (i.fire_pressed() || i.left_mouse() || i.holds(Key::Char(' '))),
{
}

} // verus!

verus! {

impl Input {
    /// `after` keeps all of `self`.
    pub open spec fn kept(&self, after: Input) -> bool {
        &&& after.same_keys_as(*self)
        &&& after.mouse_position() == self.mouse_position()
        &&& after.left_mouse() == self.left_mouse()
        &&& after.fire_pressed() == self.fire_pressed()
    }

    /// Handles one terminal event at `now` while the game looks like
    /// `view`; `down` holds the keys the physical keyboard reports down.
    /// The game is to carry out the returned commands in order and then,
    /// when the reaction says so, call `settle`; every reaction that holds
    /// commands says so, so a change of screen always reaches `settle`.
    pub fn handle(&mut self, event: Event, now: u64, view: GameView, down: &KeySet) -> (r: Reaction)
        requires
            old(self).wf(),
        ensures
            final(self).wf(),
            r.commands@.len() > 0 ==> r.settle,
            r.deploying == (view.phase == Phase::Title && event matches Event::Down {
                button: MouseButton::Left,
                ..
            }),
            match event {
                Event::FocusLost => {
                    &&& r.commands@ == (if view.phase == Phase::Playing {
                        seq![Command::Overlay(Phase::Paused), Command::StopAutoFire]
                    } else {
                        seq![Command::StopAutoFire]
                    })
                    &&& r.outcome == Outcome { quit: false, redraw: false }
                    &&& r.settle
                    &&& final(self).cleared_from(*old(self))
                },
                Event::Resize => {
                    &&& r.commands@ == seq![Command::StopAutoFire]
                    &&& r.outcome == Outcome { quit: false, redraw: true }
                    &&& r.settle
                    &&& final(self).cleared_from(*old(self))
                },
                Event::Moved { column, row, drag } => {
                    &&& r.commands@ == (match old(self).mouse_position() {
                        Some(p) => if view.phase == Phase::Playing && view.mouse {
                            seq![Command::Turn((column - p.0) as i32)]
                        } else {
                            Seq::<Command>::empty()
                        },
                        None => Seq::<Command>::empty(),
                    })
                    &&& r.outcome == Outcome { quit: false, redraw: false }
                    &&& r.settle
                    &&& final(self).same_keys_as(*old(self))
                    &&& final(self).fire_pressed() == old(self).fire_pressed()
                    &&& final(self).mouse_position() == Some((column, row))
                    &&& final(self).left_mouse() == (old(self).left_mouse() || (drag == Some(
                        MouseButton::Left,
                    ) && view.phase == Phase::Playing))
                },
                Event::Down { column, row, button } => {
                    &&& r.outcome == Outcome { quit: false, redraw: false }
                    &&& r.settle
                    &&& final(self).same_keys_as(*old(self))
                    &&& final(self).fire_pressed() == old(self).fire_pressed()
                    &&& button == MouseButton::Left ==> {
                        &&& r.commands@ == (if view.phase == Phase::Title {
                            seq![Command::Start, Command::Shoot]
                        } else if view.phase == Phase::Playing {
                            seq![Command::Shoot]
                        } else {
                            Seq::<Command>::empty()
                        })
                        &&& final(self).mouse_position() == Some((column, row))
                        &&& final(self).left_mouse() == (old(self).left_mouse() || view.phase
                            == Phase::Title || view.phase == Phase::Playing)
                    }
                    &&& button != MouseButton::Left ==> {
                        &&& r.commands@ == (if button == MouseButton::Right {
                            seq![Command::Reload]
                        } else {
                            Seq::<Command>::empty()
                        })
                        &&& final(self).mouse_position() == old(self).mouse_position()
                        &&& final(self).left_mouse() == old(self).left_mouse()
                    }
                },
                Event::Up { button, .. } => {
                    &&& r.commands@ == Seq::<Command>::empty()
                    &&& r.outcome == Outcome { quit: false, redraw: false }
                    &&& r.settle
                    &&& final(self).same_keys_as(*old(self))
                    &&& final(self).fire_pressed() == old(self).fire_pressed()
                    &&& final(self).mouse_position() == old(self).mouse_position()
                    &&& final(self).left_mouse() == (old(self).left_mouse() && button
                        != MouseButton::Left)
                },
                Event::ScrollUp => {
                    &&& r.commands@ == seq![Command::Sensitivity(true)]
                    &&& r.outcome == Outcome { quit: false, redraw: false }
                    &&& r.settle
                    &&& old(self).kept(*final(self))
                },
                Event::ScrollDown => {
                    &&& r.commands@ == seq![Command::Sensitivity(false)]
                    &&& r.outcome == Outcome { quit: false, redraw: false }
                    &&& r.settle
                    &&& old(self).kept(*final(self))
                },
                Event::Key { key, kind, shift, control } => {
                    let k = spec_lowercase(key);
                    &&& !r.outcome.redraw
                    &&& k == Key::Char('c') && control ==> {
                        &&& r.commands@ == Seq::<Command>::empty()
                        &&& r.outcome.quit
                        &&& !r.settle
                        &&& old(self).kept(*final(self))
                    }
                    &&& !(k == Key::Char('c') && control) && kind == KeyKind::Release ==> {
                        &&& r.commands@ == Seq::<Command>::empty()
                        &&& !r.outcome.quit
                        &&& !r.settle
                        &&& final(self).held_key(k) is None
                        &&& final(self).last_movement(k) is None
                        &&& final(self).last_action(k) is None
                        &&& forall|o: Key| o != k ==> #[trigger] final(self).held_key(o) == old(self).held_key(o)
                        &&& forall|o: Key| o != k ==> #[trigger] final(self).last_movement(o) == old(self).last_movement(o)
                        &&& forall|o: Key| o != k ==> #[trigger] final(self).last_action(o) == old(self).last_action(o)
                        &&& final(self).release_events() == old(self).release_events()
                        &&& final(self).seed() == old(self).seed()
                        &&& final(self).native() == old(self).native()
                        &&& final(self).mouse_position() == old(self).mouse_position()
                        &&& final(self).left_mouse() == old(self).left_mouse()
                        &&& final(self).fire_pressed() == old(self).fire_pressed()
                    }
                    &&& !(k == Key::Char('c') && control) && kind != KeyKind::Release && is_movement(k) ==> {
                        &&& !r.outcome.quit
                        &&& r.settle
                        &&& old(self).movement_pressed(*final(self), k, now, shift, view, *down, r.commands@)
                    }
                    &&& !(k == Key::Char('c') && control) && kind != KeyKind::Release && !is_movement(k) ==> {
                        old(self).action_pressed(
                            *final(self),
                            k,
                            kind,
                            shift,
                            now,
                            view,
                            *down,
                            r.commands@,
                            r.outcome.quit,
                            r.settle,
                        )
                    }
                },
                Event::Other => {
                    &&& r.commands@ == Seq::<Command>::empty()
                    &&& r.outcome == Outcome { quit: false, redraw: false }
                    &&& r.settle
                    &&& old(self).kept(*final(self))
                },
            },
    {
        let deploying = view.phase == Phase::Title && match event {
            Event::Down { button: MouseButton::Left, .. } => true,
            _ => false,
        };
        let mut commands: Vec<Command> = Vec::new();
        let mut outcome = Outcome { quit: false, redraw: false };
        match event {
            Event::FocusLost => {
                if view.phase == Phase::Playing {
                    commands.push(Command::Overlay(Phase::Paused));
                }
                commands.push(Command::StopAutoFire);
                self.clear();
            },
            Event::Resize => {
                self.clear();
                commands.push(Command::StopAutoFire);
                outcome.redraw = true;
            },
            Event::Moved { column, row, drag } => {
                if drag == Some(MouseButton::Left) && view.phase == Phase::Playing {
                    self.left_mouse = true;
                }
                if view.phase == Phase::Playing && view.mouse {
                    if let Some(old) = self.mouse_position {
                        commands.push(Command::Turn(column as i32 - old.0 as i32));
                    }
                }
                self.mouse_position = Some((column, row));
            },
            Event::Down { column, row, button } => {
                match button {
                    MouseButton::Left => {
                        self.mouse_position = Some((column, row));
                        let mut phase = view.phase;
                        if phase == Phase::Title {
                            commands.push(Command::Start);
                            phase = Phase::Playing;
                        }
                        if phase == Phase::Playing {
                            self.left_mouse = true;
                            commands.push(Command::Shoot);
                        }
                    },
                    MouseButton::Right => {
                        commands.push(Command::Reload);
                    },
                    MouseButton::Middle => {},
                }
            },
            Event::Up { button, .. } => {
                if button == MouseButton::Left {
                    self.left_mouse = false;
                }
            },
            Event::ScrollUp => {
                commands.push(Command::Sensitivity(true));
            },
            Event::ScrollDown => {
                commands.push(Command::Sensitivity(false));
            },
            Event::Key { key, kind, shift, control } => {
                let k = lowercase(key);
                if k == Key::Char('c') && control {
                    outcome.quit = true;
                    return Reaction { commands, outcome, settle: false, deploying };
                }
                if kind == KeyKind::Release {
                    self.held.remove(k);
                    self.movement_events.remove(k);
                    self.actions.remove(k);
                    return Reaction { commands, outcome, settle: false, deploying };
                }
                if movement_key(k) {
                    let c = self.press_movement(k, now, shift, view, down);
                    return Reaction { commands: c, outcome, settle: true, deploying };
                } else {
                    let (c, quit, acted) = self.press_action(k, kind, shift, now, view, down);
                    outcome.quit = quit;
                    return Reaction { commands: c, outcome, settle: acted, deploying };
                }
            },
            Event::Other => {},
        }
        Reaction { commands, outcome, settle: true, deploying }
    }

    /// Finishes an event that left the game on screen `phase` after
    /// `before`: on a change of screen, forgets held input, keeps the left
    /// button held only for the click that deployed from the title into
    /// play, and reports the change (the game then stops continuous fire
    /// and repaints in full). The controls are then still, and fire only
    /// for that deploying click.
    pub fn settle(&mut self, deploying: bool, before: Phase, phase: Phase) -> (r: bool)
        requires
            old(self).wf(),
        ensures
            final(self).wf(),
            r == (phase != before),
            r ==> final(self).current_controls() == (KeyControls {
                forward: 0,
                strafe: 0,
                turn: 0,
                sprint: false,
                fire: deploying && phase == Phase::Playing,
            }),
            r ==> {
                &&& forall|k: Key| #[trigger] final(self).held_key(k) is None
                &&& forall|k: Key| #[trigger] final(self).last_movement(k) is None
                &&& forall|k: Key| #[trigger] final(self).last_action(k) == old(self).last_action(k)
                &&& final(self).mouse_position() is None
                &&& final(self).left_mouse() == (deploying && phase == Phase::Playing)
                &&& !final(self).fire_pressed()
                &&& final(self).release_events() == old(self).release_events()
                &&& final(self).seed() == old(self).seed()
                &&& final(self).native() == old(self).native()
            },
            !r ==> old(self).kept(*final(self)),
    {
        if phase != before {
            self.clear();
            let ghost mid = *self;
            self.left_mouse = deploying && phase == Phase::Playing;
            proof {
                assert(self.held == mid.held && self.movement_events == mid.movement_events
                    && self.actions == mid.actions);
                assert forall|k: Key| #[trigger] self.held_key(k) is None by {
                    assert(mid.held_key(k) is None);
                }
                assert forall|k: Key| #[trigger] self.last_movement(k) is None by {
                    assert(mid.last_movement(k) is None);
                }
                assert forall|k: Key| #[trigger] self.last_action(k) == old(self).last_action(k) by {
                    assert(mid.last_action(k) == old(self).last_action(k));
                }
            }
            true
        } else {
            false
        }
    }
}

} // verus!
