//! The rules of a run that involve no geometry: screens and overlays,
//! enemy kinds, wave composition, ammunition, health, and scoring.
use vstd::prelude::*;
use crate::strings::{decimal, push_decimal, push_text, signed_decimal, signed_text};

verus! {

/// Rounds in a full magazine.
pub const MAGAZINE: u16 = 6;
/// The wave whose clearing wins the run.
pub const FINAL_WAVE: u8 = 5;
/// Full health.
pub const MAX_HP: i32 = 100;

/// What the game shows.
#[derive(Clone, Copy, Debug, PartialEq, Eq, Structural)]
pub enum Phase {
    Title,
    Playing,
    Paused,
    Tactical,
    Help,
    Won,
    Lost,
}

/// Enemy kinds.
#[derive(Clone, Copy, Debug, PartialEq, Eq, Structural)]
pub enum Kind {
    Grunt,
    Runner,
    Brute,
}

impl Kind {
    /// Health of a fresh enemy of this kind.
    pub open spec fn spec_health(self) -> i32 {
        match self {
            Kind::Grunt => 58,
            Kind::Runner => 36,
            Kind::Brute => 150,
        }
    }

    /// Damage of one landed attack of this kind.
    pub open spec fn spec_damage(self) -> i32 {
        match self {
            Kind::Grunt => 12,
            Kind::Runner => 8,
            Kind::Brute => 22,
        }
    }

    /// Health of a fresh enemy of this kind.
    #[verifier::when_used_as_spec(spec_health)]
    pub fn health(self) -> (r: i32)
        ensures
            r == self.spec_health(),
    {
        match self {
            Kind::Grunt => 58,
            Kind::Runner => 36,
            Kind::Brute => 150,
        }
    }

    /// Damage of one landed attack of this kind.
    #[verifier::when_used_as_spec(spec_damage)]
    pub fn damage(self) -> (r: i32)
        ensures
            r == self.spec_damage(),
    {
        match self {
            Kind::Grunt => 12,
            Kind::Runner => 8,
            Kind::Brute => 22,
        }
    }
}

/// Pickup kinds.
#[derive(Clone, Copy, Debug, PartialEq, Eq, Structural)]
pub enum PickupKind {
    Medkit,
    Ammo,
}

/// Overlay `target` toggled over the screen `phase`, where `resume` is the
/// screen to return to: showing `target` again returns to `resume`;
/// otherwise `target` is shown and `phase` becomes the screen to return
/// to. The new screen and the new screen to return to.
pub open spec fn overlaid(phase: Phase, resume: Phase, target: Phase) -> (Phase, Phase) {
    if phase == target {
        (resume, resume)
    } else {
        (target, phase)
    }
}

/// Toggles overlay `target` over the screen `phase`, where `resume` is the
/// screen to return to. Returns the new screen and the new screen to
/// return to.
pub fn overlay(phase: Phase, resume: Phase, target: Phase) -> (r: (Phase, Phase))
    ensures
        r == overlaid(phase, resume, target),
{
    if phase == target {
        (resume, resume)
    } else {
        (target, phase)
    }
}

/// Opening an overlay and toggling it again returns to the screen it
/// covered.
pub proof fn lemma_overlay_toggles_back(phase: Phase, resume: Phase, target: Phase)
    requires
        phase != target,
    ensures
        ({
            let (p1, r1) = overlaid(phase, resume, target);
            overlaid(p1, r1, target) == (phase, phase)
        }),
{
}

/// Whether a reload may begin: only while playing, when no reload runs,
/// the magazine is not full and rounds are in reserve.
pub fn reload_allowed(phase: Phase, reloading: bool, shells: u16, reserve: u16) -> (r: bool)
    ensures
        r == (phase == Phase::Playing && !reloading && shells < MAGAZINE && reserve > 0),
{
    phase == Phase::Playing && !reloading && shells < MAGAZINE && reserve > 0
}

/// Completes a reload: moves as many rounds from the reserve into the
/// magazine as fit. Returns the new magazine and reserve counts.
pub fn load(shells: u16, reserve: u16) -> (r: (u16, u16))
    requires
        shells <= MAGAZINE,
    ensures
        r.0 + r.1 == shells + reserve,
        r.0 <= MAGAZINE,
        r.0 >= shells,
        r.0 == MAGAZINE || r.1 == 0,
{
    let room = MAGAZINE - shells;
    let take = if room < reserve { room } else { reserve };
    (shells + take, reserve - take)
}

/// Number of enemies in wave `wave`.
pub open spec fn spec_wave_size(wave: u8) -> nat {
    (3 + 2 * wave) as nat
}

/// Number of enemies in wave `wave`.
pub fn wave_size(wave: u8) -> (r: usize)
    ensures
        r == spec_wave_size(wave),
{
    3 + wave as usize * 2
}

/// A full run meets 5 + 7 + 9 + 11 + 13 = 45 enemies.
pub proof fn lemma_run_size()
    ensures
        spec_wave_size(1) + spec_wave_size(2) + spec_wave_size(3) + spec_wave_size(4)
            + spec_wave_size(5) == 45,
{
}

/// Kind of the `i`-th enemy of wave `wave`: from wave 3 every fifth is a
/// brute, from wave 2 every third of the others is a runner, the rest are
/// grunts.
pub open spec fn kind_in_wave(wave: u8, i: int) -> Kind {
    if wave >= 3 && i % 5 == 0 {
        Kind::Brute
    } else if wave >= 2 && i % 3 == 0 {
        Kind::Runner
    } else {
        Kind::Grunt
    }
}

/// Kind of the `i`-th enemy of wave `wave`.
pub fn wave_kind(wave: u8, i: usize) -> (r: Kind)
    ensures
        r == kind_in_wave(wave, i as int),
        r == Kind::Brute ==> wave >= 3,
        r == Kind::Runner ==> wave >= 2,
{
    if wave >= 3 && i % 5 == 0 {
        Kind::Brute
    } else if wave >= 2 && i % 3 == 0 {
        Kind::Runner
    } else {
        Kind::Grunt
    }
}

/// Reserve after the resupply at the start of a wave of `count` enemies:
/// topped up to five rounds per enemy, never reduced.
pub fn resupply(reserve: u16, count: usize) -> (r: u16)
    requires
        count * 5 <= u16::MAX,
    ensures
        r == (if reserve >= count * 5 { reserve as int } else { count * 5 }),
        r >= reserve,
{
    let floor = count as u16 * 5;
    if reserve >= floor {
        reserve
    } else {
        floor
    }
}

/// Streak after a kill: one more, up to five, while the streak timer
/// runs (`active`); else a new streak of one.
pub open spec fn streak_after(combo: u32, active: bool) -> int {
    if active {
        if combo + 1 < 5 { combo + 1 } else { 5 }
    } else {
        1
    }
}

/// Streak after a kill.
pub fn next_combo(combo: u32, active: bool) -> (r: u32)
    ensures
        r == streak_after(combo, active),
        1 <= r <= 5,
{
    if active {
        if combo < 4 {
            combo + 1
        } else {
            5
        }
    } else {
        1
    }
}

/// Score for a kill at streak `combo`: 100 points per streak level.
pub fn kill_points(combo: u32) -> (r: u32)
    requires
        100 * combo <= u32::MAX,
    ensures
        r == 100 * combo,
{
    100 * combo
}

/// Every fourth kill drops an ammunition pickup.
pub fn drops_ammo(kills: u32) -> (r: bool)
    ensures
        r == (kills % 4 == 0),
{
    kills % 4 == 0
}

/// Health after clearing a wave: 25 more, up to full health.
pub open spec fn healed(hp: int) -> int {
    if hp + 25 < MAX_HP { hp + 25 } else { MAX_HP as int }
}

/// Health after `damage`, never below zero.
pub open spec fn hurt(hp: int, damage: int) -> int {
    if hp - damage > 0 { hp - damage } else { 0 }
}

/// Health after a medkit: 30 more, up to full health.
pub open spec fn mended(hp: int) -> int {
    if hp + 30 < MAX_HP { hp + 30 } else { MAX_HP as int }
}

/// Health after clearing a wave.
pub fn wave_clear_health(hp: i32) -> (r: i32)
    requires
        hp + 25 <= i32::MAX,
    ensures
        r == healed(hp as int),
{
    if hp + 25 < MAX_HP {
        hp + 25
    } else {
        MAX_HP
    }
}

/// Health after `damage`.
pub fn wounded(hp: i32, damage: i32) -> (r: i32)
    requires
        i32::MIN <= hp - damage <= i32::MAX,
    ensures
        r == hurt(hp as int, damage as int),
{
    if hp - damage > 0 {
        hp - damage
    } else {
        0
    }
}

/// Collecting a pickup: a medkit mends health and is left lying at full
/// health; ammunition adds 16 rounds to the reserve (saturating). Returns
/// the new health and reserve, or `None` when the pickup stays.
pub fn collect(kind: PickupKind, hp: i32, reserve: u16) -> (r: Option<(i32, u16)>)
    ensures
        kind == PickupKind::Medkit && hp >= MAX_HP ==> r is None,
        kind == PickupKind::Medkit && hp < MAX_HP ==> r == Some((mended(hp as int) as i32, reserve)),
        kind == PickupKind::Ammo ==> r == Some(
            (hp, (if reserve + 16 <= u16::MAX { reserve + 16 } else { u16::MAX as int }) as u16),
        ),
{
    match kind {
        PickupKind::Medkit => {
            if hp < MAX_HP {
                Some((if hp + 30 < MAX_HP { hp + 30 } else { MAX_HP }, reserve))
            } else {
                None
            }
        },
        PickupKind::Ammo => Some((hp, reserve.saturating_add(16))),
    }
}

/// Health stays between zero and full health under every rule that
/// changes it: clearing a wave, taking damage, and a medkit.
pub proof fn lemma_health_stays_in_range(hp: int, damage: int)
    requires
        0 <= hp <= MAX_HP,
        0 <= damage,
    ensures
        0 <= healed(hp) <= MAX_HP,
        0 <= hurt(hp, damage) <= hp,
        0 <= mended(hp) <= MAX_HP,
        healed(hp) >= hp,
        mended(hp) >= hp,
{
}

} // verus!

verus! {

/// What pulling the trigger does.
#[derive(Clone, Copy, Debug, PartialEq, Eq, Structural)]
pub enum Trigger {
    /// Nothing: not playing, a break between waves, the shot delay or a
    /// reload runs.
    Blocked,
    /// The magazine is empty: a reload is asked for instead.
    Empty,
    /// A round is fired.
    Fired,
}

/// Pulling the trigger in `phase`, during a break or not (`in_break`),
/// while the shot delay runs (`cooling`) or a reload runs (`reloading`),
/// with `shells` rounds in the magazine.
pub fn pull_trigger(phase: Phase, in_break: bool, cooling: bool, reloading: bool, shells: u16) -> (r: Trigger)
    ensures
        r == (if phase != Phase::Playing || in_break || cooling || reloading {
            Trigger::Blocked
        } else if shells == 0 {
            Trigger::Empty
        } else {
            Trigger::Fired
        }),
{
    if phase != Phase::Playing || in_break || cooling || reloading {
        Trigger::Blocked
    } else if shells == 0 {
        Trigger::Empty
    } else {
        Trigger::Fired
    }
}

/// The score, the kills and the current streak of a run.
#[derive(Clone, Copy, Debug, PartialEq, Eq, Structural)]
pub struct Tally {
    pub score: u32,
    pub kills: u32,
    pub combo: u32,
}

/// A kill: one more kill, the streak goes on while its timer runs
/// (`streak_active`) or starts anew, and the kill scores 100 per streak
/// level. Returns the new tally and whether the kill drops ammunition
/// (every fourth kill).
pub fn record_kill(t: Tally, streak_active: bool) -> (r: (Tally, bool))
    requires
        t.kills < u32::MAX,
        t.score + 100 * streak_after(t.combo, streak_active) <= u32::MAX,
    ensures
        r.0.kills == t.kills + 1,
        r.0.combo == streak_after(t.combo, streak_active),
        r.0.score == t.score + 100 * r.0.combo,
        r.1 == ((t.kills + 1) % 4 == 0),
{
    let kills = t.kills + 1;
    let combo = next_combo(t.combo, streak_active);
    let score = t.score + kill_points(combo);
    (Tally { score, kills, combo }, drops_ammo(kills))
}

/// A hit that does not kill scores 10.
pub fn record_hit(t: Tally) -> (r: Tally)
    requires
        t.score + 10 <= u32::MAX,
    ensures
        r == (Tally { score: (t.score + 10) as u32, ..t }),
{
    Tally { score: t.score + 10, ..t }
}

/// The announcement of wave `wave` with `hostiles` enemies.
pub fn wave_message(wave: u8, hostiles: usize) -> (r: String)
    ensures
        r@ == "WAVE "@ + decimal(wave as nat) + "/"@ + decimal(FINAL_WAVE as nat) + "  //  "@ + decimal(
            hostiles as nat,
        ) + " HOSTILES INCOMING"@,
{
    let mut s = String::new();
    push_text(&mut s, "WAVE ");
    push_decimal(&mut s, wave as u64);
    push_text(&mut s, "/");
    push_decimal(&mut s, FINAL_WAVE as u64);
    push_text(&mut s, "  //  ");
    push_decimal(&mut s, hostiles as u64);
    push_text(&mut s, " HOSTILES INCOMING");
    s
}

/// The report of a shot that killed `killed` enemies at streak `combo`.
pub fn streak_message(killed: u32, combo: u32) -> (r: String)
    ensures
        r@ == decimal(killed as nat) + " DOWN  //  "@ + decimal(combo as nat) + "x STREAK"@,
{
    let mut s = String::new();
    push_decimal(&mut s, killed as u64);
    push_text(&mut s, " DOWN  //  ");
    push_decimal(&mut s, combo as u64);
    push_text(&mut s, "x STREAK");
    assert(s@ =~= decimal(killed as nat) + " DOWN  //  "@ + decimal(combo as nat) + "x STREAK"@);
    s
}

/// The warning after taking `damage`.
pub fn hit_message(damage: i32) -> (r: String)
    ensures
        r@ == "HIT -"@ + signed_decimal(damage as int) + "  //  X TO DODGE"@,
{
    let mut s = String::new();
    push_text(&mut s, "HIT -");
    let d = signed_text(damage as i64);
    push_text(&mut s, d.as_str());
    push_text(&mut s, "  //  X TO DODGE");
    s
}

/// The report of a cleared wave before the last.
pub fn clear_message() -> (r: String)
    ensures
        r@ == "WAVE CLEAR  //  +25 HP  //  RESUPPLY INCOMING"@,
{
    "WAVE CLEAR  //  +25 HP  //  RESUPPLY INCOMING".to_owned()
}

/// The confirmation of switching mouse look on (`on`) or off.
pub fn mouse_message(on: bool) -> (r: String)
    ensures
        r@ == (if on {
            "TERMINAL MOUSE ON  //  Q/E ALSO TURN"@
        } else {
            "MOUSE LOOK OFF  //  Q/E TO TURN"@
        }),
{
    if on {
        "TERMINAL MOUSE ON  //  Q/E ALSO TURN".to_owned()
    } else {
        "MOUSE LOOK OFF  //  Q/E TO TURN".to_owned()
    }
}

/// Whether a wave is cleared: it placed enemies and none is left alive.
pub fn wave_cleared(placed: usize, alive: usize) -> (r: bool)
    ensures
        r == (placed > 0 && alive == 0),
{
    placed > 0 && alive == 0
}

/// How a cleared wave ends the fighting.
#[derive(Clone, Copy, Debug, PartialEq, Eq, Structural)]
pub enum WaveEnd {
    /// The final wave was cleared: the run is won.
    Victory,
    /// A break before the next wave, with the health mended by it.
    Break { hp: i32 },
}

/// The end of cleared wave `wave` with health `hp`: victory after the
/// final wave, else a break that mends 25 health up to full.
pub fn end_wave(wave: u8, hp: i32) -> (r: WaveEnd)
    requires
        hp + 25 <= i32::MAX,
    ensures
        wave == FINAL_WAVE ==> r == WaveEnd::Victory,
        wave != FINAL_WAVE ==> r == (WaveEnd::Break { hp: healed(hp as int) as i32 }),
{
    if wave == FINAL_WAVE {
        WaveEnd::Victory
    } else {
        WaveEnd::Break { hp: wave_clear_health(hp) }
    }
}

/// The damage that landed in one step: none changes nothing; otherwise
/// health drops, never below zero, and the run is lost when it reaches
/// zero. Returns the new health and whether the run is lost, or `None`.
pub fn land_damage(hp: i32, damage: i32) -> (r: Option<(i32, bool)>)
    requires
        0 <= damage,
        i32::MIN <= hp - damage,
    ensures
        damage == 0 ==> r is None,
        damage > 0 ==> r == Some((hurt(hp as int, damage as int) as i32, hurt(hp as int, damage as int) == 0)),
{
    if damage == 0 {
        None
    } else {
        let left = wounded(hp, damage);
        Some((left, left == 0))
    }
}

/// Health amounts: clearing a wave restores 25 health and a medkit 30,
/// neither beyond full health (100); damage takes away its amount, down to
/// zero at most.
pub proof fn lemma_health_amounts(hp: int, damage: int)
    requires
        0 <= hp <= 100,
        0 <= damage,
    ensures
        healed(hp) == (if hp <= 75 { hp + 25 } else { 100 }),
        mended(hp) == (if hp <= 70 { hp + 30 } else { 100 }),
        hurt(hp, damage) == (if damage < hp { hp - damage } else { 0 }),
{
}

/// Streaks and scores: a kill while the streak timer runs raises the
/// streak by one, up to five; any other kill starts a streak of one; a
/// kill scores 100 points per streak level.
pub proof fn lemma_streaks(combo: u32, active: bool)
    ensures
        active && combo < 5 ==> streak_after(combo, active) == combo + 1,
        active && combo >= 5 ==> streak_after(combo, active) == 5,
        !active ==> streak_after(combo, active) == 1,
        1 <= streak_after(combo, active) <= 5,
{
}

} // verus!
