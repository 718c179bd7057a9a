use terminalshooter::game::{
    end_wave, land_damage, wave_cleared, WaveEnd,
    clear_message, collect, drops_ammo, hit_message, kill_points, load, next_combo, overlay,
    pull_trigger, record_hit, record_kill, reload_allowed, resupply, streak_message, wave_clear_health,
    wave_kind, wave_message, wave_size, wounded, Kind, Phase, PickupKind, Tally, Trigger, FINAL_WAVE,
    MAGAZINE, MAX_HP,
};

#[test]
fn overlays_toggle_back_to_the_covered_screen() {
    let (phase, resume) = overlay(Phase::Playing, Phase::Playing, Phase::Paused);
    assert_eq!((phase, resume), (Phase::Paused, Phase::Playing));
    assert_eq!(overlay(phase, resume, Phase::Paused), (Phase::Playing, Phase::Playing));
    let (phase, resume) = overlay(Phase::Title, Phase::Playing, Phase::Help);
    assert_eq!(overlay(phase, resume, Phase::Help), (Phase::Title, Phase::Title));
    // Another overlay replaces the first one and returns to it.
    assert_eq!(overlay(Phase::Paused, Phase::Playing, Phase::Tactical), (Phase::Tactical, Phase::Paused));
}

#[test]
fn reload_conserves_ammo() {
    assert!(reload_allowed(Phase::Playing, false, 5, 10));
    assert!(!reload_allowed(Phase::Playing, false, MAGAZINE, 10));
    assert!(!reload_allowed(Phase::Playing, false, 5, 0));
    assert!(!reload_allowed(Phase::Playing, true, 5, 10));
    assert!(!reload_allowed(Phase::Paused, false, 5, 10));
    assert_eq!(load(2, 10), (6, 6));
    assert_eq!(load(0, 3), (3, 0));
    assert_eq!(load(5, 0), (5, 0));
    assert_eq!(load(6, 42), (6, 42));
    for shells in 0..=MAGAZINE {
        for reserve in [0u16, 1, 5, 48, 65535] {
            let (s, r) = load(shells, reserve);
            assert_eq!(s as u32 + r as u32, shells as u32 + reserve as u32);
        }
    }
}

#[test]
fn waves_grow_to_a_run_of_forty_five() {
    assert_eq!(wave_size(1), 5);
    assert_eq!(wave_size(5), 13);
    assert_eq!((1..=FINAL_WAVE).map(wave_size).sum::<usize>(), 45);
}

#[test]
fn later_waves_bring_runners_and_brutes() {
    assert!((0..5).all(|i| wave_kind(1, i) == Kind::Grunt));
    assert_eq!(wave_kind(2, 0), Kind::Runner);
    assert_eq!(wave_kind(2, 3), Kind::Runner);
    assert_eq!(wave_kind(2, 1), Kind::Grunt);
    assert_eq!(wave_kind(3, 0), Kind::Brute);
    assert_eq!(wave_kind(3, 5), Kind::Brute);
    assert_eq!(wave_kind(3, 3), Kind::Runner);
    assert_eq!(wave_kind(3, 1), Kind::Grunt);
    assert_eq!(Kind::Grunt.health(), 58);
    assert_eq!(Kind::Brute.health(), 150);
    assert_eq!(Kind::Runner.damage(), 8);
    assert_eq!(Kind::Brute.damage(), 22);
}

#[test]
fn resupply_tops_up_but_never_reduces() {
    assert_eq!(resupply(48, 5), 48);
    assert_eq!(resupply(10, 13), 65);
    assert_eq!(resupply(0, 0), 0);
}

#[test]
fn streaks_and_scores() {
    assert_eq!(next_combo(0, true), 1);
    assert_eq!(next_combo(4, true), 5);
    assert_eq!(next_combo(5, true), 5);
    assert_eq!(next_combo(3, false), 1);
    assert_eq!(kill_points(3), 300);
    assert!(drops_ammo(4) && drops_ammo(8) && !drops_ammo(3));
    let t = Tally { score: 0, kills: 3, combo: 2 };
    let (t2, drop) = record_kill(t, true);
    assert_eq!(t2, Tally { score: 300, kills: 4, combo: 3 });
    assert!(drop);
    let (t3, drop) = record_kill(t2, false);
    assert_eq!(t3, Tally { score: 400, kills: 5, combo: 1 });
    assert!(!drop);
    assert_eq!(record_hit(t3), Tally { score: 410, kills: 5, combo: 1 });
}

#[test]
fn health_rules() {
    assert_eq!(wave_clear_health(90), MAX_HP);
    assert_eq!(wave_clear_health(50), 75);
    assert_eq!(wounded(10, 22), 0);
    assert_eq!(wounded(100, 12), 88);
    assert_eq!(collect(PickupKind::Medkit, MAX_HP, 7), None);
    assert_eq!(collect(PickupKind::Medkit, 80, 7), Some((100, 7)));
    assert_eq!(collect(PickupKind::Medkit, 20, 7), Some((50, 7)));
    assert_eq!(collect(PickupKind::Ammo, 20, 7), Some((20, 23)));
    assert_eq!(collect(PickupKind::Ammo, 20, 65530), Some((20, 65535)));
}

#[test]
fn trigger_outcomes() {
    assert_eq!(pull_trigger(Phase::Playing, false, false, false, 3), Trigger::Fired);
    assert_eq!(pull_trigger(Phase::Playing, false, false, false, 0), Trigger::Empty);
    assert_eq!(pull_trigger(Phase::Playing, true, false, false, 3), Trigger::Blocked);
    assert_eq!(pull_trigger(Phase::Playing, false, true, false, 3), Trigger::Blocked);
    assert_eq!(pull_trigger(Phase::Playing, false, false, true, 3), Trigger::Blocked);
    assert_eq!(pull_trigger(Phase::Tactical, false, false, false, 3), Trigger::Blocked);
}

#[test]
fn messages() {
    assert_eq!(wave_message(2, 7), "WAVE 2/5  //  7 HOSTILES INCOMING");
    assert_eq!(streak_message(2, 3), "2 DOWN  //  3x STREAK");
    assert_eq!(hit_message(22), "HIT -22  //  X TO DODGE");
    assert_eq!(clear_message(), "WAVE CLEAR  //  +25 HP  //  RESUPPLY INCOMING");
}

#[test]
fn waves_end_in_victory_or_a_break() {
    assert!(wave_cleared(5, 0));
    assert!(!wave_cleared(5, 1));
    assert!(!wave_cleared(0, 0));
    assert_eq!(end_wave(FINAL_WAVE, 40), WaveEnd::Victory);
    assert_eq!(end_wave(2, 40), WaveEnd::Break { hp: 65 });
    assert_eq!(end_wave(4, 90), WaveEnd::Break { hp: MAX_HP });
    assert_eq!(land_damage(50, 0), None);
    assert_eq!(land_damage(50, 22), Some((28, false)));
    assert_eq!(land_damage(20, 22), Some((0, true)));
}
