use vector_storm::combat::Foe;
use vector_storm::game::{ConfirmAction, GameEvent, Screen, Session, START_LIVES};
use vector_storm::leaderboard::Leaderboard;
use vector_storm::sound::Sfx;
use vector_storm::waves::EnemyKind;

fn dead(kind: EnemyKind) -> Foe {
    Foe { kind, health: 0, dead: true }
}

/// Scores kills worth exactly `points` (a multiple of 100) as grunts.
fn add_grunt_points(s: &mut Session, points: u32) {
    let foes = vec![dead(EnemyKind::Grunt)];
    let kills = vec![0usize; (points / 100) as usize];
    s.score_kills(&foes, &kills);
}

fn session() -> Session {
    Session::new(Leaderboard::from_text(""))
}

#[test]
fn new_session_on_title_screen() {
    let s = session();
    assert_eq!(s.screen(), Screen::Menu);
    assert_eq!(s.score(), 0);
    assert_eq!(s.wave(), 1);
    assert_eq!(s.lives(), START_LIVES);
    assert_eq!(s.lives(), 3);
    assert_eq!(s.initials(), "");
    assert_eq!(s.new_entry_rank(), None);
}

#[test]
fn confirm_starts_a_game() {
    let mut s = session();
    assert_eq!(s.confirm(), ConfirmAction::StartGame);
    assert_eq!(s.screen(), Screen::Playing);
    assert_eq!(s.confirm(), ConfirmAction::Nothing);
    assert_eq!(s.screen(), Screen::Playing);
}

fn play_until_over(s: &mut Session, points: u32) {
    s.confirm();
    add_grunt_points(s, points);
    assert!(!s.lose_life());
    assert!(!s.lose_life());
    assert!(s.lose_life());
    assert_eq!(s.screen(), Screen::GameOver);
    assert_eq!(s.lives(), 0);
}

#[test]
fn low_score_goes_to_the_table() {
    let mut s = session();
    play_until_over(&mut s, 500);
    assert_eq!(s.confirm(), ConfirmAction::Nothing);
    assert_eq!(s.screen(), Screen::Leaderboard);
    assert_eq!(s.confirm(), ConfirmAction::RestartAttract);
    assert_eq!(s.screen(), Screen::Menu);
}

#[test]
fn high_score_enters_initials() {
    let mut s = session();
    play_until_over(&mut s, 45000);
    s.confirm();
    assert_eq!(s.screen(), Screen::EnterInitials);
    assert_eq!(s.enter_initials(&vec!['a', '1', 'B'], false, false), None);
    assert_eq!(s.initials(), "AB");
    assert_eq!(s.enter_initials(&vec![], false, true), None);
    assert_eq!(s.enter_initials(&vec!['c', 'd', 'e'], false, false), None);
    assert_eq!(s.initials(), "ABC");
    assert_eq!(s.enter_initials(&vec![], true, false), None);
    assert_eq!(s.initials(), "AB");
    assert_eq!(s.enter_initials(&vec!['z'], false, true), Some(1));
    assert_eq!(s.screen(), Screen::Leaderboard);
    assert_eq!(s.new_entry_rank(), Some(1));
    let e = &s.leaderboard().entries()[1];
    assert_eq!((e.initials.as_str(), e.score), ("ABZ", 45000));
    assert_eq!(s.leaderboard().entries().len(), 10);
    s.confirm();
    assert_eq!(s.new_entry_rank(), None);
}

#[test]
fn restart_resets_score_lives_and_wave() {
    let mut s = session();
    play_until_over(&mut s, 100);
    s.confirm();
    s.confirm();
    assert_eq!(s.advance_wave(0, false), true);
    assert_eq!(s.wave(), 2);
    s.confirm();
    assert_eq!(s.screen(), Screen::Playing);
    assert_eq!((s.score(), s.lives(), s.wave()), (0, 3, 1));
}

#[test]
fn waves_advance_only_when_clear() {
    let mut s = session();
    s.confirm();
    assert!(!s.advance_wave(3, false));
    assert!(!s.advance_wave(0, true));
    assert_eq!(s.wave(), 1);
    assert!(s.advance_wave(0, false));
    assert_eq!(s.wave(), 2);
}

#[test]
fn kills_add_the_points_of_their_kinds() {
    let mut s = session();
    s.confirm();
    let foes = vec![
        dead(EnemyKind::Grunt), dead(EnemyKind::Spheroid), dead(EnemyKind::Tank),
        dead(EnemyKind::Enforcer), dead(EnemyKind::Phantom), dead(EnemyKind::Bomber),
    ];
    s.score_kills(&foes, &vec![0, 1, 2]);
    assert_eq!(s.score(), 850);
    s.score_kills(&foes, &vec![3, 4, 5]);
    assert_eq!(s.score(), 850 + 1450);
    s.score_kills(&foes, &vec![]);
    assert_eq!(s.score(), 2300);
}

#[test]
fn credits_from_the_title_screen() {
    let mut s = session();
    assert_eq!(s.credits_key(), ConfirmAction::Nothing);
    assert_eq!(s.screen(), Screen::Credits);
    assert_eq!(s.credits_key(), ConfirmAction::RestartAttract);
    assert_eq!(s.screen(), Screen::Menu);
    s.credits_key();
    assert_eq!(s.confirm(), ConfirmAction::RestartAttract);
    assert_eq!(s.screen(), Screen::Menu);
    s.confirm();
    assert_eq!(s.credits_key(), ConfirmAction::Nothing);
    assert_eq!(s.screen(), Screen::Playing);
}

#[test]
fn events_pick_their_sounds() {
    assert_eq!(GameEvent::PlayerFired.effect(), Sfx::Shoot);
    assert_eq!(GameEvent::EnemyKilled(EnemyKind::Grunt).effect(), Sfx::KillSmall);
    for k in [EnemyKind::Spheroid, EnemyKind::Tank, EnemyKind::Enforcer, EnemyKind::Phantom, EnemyKind::Bomber] {
        assert_eq!(GameEvent::EnemyKilled(k).effect(), Sfx::KillBig);
    }
    assert_eq!(GameEvent::LifeLost { game_over: false }.effect(), Sfx::PlayerHit);
    assert_eq!(GameEvent::LifeLost { game_over: true }.effect(), Sfx::GameOver);
    assert_eq!(GameEvent::WaveSpawned.effect(), Sfx::WaveStart);
    assert_eq!(GameEvent::WaveCleared.effect(), Sfx::WaveClear);
}
