use vector_storm::combat::{player_hit, resolve_player_shots, Foe, Shot};
use vector_storm::waves::EnemyKind;

fn shot(p: bool) -> Shot { Shot { from_player: p, dead: false } }
fn foe(k: EnemyKind, h: i32) -> Foe { Foe { kind: k, health: h, dead: false } }

#[test]
fn bullet_hits_first_live_touching_enemy_only() {
    let mut shots = vec![shot(true)];
    let mut foes = vec![foe(EnemyKind::Grunt, 1), foe(EnemyKind::Tank, 3)];
    let touching = vec![vec![true, true]];
    let kills = resolve_player_shots(&mut shots, &mut foes, &touching);
    assert_eq!(kills, vec![0]);
    assert!(shots[0].dead);
    assert!(foes[0].dead && foes[0].health == 0);
    assert_eq!(foes[1], foe(EnemyKind::Tank, 3));
}

#[test]
fn tough_enemy_takes_several_hits_and_dies_once() {
    let mut shots = vec![shot(true), shot(true), shot(true)];
    let mut foes = vec![foe(EnemyKind::Spheroid, 2)];
    let touching = vec![vec![true], vec![true], vec![true]];
    let kills = resolve_player_shots(&mut shots, &mut foes, &touching);
    assert_eq!(kills, vec![0]);
    assert!(shots[0].dead && shots[1].dead && !shots[2].dead);
    assert!(foes[0].dead);
}

#[test]
fn enemy_and_spent_bullets_do_not_hit_enemies() {
    let mut shots = vec![shot(false), Shot { from_player: true, dead: true }];
    let mut foes = vec![foe(EnemyKind::Grunt, 1)];
    let touching = vec![vec![true], vec![true]];
    let kills = resolve_player_shots(&mut shots, &mut foes, &touching);
    assert!(kills.is_empty());
    assert!(!foes[0].dead);
    assert!(!shots[0].dead);
}

#[test]
fn dead_enemies_are_passed_over() {
    let mut shots = vec![shot(true)];
    let mut foes = vec![Foe { kind: EnemyKind::Grunt, health: 0, dead: true }, foe(EnemyKind::Grunt, 1)];
    let touching = vec![vec![true, true]];
    let kills = resolve_player_shots(&mut shots, &mut foes, &touching);
    assert_eq!(kills, vec![1]);
}

#[test]
fn player_hit_by_first_enemy_bullet() {
    let mut shots = vec![shot(true), shot(false), shot(false)];
    let foes = vec![foe(EnemyKind::Grunt, 1)];
    let hit = player_hit(&mut shots, &foes, &vec![true, true, true], &vec![true], false);
    assert!(hit);
    assert!(!shots[0].dead && shots[1].dead && !shots[2].dead);
}

#[test]
fn player_hit_by_contact() {
    let mut shots = vec![shot(false)];
    let foes = vec![Foe { kind: EnemyKind::Tank, health: 0, dead: true }, foe(EnemyKind::Grunt, 1)];
    assert!(player_hit(&mut shots, &foes, &vec![false], &vec![true, true], false));
    assert!(!shots[0].dead);
    let foes = vec![Foe { kind: EnemyKind::Tank, health: 0, dead: true }];
    assert!(!player_hit(&mut shots, &foes, &vec![false], &vec![true], false));
}

#[test]
fn invincible_player_is_never_hit() {
    let mut shots = vec![shot(false)];
    let foes = vec![foe(EnemyKind::Grunt, 1)];
    assert!(!player_hit(&mut shots, &foes, &vec![true], &vec![true], true));
    assert!(!shots[0].dead);
}
