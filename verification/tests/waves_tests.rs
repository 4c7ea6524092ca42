use vector_storm::waves::{spawn_order, wave_enemies, EnemyKind};

#[test]
fn wave_mix_by_wave() {
    assert_eq!(wave_enemies(1), (7, 0, 0, 0, 0, 0));
    assert_eq!(wave_enemies(2), (10, 1, 0, 0, 0, 0));
    assert_eq!(wave_enemies(3), (13, 1, 1, 0, 0, 0));
    assert_eq!(wave_enemies(4), (16, 1, 1, 1, 0, 0));
    assert_eq!(wave_enemies(5), (19, 2, 1, 1, 1, 0));
    assert_eq!(wave_enemies(6), (22, 2, 1, 1, 1, 1));
    assert_eq!(wave_enemies(8), (28, 3, 2, 2, 1, 1));
    assert_eq!(wave_enemies(10), (34, 4, 2, 3, 2, 2));
}

#[test]
fn each_kind_first_appears_in_its_wave() {
    let first = |w: u32| {
        let m = wave_enemies(w);
        [m.0, m.1, m.2, m.3, m.4, m.5]
    };
    for (i, f) in [1u32, 2, 3, 4, 5, 6].iter().enumerate() {
        if *f > 1 {
            assert_eq!(first(f - 1)[i], 0, "kind {} before wave {}", i, f);
        }
        assert!(first(*f)[i] >= 1, "kind {} in wave {}", i, f);
    }
}

#[test]
fn waves_never_get_easier() {
    for w in 1u32..200 {
        let a = wave_enemies(w);
        let b = wave_enemies(w + 1);
        assert!(a.0 < b.0 && a.1 <= b.1 && a.2 <= b.2 && a.3 <= b.3 && a.4 <= b.4 && a.5 <= b.5);
    }
}

#[test]
fn spawn_order_by_kind() {
    let o = spawn_order(6);
    assert_eq!(o.len(), 28);
    assert!(o[..22].iter().all(|k| *k == EnemyKind::Grunt));
    assert!(o[22..24].iter().all(|k| *k == EnemyKind::Spheroid));
    assert_eq!(o[24], EnemyKind::Tank);
    assert_eq!(o[25], EnemyKind::Enforcer);
    assert_eq!(o[26], EnemyKind::Phantom);
    assert_eq!(o[27], EnemyKind::Bomber);
}

#[test]
fn kind_tables() {
    let kinds = [EnemyKind::Grunt, EnemyKind::Spheroid, EnemyKind::Tank,
                 EnemyKind::Enforcer, EnemyKind::Phantom, EnemyKind::Bomber];
    let score: Vec<u32> = kinds.iter().map(|k| k.score_value()).collect();
    assert_eq!(score, vec![100, 500, 250, 300, 400, 750]);
    let health: Vec<i32> = kinds.iter().map(|k| k.initial_health()).collect();
    assert_eq!(health, vec![1, 2, 3, 2, 2, 4]);
    let radius: Vec<u32> = kinds.iter().map(|k| k.radius_px()).collect();
    assert_eq!(radius, vec![9, 14, 12, 11, 13, 16]);
    let volley: Vec<u32> = kinds.iter().map(|k| k.volley_size()).collect();
    assert_eq!(volley, vec![0, 0, 1, 3, 4, 8]);
}

#[test]
fn spheroids_and_tanks_keep_their_formula_once_it_gives_one() {
    for w in 3u32..300 {
        assert_eq!(wave_enemies(w).1 as u32, (w - 1) / 2);
    }
    for w in 5u32..300 {
        assert_eq!(wave_enemies(w).2 as u32, (w - 2) / 3);
    }
}
