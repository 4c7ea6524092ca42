use vector_storm::leaderboard::Leaderboard;
use vector_storm::ranking::{rank_among, sort_by_score, ScoreEntry};

fn rows(v: &[ScoreEntry]) -> Vec<(String, u32)> {
    v.iter().map(|e| (e.initials.clone(), e.score)).collect()
}

fn entry(i: &str, s: u32) -> ScoreEntry {
    ScoreEntry { initials: i.to_string(), score: s }
}

fn default_rows() -> Vec<(String, u32)> {
    [("ACE", 52000), ("REX", 43500), ("ZAX", 37200), ("KAI", 31800), ("MAX", 27400),
     ("JAX", 23100), ("LEX", 19600), ("VEX", 16300), ("DUO", 13000), ("HAL", 10100)]
        .iter().map(|&(i, s)| (i.to_string(), s)).collect()
}

#[test]
fn defaults_are_the_ten_built_in_rows() {
    assert_eq!(rows(&Leaderboard::defaults()), default_rows());
}

#[test]
fn empty_or_short_file_gives_defaults() {
    assert_eq!(rows(Leaderboard::from_text("").entries()), default_rows());
    let nine: String = (1..=9).map(|i| format!("AAA {}\n", i * 1000)).collect();
    assert_eq!(rows(Leaderboard::from_text(&nine).entries()), default_rows());
}

#[test]
fn full_file_is_ranked_and_cut_to_ten() {
    let text: String = (1..=12).map(|i| format!("P{:02} {}\n", i, i * 100)).collect();
    let b = Leaderboard::from_text(&text);
    let got = rows(b.entries());
    assert_eq!(got.len(), 10);
    assert_eq!(got[0], ("P12".to_string(), 1200));
    assert_eq!(got[9], ("P03".to_string(), 300));
}

#[test]
fn ties_keep_file_order() {
    let text = "AAA 5\nBBB 7\nCCC 5\nDDD 7\nEEE 1\nFFF 1\nGGG 9\nHHH 5\nIII 2\nJJJ 7\n";
    let got = rows(Leaderboard::from_text(text).entries());
    let names: Vec<&str> = got.iter().map(|r| r.0.as_str()).collect();
    assert_eq!(names, vec!["GGG", "BBB", "DDD", "JJJ", "AAA", "CCC", "HHH", "III", "EEE", "FFF"]);
}

#[test]
fn sort_is_stable_descending() {
    let v = vec![entry("A", 3), entry("B", 5), entry("C", 3), entry("D", 9), entry("E", 5)];
    let s = sort_by_score(v);
    assert_eq!(rows(&s), vec![("D".into(), 9), ("B".into(), 5), ("E".into(), 5), ("A".into(), 3), ("C".into(), 3)]);
}

#[test]
fn save_then_load_round_trip() {
    let b = Leaderboard::from_text("");
    let text = b.to_text();
    assert_eq!(text, "ACE 52000\nREX 43500\nZAX 37200\nKAI 31800\nMAX 27400\nJAX 23100\nLEX 19600\nVEX 16300\nDUO 13000\nHAL 10100\n");
    assert_eq!(rows(Leaderboard::from_text(&text).entries()), rows(b.entries()));
}

#[test]
fn top_score_and_qualifies() {
    let b = Leaderboard::from_text("");
    assert_eq!(b.top_score(), 52000);
    assert!(!b.qualifies(10100));
    assert!(b.qualifies(10101));
    assert!(!b.qualifies(0));
}

#[test]
fn rank_of_goes_after_equal_scores() {
    let b = Leaderboard::from_text("");
    assert_eq!(b.rank_of(60000), 0);
    assert_eq!(b.rank_of(52000), 1);
    assert_eq!(b.rank_of(40000), 2);
    assert_eq!(b.rank_of(10100), 10);
    assert_eq!(b.rank_of(5), 10);
    assert_eq!(rank_among(&Vec::new(), 7), 0);
}

#[test]
fn insert_places_entry_and_keeps_ten() {
    let mut b = Leaderboard::from_text("");
    let r = b.insert("NEW".to_string(), 43500);
    assert_eq!(r, 2);
    let got = rows(b.entries());
    assert_eq!(got.len(), 10);
    assert_eq!(got[1], ("REX".to_string(), 43500));
    assert_eq!(got[2], ("NEW".to_string(), 43500));
    assert_eq!(got[9], ("DUO".to_string(), 13000));
}

#[test]
fn insert_of_non_qualifying_score_changes_nothing() {
    let mut b = Leaderboard::from_text("");
    let before = rows(b.entries());
    let r = b.insert("LOW".to_string(), 100);
    assert_eq!(r, 10);
    assert_eq!(rows(b.entries()), before);
}

#[test]
fn qualifying_means_kept() {
    let b = Leaderboard::from_text("");
    for s in [0u32, 10099, 10100, 10101, 30000, 52000, 99999] {
        let mut c = Leaderboard::from_text(&b.to_text());
        let r = c.insert("ZZZ".to_string(), s);
        assert_eq!(b.qualifies(s), r < 10, "score {}", s);
    }
}
