use vector_storm::ranking::ScoreEntry;
use vector_storm::score_file::{is_space_char, parse_scores, scores_text};

fn rows(v: &[ScoreEntry]) -> Vec<(String, u32)> {
    v.iter().map(|e| (e.initials.clone(), e.score)).collect()
}

/// The rows as `str::lines`, `split_whitespace` and `str::parse` read them.
fn std_rows(text: &str) -> Vec<(String, u32)> {
    text.lines()
        .filter_map(|line| {
            let mut p = line.split_whitespace();
            let initials = p.next()?.to_string();
            let score: u32 = p.next()?.parse().ok()?;
            Some((initials, score))
        })
        .collect()
}

#[test]
fn white_space_matches_std_for_every_char() {
    for n in 0u32..=0x10FFFF {
        if let Some(c) = char::from_u32(n) {
            assert_eq!(is_space_char(c), c.is_whitespace(), "char {:#x}", n);
        }
    }
}

#[test]
fn parses_plain_lines() {
    let v = parse_scores("ACE 52000\nREX 43500\n");
    assert_eq!(rows(&v), vec![("ACE".to_string(), 52000), ("REX".to_string(), 43500)]);
}

#[test]
fn skips_malformed_lines() {
    let text = "ACE\n\n  \nBOB abc\nCAT -5\nDOG 4294967296\nEEL 4294967295\n";
    let v = parse_scores(text);
    assert_eq!(rows(&v), vec![("EEL".to_string(), 4294967295)]);
}

#[test]
fn accepts_plus_sign_leading_zeros_and_extra_words() {
    let v = parse_scores("\t ZED   +0042 trailing words\r\nAMY 007");
    assert_eq!(rows(&v), vec![("ZED".to_string(), 42), ("AMY".to_string(), 7)]);
}

#[test]
fn rejects_lone_plus_and_double_plus() {
    let v = parse_scores("A +\nB ++1\nC +1\n");
    assert_eq!(rows(&v), vec![("C".to_string(), 1)]);
}

#[test]
fn unicode_white_space_separates_words() {
    let v = parse_scores("KÅI\u{3000}12\u{a0}x\nΩ\u{2003}9");
    assert_eq!(rows(&v), vec![("KÅI".to_string(), 12), ("Ω".to_string(), 9)]);
}

#[test]
fn agrees_with_std_on_assorted_texts() {
    let texts = [
        "",
        "\n",
        "a 1",
        "a 1\n\nb 2\r\n c 3 \n",
        "x\t\t99999\ny 0\nz 00000000000000000000001\n",
        "q 12a\nr +\ns 4294967295\nt 4294967296\n",
        "\u{85}u 5\u{85}\n\u{2028}v 6",
        "only\none\nword\n",
    ];
    for t in texts {
        assert_eq!(rows(&parse_scores(t)), std_rows(t), "text {:?}", t);
    }
}

#[test]
fn writes_one_line_per_row() {
    let v = vec![
        ScoreEntry { initials: "ACE".to_string(), score: 52000 },
        ScoreEntry { initials: "BOB".to_string(), score: 0 },
        ScoreEntry { initials: "MAX".to_string(), score: 4294967295 },
    ];
    assert_eq!(scores_text(&v), "ACE 52000\nBOB 0\nMAX 4294967295\n");
    assert_eq!(scores_text(&Vec::new()), "");
}

#[test]
fn written_text_reads_back() {
    let v = vec![
        ScoreEntry { initials: "JAX".to_string(), score: 23100 },
        ScoreEntry { initials: "LEX".to_string(), score: 9 },
    ];
    assert_eq!(rows(&parse_scores(&scores_text(&v))), rows(&v));
}
