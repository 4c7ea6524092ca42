use vector_storm::sound::{
    lfsr_step, samples_for_ms, NoteSpan, Sequencer, Sfx, SfxNote, WaveKind, LFSR_SEED, SAMPLE_RATE,
};

fn sq(fs: u32, fe: u32, ms: u32, v: u32) -> SfxNote {
    SfxNote { kind: WaveKind::Square, freq_start_hz: fs, freq_end_hz: fe, ms, volume_pct: v }
}

fn nz(ms: u32, v: u32) -> SfxNote {
    SfxNote { kind: WaveKind::Noise, freq_start_hz: 0, freq_end_hz: 0, ms, volume_pct: v }
}

#[test]
fn samples_for_ms_rounds_down() {
    assert_eq!(SAMPLE_RATE, 44_100);
    assert_eq!(samples_for_ms(55), 2425);
    assert_eq!(samples_for_ms(1000), 44_100);
    assert_eq!(samples_for_ms(0), 0);
    assert_eq!(samples_for_ms(1), 44);
}

#[test]
fn catalogue_matches_the_effects() {
    assert_eq!(Sfx::Shoot.voices(), vec![vec![sq(180, 720, 55, 16)]]);
    assert_eq!(Sfx::KillSmall.voices(), vec![vec![nz(88, 28)]]);
    assert_eq!(Sfx::KillBig.voices(), vec![vec![nz(220, 26)], vec![sq(90, 28, 220, 20)]]);
    assert_eq!(Sfx::PlayerHit.voices(), vec![vec![sq(700, 42, 480, 38)]]);
    assert_eq!(Sfx::WaveStart.voices(), vec![vec![sq(330, 330, 80, 28), sq(440, 440, 80, 28), sq(660, 660, 130, 28)]]);
    assert_eq!(Sfx::WaveClear.voices(), vec![vec![sq(440, 440, 70, 24), sq(550, 550, 70, 24), sq(880, 880, 110, 24)]]);
    assert_eq!(Sfx::GameOver.voices(), vec![vec![sq(440, 440, 160, 34), sq(330, 330, 160, 34), sq(220, 90, 520, 34)]]);
}

#[test]
fn volume_percent_converts_to_the_same_f32() {
    assert_eq!(16u32 as f32 / 100.0, 0.16f32);
    assert_eq!(28u32 as f32 / 100.0, 0.28f32);
    assert_eq!(26u32 as f32 / 100.0, 0.26f32);
    assert_eq!(20u32 as f32 / 100.0, 0.20f32);
    assert_eq!(38u32 as f32 / 100.0, 0.38f32);
    assert_eq!(24u32 as f32 / 100.0, 0.24f32);
    assert_eq!(34u32 as f32 / 100.0, 0.34f32);
}

#[test]
fn lfsr_matches_galois_step() {
    let (s1, high) = lfsr_step(LFSR_SEED);
    assert_eq!(LFSR_SEED, 0xACE1);
    assert!(high);
    assert_eq!(s1, (0xACE1u16 >> 1) ^ 0xB400);
    let (s2, high2) = lfsr_step(0x0002);
    assert!(!high2);
    assert_eq!(s2, 0x0001);
}

#[test]
fn lfsr_has_full_period() {
    let mut s = LFSR_SEED;
    let mut n = 0u32;
    loop {
        s = lfsr_step(s).0;
        n += 1;
        assert_ne!(s, 0);
        if s == LFSR_SEED { break; }
    }
    assert_eq!(n, 65535);
}

#[test]
fn sequencer_plays_each_note_for_its_length() {
    let mut seq = Sequencer::new(vec![
        NoteSpan { kind: WaveKind::Square, total: 3 },
        NoteSpan { kind: WaveKind::Noise, total: 0 },
        NoteSpan { kind: WaveKind::Noise, total: 2 },
    ]);
    let mut ticks = Vec::new();
    while let Some(t) = seq.next_tick() {
        ticks.push(t);
    }
    assert_eq!(ticks.len(), 5);
    let notes: Vec<usize> = ticks.iter().map(|t| t.note).collect();
    assert_eq!(notes, vec![0, 0, 0, 2, 2]);
    let pos: Vec<u32> = ticks.iter().map(|t| t.pos).collect();
    assert_eq!(pos, vec![0, 1, 2, 0, 1]);
    assert!(ticks[..3].iter().all(|t| !t.noise_high && t.kind == WaveKind::Square));
    // the noise samples follow the generator from its seed
    let (s1, h1) = lfsr_step(LFSR_SEED);
    let (_, h2) = lfsr_step(s1);
    assert_eq!(ticks[3].noise_high, h1);
    assert_eq!(ticks[4].noise_high, h2);
    assert!(seq.next_tick().is_none());
}

#[test]
fn empty_sequencer_is_silent() {
    let mut seq = Sequencer::new(Vec::new());
    assert!(seq.next_tick().is_none());
}

fn play(spans: Vec<NoteSpan>) -> Vec<vector_storm::sound::Tick> {
    let mut seq = Sequencer::new(spans);
    let mut out = Vec::new();
    while let Some(t) = seq.next_tick() {
        out.push(t);
    }
    out
}

#[test]
fn concatenated_square_notes_play_one_list_after_the_other() {
    let a = vec![NoteSpan { kind: WaveKind::Square, total: 2 }, NoteSpan { kind: WaveKind::Square, total: 0 }];
    let b = vec![NoteSpan { kind: WaveKind::Noise, total: 3 }, NoteSpan { kind: WaveKind::Square, total: 1 }];
    let whole = play([a.clone(), b.clone()].concat());
    let mut parts = play(a.clone());
    for mut t in play(b) {
        t.note += a.len();
        parts.push(t);
    }
    assert_eq!(whole, parts);
}
