//! The chiptune engine's integer side: the sound-effect catalogue, note
//! lengths in samples, the note sequencer and the 16-bit Galois LFSR that
//! drives the noise channel. Turning a tick into an audio sample (square wave
//! phase, sweep, fade) is floating point and stays with the audio output.
use vstd::prelude::*;
use std::collections::VecDeque;

verus! {

/// Output samples per second.
pub const SAMPLE_RATE: u32 = 44_100;

/// The seed of the noise generator.
pub const LFSR_SEED: u16 = 0xACE1;

/// The waveform of a note.
#[derive(Clone, Copy, PartialEq, Eq, Structural, Debug)]
pub enum WaveKind {
    Square,
    Noise,
}

/// The number of samples that `ms` milliseconds last.
pub open spec fn spec_samples_for_ms(ms: u32) -> int {
    (SAMPLE_RATE * ms) / 1000
}

/// Samples in `ms` milliseconds, rounded down.
pub fn samples_for_ms(ms: u32) -> (n: u32)
    requires
        SAMPLE_RATE * ms <= u32::MAX,
    ensures
        n == spec_samples_for_ms(ms),
{
    SAMPLE_RATE * ms / 1000
}

// ---------------------------------------------------------------------------
// Noise
// ---------------------------------------------------------------------------

/// One step of the 16-bit Galois LFSR: shift right, and when the bit shifted
/// out is set, flip the taps `0xB400`.
pub open spec fn lfsr_next(s: u16) -> u16 {
    if s & 1 != 0 {
        (s >> 1) ^ 0xB400
    } else {
        s >> 1
    }
}

/// Advances the noise generator; returns the new state and whether the bit
/// shifted out was set (the noise sample is high).
pub fn lfsr_step(s: u16) -> (r: (u16, bool))
    ensures
        r.0 == lfsr_next(s),
        r.1 == (s & 1 != 0),
{
    let bit: u16 = s & 1;
    let mut next: u16 = s >> 1;
    if bit != 0 {
        next = next ^ 0xB400;
    }
    (next, bit != 0)
}

/// A running generator never reaches the all-zero state, in which it would
/// fall silent for good.
pub proof fn lemma_lfsr_never_zero(s: u16)
    requires
        s != 0,
    ensures
        lfsr_next(s) != 0,
{
    assert(s != 0 ==> (if s & 1 != 0 {
        (s >> 1) ^ 0xB400
    } else {
        s >> 1
    }) != 0) by (bit_vector);
}

// ---------------------------------------------------------------------------
// Catalogue
// ---------------------------------------------------------------------------

/// A sound effect.
#[derive(Clone, Copy, PartialEq, Eq, Structural, Debug)]
pub enum Sfx {
    /// The player fires a bullet.
    Shoot,
    /// A grunt dies.
    KillSmall,
    /// Any enemy but a grunt dies.
    KillBig,
    /// The player loses a life without losing the game.
    PlayerHit,
    /// A new wave spawns.
    WaveStart,
    /// Every enemy of a wave is destroyed.
    WaveClear,
    /// The player loses the last life.
    GameOver,
}

/// One note of a sound effect: a square wave sweeping linearly from
/// `freq_start_hz` to `freq_end_hz`, or a noise burst (frequencies 0), lasting
/// `ms` milliseconds at `volume_pct` percent of full scale.
#[derive(Clone, Copy, PartialEq, Eq, Structural, Debug)]
pub struct SfxNote {
    pub kind: WaveKind,
    pub freq_start_hz: u32,
    pub freq_end_hz: u32,
    pub ms: u32,
    pub volume_pct: u32,
}

/// A square-wave note.
pub open spec fn sq(freq_start_hz: u32, freq_end_hz: u32, ms: u32, volume_pct: u32) -> SfxNote {
    SfxNote { kind: WaveKind::Square, freq_start_hz, freq_end_hz, ms, volume_pct }
}

/// A noise burst.
pub open spec fn noise(ms: u32, volume_pct: u32) -> SfxNote {
    SfxNote { kind: WaveKind::Noise, freq_start_hz: 0, freq_end_hz: 0, ms, volume_pct }
}

/// The voices of each effect, each a sequence of notes; the voices of one
/// effect are mixed.
pub open spec fn sfx_voices(s: Sfx) -> Seq<Seq<SfxNote>> {
    match s {
        Sfx::Shoot => seq![seq![sq(180, 720, 55, 16)]],
        Sfx::KillSmall => seq![seq![noise(88, 28)]],
        Sfx::KillBig => seq![seq![noise(220, 26)], seq![sq(90, 28, 220, 20)]],
        Sfx::PlayerHit => seq![seq![sq(700, 42, 480, 38)]],
        Sfx::WaveStart => seq![seq![sq(330, 330, 80, 28), sq(440, 440, 80, 28), sq(660, 660, 130, 28)]],
        Sfx::WaveClear => seq![seq![sq(440, 440, 70, 24), sq(550, 550, 70, 24), sq(880, 880, 110, 24)]],
        Sfx::GameOver => seq![
            seq![sq(440, 440, 160, 34), sq(330, 330, 160, 34), sq(220, 90, 520, 34)],
        ],
    }
}

fn square_note(freq_start_hz: u32, freq_end_hz: u32, ms: u32, volume_pct: u32) -> (n: SfxNote)
    ensures
        n == sq(freq_start_hz, freq_end_hz, ms, volume_pct),
{
    SfxNote { kind: WaveKind::Square, freq_start_hz, freq_end_hz, ms, volume_pct }
}

fn noise_note(ms: u32, volume_pct: u32) -> (n: SfxNote)
    ensures
        n == noise(ms, volume_pct),
{
    SfxNote { kind: WaveKind::Noise, freq_start_hz: 0, freq_end_hz: 0, ms, volume_pct }
}

impl Sfx {
    /// The notes of this effect, voice by voice.
    pub fn voices(&self) -> (v: Vec<Vec<SfxNote>>)
        ensures
            v@.map_values(|x: Vec<SfxNote>| x@) == sfx_voices(*self),
    {
        let v = match self {
            Sfx::Shoot => vec![vec![square_note(180, 720, 55, 16)]],
            Sfx::KillSmall => vec![vec![noise_note(88, 28)]],
            Sfx::KillBig => vec![vec![noise_note(220, 26)], vec![square_note(90, 28, 220, 20)]],
            Sfx::PlayerHit => vec![vec![square_note(700, 42, 480, 38)]],
            Sfx::WaveStart => vec![
                vec![
                    square_note(330, 330, 80, 28),
                    square_note(440, 440, 80, 28),
                    square_note(660, 660, 130, 28),
                ],
            ],
            Sfx::WaveClear => vec![
                vec![
                    square_note(440, 440, 70, 24),
                    square_note(550, 550, 70, 24),
                    square_note(880, 880, 110, 24),
                ],
            ],
            Sfx::GameOver => vec![
                vec![
                    square_note(440, 440, 160, 34),
                    square_note(330, 330, 160, 34),
                    square_note(220, 90, 520, 34),
                ],
            ],
        };
        assert(v@.map_values(|x: Vec<SfxNote>| x@) =~~= sfx_voices(*self));
        v
    }
}

/// Every note of the catalogue is short enough for its sample count to fit.
pub proof fn lemma_catalogue_fits(s: Sfx)
    ensures
        forall|i: int, j: int|
            0 <= i < sfx_voices(s).len() && 0 <= j < sfx_voices(s)[i].len() ==> SAMPLE_RATE
                * (#[trigger] sfx_voices(s)[i][j]).ms <= u32::MAX,
{
}

// ---------------------------------------------------------------------------
// Sequencing
// ---------------------------------------------------------------------------

/// A note as the sequencer sees it: its waveform and length in samples.
#[derive(Clone, Copy, PartialEq, Eq, Structural, Debug)]
pub struct NoteSpan {
    pub kind: WaveKind,
    pub total: u32,
}

/// What to play for one output sample.
#[derive(Clone, Copy, PartialEq, Eq, Structural, Debug)]
pub struct Tick {
    /// Index of the note in the list the sequencer was built from.
    pub note: usize,
    pub kind: WaveKind,
    /// Sample position within the note, `0 <= pos < total`.
    pub pos: u32,
    pub total: u32,
    /// For a noise note, whether this sample is high; false for a square note.
    pub noise_high: bool,
}

/// Plays a queue of notes one after the other, one sample per tick.
pub struct Sequencer {
    notes: VecDeque<NoteSpan>,
    pos: u32,
    lfsr: u16,
    played: usize,
}

/// The state after dropping every finished note from the front: a note is
/// finished once the position reaches its length; the next starts at 0.
pub open spec fn skip_done(notes: Seq<NoteSpan>, pos: u32, played: nat) -> (Seq<NoteSpan>, u32, nat)
    decreases notes.len(),
{
    if notes.len() > 0 && pos >= notes[0].total {
        skip_done(notes.drop_first(), 0, played + 1)
    } else {
        (notes, pos, played)
    }
}

/// The sum of the lengths of `notes`.
pub open spec fn total_len(notes: Seq<NoteSpan>) -> int
    decreases notes.len(),
{
    if notes.len() == 0 {
        0
    } else {
        notes[0].total + total_len(notes.drop_first())
    }
}

/// Samples still to come from a queue at position `pos`.
pub open spec fn samples_left(notes: Seq<NoteSpan>, pos: u32) -> int {
    if notes.len() == 0 {
        0
    } else {
        total_len(notes) - pos
    }
}

/// Dropping finished notes keeps what is still to come.
proof fn lemma_skip_done(notes: Seq<NoteSpan>, pos: u32, played: nat)
    requires
        notes.len() > 0 ==> pos <= notes[0].total,
    ensures
        ({
            let (n2, p2, k2) = skip_done(notes, pos, played);
            &&& samples_left(n2, p2) == samples_left(notes, pos)
            &&& n2.len() > 0 ==> p2 < n2[0].total
            &&& k2 + n2.len() == played + notes.len()
        }),
    decreases notes.len(),
{
    if notes.len() > 0 && pos >= notes[0].total {
        let rest = notes.drop_first();
        // the finished note is dropped and the next one starts at 0
        assert(skip_done(notes, pos, played) == skip_done(rest, 0, played + 1));
        // its length was used up exactly
        assert(pos == notes[0].total);
        assert(total_len(notes) == notes[0].total + total_len(rest));
        if rest.len() > 0 {
            assert(samples_left(rest, 0) == total_len(rest));
        } else {
            assert(total_len(rest) == 0);
        }
        assert(samples_left(notes, pos) == samples_left(rest, 0));
        lemma_skip_done(rest, 0, played + 1);
    } else {
        assert(skip_done(notes, pos, played) == (notes, pos, played));
    }
}

/// What dropping finished notes does to the queue's shape: it only removes
/// notes from the front, and leaves the state alone when it removes none.
pub proof fn lemma_skip_done_shape(notes: Seq<NoteSpan>, pos: u32, played: nat)
    ensures
        ({
            let (n2, p2, k2) = skip_done(notes, pos, played);
            &&& n2.len() <= notes.len()
            &&& n2.len() == notes.len() ==> n2 == notes && p2 == pos && k2 == played
            &&& n2.len() > 0 ==> p2 < n2[0].total
            &&& k2 + n2.len() == played + notes.len()
        }),
    decreases notes.len(),
{
    if notes.len() > 0 && pos >= notes[0].total {
        assert(skip_done(notes, pos, played) == skip_done(notes.drop_first(), 0, played + 1));
        lemma_skip_done_shape(notes.drop_first(), 0, played + 1);
    } else {
        assert(skip_done(notes, pos, played) == (notes, pos, played));
    }
}

/// Counting played notes from a different start shifts the count and
/// nothing else.
proof fn lemma_skip_done_played(notes: Seq<NoteSpan>, pos: u32, played: nat, m: nat)
    ensures
        ({
            let (n2, p2, k2) = skip_done(notes, pos, played);
            skip_done(notes, pos, played + m) == (n2, p2, k2 + m)
        }),
    decreases notes.len(),
{
    if notes.len() > 0 && pos >= notes[0].total {
        lemma_skip_done_played(notes.drop_first(), 0, played + 1, m);
        assert(played + m + 1 == played + 1 + m);
    }
}

/// The tick for note `n` at position `pos`.
pub open spec fn tick_at(n: NoteSpan, pos: u32, lfsr: u16, played: nat) -> Tick {
    Tick {
        note: played as usize,
        kind: n.kind,
        pos,
        total: n.total,
        noise_high: n.kind == WaveKind::Noise && lfsr & 1 != 0,
    }
}

/// The noise generator after a sample of note `n`.
pub open spec fn lfsr_after(n: NoteSpan, lfsr: u16) -> u16 {
    if n.kind == WaveKind::Noise {
        lfsr_next(lfsr)
    } else {
        lfsr
    }
}

/// Every tick a sequencer in this state still produces, in order.
pub open spec fn play_out(notes: Seq<NoteSpan>, pos: u32, lfsr: u16, played: nat) -> Seq<Tick>
    decreases notes.len(), if notes.len() > 0 {
        notes[0].total - pos
    } else {
        0
    },
{
    let (n2, p2, k2) = skip_done(notes, pos, played);
    if n2.len() == 0 {
        Seq::empty()
    } else {
        proof {
            lemma_skip_done_shape(notes, pos, played);
        }
        seq![tick_at(n2[0], p2, lfsr, k2)] + play_out(n2, (p2 + 1) as u32, lfsr_after(n2[0], lfsr), k2)
    }
}

/// Ticks with their note indices moved up by `m`.
pub open spec fn shifted(ts: Seq<Tick>, m: nat) -> Seq<Tick> {
    ts.map_values(
        |t: Tick|
            Tick { note: (t.note + m) as usize, kind: t.kind, pos: t.pos, total: t.total, noise_high: t.noise_high },
    )
}

proof fn lemma_play_out_played(b: Seq<NoteSpan>, p: u32, lfsr: u16, k: nat, m: nat)
    requires
        k + m + b.len() <= usize::MAX,
    ensures
        play_out(b, p, lfsr, k + m) == shifted(play_out(b, p, lfsr, k), m),
    decreases b.len(), if b.len() > 0 {
        b[0].total - p
    } else {
        0
    },
{
    lemma_skip_done_shape(b, p, k);
    lemma_skip_done_played(b, p, k, m);
    let (n2, p2, k2) = skip_done(b, p, k);
    if n2.len() == 0 {
        assert(shifted(play_out(b, p, lfsr, k), m) =~= Seq::<Tick>::empty());
    } else {
        let l2 = lfsr_after(n2[0], lfsr);
        let rest = play_out(n2, (p2 + 1) as u32, l2, k2);
        lemma_play_out_played(n2, (p2 + 1) as u32, l2, k2, m);
        assert(play_out(b, p, lfsr, k) == seq![tick_at(n2[0], p2, lfsr, k2)] + rest);
        assert(play_out(b, p, lfsr, k + m) == seq![tick_at(n2[0], p2, lfsr, k2 + m)] + play_out(
            n2,
            (p2 + 1) as u32,
            l2,
            k2 + m,
        ));
        assert(shifted(seq![tick_at(n2[0], p2, lfsr, k2)] + rest, m) =~= seq![
            tick_at(n2[0], p2, lfsr, k2 + m),
        ] + shifted(rest, m));
    }
}

/// All notes of `a` are square waves.
pub open spec fn all_square(a: Seq<NoteSpan>) -> bool {
    forall|i: int| 0 <= i < a.len() ==> (#[trigger] a[i]).kind == WaveKind::Square
}

proof fn lemma_play_out_append(a: Seq<NoteSpan>, b: Seq<NoteSpan>, pos: u32, lfsr: u16, k: nat)
    requires
        all_square(a),
        a.len() == 0 ==> pos == 0,
    ensures
        play_out(a + b, pos, lfsr, k) == play_out(a, pos, lfsr, k) + play_out(b, 0, lfsr, k + a.len()),
    decreases a.len(), if a.len() > 0 {
        a[0].total - pos
    } else {
        0
    },
{
    if a.len() == 0 {
        assert(a + b =~= b);
        assert(skip_done(a, pos, k) == (a, pos, k));
        assert(play_out(a, pos, lfsr, k) =~= Seq::<Tick>::empty());
        assert(play_out(a + b, pos, lfsr, k) + Seq::<Tick>::empty() =~= play_out(a + b, pos, lfsr, k));
        assert(play_out(a, pos, lfsr, k) + play_out(b, 0, lfsr, k + a.len()) =~= play_out(
            b,
            0,
            lfsr,
            k,
        ));
    } else if pos >= a[0].total {
        let a1 = a.drop_first();
        assert((a + b).drop_first() =~= a1 + b);
        assert((a + b)[0] == a[0]);
        assert(skip_done(a + b, pos, k) == skip_done(a1 + b, 0, k + 1));
        assert(skip_done(a, pos, k) == skip_done(a1, 0, k + 1));
        assert(play_out(a + b, pos, lfsr, k) == play_out(a1 + b, 0, lfsr, k + 1));
        assert(play_out(a, pos, lfsr, k) == play_out(a1, 0, lfsr, k + 1));
        assert forall|i: int| 0 <= i < a1.len() implies (#[trigger] a1[i]).kind == WaveKind::Square by {
            assert(a1[i] == a[i + 1]);
        }
        lemma_play_out_append(a1, b, 0, lfsr, k + 1);
        assert(k + 1 + a1.len() == k + a.len());
    } else {
        let x = tick_at(a[0], pos, lfsr, k);
        assert((a + b)[0] == a[0]);
        assert(a[0].kind == WaveKind::Square);
        assert(skip_done(a + b, pos, k) == (a + b, pos, k));
        assert(skip_done(a, pos, k) == (a, pos, k));
        assert(lfsr_after(a[0], lfsr) == lfsr);
        assert(play_out(a + b, pos, lfsr, k) == seq![x] + play_out(a + b, (pos + 1) as u32, lfsr, k));
        assert(play_out(a, pos, lfsr, k) == seq![x] + play_out(a, (pos + 1) as u32, lfsr, k));
        lemma_play_out_append(a, b, (pos + 1) as u32, lfsr, k);
        assert(seq![x] + (play_out(a, (pos + 1) as u32, lfsr, k) + play_out(b, 0, lfsr, k + a.len()))
            =~= (seq![x] + play_out(a, (pos + 1) as u32, lfsr, k)) + play_out(b, 0, lfsr, k + a.len()));
    }
}

/// Playing two lists of square notes as one list gives the ticks of the
/// first list followed by those of the second, note indices counting on
/// from the first list. (Noise notes are left out: a single source carries
/// its noise generator from one note to the next, where two fresh sources
/// would each start from the seed.)
pub proof fn lemma_sequence_concat(a: Seq<NoteSpan>, b: Seq<NoteSpan>)
    requires
        all_square(a),
        a.len() + b.len() <= usize::MAX,
    ensures
        play_out(a + b, 0, LFSR_SEED, 0) == play_out(a, 0, LFSR_SEED, 0) + shifted(
            play_out(b, 0, LFSR_SEED, 0),
            a.len(),
        ),
{
    lemma_play_out_append(a, b, 0, LFSR_SEED, 0);
    lemma_play_out_played(b, 0, LFSR_SEED, 0, a.len());
    assert(0 + a.len() == a.len());
}

/// An empty list plays nothing.
pub proof fn lemma_sequence_empty()
    ensures
        play_out(Seq::empty(), 0, LFSR_SEED, 0) == Seq::<Tick>::empty(),
{
    assert(skip_done(Seq::empty(), 0, 0) == (Seq::<NoteSpan>::empty(), 0u32, 0nat));
}

/// Lengths add up to no less than zero.
proof fn lemma_total_len_nonneg(notes: Seq<NoteSpan>)
    ensures
        total_len(notes) >= 0,
    decreases notes.len(),
{
    if notes.len() > 0 {
        lemma_total_len_nonneg(notes.drop_first());
    }
}

impl View for Sequencer {
    type V = (Seq<NoteSpan>, u32, u16, nat);

    closed spec fn view(&self) -> (Seq<NoteSpan>, u32, u16, nat) {
        (self.notes@, self.pos, self.lfsr, self.played as nat)
    }
}

impl Sequencer {
    /// The queue is within bounds: the position lies within the current
    /// note, the note count fits, and the noise generator is running.
    pub open spec fn wf(&self) -> bool {
        &&& self@.0.len() > 0 ==> self@.1 <= self@.0[0].total
        &&& self@.3 + self@.0.len() <= usize::MAX
        &&& self@.2 != 0
    }

    /// Samples this sequencer still produces.
    pub open spec fn remaining(&self) -> int {
        samples_left(self@.0, self@.1)
    }

    /// A sequencer at the start of `notes`, noise generator freshly seeded.
    pub fn new(notes: Vec<NoteSpan>) -> (s: Self)
        ensures
            s@ == (notes@, 0u32, LFSR_SEED, 0nat),
            s.wf(),
    {
        let mut q: VecDeque<NoteSpan> = VecDeque::new();
        let mut i: usize = 0;
        while i < notes.len()
            invariant
                i <= notes@.len(),
                q@ == notes@.take(i as int),
            decreases notes@.len() - i,
        {
            q.push_back(notes[i]);
            assert(q@ =~= notes@.take(i + 1));
            i += 1;
        }
        assert(notes@.take(i as int) =~= notes@);
        Sequencer { notes: q, pos: 0, lfsr: LFSR_SEED, played: 0 }
    }

    /// The next sample to play: finished notes are dropped first; `None`
    /// once every note has played out. A noise sample advances the noise
    /// generator.
    pub fn next_tick(&mut self) -> (t: Option<Tick>)
        requires
            old(self).wf(),
        ensures
            final(self).wf(),
            ({
                let (n2, p2, k2) = skip_done(old(self)@.0, old(self)@.1, old(self)@.3);
                let lfsr = old(self)@.2;
                if n2.len() == 0 {
                    &&& t is None
                    &&& final(self)@ == (n2, p2, lfsr, k2)
                } else {
                    let note = n2[0];
                    let noise = note.kind == WaveKind::Noise;
                    &&& t == Some(
                        Tick {
                            note: k2 as usize,
                            kind: note.kind,
                            pos: p2,
                            total: note.total,
                            noise_high: noise && lfsr & 1 != 0,
                        },
                    )
                    &&& final(self)@ == (
                        n2,
                        (p2 + 1) as u32,
                        if noise {
                            lfsr_next(lfsr)
                        } else {
                            lfsr
                        },
                        k2,
                    )
                }
            }),
            play_out(old(self)@.0, old(self)@.1, old(self)@.2, old(self)@.3) == match t {
                Some(x) => seq![x] + play_out(final(self)@.0, final(self)@.1, final(self)@.2, final(self)@.3),
                None => Seq::<Tick>::empty(),
            },
            t is Some <==> old(self).remaining() > 0,
            final(self).remaining() == old(self).remaining() - if t is Some {
                1int
            } else {
                0int
            },
    {
        let ghost start = self@;
        proof {
            lemma_skip_done(start.0, start.1, start.3);
        }
        loop
            invariant
                self.wf(),
                start == old(self)@,
                self@.2 == start.2,
                skip_done(self@.0, self@.1, self@.3) == skip_done(start.0, start.1, start.3),
                samples_left(self@.0, self@.1) == samples_left(start.0, start.1),
            decreases self@.0.len(),
        {
            if self.notes.len() == 0 {
                return None;
            }
            let span = self.notes[0];
            if self.pos >= span.total {
                proof {
                    lemma_skip_done(self@.0, self@.1, self@.3);
                    assert(self@.0 =~= seq![span] + self@.0.drop_first());
                }
                self.notes.pop_front();
                self.pos = 0;
                self.played = self.played + 1;
                proof {
                    lemma_skip_done(self@.0, self@.1, self@.3);
                }
            } else {
                proof {
                    assert(skip_done(self@.0, self@.1, self@.3) == (self@.0, self@.1, self@.3));
                    lemma_total_len_nonneg(self@.0.drop_first());
                }
                let pos: u32 = self.pos;
                let (next, high) = if span.kind == WaveKind::Noise {
                    lfsr_step(self.lfsr)
                } else {
                    (self.lfsr, false)
                };
                proof {
                    if span.kind == WaveKind::Noise {
                        lemma_lfsr_never_zero(self.lfsr);
                    }
                }
                self.lfsr = next;
                self.pos = pos + 1;
                return Some(
                    Tick { note: self.played, kind: span.kind, pos, total: span.total, noise_high: high },
                );
            }
        }
    }
}

} // verus!
