//! Enemy kinds and the make-up of each wave.
use vstd::prelude::*;

verus! {

/// The kinds of enemy.
#[derive(Clone, Copy, PartialEq, Eq, Structural, Debug)]
pub enum EnemyKind {
    /// Red triangle; charges straight at the player. From wave 1.
    Grunt,
    /// Purple circle; arcs around the arena and spawns grunts. From wave 2.
    Spheroid,
    /// Green hexagon; slow, fires a single aimed shot. From wave 3.
    Tank,
    /// Orange diamond; fast diagonal bouncer, fires a 3-way spread. From wave 4.
    Enforcer,
    /// Magenta rings; teleports now and then, fires a 4-way cardinal burst.
    /// From wave 5.
    Phantom,
    /// Gold circle; very slow, fires an 8-way radial burst. From wave 6.
    Bomber,
}

/// Points for destroying an enemy of kind `k`.
pub open spec fn spec_score_value(k: EnemyKind) -> u32 {
    match k {
        EnemyKind::Grunt => 100,
        EnemyKind::Spheroid => 500,
        EnemyKind::Tank => 250,
        EnemyKind::Enforcer => 300,
        EnemyKind::Phantom => 400,
        EnemyKind::Bomber => 750,
    }
}

/// Hits an enemy of kind `k` takes before it dies.
pub open spec fn spec_initial_health(k: EnemyKind) -> i32 {
    match k {
        EnemyKind::Grunt => 1,
        EnemyKind::Spheroid => 2,
        EnemyKind::Tank => 3,
        EnemyKind::Enforcer => 2,
        EnemyKind::Phantom => 2,
        EnemyKind::Bomber => 4,
    }
}

/// Collision radius of an enemy of kind `k`, in pixels.
pub open spec fn spec_radius_px(k: EnemyKind) -> u32 {
    match k {
        EnemyKind::Grunt => 9,
        EnemyKind::Spheroid => 14,
        EnemyKind::Tank => 12,
        EnemyKind::Enforcer => 11,
        EnemyKind::Phantom => 13,
        EnemyKind::Bomber => 16,
    }
}

/// Bullets an enemy of kind `k` fires in one volley.
pub open spec fn spec_volley_size(k: EnemyKind) -> u32 {
    match k {
        EnemyKind::Grunt => 0,
        EnemyKind::Spheroid => 0,
        EnemyKind::Tank => 1,
        EnemyKind::Enforcer => 3,
        EnemyKind::Phantom => 4,
        EnemyKind::Bomber => 8,
    }
}

/// The first wave in which an enemy of kind `k` appears.
pub open spec fn spec_first_wave(k: EnemyKind) -> u32 {
    match k {
        EnemyKind::Grunt => 1,
        EnemyKind::Spheroid => 2,
        EnemyKind::Tank => 3,
        EnemyKind::Enforcer => 4,
        EnemyKind::Phantom => 5,
        EnemyKind::Bomber => 6,
    }
}

impl EnemyKind {
    /// Points for destroying this enemy.
    pub fn score_value(&self) -> (p: u32)
        ensures
            p == spec_score_value(*self),
    {
        match self {
            EnemyKind::Grunt => 100,
            EnemyKind::Spheroid => 500,
            EnemyKind::Tank => 250,
            EnemyKind::Enforcer => 300,
            EnemyKind::Phantom => 400,
            EnemyKind::Bomber => 750,
        }
    }

    /// Hits this enemy takes before it dies.
    pub fn initial_health(&self) -> (h: i32)
        ensures
            h == spec_initial_health(*self),
    {
        match self {
            EnemyKind::Grunt => 1,
            EnemyKind::Spheroid => 2,
            EnemyKind::Tank => 3,
            EnemyKind::Enforcer => 2,
            EnemyKind::Phantom => 2,
            EnemyKind::Bomber => 4,
        }
    }

    /// Collision radius, in pixels.
    pub fn radius_px(&self) -> (r: u32)
        ensures
            r == spec_radius_px(*self),
    {
        match self {
            EnemyKind::Grunt => 9,
            EnemyKind::Spheroid => 14,
            EnemyKind::Tank => 12,
            EnemyKind::Enforcer => 11,
            EnemyKind::Phantom => 13,
            EnemyKind::Bomber => 16,
        }
    }

    /// Bullets fired in one volley.
    pub fn volley_size(&self) -> (n: u32)
        ensures
            n == spec_volley_size(*self),
    {
        match self {
            EnemyKind::Grunt => 0,
            EnemyKind::Spheroid => 0,
            EnemyKind::Tank => 1,
            EnemyKind::Enforcer => 3,
            EnemyKind::Phantom => 4,
            EnemyKind::Bomber => 8,
        }
    }
}

/// Enemies of a kind that first appears in wave `first`, one more every
/// `step` waves after that.
pub open spec fn kind_count(wave: u32, first: u32, step: u32) -> int {
    if wave >= first {
        1 + (wave - first) / (step as int)
    } else {
        0
    }
}

/// Enemies of a kind that first appears in wave `first` and then numbers
/// `(wave - lag) / step`, but never fewer than one once it has appeared.
pub open spec fn paced_count(wave: u32, first: u32, lag: u32, step: u32) -> int {
    if wave >= first {
        let q = (wave - lag) / (step as int);
        if q >= 1 {
            q
        } else {
            1
        }
    } else {
        0
    }
}

/// How many grunts, spheroids, tanks, enforcers, phantoms and bombers wave
/// `wave` brings (waves count from 1). Spheroids number `(wave - 1) / 2` and
/// tanks `(wave - 2) / 3`, with at least one of each from their first wave.
pub open spec fn wave_mix(wave: u32) -> (int, int, int, int, int, int) {
    (
        4 + 3 * wave,
        paced_count(wave, 2, 1, 2),
        paced_count(wave, 3, 2, 3),
        kind_count(wave, 4, 3),
        kind_count(wave, 5, 4),
        kind_count(wave, 6, 4),
    )
}

/// The count of kind `k` in a wave mix.
pub open spec fn count_of(m: (int, int, int, int, int, int), k: EnemyKind) -> int {
    match k {
        EnemyKind::Grunt => m.0,
        EnemyKind::Spheroid => m.1,
        EnemyKind::Tank => m.2,
        EnemyKind::Enforcer => m.3,
        EnemyKind::Phantom => m.4,
        EnemyKind::Bomber => m.5,
    }
}

fn count_from(wave: u32, first: u32, step: u32) -> (n: usize)
    requires
        step >= 2,
    ensures
        n == kind_count(wave, first, step),
{
    if wave >= first {
        let d: u32 = wave - first;
        let q: u32 = d / step;
        assert(q <= u32::MAX / 2) by (nonlinear_arith)
            requires
                q == d / step,
                step >= 2,
        ;
        (q + 1) as usize
    } else {
        0
    }
}

fn paced_from(wave: u32, first: u32, lag: u32, step: u32) -> (n: usize)
    requires
        step >= 2,
        lag <= first,
    ensures
        n == paced_count(wave, first, lag, step),
{
    if wave >= first {
        let d: u32 = wave - lag;
        let q: u32 = d / step;
        if q >= 1 {
            q as usize
        } else {
            1
        }
    } else {
        0
    }
}

/// How many grunts, spheroids, tanks, enforcers, phantoms and bombers wave
/// `wave` brings.
pub fn wave_enemies(wave: u32) -> (counts: (usize, usize, usize, usize, usize, usize))
    requires
        4 + 3 * wave <= u32::MAX,
    ensures
        counts.0 == wave_mix(wave).0,
        counts.1 == wave_mix(wave).1,
        counts.2 == wave_mix(wave).2,
        counts.3 == wave_mix(wave).3,
        counts.4 == wave_mix(wave).4,
        counts.5 == wave_mix(wave).5,
{
    let grunts: usize = (4 + wave * 3) as usize;
    (
        grunts,
        paced_from(wave, 2, 1, 2),
        paced_from(wave, 3, 2, 3),
        count_from(wave, 4, 3),
        count_from(wave, 5, 4),
        count_from(wave, 6, 4),
    )
}

/// Each kind is first met in the wave the enemy roster gives it: none
/// before, at least one from then on.
pub proof fn lemma_first_waves(wave: u32, k: EnemyKind)
    requires
        wave >= 1,
    ensures
        wave < spec_first_wave(k) ==> count_of(wave_mix(wave), k) == 0,
        wave >= spec_first_wave(k) ==> count_of(wave_mix(wave), k) >= 1,
{
}

/// Once the formula gives at least one, spheroids number `(wave - 1) / 2`
/// and tanks `(wave - 2) / 3`.
pub proof fn lemma_counts_follow_formula(wave: u32)
    ensures
        wave >= 3 ==> wave_mix(wave).1 == (wave - 1) / 2,
        wave >= 5 ==> wave_mix(wave).2 == (wave - 2) / 3,
{
}

/// `n` copies of `k`.
pub open spec fn copies(k: EnemyKind, n: int) -> Seq<EnemyKind> {
    Seq::new(n as nat, |i: int| k)
}

/// The enemies of a wave in the order they spawn: the grunts, then the
/// spheroids, tanks, enforcers, phantoms and bombers.
pub open spec fn spawn_sequence(wave: u32) -> Seq<EnemyKind> {
    let m = wave_mix(wave);
    copies(EnemyKind::Grunt, m.0) + copies(EnemyKind::Spheroid, m.1) + copies(EnemyKind::Tank, m.2)
        + copies(EnemyKind::Enforcer, m.3) + copies(EnemyKind::Phantom, m.4) + copies(
        EnemyKind::Bomber,
        m.5,
    )
}

/// Appends `n` copies of `k`.
fn push_copies(order: &mut Vec<EnemyKind>, k: EnemyKind, n: usize)
    ensures
        final(order)@ == old(order)@ + copies(k, n as int),
{
    let ghost start = order@;
    let mut i: usize = 0;
    while i < n
        invariant
            i <= n,
            order@ == start + copies(k, i as int),
        decreases n - i,
    {
        order.push(k);
        assert(order@ =~= start + copies(k, i + 1));
        i += 1;
    }
}

/// The kinds to spawn for wave `wave`, in spawn order.
pub fn spawn_order(wave: u32) -> (order: Vec<EnemyKind>)
    requires
        4 + 3 * wave <= u32::MAX,
    ensures
        order@ == spawn_sequence(wave),
{
    let (g, s, t, e, p, b) = wave_enemies(wave);
    let mut order: Vec<EnemyKind> = Vec::new();
    push_copies(&mut order, EnemyKind::Grunt, g);
    push_copies(&mut order, EnemyKind::Spheroid, s);
    push_copies(&mut order, EnemyKind::Tank, t);
    push_copies(&mut order, EnemyKind::Enforcer, e);
    push_copies(&mut order, EnemyKind::Phantom, p);
    push_copies(&mut order, EnemyKind::Bomber, b);
    assert(order@ =~= spawn_sequence(wave));
    order
}

proof fn lemma_kind_count_grows(w1: u32, w2: u32, first: u32, step: u32)
    requires
        w1 <= w2,
        step > 0,
    ensures
        kind_count(w1, first, step) <= kind_count(w2, first, step),
{
    if w1 >= first {
        assert((w1 - first) / (step as int) <= (w2 - first) / (step as int)) by (nonlinear_arith)
            requires
                0 <= w1 - first <= w2 - first,
                step > 0,
        ;
    }
}

proof fn lemma_paced_count_grows(w1: u32, w2: u32, first: u32, lag: u32, step: u32)
    requires
        w1 <= w2,
        lag <= first,
        step > 0,
    ensures
        paced_count(w1, first, lag, step) <= paced_count(w2, first, lag, step),
{
    if w1 >= first {
        assert((w1 - lag) / (step as int) <= (w2 - lag) / (step as int)) by (nonlinear_arith)
            requires
                0 <= w1 - lag <= w2 - lag,
                step > 0,
        ;
    }
}

/// Difficulty only grows: a later wave brings at least as many enemies of
/// each kind, and strictly more grunts.
pub proof fn lemma_waves_grow(w1: u32, w2: u32)
    requires
        w1 < w2,
    ensures
        wave_mix(w1).0 < wave_mix(w2).0,
        wave_mix(w1).1 <= wave_mix(w2).1,
        wave_mix(w1).2 <= wave_mix(w2).2,
        wave_mix(w1).3 <= wave_mix(w2).3,
        wave_mix(w1).4 <= wave_mix(w2).4,
        wave_mix(w1).5 <= wave_mix(w2).5,
{
    lemma_paced_count_grows(w1, w2, 2, 1, 2);
    lemma_paced_count_grows(w1, w2, 3, 2, 3);
    lemma_kind_count_grows(w1, w2, 4, 3);
    lemma_kind_count_grows(w1, w2, 5, 4);
    lemma_kind_count_grows(w1, w2, 6, 4);
}

} // verus!
