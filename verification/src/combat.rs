//! Who hits whom in one frame. Which bullet touches which enemy or the
//! player is geometry on floating-point positions, measured by the caller;
//! given those contacts, this module decides what dies.
use vstd::prelude::*;
use crate::waves::EnemyKind;

verus! {

/// The state of a bullet that matters for hits.
#[derive(Clone, Copy, PartialEq, Eq, Structural, Debug)]
pub struct Shot {
    pub from_player: bool,
    pub dead: bool,
}

/// The state of an enemy that matters for hits.
#[derive(Clone, Copy, PartialEq, Eq, Structural, Debug)]
pub struct Foe {
    pub kind: EnemyKind,
    pub health: i32,
    pub dead: bool,
}

/// The rows of a contact table.
pub open spec fn grid(t: Seq<Vec<bool>>) -> Seq<Seq<bool>> {
    t.map_values(|r: Vec<bool>| r@)
}

/// The first live enemy at or after `e` that `row` marks as touched, or
/// the number of enemies when there is none.
pub open spec fn first_target_from(foes: Seq<Foe>, row: Seq<bool>, e: int) -> int
    decreases foes.len() - e,
{
    if e < 0 || e >= foes.len() {
        foes.len() as int
    } else if !foes[e].dead && row[e] {
        e
    } else {
        first_target_from(foes, row, e + 1)
    }
}

/// An enemy after taking one hit: one health less, dead at zero or below.
pub open spec fn hit_foe(f: Foe) -> Foe {
    Foe { kind: f.kind, health: (f.health - 1) as i32, dead: f.health - 1 <= 0 }
}

/// A bullet that has hit something.
pub open spec fn spent(s: Shot) -> Shot {
    Shot { from_player: s.from_player, dead: true }
}

/// One player bullet against the enemies: it hits the first live enemy it
/// touches, if any, and is spent; the result holds the bullet, the enemies
/// and the index of the enemy it killed, if it killed one.
pub open spec fn shot_step(shot: Shot, foes: Seq<Foe>, row: Seq<bool>) -> (Shot, Seq<Foe>, Seq<usize>) {
    if !shot.from_player || shot.dead {
        (shot, foes, Seq::empty())
    } else {
        let t: int = first_target_from(foes, row, 0);
        if t >= foes.len() {
            (shot, foes, Seq::empty())
        } else {
            let f = hit_foe(foes[t]);
            (
                spent(shot),
                foes.update(t, f),
                if f.dead {
                    seq![t as usize]
                } else {
                    Seq::empty()
                },
            )
        }
    }
}

/// The first `n` bullets against the enemies, in order: the bullets, the
/// enemies and the enemies killed, in the order they died.
pub open spec fn resolve_shots(shots: Seq<Shot>, foes: Seq<Foe>, touching: Seq<Seq<bool>>, n: nat) -> (
    Seq<Shot>,
    Seq<Foe>,
    Seq<usize>,
)
    decreases n,
{
    if n == 0 {
        (shots, foes, Seq::empty())
    } else {
        let (s, f, k) = resolve_shots(shots, foes, touching, (n - 1) as nat);
        let (s1, f1, k1) = shot_step(s[n - 1], f, touching[n - 1]);
        (s.update(n - 1, s1), f1, k + k1)
    }
}

/// Live enemies have health to lose.
pub open spec fn live_health_ok(foes: Seq<Foe>) -> bool {
    forall|e: int| 0 <= e < foes.len() && !(#[trigger] foes[e]).dead ==> foes[e].health > i32::MIN
}

/// The target found is a live, touched enemy.
/// A bullet's target is the first enemy in list order, from `e` on, that is
/// alive and touched: every enemy before it is dead or untouched, and when
/// there is no target, no enemy from `e` on is both alive and touched.
pub proof fn lemma_first_target(foes: Seq<Foe>, row: Seq<bool>, e: int)
    requires
        0 <= e <= foes.len(),
    ensures
        e <= first_target_from(foes, row, e) <= foes.len(),
        first_target_from(foes, row, e) < foes.len() ==> !foes[first_target_from(foes, row, e)].dead
            && row[first_target_from(foes, row, e)],
        forall|k: int|
            e <= k < first_target_from(foes, row, e) ==> (#[trigger] foes[k]).dead || !row[k],
    decreases foes.len() - e,
{
    if e < foes.len() && !(!foes[e].dead && row[e]) {
        lemma_first_target(foes, row, e + 1);
    }
}

/// One player bullet: when it is live and touches a live enemy, it is spent
/// and the first such enemy loses exactly one health, dying (and being
/// reported killed) when that leaves it none; no other enemy changes.
/// Otherwise nothing changes and nobody dies.
pub proof fn lemma_shot_step(shot: Shot, foes: Seq<Foe>, row: Seq<bool>)
    requires
        row.len() == foes.len(),
        foes.len() <= usize::MAX,
        live_health_ok(foes),
    ensures
        ({
            let (s1, f1, k1) = shot_step(shot, foes, row);
            let t = first_target_from(foes, row, 0);
            &&& f1.len() == foes.len()
            &&& s1.from_player == shot.from_player
            &&& (shot.from_player && !shot.dead && t < foes.len()) ==> {
                &&& s1.dead
                &&& f1[t].kind == foes[t].kind
                &&& f1[t].health == foes[t].health - 1
                &&& f1[t].dead == (foes[t].health <= 1)
                &&& forall|k: int| 0 <= k < foes.len() && k != t ==> #[trigger] f1[k] == foes[k]
                &&& k1 == if foes[t].health <= 1 {
                    seq![t as usize]
                } else {
                    Seq::<usize>::empty()
                }
            }
            &&& !(shot.from_player && !shot.dead && t < foes.len()) ==> {
                &&& s1 == shot
                &&& f1 == foes
                &&& k1.len() == 0
            }
        }),
{
    lemma_first_target(foes, row, 0);
    let t = first_target_from(foes, row, 0);
    if t < foes.len() {
        assert(!foes[t].dead);
    }
}

/// The enemy bullet that hits the player is the first one in list order,
/// from `i` on, that is an enemy bullet, not yet spent, and touching the
/// player; every bullet before it is a player bullet, spent or not touching,
/// and when there is none, no bullet from `i` on qualifies.
pub proof fn lemma_first_hit_shot(shots: Seq<Shot>, touch: Seq<bool>, i: int)
    requires
        0 <= i <= shots.len(),
    ensures
        i <= first_hit_shot(shots, touch, i) <= shots.len(),
        first_hit_shot(shots, touch, i) < shots.len() ==> {
            let r = first_hit_shot(shots, touch, i);
            !shots[r].from_player && !shots[r].dead && touch[r]
        },
        forall|k: int|
            i <= k < first_hit_shot(shots, touch, i) ==> (#[trigger] shots[k]).from_player
                || shots[k].dead || !touch[k],
    decreases shots.len() - i,
{
    if i < shots.len() && !(!shots[i].from_player && !shots[i].dead && touch[i]) {
        lemma_first_hit_shot(shots, touch, i + 1);
    }
}

proof fn lemma_resolve_len(shots: Seq<Shot>, foes: Seq<Foe>, touching: Seq<Seq<bool>>, n: nat)
    requires
        n <= shots.len(),
    ensures
        resolve_shots(shots, foes, touching, n).0.len() == shots.len(),
    decreases n,
{
    if n > 0 {
        lemma_resolve_len(shots, foes, touching, (n - 1) as nat);
    }
}

/// The first live enemy from `e` on that `row` marks.
fn find_target(foes: &Vec<Foe>, row: &Vec<bool>, e0: usize) -> (t: usize)
    requires
        row@.len() == foes@.len(),
        e0 <= foes@.len(),
    ensures
        t == first_target_from(foes@, row@, e0 as int),
        e0 <= t <= foes@.len(),
        t < foes@.len() ==> !foes@[t as int].dead && row@[t as int],
        forall|k: int| e0 <= k < t ==> (#[trigger] foes@[k]).dead || !row@[k],
{
    proof {
        lemma_first_target(foes@, row@, e0 as int);
    }
    let mut e: usize = e0;
    while e < foes.len() && !(!foes[e].dead && row[e])
        invariant
            e0 <= e <= foes@.len(),
            row@.len() == foes@.len(),
            first_target_from(foes@, row@, e0 as int) == first_target_from(foes@, row@, e as int),
        decreases foes@.len() - e,
    {
        e += 1;
    }
    e
}

/// Player bullets against enemies, in bullet order: each live player bullet
/// hits the first live enemy it touches (`touching[b][e]`), is spent, and
/// takes one health off it; an enemy at zero health dies. Returns the
/// enemies killed, in the order they died.
pub fn resolve_player_shots(shots: &mut Vec<Shot>, foes: &mut Vec<Foe>, touching: &Vec<Vec<bool>>) -> (kills: Vec<usize>)
    requires
        touching@.len() == old(shots)@.len(),
        forall|b: int| 0 <= b < touching@.len() ==> (#[trigger] touching@[b])@.len() == old(foes)@.len(),
        live_health_ok(old(foes)@),
    ensures
        (final(shots)@, final(foes)@, kills@) == resolve_shots(
            old(shots)@,
            old(foes)@,
            grid(touching@),
            old(shots)@.len() as nat,
        ),
{
    let ghost s0 = shots@;
    let ghost f0 = foes@;
    let ghost g = grid(touching@);
    let mut kills: Vec<usize> = Vec::new();
    let mut b: usize = 0;
    while b < shots.len()
        invariant
            b <= shots@.len(),
            shots@.len() == s0.len(),
            foes@.len() == f0.len(),
            touching@.len() == s0.len(),
            g == grid(touching@),
            forall|k: int| 0 <= k < touching@.len() ==> (#[trigger] touching@[k])@.len() == f0.len(),
            live_health_ok(foes@),
            (shots@, foes@, kills@) == resolve_shots(s0, f0, g, b as nat),
        decreases s0.len() - b,
    {
        proof {
            lemma_resolve_len(s0, f0, g, b as nat);
            assert(g[b as int] == touching@[b as int]@);
        }
        let shot = shots[b];
        if shot.from_player && !shot.dead {
            let t: usize = find_target(foes, &touching[b], 0);
            proof {
                lemma_first_target(foes@, touching@[b as int]@, 0);
            }
            if t < foes.len() {
                let f = foes[t];
                let hit = Foe { kind: f.kind, health: f.health - 1, dead: f.health - 1 <= 0 };
                foes.set(t, hit);
                shots.set(b, Shot { from_player: shot.from_player, dead: true });
                if hit.dead {
                    kills.push(t);
                }
            }
        }
        proof {
            let (s, f, k) = resolve_shots(s0, f0, g, b as nat);
            let (s1, f1, k1) = shot_step(s[b as int], f, g[b as int]);
            assert(shots@ =~= s.update(b as int, s1));
            assert(foes@ =~= f1);
            assert(kills@ =~= k + k1);
            assert forall|e: int| 0 <= e < foes@.len() && !(#[trigger] foes@[e]).dead implies foes@[e].health
                > i32::MIN by {
                assert(!f[e].dead ==> f[e].health > i32::MIN);
            }
        }
        b += 1;
    }
    kills
}

/// Every enemy is killed at most once: the enemies killed were alive before
/// and are dead after, no enemy appears twice among them, and no dead
/// enemy comes back. So each kill is scored once.
pub proof fn lemma_kills_are_distinct(shots: Seq<Shot>, foes: Seq<Foe>, touching: Seq<Seq<bool>>, n: nat)
    requires
        n <= shots.len(),
        foes.len() <= usize::MAX,
        touching.len() == shots.len(),
        forall|b: int| 0 <= b < touching.len() ==> (#[trigger] touching[b]).len() == foes.len(),
    ensures
        ({
            let (s, f, k) = resolve_shots(shots, foes, touching, n);
            &&& f.len() == foes.len()
            &&& forall|e: int| 0 <= e < foes.len() && (#[trigger] foes[e]).dead ==> f[e].dead
            &&& forall|i: int|
                0 <= i < k.len() ==> #[trigger] k[i] < f.len() && f[k[i] as int].dead
                    && !foes[k[i] as int].dead
            &&& forall|i: int, j: int| 0 <= i < j < k.len() ==> k[i] != k[j]
        }),
    decreases n,
{
    if n > 0 {
        let m: nat = (n - 1) as nat;
        lemma_kills_are_distinct(shots, foes, touching, m);
        lemma_resolve_len(shots, foes, touching, m);
        let (s, f, k) = resolve_shots(shots, foes, touching, m);
        let shot = s[m as int];
        let row = touching[m as int];
        if shot.from_player && !shot.dead {
            lemma_first_target(f, row, 0);
            let t: int = first_target_from(f, row, 0);
            if t < f.len() {
                let (s1, f1, k1) = shot_step(shot, f, row);
                let k2 = k + k1;
                assert(!f[t].dead);
                assert(foes[t].dead ==> f[t].dead);
                assert forall|e: int| 0 <= e < foes.len() && (#[trigger] foes[e]).dead implies f1[e].dead by {
                    assert(f[e].dead);
                }
                assert forall|i: int| 0 <= i < k2.len() implies #[trigger] k2[i] < f1.len()
                    && f1[k2[i] as int].dead && !foes[k2[i] as int].dead by {
                    if i < k.len() {
                        assert(k2[i] == k[i]);
                        assert(f[k[i] as int].dead);
                        assert(k[i] != t);
                        assert(f1[k[i] as int] == f[k[i] as int]);
                    } else {
                        assert(k1 == seq![t as usize]);
                        assert(k2[i] as int == t);
                    }
                }
                assert forall|i: int, j: int| 0 <= i < j < k2.len() implies k2[i] != k2[j] by {
                    if j >= k.len() {
                        assert(k2[i] == k[i]);
                        assert(f[k[i] as int].dead);
                        assert(k2[j] as int == t);
                    } else {
                        assert(k2[i] == k[i] && k2[j] == k[j]);
                    }
                }
            }
        }
    }
}

/// The first live enemy bullet at or after `i` that touches the player, or
/// the number of bullets.
pub open spec fn first_hit_shot(shots: Seq<Shot>, touch: Seq<bool>, i: int) -> int
    decreases shots.len() - i,
{
    if i < 0 || i >= shots.len() {
        shots.len() as int
    } else if !shots[i].from_player && !shots[i].dead && touch[i] {
        i
    } else {
        first_hit_shot(shots, touch, i + 1)
    }
}

/// Some live enemy touches the player.
pub open spec fn any_contact(foes: Seq<Foe>, touch: Seq<bool>) -> bool {
    exists|e: int| 0 <= e < foes.len() && !(#[trigger] foes[e]).dead && touch[e]
}

/// Whether the player is hit this frame. Never while invincible; otherwise
/// the first live enemy bullet touching the player (`shot_touch`) is spent
/// and hits, and failing that, any live enemy touching the player
/// (`foe_touch`) hits.
pub fn player_hit(
    shots: &mut Vec<Shot>,
    foes: &Vec<Foe>,
    shot_touch: &Vec<bool>,
    foe_touch: &Vec<bool>,
    invincible: bool,
) -> (hit: bool)
    requires
        shot_touch@.len() == old(shots)@.len(),
        foe_touch@.len() == foes@.len(),
    ensures
        ({
            let i: int = first_hit_shot(old(shots)@, shot_touch@, 0);
            if invincible {
                !hit && final(shots)@ == old(shots)@
            } else if i < old(shots)@.len() {
                hit && final(shots)@ == old(shots)@.update(i, spent(old(shots)@[i]))
            } else {
                hit == any_contact(foes@, foe_touch@) && final(shots)@ == old(shots)@
            }
        }),
{
    if invincible {
        return false;
    }
    let mut i: usize = 0;
    while i < shots.len() && !(!shots[i].from_player && !shots[i].dead && shot_touch[i])
        invariant
            i <= shots@.len(),
            shots@ == old(shots)@,
            !invincible,
            shot_touch@.len() == shots@.len(),
            first_hit_shot(shots@, shot_touch@, 0) == first_hit_shot(shots@, shot_touch@, i as int),
        decreases shots@.len() - i,
    {
        i += 1;
    }
    if i < shots.len() {
        let s = shots[i];
        shots.set(i, Shot { from_player: s.from_player, dead: true });
        return true;
    }
    let mut e: usize = 0;
    while e < foes.len()
        invariant
            e <= foes@.len(),
            shots@ == old(shots)@,
            !invincible,
            first_hit_shot(old(shots)@, shot_touch@, 0) >= old(shots)@.len(),
            foe_touch@.len() == foes@.len(),
            forall|k: int| 0 <= k < e ==> !(!foes@[k].dead && foe_touch@[k]),
        decreases foes@.len() - e,
    {
        if !foes[e].dead && foe_touch[e] {
            assert(!foes@[e as int].dead && foe_touch@[e as int]);
            return true;
        }
        e += 1;
    }
    false
}

} // verus!
