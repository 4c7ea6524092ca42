//! Score entries and their ordering: best score first, ties kept in the
//! order in which they arrived.
use vstd::prelude::*;

verus! {

/// One row of the high-score table.
pub struct ScoreEntry {
    pub initials: String,
    pub score: u32,
}

impl View for ScoreEntry {
    type V = (Seq<char>, u32);

    open spec fn view(&self) -> (Seq<char>, u32) {
        (self.initials@, self.score)
    }
}

/// The abstract rows of a vector of entries.
pub open spec fn rows(v: Seq<ScoreEntry>) -> Seq<(Seq<char>, u32)> {
    v.map_values(|e: ScoreEntry| e@)
}

/// Rows run from the highest score down.
pub open spec fn is_ranked(s: Seq<(Seq<char>, u32)>) -> bool {
    forall|i: int, j: int| 0 <= i <= j < s.len() ==> s[i].1 >= s[j].1
}

/// Predicate: the row has score `v`.
pub open spec fn score_is(v: u32) -> spec_fn((Seq<char>, u32)) -> bool {
    |e: (Seq<char>, u32)| e.1 == v
}

/// The rows with score `v`, in their order in `s`.
pub open spec fn with_score(s: Seq<(Seq<char>, u32)>, v: u32) -> Seq<(Seq<char>, u32)> {
    s.filter(score_is(v))
}

/// `a` and `b` hold the same rows, and rows of equal score come in the same
/// order in both.
pub open spec fn same_ties(a: Seq<(Seq<char>, u32)>, b: Seq<(Seq<char>, u32)>) -> bool {
    forall|v: u32| #[trigger] with_score(a, v) == with_score(b, v)
}

/// Where a new score goes: before the first row whose score it beats, or at
/// the end.
pub open spec fn rank_in(s: Seq<(Seq<char>, u32)>, score: u32) -> nat
    decreases s.len(),
{
    if s.len() == 0 {
        0
    } else if score > s[0].1 {
        0
    } else {
        1 + rank_in(s.drop_first(), score)
    }
}

/// `rank_in` is the first position whose score is beaten.
pub proof fn lemma_rank_in(s: Seq<(Seq<char>, u32)>, score: u32)
    ensures
        rank_in(s, score) <= s.len(),
        forall|i: int| 0 <= i < rank_in(s, score) ==> s[i].1 >= score,
        rank_in(s, score) < s.len() ==> s[rank_in(s, score) as int].1 < score,
    decreases s.len(),
{
    if s.len() > 0 && score <= s[0].1 {
        lemma_rank_in(s.drop_first(), score);
        assert forall|i: int| 0 <= i < rank_in(s, score) implies s[i].1 >= score by {
            if i > 0 {
                assert(s[i] == s.drop_first()[i - 1]);
            }
        }
    }
}

/// A filter that keeps nothing of `s` is empty.
proof fn lemma_filter_none(s: Seq<(Seq<char>, u32)>, p: spec_fn((Seq<char>, u32)) -> bool)
    requires
        forall|i: int| 0 <= i < s.len() ==> !p(s[i]),
    ensures
        s.filter(p) == Seq::<(Seq<char>, u32)>::empty(),
{
    if s.filter(p).len() > 0 {
        let x = s.filter(p)[0];
        s.lemma_filter_pred(p, 0);
        assert(s.filter(p).contains(x));
        s.lemma_filter_contains_rev(p, x);
        let k: int = choose|k: int| 0 <= k < s.len() && s[k] == x;
        assert(!p(s[k]));
    }
    assert(s.filter(p) =~= Seq::<(Seq<char>, u32)>::empty());
}

/// Inserting a row at its rank keeps a ranked sequence ranked, and puts it
/// after the rows of equal score.
pub proof fn lemma_insert_at_rank(s: Seq<(Seq<char>, u32)>, x: (Seq<char>, u32))
    requires
        is_ranked(s),
    ensures
        is_ranked(s.insert(rank_in(s, x.1) as int, x)),
        forall|v: u32|
            #[trigger] with_score(s.insert(rank_in(s, x.1) as int, x), v) == if v == x.1 {
                with_score(s, v).push(x)
            } else {
                with_score(s, v)
            },
{
    lemma_rank_in(s, x.1);
    let p: int = rank_in(s, x.1) as int;
    let t = s.insert(p, x);
    assert forall|i: int, j: int| 0 <= i <= j < t.len() implies t[i].1 >= t[j].1 by {
        if i < p && j > p {
            assert(t[j] == s[j - 1]);
        } else if i > p {
            assert(t[i] == s[i - 1] && t[j] == s[j - 1]);
        }
    }
    assert forall|v: u32|
        #[trigger] with_score(t, v) == if v == x.1 {
            with_score(s, v).push(x)
        } else {
            with_score(s, v)
        } by {
        let pr = score_is(v);
        assert(t =~= s.take(p) + (seq![x] + s.skip(p)));
        assert(s =~= s.take(p) + s.skip(p));
        Seq::filter_distributes_over_add(s.take(p), seq![x] + s.skip(p), pr);
        Seq::filter_distributes_over_add(s.take(p), s.skip(p), pr);
        s.skip(p).lemma_filter_prepend(x, pr);
        if v == x.1 {
            assert forall|i: int| 0 <= i < s.skip(p).len() implies !pr(s.skip(p)[i]) by {
                assert(s.skip(p)[i] == s[p + i]);
                assert(s[p].1 >= s[p + i].1);
            }
            lemma_filter_none(s.skip(p), pr);
            assert(with_score(t, v) =~= with_score(s, v).push(x));
        } else {
            assert(with_score(t, v) =~= with_score(s, v));
        }
    }
}

/// In a ranked sequence, the first row carries the best score.
proof fn lemma_first_is_best(a: Seq<(Seq<char>, u32)>, b: Seq<(Seq<char>, u32)>)
    requires
        is_ranked(a),
        is_ranked(b),
        same_ties(a, b),
        a.len() > 0,
    ensures
        b.len() > 0,
        b[0].1 >= a[0].1,
{
    let m: u32 = a[0].1;
    a.lemma_filter_contains(score_is(m), 0);
    assert(with_score(a, m) == with_score(b, m));
    b.lemma_filter_contains_rev(score_is(m), a[0]);
    let k: int = choose|k: int| 0 <= k < b.len() && b[k] == a[0];
    assert(b[0].1 >= b[k].1);
}

/// Removing equal first rows keeps the same ties.
proof fn lemma_same_ties_tail(a: Seq<(Seq<char>, u32)>, b: Seq<(Seq<char>, u32)>)
    requires
        same_ties(a, b),
        a.len() > 0,
        b.len() > 0,
        a[0] == b[0],
    ensures
        same_ties(a.drop_first(), b.drop_first()),
{
    assert(a =~= seq![a[0]] + a.drop_first());
    assert(b =~= seq![b[0]] + b.drop_first());
    assert forall|v: u32|
        #[trigger] with_score(a.drop_first(), v) == with_score(b.drop_first(), v) by {
        a.drop_first().lemma_filter_prepend(a[0], score_is(v));
        b.drop_first().lemma_filter_prepend(b[0], score_is(v));
        assert(with_score(a, v) == with_score(b, v));
        if v == a[0].1 {
            assert(with_score(a.drop_first(), v) =~= with_score(a, v).drop_first());
            assert(with_score(b.drop_first(), v) =~= with_score(b, v).drop_first());
        } else {
            assert(with_score(a.drop_first(), v) == with_score(a, v));
        }
    }
}

/// Two ranked sequences with the same ties are equal: ranking by score,
/// keeping ties in arrival order, has exactly one outcome.
pub proof fn lemma_ranked_unique(a: Seq<(Seq<char>, u32)>, b: Seq<(Seq<char>, u32)>)
    requires
        is_ranked(a),
        is_ranked(b),
        same_ties(a, b),
    ensures
        a == b,
    decreases a.len() + b.len(),
{
    if a.len() == 0 && b.len() == 0 {
        assert(a =~= b);
    } else if a.len() == 0 {
        lemma_first_is_best(b, a);
    } else {
        lemma_first_is_best(a, b);
        lemma_first_is_best(b, a);
        let m: u32 = a[0].1;
        assert(a =~= seq![a[0]] + a.drop_first());
        assert(b =~= seq![b[0]] + b.drop_first());
        a.drop_first().lemma_filter_prepend(a[0], score_is(m));
        b.drop_first().lemma_filter_prepend(b[0], score_is(m));
        assert(with_score(a, m) == with_score(b, m));
        assert(with_score(a, m)[0] == a[0]);
        assert(with_score(b, m)[0] == b[0]);
        lemma_same_ties_tail(a, b);
        assert(is_ranked(a.drop_first()));
        assert(is_ranked(b.drop_first()));
        lemma_ranked_unique(a.drop_first(), b.drop_first());
        assert(a =~= b);
    }
}

/// The position at which a new `score` enters `entries`: before the first
/// entry whose score it beats, or at the end.
pub fn rank_among(entries: &Vec<ScoreEntry>, score: u32) -> (r: usize)
    ensures
        r == rank_in(rows(entries@), score),
{
    let ghost s = rows(entries@);
    let mut i: usize = 0;
    while i < entries.len() && !(score > entries[i].score)
        invariant
            s == rows(entries@),
            i <= entries.len(),
            forall|k: int| 0 <= k < i ==> s[k].1 >= score,
        decreases entries.len() - i,
    {
        i += 1;
    }
    proof {
        lemma_rank_in(s, score);
        let r: nat = rank_in(s, score);
        if i < r {
            assert(s[i as int].1 >= score);
        } else if r < i {
            assert(s[r as int].1 >= score);
        }
    }
    i
}

/// Orders entries from the highest score down; entries of equal score keep
/// their order.
pub fn sort_by_score(entries: Vec<ScoreEntry>) -> (sorted: Vec<ScoreEntry>)
    ensures
        is_ranked(rows(sorted@)),
        same_ties(rows(sorted@), rows(entries@)),
        sorted@.len() == entries@.len(),
{
    let ghost orig = rows(entries@);
    let mut rest = entries;
    let mut sorted: Vec<ScoreEntry> = Vec::new();
    let ghost mut k: int = 0;
    proof {
        assert forall|v: u32|
            #[trigger] with_score(rows(sorted@), v) == with_score(orig.take(0), v) by {
            lemma_filter_none(rows(sorted@), score_is(v));
            lemma_filter_none(orig.take(0), score_is(v));
        }
    }
    while rest.len() > 0
        invariant
            0 <= k <= orig.len(),
            rows(rest@) == orig.skip(k),
            rest@.len() == orig.len() - k,
            is_ranked(rows(sorted@)),
            same_ties(rows(sorted@), orig.take(k)),
            sorted@.len() == k,
        decreases rest.len(),
    {
        let ghost old_rest = rest@;
        let x = rest.remove(0);
        proof {
            assert(rows(old_rest)[0] == orig.skip(k)[0]);
            assert(x@ == orig[k]);
            assert forall|i: int| 0 <= i < rest@.len() implies rows(rest@)[i] == orig.skip(k + 1)[i] by {
                assert(rest@[i] == old_rest[i + 1]);
                assert(rows(old_rest)[i + 1] == orig.skip(k)[i + 1]);
            }
            assert(rows(rest@) =~= orig.skip(k + 1));
        }
        let p: usize = rank_among(&sorted, x.score);
        let ghost before = rows(sorted@);
        proof {
            lemma_rank_in(before, x.score);
        }
        sorted.insert(p, x);
        proof {
            lemma_insert_at_rank(before, x@);
            assert(rows(sorted@) =~= before.insert(p as int, x@));
            assert(orig.take(k + 1) =~= orig.take(k).push(x@));
            assert forall|v: u32|
                #[trigger] with_score(rows(sorted@), v) == with_score(orig.take(k + 1), v) by {
                orig.take(k).lemma_filter_push(x@, score_is(v));
                assert(with_score(before, v) == with_score(orig.take(k), v));
            }
            k = k + 1;
        }
    }
    proof {
        assert(orig.take(k) =~= orig);
    }
    sorted
}

} // verus!
