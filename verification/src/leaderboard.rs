//! The ten-slot high-score table.
use vstd::prelude::*;
use crate::ranking::{
    ScoreEntry, rows, is_ranked, same_ties, rank_in, with_score, score_is, rank_among, sort_by_score, lemma_rank_in,
    lemma_insert_at_rank, lemma_ranked_unique,
};
use crate::score_file::{
    parse_rows, rows_text, parse_scores, scores_text, is_word, lemma_parse_rows_text,
};

verus! {

/// How many rows the table keeps.
pub const TABLE_LEN: usize = 10;

/// The table that a fresh installation starts with.
pub open spec fn default_rows() -> Seq<(Seq<char>, u32)> {
    seq![
        (seq!['A', 'C', 'E'], 52000u32),
        (seq!['R', 'E', 'X'], 43500u32),
        (seq!['Z', 'A', 'X'], 37200u32),
        (seq!['K', 'A', 'I'], 31800u32),
        (seq!['M', 'A', 'X'], 27400u32),
        (seq!['J', 'A', 'X'], 23100u32),
        (seq!['L', 'E', 'X'], 19600u32),
        (seq!['V', 'E', 'X'], 16300u32),
        (seq!['D', 'U', 'O'], 13000u32),
        (seq!['H', 'A', 'L'], 10100u32),
    ]
}

/// The rows of `p` ranked by score, ties in their order in `p`.
pub open spec fn ranked_order(p: Seq<(Seq<char>, u32)>) -> Seq<(Seq<char>, u32)> {
    choose|r: Seq<(Seq<char>, u32)>| is_ranked(r) && same_ties(r, p) && r.len() == p.len()
}

/// The first ten rows of `s`, or all of them.
pub open spec fn keep_top(s: Seq<(Seq<char>, u32)>) -> Seq<(Seq<char>, u32)> {
    if s.len() > TABLE_LEN {
        s.take(TABLE_LEN as int)
    } else {
        s
    }
}

/// The table read from a score file's text: its rows ranked, the best ten
/// kept; the default table when the file holds fewer than ten rows.
pub open spec fn table_from_text(t: Seq<char>) -> Seq<(Seq<char>, u32)> {
    let p = parse_rows(t);
    if p.len() < TABLE_LEN {
        default_rows()
    } else {
        keep_top(ranked_order(p))
    }
}

/// The high-score table.
pub struct Leaderboard {
    entries: Vec<ScoreEntry>,
}

impl View for Leaderboard {
    type V = Seq<(Seq<char>, u32)>;

    closed spec fn view(&self) -> Seq<(Seq<char>, u32)> {
        rows(self.entries@)
    }
}

impl Leaderboard {
    /// A full table, best score first.
    pub open spec fn wf(&self) -> bool {
        self@.len() == TABLE_LEN && is_ranked(self@)
    }

    /// The rows, best first.
    pub fn entries(&self) -> (e: &Vec<ScoreEntry>)
        ensures
            rows(e@) == self@,
    {
        &self.entries
    }

    /// The default rows.
    pub fn defaults() -> (v: Vec<ScoreEntry>)
        ensures
            rows(v@) == default_rows(),
    {
        proof {
            reveal_strlit("ACE");
            reveal_strlit("REX");
            reveal_strlit("ZAX");
            reveal_strlit("KAI");
            reveal_strlit("MAX");
            reveal_strlit("JAX");
            reveal_strlit("LEX");
            reveal_strlit("VEX");
            reveal_strlit("DUO");
            reveal_strlit("HAL");
        }
        let v = vec![
            ScoreEntry { initials: String::from_str("ACE"), score: 52000 },
            ScoreEntry { initials: String::from_str("REX"), score: 43500 },
            ScoreEntry { initials: String::from_str("ZAX"), score: 37200 },
            ScoreEntry { initials: String::from_str("KAI"), score: 31800 },
            ScoreEntry { initials: String::from_str("MAX"), score: 27400 },
            ScoreEntry { initials: String::from_str("JAX"), score: 23100 },
            ScoreEntry { initials: String::from_str("LEX"), score: 19600 },
            ScoreEntry { initials: String::from_str("VEX"), score: 16300 },
            ScoreEntry { initials: String::from_str("DUO"), score: 13000 },
            ScoreEntry { initials: String::from_str("HAL"), score: 10100 },
        ];
        assert(rows(v@) =~~= default_rows());
        v
    }

    /// The table that a score file's text describes: its rows ranked best
    /// first (ties in file order) and cut to ten, or the default table when
    /// the text holds fewer than ten rows.
    pub fn from_text(text: &str) -> (b: Self)
        ensures
            b@ == table_from_text(text@),
            b.wf(),
            parse_rows(text@).len() < TABLE_LEN ==> b@ == default_rows(),
            parse_rows(text@).len() >= TABLE_LEN ==> exists|r: Seq<(Seq<char>, u32)>|
                is_ranked(r) && same_ties(r, parse_rows(text@)) && r.len() == parse_rows(text@).len()
                    && b@ == r.take(TABLE_LEN as int),
    {
        let parsed = parse_scores(text);
        let ghost p = rows(parsed@);
        let mut entries = sort_by_score(parsed);
        proof {
            let r = ranked_order(p);
            assert(is_ranked(rows(entries@)) && same_ties(rows(entries@), p) && rows(
                entries@,
            ).len() == p.len());
            assert(is_ranked(r) && same_ties(r, p) && r.len() == p.len());
            assert(same_ties(rows(entries@), r));
            lemma_ranked_unique(rows(entries@), r);
        }
        if entries.len() < TABLE_LEN {
            entries = Self::defaults();
        }
        let ghost before = rows(entries@);
        entries.truncate(TABLE_LEN);
        assert(rows(entries@) =~= keep_top(before));
        let b = Leaderboard { entries };
        proof {
            lemma_defaults_ranked();
            assert(is_ranked(b@));
            lemma_table_from_text(text@);
        }
        b
    }

    /// The text of the score file that holds this table.
    pub fn to_text(&self) -> (t: String)
        ensures
            t@ == rows_text(self@),
    {
        scores_text(&self.entries)
    }

    /// The best score on the table, 0 for an empty table.
    pub fn top_score(&self) -> (s: u32)
        ensures
            s == if self@.len() > 0 {
                self@[0].1
            } else {
                0
            },
    {
        if self.entries.len() > 0 {
            self.entries[0].score
        } else {
            0
        }
    }

    /// Whether `score` beats the lowest score on the table (or 0 for an
    /// empty table).
    pub fn qualifies(&self, score: u32) -> (q: bool)
        ensures
            q == (score > if self@.len() > 0 {
                self@.last().1
            } else {
                0
            }),
    {
        let n: usize = self.entries.len();
        if n > 0 {
            score > self.entries[n - 1].score
        } else {
            score > 0
        }
    }

    /// The position that `score` would take: before the first row whose score
    /// it beats, or after the last.
    pub fn rank_of(&self, score: u32) -> (r: usize)
        ensures
            r == rank_in(self@, score),
    {
        rank_among(&self.entries, score)
    }

    /// Enters a new row at the rank of its score, after rows of equal score,
    /// and keeps the best ten; returns that rank.
    pub fn insert(&mut self, initials: String, score: u32) -> (r: usize)
        ensures
            r == rank_in(old(self)@, score),
            final(self)@ == keep_top(old(self)@.insert(r as int, (initials@, score))),
            old(self).wf() ==> final(self).wf(),
            r < final(self)@.len() ==> final(self)@[r as int] == (initials@, score),
    {
        let r: usize = rank_among(&self.entries, score);
        let ghost before = self@;
        let ghost row = (initials@, score);
        proof {
            lemma_rank_in(before, score);
        }
        self.entries.insert(r, ScoreEntry { initials, score });
        let ghost inserted = rows(self.entries@);
        assert(inserted =~= before.insert(r as int, row));
        self.entries.truncate(TABLE_LEN);
        assert(self@ =~= keep_top(inserted));
        proof {
            if is_ranked(before) {
                lemma_insert_at_rank(before, row);
                assert(is_ranked(self@));
            }
        }
        r
    }
}

/// Saving a full, ranked table and loading it again gives the same table,
/// provided every row's initials are a non-empty run of non-space
/// characters.
pub proof fn lemma_save_then_load(b: Seq<(Seq<char>, u32)>)
    requires
        b.len() == TABLE_LEN,
        is_ranked(b),
        forall|i: int| 0 <= i < b.len() ==> is_word(#[trigger] b[i].0),
    ensures
        table_from_text(rows_text(b)) == b,
{
    lemma_parse_rows_text(b);
    assert(same_ties(b, b));
    let r = ranked_order(b);
    assert(is_ranked(r) && same_ties(r, b) && r.len() == b.len());
    lemma_ranked_unique(r, b);
}

/// A file with fewer than ten readable rows is discarded whole: the table
/// is exactly the default one. A file with ten or more gives its own best
/// ten, ranked, ties in file order.
pub proof fn lemma_table_from_text(t: Seq<char>)
    ensures
        parse_rows(t).len() < TABLE_LEN ==> table_from_text(t) == default_rows(),
        parse_rows(t).len() >= TABLE_LEN ==> exists|r: Seq<(Seq<char>, u32)>|
            is_ranked(r) && same_ties(r, parse_rows(t)) && r.len() == parse_rows(t).len()
                && table_from_text(t) == r.take(TABLE_LEN as int),
{
    let p = parse_rows(t);
    if p.len() >= TABLE_LEN {
        let r = ranked_order(p);
        if !(is_ranked(r) && same_ties(r, p) && r.len() == p.len()) {
            // a ranked order of `p` always exists
            lemma_ranking_exists(p);
        }
        assert(is_ranked(r) && same_ties(r, p) && r.len() == p.len());
        assert(table_from_text(t) == r.take(TABLE_LEN as int));
    }
}

/// Every sequence of rows has a ranked order.
proof fn lemma_ranking_exists(p: Seq<(Seq<char>, u32)>)
    ensures
        exists|r: Seq<(Seq<char>, u32)>| is_ranked(r) && same_ties(r, p) && r.len() == p.len(),
    decreases p.len(),
{
    if p.len() == 0 {
        assert(is_ranked(p) && same_ties(p, p) && p.len() == p.len());
    } else {
        let q = p.drop_last();
        lemma_ranking_exists(q);
        let r = choose|r: Seq<(Seq<char>, u32)>| is_ranked(r) && same_ties(r, q) && r.len() == q.len();
        let x = p.last();
        lemma_insert_at_rank(r, x);
        lemma_rank_in(r, x.1);
        let r2 = r.insert(rank_in(r, x.1) as int, x);
        assert(p =~= q.push(x));
        assert forall|v: u32| #[trigger] with_score(r2, v) == with_score(p, v) by {
            q.lemma_filter_push(x, score_is(v));
            assert(with_score(r, v) == with_score(q, v));
        }
        assert(is_ranked(r2) && same_ties(r2, p) && r2.len() == p.len());
    }
}

/// On a full ranked table, a score qualifies exactly when its rank lies
/// within the table, i.e. when an insert keeps it.
pub proof fn lemma_qualifies_iff_kept(b: Seq<(Seq<char>, u32)>, score: u32)
    requires
        b.len() > 0,
        is_ranked(b),
    ensures
        (score > b.last().1) <==> rank_in(b, score) < b.len(),
{
    lemma_rank_in(b, score);
    let r: nat = rank_in(b, score);
    if r < b.len() {
        assert(b[r as int].1 >= b.last().1);
    } else {
        assert(b.last().1 >= score);
    }
}

/// The first row of a ranked table holds its best score.
pub proof fn lemma_top_is_best(b: Seq<(Seq<char>, u32)>)
    requires
        b.len() > 0,
        is_ranked(b),
    ensures
        forall|i: int| 0 <= i < b.len() ==> b[0].1 >= #[trigger] b[i].1,
{
}

/// The default table runs best first.
proof fn lemma_defaults_ranked()
    ensures
        is_ranked(default_rows()),
        default_rows().len() == TABLE_LEN,
{
    let d = default_rows();
    assert forall|i: int, j: int| 0 <= i <= j < d.len() implies d[i].1 >= d[j].1 by {
        assert(d[0].1 == 52000u32 && d[1].1 == 43500u32 && d[2].1 == 37200u32 && d[3].1
            == 31800u32 && d[4].1 == 27400u32 && d[5].1 == 23100u32 && d[6].1 == 19600u32
            && d[7].1 == 16300u32 && d[8].1 == 13000u32 && d[9].1 == 10100u32);
    }
}

} // verus!
