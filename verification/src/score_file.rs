//! The text form of the high-score table: one row per line, the initials,
//! white space and the score in decimal. Lines that do not start with two
//! words, the second a decimal `u32`, are skipped.
use vstd::prelude::*;
use crate::ranking::{ScoreEntry, rows};

verus! {

// ---------------------------------------------------------------------------
// Characters
// ---------------------------------------------------------------------------

/// The characters that Unicode gives the White_Space property.
pub open spec fn is_space(c: char) -> bool {
    let n: u32 = c as u32;
    ||| 9 <= n <= 13
    ||| n == 32
    ||| n == 0x85
    ||| n == 0xa0
    ||| n == 0x1680
    ||| 0x2000 <= n <= 0x200a
    ||| n == 0x2028
    ||| n == 0x2029
    ||| n == 0x202f
    ||| n == 0x205f
    ||| n == 0x3000
}

/// Whether `c` is white space.
pub fn is_space_char(c: char) -> (b: bool)
    ensures
        b == is_space(c),
{
    let n: u32 = c as u32;
    (9 <= n && n <= 13) || n == 32 || n == 0x85 || n == 0xa0 || n == 0x1680 || (0x2000 <= n
        && n <= 0x200a) || n == 0x2028 || n == 0x2029 || n == 0x202f || n == 0x205f || n == 0x3000
}

/// An ASCII decimal digit.
pub open spec fn is_digit(c: char) -> bool {
    48 <= (c as u32) <= 57
}

/// The value of an ASCII decimal digit.
pub open spec fn digit_value(c: char) -> nat {
    ((c as u32) - 48) as nat
}

/// The character of a decimal digit.
pub open spec fn digit_char(d: nat) -> char {
    if d == 0 {
        '0'
    } else if d == 1 {
        '1'
    } else if d == 2 {
        '2'
    } else if d == 3 {
        '3'
    } else if d == 4 {
        '4'
    } else if d == 5 {
        '5'
    } else if d == 6 {
        '6'
    } else if d == 7 {
        '7'
    } else if d == 8 {
        '8'
    } else {
        '9'
    }
}

// ---------------------------------------------------------------------------
// Reading
// ---------------------------------------------------------------------------

/// `s` without its leading white space.
pub open spec fn skip_space(s: Seq<char>) -> Seq<char>
    decreases s.len(),
{
    if s.len() > 0 && is_space(s[0]) {
        skip_space(s.drop_first())
    } else {
        s
    }
}

/// The number of characters before the first white space of `s`.
pub open spec fn word_len(s: Seq<char>) -> nat
    decreases s.len(),
{
    if s.len() > 0 && !is_space(s[0]) {
        1 + word_len(s.drop_first())
    } else {
        0
    }
}

/// The first white-space separated word of `s` and what follows it, or
/// `None` when `s` holds only white space.
pub open spec fn next_word(s: Seq<char>) -> Option<(Seq<char>, Seq<char>)> {
    let t = skip_space(s);
    if t.len() == 0 {
        None
    } else {
        Some((t.take(word_len(t) as int), t.skip(word_len(t) as int)))
    }
}

/// The value of a string of decimal digits.
pub open spec fn digits_value(d: Seq<char>) -> nat
    decreases d.len(),
{
    if d.len() == 0 {
        0
    } else {
        digits_value(d.drop_last()) * 10 + digit_value(d.last())
    }
}

/// A word without its leading `+`, if it has one.
pub open spec fn unsigned_part(w: Seq<char>) -> Seq<char> {
    if w.len() > 0 && w[0] == '+' {
        w.drop_first()
    } else {
        w
    }
}

/// Every character of `d` is a decimal digit.
pub open spec fn all_digits(d: Seq<char>) -> bool {
    forall|i: int| 0 <= i < d.len() ==> is_digit(#[trigger] d[i])
}

/// A decimal `u32`: an optional `+`, then one or more digits, of a value
/// that fits.
pub open spec fn parse_u32(w: Seq<char>) -> Option<u32> {
    let d = unsigned_part(w);
    if d.len() > 0 && all_digits(d) && digits_value(d) <= u32::MAX {
        Some(digits_value(d) as u32)
    } else {
        None
    }
}

/// The row that a line holds: its first word, and its second word read as a
/// score; further words are ignored.
pub open spec fn parse_row(line: Seq<char>) -> Option<(Seq<char>, u32)> {
    match next_word(line) {
        None => None,
        Some((initials, rest)) => match next_word(rest) {
            None => None,
            Some((number, _)) => match parse_u32(number) {
                None => None,
                Some(score) => Some((initials, score)),
            },
        },
    }
}

/// The number of characters before the first line feed of `s`.
pub open spec fn line_len(s: Seq<char>) -> nat
    decreases s.len(),
{
    if s.len() > 0 && s[0] != '\n' {
        1 + line_len(s.drop_first())
    } else {
        0
    }
}

/// The rows of a text: each line, up to a line feed or the end, gives the
/// row that it holds, if any.
pub open spec fn parse_rows(s: Seq<char>) -> Seq<(Seq<char>, u32)>
    decreases s.len(),
{
    if s.len() == 0 {
        Seq::empty()
    } else {
        let n: nat = line_len(s);
        let head = match parse_row(s.take(n as int)) {
            Some(r) => seq![r],
            None => Seq::empty(),
        };
        if n < s.len() {
            head + parse_rows(s.skip(n + 1 as int))
        } else {
            head
        }
    }
}

// ---------------------------------------------------------------------------
// Writing
// ---------------------------------------------------------------------------

/// The decimal digits of `n`, without leading zeros.
pub open spec fn decimal(n: nat) -> Seq<char>
    decreases n,
{
    if n < 10 {
        seq![digit_char(n)]
    } else {
        decimal(n / 10).push(digit_char(n % 10))
    }
}

/// One line of the file: initials, a space, the score, a line feed.
pub open spec fn row_text(r: (Seq<char>, u32)) -> Seq<char> {
    r.0 + seq![' '] + decimal(r.1 as nat) + seq!['\n']
}

/// The file that holds `s`, one line per row.
pub open spec fn rows_text(s: Seq<(Seq<char>, u32)>) -> Seq<char>
    decreases s.len(),
{
    if s.len() == 0 {
        Seq::empty()
    } else {
        row_text(s[0]) + rows_text(s.drop_first())
    }
}

// ---------------------------------------------------------------------------
// Reading back what was written
// ---------------------------------------------------------------------------

/// Initials that survive a round trip through the file: at least one
/// character and no white space.
pub open spec fn is_word(w: Seq<char>) -> bool {
    w.len() > 0 && forall|i: int| 0 <= i < w.len() ==> !is_space(#[trigger] w[i])
}

/// The decimal form of `n` is a digit string of value `n`.
proof fn lemma_decimal(n: nat)
    ensures
        decimal(n).len() > 0,
        all_digits(decimal(n)),
        digits_value(decimal(n)) == n,
    decreases n,
{
    if n >= 10 {
        lemma_decimal(n / 10);
        let d = decimal(n);
        assert(d.drop_last() =~= decimal(n / 10));
        assert(forall|i: int| 0 <= i < d.len() - 1 ==> d[i] == decimal(n / 10)[i]);
        lemma_digit_char(n % 10);
        assert(d.last() == digit_char(n % 10));
        assert(digits_value(d) == digits_value(decimal(n / 10)) * 10 + digit_value(d.last()));
        assert(n == (n / 10) * 10 + n % 10);
    } else {
        lemma_digit_char(n);
        assert(decimal(n).drop_last() =~= Seq::<char>::empty());
        assert(digits_value(decimal(n)) == digits_value(Seq::<char>::empty()) * 10 + digit_value(
            decimal(n).last(),
        ));
    }
}

/// `digit_char` gives the digit of each value below ten.
proof fn lemma_digit_char(d: nat)
    requires
        d < 10,
    ensures
        is_digit(digit_char(d)),
        digit_value(digit_char(d)) == d,
{
}

/// A digit string has no white space and no `+`.
proof fn lemma_digits_not_space(d: Seq<char>)
    requires
        all_digits(d),
    ensures
        forall|i: int| 0 <= i < d.len() ==> !is_space(#[trigger] d[i]) && d[i] != '+' && d[i]
            != '\n',
{
    assert forall|i: int| 0 <= i < d.len() implies !is_space(#[trigger] d[i]) && d[i] != '+'
        && d[i] != '\n' by {
        assert(is_digit(d[i]));
    }
}

/// A word followed by nothing or by white space is read whole.
proof fn lemma_word_len(w: Seq<char>, rest: Seq<char>)
    requires
        forall|i: int| 0 <= i < w.len() ==> !is_space(#[trigger] w[i]),
        rest.len() == 0 || is_space(rest[0]),
    ensures
        word_len(w + rest) == w.len(),
    decreases w.len(),
{
    if w.len() > 0 {
        assert((w + rest).drop_first() =~= w.drop_first() + rest);
        lemma_word_len(w.drop_first(), rest);
    } else {
        assert(w + rest =~= rest);
    }
}

/// The first line of `a + [line feed] + b` is `a` when `a` holds no line feed.
proof fn lemma_line_len(a: Seq<char>, b: Seq<char>)
    requires
        forall|i: int| 0 <= i < a.len() ==> #[trigger] a[i] != '\n',
    ensures
        line_len(a + seq!['\n'] + b) == a.len(),
    decreases a.len(),
{
    if a.len() > 0 {
        assert((a + seq!['\n'] + b).drop_first() =~= a.drop_first() + seq!['\n'] + b);
        lemma_line_len(a.drop_first(), b);
    } else {
        assert(a + seq!['\n'] + b =~= seq!['\n'] + b);
    }
}

/// A written line reads back as its row.
proof fn lemma_parse_row_text(r: (Seq<char>, u32))
    requires
        is_word(r.0),
    ensures
        parse_row(r.0 + seq![' '] + decimal(r.1 as nat)) == Some(r),
{
    let dec = decimal(r.1 as nat);
    lemma_decimal(r.1 as nat);
    lemma_digits_not_space(dec);
    let line = r.0 + seq![' '] + dec;
    assert(line =~= r.0 + (seq![' '] + dec));
    lemma_word_len(r.0, seq![' '] + dec);
    assert(skip_space(line) == line);
    assert(line.take(r.0.len() as int) =~= r.0);
    assert(line.skip(r.0.len() as int) =~= seq![' '] + dec);
    let rest = seq![' '] + dec;
    assert(rest.drop_first() =~= dec);
    assert(skip_space(rest) == skip_space(dec));
    assert(skip_space(dec) == dec);
    assert(dec =~= dec + Seq::<char>::empty());
    lemma_word_len(dec, Seq::<char>::empty());
    assert(dec.take(dec.len() as int) =~= dec);
    assert(unsigned_part(dec) == dec);
}

/// Rows whose initials are words read back from their text unchanged.
pub proof fn lemma_parse_rows_text(s: Seq<(Seq<char>, u32)>)
    requires
        forall|i: int| 0 <= i < s.len() ==> is_word(#[trigger] s[i].0),
    ensures
        parse_rows(rows_text(s)) == s,
    decreases s.len(),
{
    if s.len() == 0 {
        assert(rows_text(s) =~= Seq::<char>::empty());
        assert(parse_rows(rows_text(s)) =~= s);
    } else {
        let r = s[0];
        assert(is_word(r.0));
        let dec = decimal(r.1 as nat);
        lemma_decimal(r.1 as nat);
        lemma_digits_not_space(dec);
        let line = r.0 + seq![' '] + dec;
        let tail = rows_text(s.drop_first());
        let t = rows_text(s);
        assert(t =~= line + seq!['\n'] + tail);
        assert forall|i: int| 0 <= i < line.len() implies #[trigger] line[i] != '\n' by {
            if i < r.0.len() {
                assert(!is_space(r.0[i]));
            } else if i > r.0.len() {
                assert(line[i] == dec[i - r.0.len() - 1]);
            }
        }
        lemma_line_len(line, tail);
        assert(t.take(line.len() as int) =~= line);
        assert(t.skip(line.len() + 1 as int) =~= tail);
        lemma_parse_row_text(r);
        assert forall|i: int| 0 <= i < s.drop_first().len() implies is_word(
            #[trigger] s.drop_first()[i].0,
        ) by {
            assert(s.drop_first()[i] == s[i + 1]);
        }
        lemma_parse_rows_text(s.drop_first());
        assert(parse_rows(t) =~= seq![r] + s.drop_first());
        assert(s =~= seq![r] + s.drop_first());
    }
}

// ---------------------------------------------------------------------------
// Executable reading and writing
// ---------------------------------------------------------------------------

/// Calls `String::push`. Trusted, not proved: the contract states what std
/// documents, that the character is appended at the end.
#[verifier::external_body]
fn push_char(s: &mut String, c: char)
    ensures
        final(s)@ == old(s)@.push(c),
{
    s.push(c);
}

/// The characters of `text`, in order.
fn chars_of(text: &str) -> (v: Vec<char>)
    ensures
        v@ == text@,
{
    let mut v: Vec<char> = Vec::new();
    for c in it: text.chars()
        invariant
            v@ == it.seq().take(it.index() as int),
    {
        v.push(c);
    }
    v
}

/// The first position in `lo..hi` that is not white space, or `hi`.
fn skip_space_at(v: &Vec<char>, lo: usize, hi: usize) -> (i: usize)
    requires
        lo <= hi <= v@.len(),
    ensures
        lo <= i <= hi,
        skip_space(v@.subrange(lo as int, hi as int)) == v@.subrange(i as int, hi as int),
{
    let mut i: usize = lo;
    while i < hi && is_space_char(v[i])
        invariant
            lo <= i <= hi <= v@.len(),
            skip_space(v@.subrange(lo as int, hi as int)) == skip_space(
                v@.subrange(i as int, hi as int),
            ),
        decreases hi - i,
    {
        assert(v@.subrange(i as int, hi as int).drop_first() =~= v@.subrange(i + 1, hi as int));
        i += 1;
    }
    if i == hi {
        assert(v@.subrange(i as int, hi as int) =~= Seq::<char>::empty());
    }
    i
}

/// The first position in `lo..hi` that is white space, or `hi`.
fn word_end_at(v: &Vec<char>, lo: usize, hi: usize) -> (j: usize)
    requires
        lo <= hi <= v@.len(),
    ensures
        lo <= j <= hi,
        word_len(v@.subrange(lo as int, hi as int)) == j - lo,
{
    let mut j: usize = lo;
    while j < hi && !is_space_char(v[j])
        invariant
            lo <= j <= hi <= v@.len(),
            word_len(v@.subrange(lo as int, hi as int)) == (j - lo) + word_len(
                v@.subrange(j as int, hi as int),
            ),
        decreases hi - j,
    {
        assert(v@.subrange(j as int, hi as int).drop_first() =~= v@.subrange(j + 1, hi as int));
        j += 1;
    }
    j
}

/// The first line feed at or after `lo`, or the end.
fn line_end_at(v: &Vec<char>, lo: usize) -> (j: usize)
    requires
        lo <= v@.len(),
    ensures
        lo <= j <= v@.len(),
        line_len(v@.subrange(lo as int, v@.len() as int)) == j - lo,
{
    let mut j: usize = lo;
    while j < v.len() && v[j] != '\n'
        invariant
            lo <= j <= v@.len(),
            line_len(v@.subrange(lo as int, v@.len() as int)) == (j - lo) + line_len(
                v@.subrange(j as int, v@.len() as int),
            ),
        decreases v@.len() - j,
    {
        assert(v@.subrange(j as int, v@.len() as int).drop_first() =~= v@.subrange(
            j + 1,
            v@.len() as int,
        ));
        j += 1;
    }
    j
}

/// A value of a digit string is at least that of each prefix.
proof fn lemma_digits_value_prefix(d: Seq<char>, k: int)
    requires
        0 <= k <= d.len(),
    ensures
        digits_value(d) >= digits_value(d.take(k)),
    decreases d.len() - k,
{
    if k < d.len() {
        lemma_digits_value_prefix(d.drop_last(), k);
        assert(d.drop_last().take(k) =~= d.take(k));
    } else {
        assert(d.take(k) =~= d);
    }
}

/// Reads `v[lo..hi]` as a decimal `u32`.
fn parse_u32_at(v: &Vec<char>, lo: usize, hi: usize) -> (n: Option<u32>)
    requires
        lo <= hi <= v@.len(),
    ensures
        n == parse_u32(v@.subrange(lo as int, hi as int)),
{
    let ghost w = v@.subrange(lo as int, hi as int);
    let mut start: usize = lo;
    if start < hi && v[start] == '+' {
        start += 1;
    }
    let ghost d = v@.subrange(start as int, hi as int);
    assert(d == unsigned_part(w));
    if start == hi {
        return None;
    }
    let mut acc: u64 = 0;
    let mut i: usize = start;
    while i < hi
        invariant
            lo <= start <= i <= hi <= v@.len(),
            d == v@.subrange(start as int, hi as int),
            w == v@.subrange(lo as int, hi as int),
            d == unsigned_part(w),
            d.len() > 0,
            acc == digits_value(d.take(i - start)),
            acc <= u32::MAX,
            forall|k: int| 0 <= k < i - start ==> is_digit(#[trigger] d[k]),
        decreases hi - i,
    {
        let c = v[i];
        let code: u32 = c as u32;
        if code < 48 || code > 57 {
            assert(!is_digit(d[i - start]));
            return None;
        }
        proof {
            assert(d.take(i - start + 1).drop_last() =~= d.take(i - start));
            assert(d.take(i - start + 1).last() == c);
        }
        acc = acc * 10 + (code - 48) as u64;
        if acc > u32::MAX as u64 {
            proof {
                lemma_digits_value_prefix(d, i - start + 1);
            }
            return None;
        }
        i += 1;
    }
    proof {
        assert(d.take(i - start) =~= d);
    }
    Some(acc as u32)
}

/// A `String` of the characters `v[lo..hi]`.
fn string_of(v: &Vec<char>, lo: usize, hi: usize) -> (s: String)
    requires
        lo <= hi <= v@.len(),
    ensures
        s@ == v@.subrange(lo as int, hi as int),
{
    let mut s = String::new();
    let mut i: usize = lo;
    while i < hi
        invariant
            lo <= i <= hi <= v@.len(),
            s@ == v@.subrange(lo as int, i as int),
        decreases hi - i,
    {
        push_char(&mut s, v[i]);
        assert(s@ =~= v@.subrange(lo as int, i + 1));
        i += 1;
    }
    s
}

/// A `String` of the characters of `v`.
pub(crate) fn string_from_chars(v: &Vec<char>) -> (s: String)
    ensures
        s@ == v@,
{
    let s = string_of(v, 0, v.len());
    assert(v@.subrange(0, v@.len() as int) =~= v@);
    s
}

/// The first word of `v[lo..hi]`, as the positions `(a, b)` it spans.
fn next_word_at(v: &Vec<char>, lo: usize, hi: usize) -> (r: Option<(usize, usize)>)
    requires
        lo <= hi <= v@.len(),
    ensures
        match r {
            None => next_word(v@.subrange(lo as int, hi as int)) is None,
            Some((a, b)) => {
                &&& lo <= a <= b <= hi
                &&& next_word(v@.subrange(lo as int, hi as int)) == Some(
                    (v@.subrange(a as int, b as int), v@.subrange(b as int, hi as int)),
                )
            },
        },
{
    let a: usize = skip_space_at(v, lo, hi);
    if a == hi {
        return None;
    }
    let b: usize = word_end_at(v, a, hi);
    let ghost t = v@.subrange(a as int, hi as int);
    assert(t.take(b - a) =~= v@.subrange(a as int, b as int));
    assert(t.skip(b - a) =~= v@.subrange(b as int, hi as int));
    Some((a, b))
}

/// The row that the line `v[lo..hi]` holds, if any.
fn parse_row_at(v: &Vec<char>, lo: usize, hi: usize) -> (r: Option<ScoreEntry>)
    requires
        lo <= hi <= v@.len(),
    ensures
        match r {
            None => parse_row(v@.subrange(lo as int, hi as int)) is None,
            Some(e) => parse_row(v@.subrange(lo as int, hi as int)) == Some(e@),
        },
{
    match next_word_at(v, lo, hi) {
        None => None,
        Some((a, b)) => match next_word_at(v, b, hi) {
            None => None,
            Some((c, d)) => match parse_u32_at(v, c, d) {
                None => None,
                Some(score) => Some(ScoreEntry { initials: string_of(v, a, b), score }),
            },
        },
    }
}

/// The rows of a score file's text.
pub fn parse_scores(text: &str) -> (out: Vec<ScoreEntry>)
    ensures
        rows(out@) == parse_rows(text@),
{
    let v = chars_of(text);
    let len: usize = v.len();
    let mut out: Vec<ScoreEntry> = Vec::new();
    let mut pos: usize = 0;
    assert(v@.subrange(0, len as int) =~= v@);
    while pos < len
        invariant
            len == v@.len(),
            v@ == text@,
            pos <= len,
            rows(out@) + parse_rows(v@.subrange(pos as int, len as int)) == parse_rows(v@),
        decreases len - pos,
    {
        let j: usize = line_end_at(&v, pos);
        let ghost t = v@.subrange(pos as int, len as int);
        assert(t.take(j - pos) =~= v@.subrange(pos as int, j as int));
        let ghost head = match parse_row(t.take(j - pos)) {
            Some(r) => seq![r],
            None => Seq::empty(),
        };
        let ghost before = rows(out@);
        match parse_row_at(&v, pos, j) {
            Some(e) => {
                out.push(e);
                assert(rows(out@) =~= before + head);
            },
            None => {
                assert(rows(out@) =~= before + head);
            },
        }
        if j < len {
            assert(t.skip(j - pos + 1) =~= v@.subrange(j + 1, len as int));
            assert(parse_rows(t) == head + parse_rows(v@.subrange(j + 1, len as int)));
            assert(rows(out@) + parse_rows(v@.subrange(j + 1, len as int)) =~= before
                + parse_rows(t));
            pos = j + 1;
        } else {
            assert(parse_rows(t) == head);
            assert(v@.subrange(len as int, len as int) =~= Seq::<(char)>::empty());
            assert(rows(out@) + parse_rows(v@.subrange(len as int, len as int)) =~= before
                + parse_rows(t));
            pos = len;
        }
    }
    assert(rows(out@) =~= rows(out@) + parse_rows(v@.subrange(len as int, len as int)));
    out
}

/// Appends the decimal digits of `n`.
fn push_decimal(s: &mut String, n: u32)
    ensures
        final(s)@ == old(s)@ + decimal(n as nat),
    decreases n,
{
    if n >= 10 {
        push_decimal(s, n / 10);
    }
    let d: u32 = n % 10;
    let c = if d == 0 {
        '0'
    } else if d == 1 {
        '1'
    } else if d == 2 {
        '2'
    } else if d == 3 {
        '3'
    } else if d == 4 {
        '4'
    } else if d == 5 {
        '5'
    } else if d == 6 {
        '6'
    } else if d == 7 {
        '7'
    } else if d == 8 {
        '8'
    } else {
        '9'
    };
    push_char(s, c);
    assert(s@ =~= old(s)@ + decimal(n as nat));
}

/// The text of a score file holding `entries`, one line each.
pub fn scores_text(entries: &Vec<ScoreEntry>) -> (text: String)
    ensures
        text@ == rows_text(rows(entries@)),
{
    let ghost r = rows(entries@);
    let mut text = String::new();
    let mut i: usize = 0;
    assert(r.skip(0) =~= r);
    while i < entries.len()
        invariant
            r == rows(entries@),
            i <= entries@.len(),
            text@ + rows_text(r.skip(i as int)) == rows_text(r),
        decreases entries@.len() - i,
    {
        let ghost before = text@;
        let e = &entries[i];
        text.append(e.initials.as_str());
        push_char(&mut text, ' ');
        push_decimal(&mut text, e.score);
        push_char(&mut text, '\n');
        proof {
            assert(r.skip(i as int).drop_first() =~= r.skip(i + 1));
            assert(r.skip(i as int)[0] == r[i as int]);
            assert(text@ =~= before + row_text(r[i as int]));
            assert(text@ + rows_text(r.skip(i + 1)) =~= before + rows_text(r.skip(i as int)));
        }
        i += 1;
    }
    assert(r.skip(i as int) =~= Seq::<(Seq<char>, u32)>::empty());
    assert(text@ + rows_text(r.skip(i as int)) =~= text@);
    text
}

} // verus!
