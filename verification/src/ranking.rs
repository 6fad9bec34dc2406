//! Relevance of a command to a natural-language query, kept as an exact
//! fraction. A score adds whole-query bonuses (exact name, exact intent, an
//! example containing the query), the per-word matches divided by the number
//! of query words, and the fraction of the command's `_`-separated name parts
//! that the query names.
use vstd::prelude::*;
use vstd::arithmetic::div_mod::{lemma_fundamental_div_mod, lemma_fundamental_div_mod_converse};

use crate::text::{char_views, chars_eq, contains_chars, has_substring, pieces, split_pieces, words};

verus! {

// ---------------------------------------------------------------------------
// Scores
// ---------------------------------------------------------------------------

/// Twice a relevance score, held exactly:
/// `whole + word_rest / words + name_rest / parts`.
#[derive(Debug, Clone, Copy, PartialEq, Eq, Structural)]
pub struct Score {
    /// The whole part of twice the score.
    pub whole: u128,
    /// The remainder of the per-word points, in units of `1 / words`.
    pub word_rest: u128,
    /// How many words the query has.
    pub words: u128,
    /// The remainder of the name coverage, in units of `1 / parts`.
    pub name_rest: u128,
    /// How many `_`-separated parts the command's name has.
    pub parts: u128,
}

impl Score {
    /// Both remainders are proper fractions of positive counts.
    pub open spec fn wf(self) -> bool {
        &&& 1 <= self.words <= usize::MAX
        &&& self.word_rest < self.words
        &&& 1 <= self.parts <= usize::MAX
        &&& self.name_rest < self.parts
    }

    /// The score is `numer() / denom()`.
    pub open spec fn numer(self) -> int {
        (self.whole * self.words + self.word_rest) * self.parts + self.name_rest * self.words
    }

    /// The score is `numer() / denom()`.
    pub open spec fn denom(self) -> int {
        2 * self.words * self.parts
    }
}

/// Score `a` is higher than score `b`.
#[verifier::opaque]
pub open spec fn score_above(a: Score, b: Score) -> bool {
    a.numer() * b.denom() > b.numer() * a.denom()
}

/// Scores `a` and `b` are equal.
#[verifier::opaque]
pub open spec fn score_ties(a: Score, b: Score) -> bool {
    a.numer() * b.denom() == b.numer() * a.denom()
}

/// The score is above zero.
#[verifier::opaque]
pub open spec fn score_positive(s: Score) -> bool {
    s.numer() > 0
}

// ---------------------------------------------------------------------------
// What a command scores
// ---------------------------------------------------------------------------

/// How many of the words `ws` occur in `field`.
pub open spec fn hit_count(field: Seq<char>, ws: Seq<Seq<char>>) -> nat
    decreases ws.len(),
{
    if ws.len() == 0 {
        0
    } else {
        hit_count(field, ws.drop_last()) + if has_substring(field, ws.last()) {
            1nat
        } else {
            0nat
        }
    }
}

/// How many of the words `ws` equal one of the name parts `ps`.
pub open spec fn part_hits(ps: Seq<Seq<char>>, ws: Seq<Seq<char>>) -> nat
    decreases ws.len(),
{
    if ws.len() == 0 {
        0
    } else {
        part_hits(ps, ws.drop_last()) + if ps.contains(ws.last()) {
            1nat
        } else {
            0nat
        }
    }
}

/// How many of the non-empty name parts `ps` are among the words `ws`.
pub open spec fn covered_parts(ps: Seq<Seq<char>>, ws: Seq<Seq<char>>) -> nat
    decreases ps.len(),
{
    if ps.len() == 0 {
        0
    } else {
        covered_parts(ps.drop_last(), ws) + if ps.last().len() > 0 && ws.contains(ps.last()) {
            1nat
        } else {
            0nat
        }
    }
}

/// How many of the words `ws` occur in an optional field.
pub open spec fn opt_hits(field: Option<Seq<char>>, ws: Seq<Seq<char>>) -> nat {
    match field {
        Some(f) => hit_count(f, ws),
        None => 0,
    }
}

/// The first `k` examples scanned in order: whether one of them contains the
/// whole query `q` (the scan stops there), and how many word matches the
/// examples before it contribute.
pub open spec fn example_scan(exs: Seq<Seq<char>>, q: Seq<char>, ws: Seq<Seq<char>>, k: int) -> (bool, nat)
    decreases k,
{
    if k <= 0 {
        (false, 0)
    } else {
        let prev = example_scan(exs, q, ws, k - 1);
        if prev.0 {
            prev
        } else if has_substring(exs[k - 1], q) {
            (true, prev.1)
        } else {
            (false, prev.1 + hit_count(exs[k - 1], ws))
        }
    }
}

/// The query with its spaces turned into underscores.
pub open spec fn underscored(q: Seq<char>) -> Seq<char> {
    q.map_values(|c: char| if c == ' ' { '_' } else { c })
}

/// Twice the whole-query bonuses: exact name 10, exact intent 8, an example
/// containing the query 4.
pub open spec fn exact_points(name: Seq<char>, intent: Option<Seq<char>>, example_hit: bool, q: Seq<char>) -> nat {
    (if name == underscored(q) {
        20nat
    } else {
        0nat
    }) + (if intent == Some(q) {
        16nat
    } else {
        0nat
    }) + (if example_hit {
        8nat
    } else {
        0nat
    })
}

/// Twice the per-word points before they are divided by the number of words:
/// 3 for each word in the name, 2 for each word that is a name part, 1.5 in
/// the description, 2.5 in the intent, 1 in the category, and 0.5 for each
/// word match in the examples scanned.
pub open spec fn word_points(
    name: Seq<char>,
    description: Option<Seq<char>>,
    intent: Option<Seq<char>>,
    category: Option<Seq<char>>,
    example_words: nat,
    ws: Seq<Seq<char>>,
) -> nat {
    6 * hit_count(name, ws) + 4 * part_hits(pieces(name, '_'), ws) + 3 * opt_hits(description, ws) + 5
        * opt_hits(intent, ws) + 2 * opt_hits(category, ws) + example_words
}

/// The score of a command whose (lower-cased) name, description, intent,
/// category and examples are given, against the (lower-cased) query `q`.
pub open spec fn ranked_score(
    name: Seq<char>,
    description: Option<Seq<char>>,
    intent: Option<Seq<char>>,
    category: Option<Seq<char>>,
    examples: Seq<Seq<char>>,
    q: Seq<char>,
) -> Score {
    let ws = words(q);
    let ps = pieces(name, '_');
    let scan = example_scan(examples, q, ws, examples.len() as int);
    let e = exact_points(name, intent, scan.0, q);
    let s = word_points(name, description, intent, category, scan.1, ws);
    let m = 2 * covered_parts(ps, ws);
    Score {
        whole: (e + s / ws.len() + m / ps.len()) as u128,
        word_rest: (s % ws.len()) as u128,
        words: ws.len() as u128,
        name_rest: (m % ps.len()) as u128,
        parts: ps.len() as u128,
    }
}

/// The characters of an optional slice.
pub open spec fn opt_chars(o: Option<&[char]>) -> Option<Seq<char>> {
    match o {
        Some(s) => Some(s@),
        None => None,
    }
}

// ---------------------------------------------------------------------------
// Computing a score
// ---------------------------------------------------------------------------

proof fn lemma_hit_count_bound(field: Seq<char>, ws: Seq<Seq<char>>)
    ensures
        hit_count(field, ws) <= ws.len(),
    decreases ws.len(),
{
    if ws.len() > 0 {
        lemma_hit_count_bound(field, ws.drop_last());
    }
}

proof fn lemma_part_hits_bound(ps: Seq<Seq<char>>, ws: Seq<Seq<char>>)
    ensures
        part_hits(ps, ws) <= ws.len(),
    decreases ws.len(),
{
    if ws.len() > 0 {
        lemma_part_hits_bound(ps, ws.drop_last());
    }
}

proof fn lemma_covered_bound(ps: Seq<Seq<char>>, ws: Seq<Seq<char>>)
    ensures
        covered_parts(ps, ws) <= ps.len(),
    decreases ps.len(),
{
    if ps.len() > 0 {
        lemma_covered_bound(ps.drop_last(), ws);
    }
}

proof fn lemma_scan_settled(exs: Seq<Seq<char>>, q: Seq<char>, ws: Seq<Seq<char>>, j: int, k: int)
    requires
        0 <= j <= k,
        example_scan(exs, q, ws, j).0,
    ensures
        example_scan(exs, q, ws, k) == example_scan(exs, q, ws, j),
    decreases k - j,
{
    if k > j {
        lemma_scan_settled(exs, q, ws, j, k - 1);
    }
}

/// How many of the words `ws` occur in `field`.
fn count_hits(field: &[char], ws: &[Vec<char>]) -> (r: usize)
    ensures
        r == hit_count(field@, char_views(ws@)),
{
    let mut n: usize = 0;
    let mut i: usize = 0;
    while i < ws.len()
        invariant
            i <= ws@.len(),
            n == hit_count(field@, char_views(ws@).take(i as int)),
            n <= i,
        decreases ws.len() - i,
    {
        let ghost t = char_views(ws@).take(i + 1);
        assert(t.drop_last() =~= char_views(ws@).take(i as int));
        assert(t.last() == ws@[i as int]@);
        if contains_chars(field, ws[i].as_slice()) {
            n = n + 1;
        }
        i = i + 1;
    }
    assert(char_views(ws@).take(ws.len() as int) =~= char_views(ws@));
    n
}

/// Whether `w` is one of `list`.
fn listed_word(list: &[Vec<char>], w: &[char]) -> (r: bool)
    ensures
        r == char_views(list@).contains(w@),
{
    let mut i: usize = 0;
    while i < list.len()
        invariant
            i <= list@.len(),
            forall|j: int| 0 <= j < i ==> list@[j]@ != w@,
        decreases list.len() - i,
    {
        if chars_eq(list[i].as_slice(), w) {
            assert(char_views(list@)[i as int] == w@);
            return true;
        }
        i = i + 1;
    }
    proof {
        if char_views(list@).contains(w@) {
            let j = choose|j: int| 0 <= j < char_views(list@).len() && char_views(list@)[j] == w@;
            assert(list@[j]@ == w@);
        }
    }
    false
}

/// How many of the words `ws` are name parts.
fn count_part_hits(ps: &[Vec<char>], ws: &[Vec<char>]) -> (r: usize)
    ensures
        r == part_hits(char_views(ps@), char_views(ws@)),
{
    let mut n: usize = 0;
    let mut i: usize = 0;
    while i < ws.len()
        invariant
            i <= ws@.len(),
            n == part_hits(char_views(ps@), char_views(ws@).take(i as int)),
            n <= i,
        decreases ws.len() - i,
    {
        let ghost t = char_views(ws@).take(i + 1);
        assert(t.drop_last() =~= char_views(ws@).take(i as int));
        assert(t.last() == ws@[i as int]@);
        if listed_word(ps, ws[i].as_slice()) {
            n = n + 1;
        }
        i = i + 1;
    }
    assert(char_views(ws@).take(ws.len() as int) =~= char_views(ws@));
    n
}

/// How many non-empty name parts are among the words `ws`.
fn count_covered(ps: &[Vec<char>], ws: &[Vec<char>]) -> (r: usize)
    ensures
        r == covered_parts(char_views(ps@), char_views(ws@)),
{
    let mut n: usize = 0;
    let mut i: usize = 0;
    while i < ps.len()
        invariant
            i <= ps@.len(),
            n == covered_parts(char_views(ps@).take(i as int), char_views(ws@)),
            n <= i,
        decreases ps.len() - i,
    {
        let ghost t = char_views(ps@).take(i + 1);
        assert(t.drop_last() =~= char_views(ps@).take(i as int));
        assert(t.last() == ps@[i as int]@);
        if ps[i].len() > 0 && listed_word(ws, ps[i].as_slice()) {
            n = n + 1;
        }
        i = i + 1;
    }
    assert(char_views(ps@).take(ps.len() as int) =~= char_views(ps@));
    n
}

fn opt_count_hits(field: Option<&[char]>, ws: &[Vec<char>]) -> (r: usize)
    ensures
        r == opt_hits(opt_chars(field), char_views(ws@)),
{
    match field {
        Some(f) => count_hits(f, ws),
        None => 0,
    }
}

fn underscore_spaces(q: &[char]) -> (r: Vec<char>)
    ensures
        r@ == underscored(q@),
{
    let mut r: Vec<char> = Vec::new();
    let mut i: usize = 0;
    while i < q.len()
        invariant
            i <= q@.len(),
            r@ == underscored(q@.take(i as int)),
        decreases q.len() - i,
    {
        let c = q[i];
        r.push(if c == ' ' { '_' } else { c });
        i = i + 1;
        assert(r@ =~= underscored(q@.take(i as int)));
    }
    assert(q@.take(q.len() as int) =~= q@);
    r
}

/// `s = small + carried * w` divides by `w` as `carried` plus `small / w`.
proof fn lemma_split_points(s: int, small: int, carried: int, w: int)
    requires
        w >= 1,
        small >= 0,
        carried >= 0,
        s == small + carried * w,
    ensures
        s / w == carried + small / w,
        s % w == small % w,
{
    lemma_fundamental_div_mod(small, w);
    assert((carried + small / w) * w == carried * w + (small / w) * w) by (nonlinear_arith);
    lemma_fundamental_div_mod_converse(s, w, carried + small / w, small % w);
}

/// The examples scanned until one holds the whole query: whether one does,
/// and the word matches before it as `carried * words + rest`.
fn scan_examples(examples: &[Vec<char>], query: &[char], ws: &[Vec<char>]) -> (r: (bool, u128, u128))
    requires
        ws@.len() > 0,
    ensures
        r.2 < ws@.len(),
        r.1 <= examples@.len(),
        example_scan(char_views(examples@), query@, char_views(ws@), examples@.len() as int) == (
        r.0,
        (r.1 * ws@.len() + r.2) as nat,
        ),
{
    let ghost wsv = char_views(ws@);
    let ghost exv = char_views(examples@);
    let w = ws.len() as u128;
    let mut found = false;
    let mut carried: u128 = 0;
    let mut rest: u128 = 0;
    let mut j: usize = 0;
    while j < examples.len() && !found
        invariant
            j <= examples@.len(),
            exv == char_views(examples@),
            wsv == char_views(ws@),
            w == wsv.len(),
            w >= 1,
            w <= usize::MAX,
            rest < w,
            carried <= j,
            example_scan(exv, query@, wsv, j as int) == (found, (carried * w + rest) as nat),
        decreases examples.len() - j,
    {
        let ex = examples[j].as_slice();
        assert(exv[j as int] == examples@[j as int]@);
        if contains_chars(ex, query) {
            found = true;
        } else {
            let h = count_hits(ex, ws);
            proof {
                lemma_hit_count_bound(exv[j as int], wsv);
            }
            let t = rest + h as u128;
            if t >= w {
                assert((carried + 1) * w == carried * w + w) by (nonlinear_arith);
                carried = carried + 1;
                rest = t - w;
            } else {
                rest = t;
            }
        }
        j = j + 1;
    }
    proof {
        if found {
            lemma_scan_settled(exv, query@, wsv, j as int, exv.len() as int);
        }
    }
    (found, carried, rest)
}

/// Twice the per-word points of the name, name parts, description, intent
/// and category, before division by the number of words.
fn field_points(
    name: &[char],
    ps: &[Vec<char>],
    description: Option<&[char]>,
    intent: Option<&[char]>,
    category: Option<&[char]>,
    ws: &[Vec<char>],
) -> (r: u128)
    requires
        ws@.len() > 0,
    ensures
        r + 0 == 6 * hit_count(name@, char_views(ws@)) + 4 * part_hits(char_views(ps@), char_views(ws@))
            + 3 * opt_hits(opt_chars(description), char_views(ws@)) + 5 * opt_hits(opt_chars(intent), char_views(ws@))
            + 2 * opt_hits(opt_chars(category), char_views(ws@)),
        r <= 20 * ws@.len(),
{
    let ghost wsv = char_views(ws@);
    proof {
        lemma_hit_count_bound(name@, wsv);
        lemma_part_hits_bound(char_views(ps@), wsv);
        match opt_chars(description) {
            Some(d) => lemma_hit_count_bound(d, wsv),
            None => {},
        }
        match opt_chars(intent) {
            Some(d) => lemma_hit_count_bound(d, wsv),
            None => {},
        }
        match opt_chars(category) {
            Some(d) => lemma_hit_count_bound(d, wsv),
            None => {},
        }
    }
    let name_hits = count_hits(name, ws) as u128;
    let part_hit = count_part_hits(ps, ws) as u128;
    let desc_hits = opt_count_hits(description, ws) as u128;
    let intent_hits = opt_count_hits(intent, ws) as u128;
    let cat_hits = opt_count_hits(category, ws) as u128;
    6 * name_hits + 4 * part_hit + 3 * desc_hits + 5 * intent_hits + 2 * cat_hits
}

/// The score `exact + carried + small / w + covered / n`, with the two
/// remainders.
fn assemble(exact: u128, carried: u128, small: u128, covered: u128, w: u128, n: u128) -> (r: Score)
    requires
        exact <= 44,
        carried <= usize::MAX,
        small <= 21 * w,
        covered <= 2 * n,
        1 <= w <= usize::MAX,
        1 <= n <= usize::MAX,
    ensures
        r.whole == exact + carried + small / w + covered / n,
        r.word_rest == small % w,
        r.words == w,
        r.name_rest == covered % n,
        r.parts == n,
        r.wf(),
{
    assert(small / w <= 21) by (nonlinear_arith)
        requires
            small <= 21 * w,
            w >= 1,
    ;
    assert(covered / n <= 2) by (nonlinear_arith)
        requires
            covered <= 2 * n,
            n >= 1,
    ;
    Score { whole: exact + carried + small / w + covered / n, word_rest: small % w, words: w, name_rest: covered % n, parts: n }
}

/// The score of a command against a query, all text already lower-cased;
/// `ws` are the query's words.
pub fn score_lowered(
    name: &[char],
    description: Option<&[char]>,
    intent: Option<&[char]>,
    category: Option<&[char]>,
    examples: &[Vec<char>],
    query: &[char],
    ws: &[Vec<char>],
) -> (r: Score)
    requires
        char_views(ws@) == words(query@),
        ws@.len() > 0,
    ensures
        r == ranked_score(
            name@,
            opt_chars(description),
            opt_chars(intent),
            opt_chars(category),
            char_views(examples@),
            query@,
        ),
        r.wf(),
        r.words == ws@.len(),
{
    let ghost wsv = char_views(ws@);
    let ghost exv = char_views(examples@);
    let ps = split_pieces(name, '_');
    proof {
        crate::text::lemma_pieces_nonempty(name@, '_', seq![]);
    }
    let w = ws.len() as u128;
    let n = ps.len() as u128;
    // Exact bonuses.
    let mut exact: u128 = 0;
    let und = underscore_spaces(query);
    if chars_eq(name, und.as_slice()) {
        exact = exact + 20;
    }
    match intent {
        Some(i) => {
            if chars_eq(i, query) {
                exact = exact + 16;
            }
        },
        None => {},
    }
    let (found, carried, rest) = scan_examples(examples, query, ws);
    assert(carried <= examples.len());
    if found {
        exact = exact + 8;
    }
    // Per-word points other than the examples'.
    let small = field_points(name, ps.as_slice(), description, intent, category, ws) + rest;
    let covered = 2 * (count_covered(ps.as_slice(), ws) as u128);
    proof {
        lemma_covered_bound(char_views(ps@), wsv);
    }
    let r = assemble(exact, carried, small, covered, w, n);
    proof {
        let scan = example_scan(exv, query@, wsv, exv.len() as int);
        let s = word_points(name@, opt_chars(description), opt_chars(intent), opt_chars(category), scan.1, wsv);
        assert(s == small + carried * w);
        lemma_split_points(s as int, small as int, carried as int, w as int);
        assert(char_views(ps@) == pieces(name@, '_'));
    }
    r
}


// ---------------------------------------------------------------------------
// Comparing scores
// ---------------------------------------------------------------------------

/// `K * N + s` against `K' * N' + s'`, cross-multiplied: the whole parts
/// decide unless they are equal, and then the remainders do.
proof fn lemma_cross_compare(ka: int, sa: int, na: int, kb: int, sb: int, nb: int)
    requires
        na >= 1,
        nb >= 1,
        0 <= sa < na,
        0 <= sb < nb,
        ka >= 0,
        kb >= 0,
    ensures
        ka > kb ==> (ka * na + sa) * nb > (kb * nb + sb) * na,
        ka == kb ==> (ka * na + sa) * nb - (kb * nb + sb) * na == sa * nb - sb * na,
{
    assert((ka * na + sa) * nb == ka * na * nb + sa * nb) by (nonlinear_arith);
    assert((kb * nb + sb) * na == kb * na * nb + sb * na) by (nonlinear_arith);
    assert(sb * na < nb * na) by (nonlinear_arith)
        requires
            0 <= sb < nb,
            na >= 1,
    ;
    assert(sa * nb >= 0) by (nonlinear_arith)
        requires
            sa >= 0,
            nb >= 1,
    ;
    if ka > kb {
        assert(ka * na * nb >= (kb + 1) * na * nb) by (nonlinear_arith)
            requires
                ka >= kb + 1,
                na >= 1,
                nb >= 1,
        ;
        assert((kb + 1) * na * nb == kb * na * nb + nb * na) by (nonlinear_arith);
    }
}

/// The numerator of a score as `K * parts + s` with `s < parts`, where
/// `K = whole * words + word_rest + (name_rest * words) / parts`.
proof fn lemma_numer_split(sc: Score, q: int, s2: int)
    requires
        sc.wf(),
        q == (sc.name_rest * sc.words) / (sc.parts as int),
        s2 == (sc.name_rest * sc.words) % (sc.parts as int),
    ensures
        sc.numer() == (sc.whole * sc.words + sc.word_rest + q) * sc.parts + s2,
        0 <= s2 < sc.parts,
        0 <= q < sc.words,
{
    let n = sc.parts as int;
    let w = sc.words as int;
    let g = sc.name_rest * sc.words;
    lemma_fundamental_div_mod(g, n);
    assert(g == q * n + s2);
    assert((sc.whole * w + sc.word_rest + q) * n == (sc.whole * w + sc.word_rest) * n + q * n) by (nonlinear_arith);
    assert(q < w) by (nonlinear_arith)
        requires
            g == q * n + s2,
            0 <= s2,
            g == sc.name_rest * w,
            sc.name_rest < n,
            n >= 1,
            w >= 1,
    ;
    assert(q >= 0) by (nonlinear_arith)
        requires
            g == q * n + s2,
            s2 < n,
            g >= 0,
            n >= 1,
    ;
}

/// The order of two scores over the same query: positive when `a` is
/// higher, negative when `b` is, zero when they are equal.
pub fn compare_scores(a: &Score, b: &Score) -> (r: i8)
    requires
        a.wf(),
        b.wf(),
        a.words == b.words,
    ensures
        r > 0 <==> score_above(*a, *b),
        r < 0 <==> score_above(*b, *a),
        r == 0 <==> score_ties(*a, *b),
{
    proof {
        reveal(score_above);
        reveal(score_ties);
    }
    let w = a.words;
    assert(a.name_rest * w < 0x1_0000_0000_0000_0000_0000_0000_0000_0000) by (nonlinear_arith)
        requires
            a.name_rest < a.parts,
            a.parts <= usize::MAX,
            w <= usize::MAX,
            usize::MAX < 0x1_0000_0000_0000_0000,
    ;
    assert(b.name_rest * w < 0x1_0000_0000_0000_0000_0000_0000_0000_0000) by (nonlinear_arith)
        requires
            b.name_rest < b.parts,
            b.parts <= usize::MAX,
            w <= usize::MAX,
            usize::MAX < 0x1_0000_0000_0000_0000,
    ;
    let ga = a.name_rest * w;
    let gb = b.name_rest * w;
    let qa = ga / a.parts;
    let sa = ga % a.parts;
    let qb = gb / b.parts;
    let sb = gb % b.parts;
    let ghost ka = a.whole * w + a.word_rest + qa;
    let ghost kb = b.whole * w + b.word_rest + qb;
    proof {
        lemma_numer_split(*a, qa as int, sa as int);
        lemma_numer_split(*b, qb as int, sb as int);
        lemma_cross_compare(ka, sa as int, a.parts as int, kb, sb as int, b.parts as int);
        lemma_cross_compare(kb, sb as int, b.parts as int, ka, sa as int, a.parts as int);
        // Both denominators share the factor 2 * words.
        let na = a.parts as int;
        let nb = b.parts as int;
        assert(a.numer() * b.denom() == 2 * w * (a.numer() * nb)) by (nonlinear_arith)
            requires
                b.denom() == 2 * w * nb,
        ;
        assert(b.numer() * a.denom() == 2 * w * (b.numer() * na)) by (nonlinear_arith)
            requires
                a.denom() == 2 * w * na,
        ;
        let x = a.numer() * nb;
        let y = b.numer() * na;
        assert(x > y <==> 2 * w * x > 2 * w * y) by (nonlinear_arith)
            requires
                w >= 1,
        ;
        assert(x < y <==> 2 * w * x < 2 * w * y) by (nonlinear_arith)
            requires
                w >= 1,
        ;
        assert(a.whole * w - b.whole * w == (a.whole - b.whole) * w) by (nonlinear_arith);
    }
    let part_a = a.word_rest + qa;
    let part_b = b.word_rest + qb;
    if a.whole > b.whole && a.whole - b.whole > 1 {
        proof {
            assert((a.whole - b.whole) * w >= 2 * w) by (nonlinear_arith)
                requires
                    a.whole - b.whole >= 2,
                    w >= 1,
            ;
        }
        return 1;
    }
    if b.whole > a.whole && b.whole - a.whole > 1 {
        proof {
            assert((b.whole - a.whole) * w >= 2 * w) by (nonlinear_arith)
                requires
                    b.whole - a.whole >= 2,
                    w >= 1,
            ;
            assert(b.whole * w - a.whole * w == (b.whole - a.whole) * w) by (nonlinear_arith);
        }
        return -1;
    }
    let left = if a.whole > b.whole { part_a + w } else { part_a };
    let right = if b.whole > a.whole { part_b + w } else { part_b };
    proof {
        if a.whole == b.whole + 1 {
            assert((a.whole - b.whole) * w == w) by (nonlinear_arith)
                requires
                    a.whole - b.whole == 1,
            ;
        } else if b.whole == a.whole + 1 {
            assert((a.whole - b.whole) * w == -w) by (nonlinear_arith)
                requires
                    a.whole - b.whole == -1,
            ;
        } else {
            assert(a.whole == b.whole);
        }
        assert(ka - kb == left - right);
    }
    if left > right {
        return 1;
    }
    if left < right {
        return -1;
    }
    assert(sa * b.parts < 0x1_0000_0000_0000_0000_0000_0000_0000_0000) by (nonlinear_arith)
        requires
            sa < a.parts,
            a.parts <= usize::MAX,
            b.parts <= usize::MAX,
            usize::MAX < 0x1_0000_0000_0000_0000,
    ;
    assert(sb * a.parts < 0x1_0000_0000_0000_0000_0000_0000_0000_0000) by (nonlinear_arith)
        requires
            sb < b.parts,
            a.parts <= usize::MAX,
            b.parts <= usize::MAX,
            usize::MAX < 0x1_0000_0000_0000_0000,
    ;
    let x = sa * b.parts;
    let y = sb * a.parts;
    if x > y {
        1
    } else if x < y {
        -1
    } else {
        0
    }
}

/// Whether the score is above zero.
pub fn is_positive(s: &Score) -> (r: bool)
    requires
        s.wf(),
    ensures
        r == score_positive(*s),
{
    proof {
        reveal(score_positive);
        let w = s.words as int;
        let n = s.parts as int;
        assert(s.numer() >= 0) by (nonlinear_arith)
            requires
                s.numer() == (s.whole * w + s.word_rest) * n + s.name_rest * w,
                s.whole >= 0,
                s.word_rest >= 0,
                s.name_rest >= 0,
                w >= 1,
                n >= 1,
        ;
        if s.whole > 0 || s.word_rest > 0 || s.name_rest > 0 {
            assert(s.numer() > 0) by (nonlinear_arith)
                requires
                    s.numer() == (s.whole * w + s.word_rest) * n + s.name_rest * w,
                    s.whole >= 0,
                    s.word_rest >= 0,
                    s.name_rest >= 0,
                    s.whole > 0 || s.word_rest > 0 || s.name_rest > 0,
                    w >= 1,
                    n >= 1,
            ;
        } else {
            assert(s.numer() == 0) by (nonlinear_arith)
                requires
                    s.numer() == (s.whole * w + s.word_rest) * n + s.name_rest * w,
                    s.whole == 0,
                    s.word_rest == 0,
                    s.name_rest == 0,
            ;
        }
    }
    s.whole > 0 || s.word_rest > 0 || s.name_rest > 0
}

proof fn lemma_denom_positive(s: Score)
    requires
        s.wf(),
    ensures
        s.denom() > 0,
{
    assert(s.denom() > 0) by (nonlinear_arith)
        requires
            s.denom() == 2 * s.words * s.parts,
            s.words >= 1,
            s.parts >= 1,
    ;
}

/// Cross-multiplied comparison chains: from `x/dx ≥ y/dy ≥ z/dz` with
/// positive denominators follows `x/dx ≥ z/dz`, strictly when either step is.
proof fn lemma_fraction_chain(x: int, dx: int, y: int, dy: int, z: int, dz: int)
    requires
        dx > 0,
        dy > 0,
        dz > 0,
        x * dy >= y * dx,
        y * dz >= z * dy,
    ensures
        x * dz >= z * dx,
        (x * dy > y * dx || y * dz > z * dy) ==> x * dz > z * dx,
{
    assert(x * dy * dz >= y * dx * dz) by (nonlinear_arith)
        requires
            x * dy >= y * dx,
            dz > 0,
    ;
    assert(y * dz * dx >= z * dy * dx) by (nonlinear_arith)
        requires
            y * dz >= z * dy,
            dx > 0,
    ;
    assert(x * dy * dz == (x * dz) * dy && z * dy * dx == (z * dx) * dy && y * dx * dz == y * dz * dx)
        by (nonlinear_arith);
    assert(x * dz >= z * dx) by (nonlinear_arith)
        requires
            (x * dz) * dy >= (z * dx) * dy,
            dy > 0,
    ;
    if x * dy > y * dx || y * dz > z * dy {
        if x * dy > y * dx {
            assert(x * dy * dz > y * dx * dz) by (nonlinear_arith)
                requires
                    x * dy > y * dx,
                    dz > 0,
            ;
        } else {
            assert(y * dz * dx > z * dy * dx) by (nonlinear_arith)
                requires
                    y * dz > z * dy,
                    dx > 0,
            ;
        }
        assert(x * dz > z * dx) by (nonlinear_arith)
            requires
                (x * dz) * dy > (z * dx) * dy,
                dy > 0,
        ;
    }
}

/// Score order is transitive, ties included.
pub proof fn lemma_score_order_transitive(a: Score, b: Score, c: Score)
    requires
        a.wf(),
        b.wf(),
        c.wf(),
        score_above(a, b) || score_ties(a, b),
        score_above(b, c) || score_ties(b, c),
    ensures
        score_above(a, c) || score_ties(a, c),
        (score_above(a, b) || score_above(b, c)) ==> score_above(a, c),
{
    reveal(score_above);
    reveal(score_ties);
    lemma_denom_positive(a);
    lemma_denom_positive(b);
    lemma_denom_positive(c);
    lemma_fraction_chain(a.numer(), a.denom(), b.numer(), b.denom(), c.numer(), c.denom());
}

/// Of two scores, exactly one is higher or they tie.
pub proof fn lemma_score_trichotomy(a: Score, b: Score)
    ensures
        score_above(a, b) || score_above(b, a) || score_ties(a, b),
        !(score_above(a, b) && score_above(b, a)),
        score_ties(a, b) ==> !score_above(a, b) && !score_above(b, a),
        score_ties(a, b) == score_ties(b, a),
{
    reveal(score_above);
    reveal(score_ties);
}

// ---------------------------------------------------------------------------
// What each field contributes
// ---------------------------------------------------------------------------

/// The word matches of the first `k` examples scanned are at most `k` per
/// query word.
proof fn lemma_scan_words_bound(exs: Seq<Seq<char>>, q: Seq<char>, ws: Seq<Seq<char>>, k: int)
    requires
        0 <= k <= exs.len(),
    ensures
        example_scan(exs, q, ws, k).1 <= k * ws.len(),
    decreases k,
{
    if k > 0 {
        lemma_scan_words_bound(exs, q, ws, k - 1);
        lemma_hit_count_bound(exs[k - 1], ws);
        assert((k - 1) * ws.len() + ws.len() == k * ws.len()) by (nonlinear_arith);
    }
}

/// The numerator of a command's score, written without the division into
/// whole part and remainders: `(e * W + s) * P + m * W` over the denominator
/// `2 * W * P`, where `W` is the number of query words, `P` the number of
/// name parts, `e` twice the whole-query bonuses, `s` twice the per-word
/// points and `m` twice the covered name parts.
proof fn lemma_ranked_numer(
    name: Seq<char>,
    description: Option<Seq<char>>,
    intent: Option<Seq<char>>,
    category: Option<Seq<char>>,
    examples: Seq<Seq<char>>,
    q: Seq<char>,
)
    requires
        0 < words(q).len() <= usize::MAX,
        pieces(name, '_').len() <= usize::MAX,
        examples.len() <= usize::MAX,
    ensures
        ({
            let ws = words(q);
            let ps = pieces(name, '_');
            let scan = example_scan(examples, q, ws, examples.len() as int);
            let e = exact_points(name, intent, scan.0, q);
            let s = word_points(name, description, intent, category, scan.1, ws);
            let m = 2 * covered_parts(ps, ws);
            let sc = ranked_score(name, description, intent, category, examples, q);
            &&& sc.words == ws.len()
            &&& sc.parts == ps.len()
            &&& sc.wf()
            &&& sc.numer() == (e * ws.len() + s) * ps.len() + m * ws.len()
        }),
{
    let ws = words(q);
    let ps = pieces(name, '_');
    crate::text::lemma_pieces_nonempty(name, '_', seq![]);
    let scan = example_scan(examples, q, ws, examples.len() as int);
    let e: int = exact_points(name, intent, scan.0, q) as int;
    let s: int = word_points(name, description, intent, category, scan.1, ws) as int;
    let m: int = (2 * covered_parts(ps, ws)) as int;
    let w = ws.len() as int;
    let n = ps.len() as int;
    let x = examples.len() as int;
    lemma_hit_count_bound(name, ws);
    lemma_part_hits_bound(ps, ws);
    match description {
        Some(d) => lemma_hit_count_bound(d, ws),
        None => {},
    }
    match intent {
        Some(d) => lemma_hit_count_bound(d, ws),
        None => {},
    }
    match category {
        Some(d) => lemma_hit_count_bound(d, ws),
        None => {},
    }
    lemma_scan_words_bound(examples, q, ws, x);
    lemma_covered_bound(ps, ws);
    assert(s <= 20 * w + x * w);
    assert(s / w <= 20 + x) by (nonlinear_arith)
        requires
            s <= 20 * w + x * w,
            w >= 1,
            s >= 0,
    ;
    assert(m / n <= 2) by (nonlinear_arith)
        requires
            m <= 2 * n,
            n >= 1,
            m >= 0,
    ;
    assert(s / w >= 0 && m / n >= 0) by (nonlinear_arith)
        requires
            s >= 0,
            m >= 0,
            w >= 1,
            n >= 1,
    ;
    lemma_fundamental_div_mod(s, w);
    lemma_fundamental_div_mod(m, n);
    let sc = ranked_score(name, description, intent, category, examples, q);
    let whole = e + s / w + m / n;
    assert(sc.whole == whole);
    assert(sc.word_rest == s % w);
    assert(sc.name_rest == m % n);
    assert(sc.numer() == (e * w + s) * n + m * w) by (nonlinear_arith)
        requires
            sc.numer() == (whole * w + s % w) * n + (m % n) * w,
            whole == e + s / w + m / n,
            s == w * (s / w) + s % w,
            m == n * (m / n) + m % n,
    ;
}

/// A query word found in a command's category counts for the command: the
/// score with category `category` exceeds the score without one by one
/// point per query word that occurs in the category, divided by the number
/// of query words (over the common denominator, twice that many points times
/// the number of name parts), and so such a command scores above zero.
pub proof fn category_words_add_to_score(
    name: Seq<char>,
    description: Option<Seq<char>>,
    intent: Option<Seq<char>>,
    category: Seq<char>,
    examples: Seq<Seq<char>>,
    q: Seq<char>,
)
    requires
        0 < words(q).len() <= usize::MAX,
        pieces(name, '_').len() <= usize::MAX,
        examples.len() <= usize::MAX,
    ensures
        ({
            let with = ranked_score(name, description, intent, Some(category), examples, q);
            let without = ranked_score(name, description, intent, None, examples, q);
            &&& with.words == without.words && with.parts == without.parts
            &&& with.numer() == without.numer() + 2 * hit_count(category, words(q)) * with.parts
            &&& without.numer() >= 0
            &&& hit_count(category, words(q)) > 0 ==> score_positive(with)
        }),
{
    lemma_ranked_numer(name, description, intent, Some(category), examples, q);
    lemma_ranked_numer(name, description, intent, None, examples, q);
    let ws = words(q);
    let ps = pieces(name, '_');
    let scan = example_scan(examples, q, ws, examples.len() as int);
    let e: int = exact_points(name, intent, scan.0, q) as int;
    let s1: int = word_points(name, description, intent, Some(category), scan.1, ws) as int;
    let s0: int = word_points(name, description, intent, None, scan.1, ws) as int;
    let m: int = (2 * covered_parts(ps, ws)) as int;
    let h: int = hit_count(category, ws) as int;
    let w = ws.len() as int;
    let n = ps.len() as int;
    assert(s1 == s0 + 2 * h);
    assert((e * w + s1) * n + m * w == (e * w + s0) * n + m * w + 2 * h * n) by (nonlinear_arith)
        requires
            s1 == s0 + 2 * h,
    ;
    assert((e * w + s0) * n + m * w >= 0) by (nonlinear_arith)
        requires
            e >= 0,
            s0 >= 0,
            m >= 0,
            w >= 1,
            n >= 1,
    ;
    assert(h > 0 ==> 2 * h * n > 0) by (nonlinear_arith)
        requires
            n >= 1,
    ;
    reveal(score_positive);
}

} // verus!
