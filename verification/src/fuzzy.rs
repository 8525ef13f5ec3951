use vstd::prelude::*;

verus! {

/// Longest candidate (in folded characters) the scorer accepts; keeps every
/// per-character bonus sum inside `i32`.
pub const MAX_TEXT_LEN: usize = 0x0200_0000;

/// The characters that start a new word or path segment for scoring.
pub open spec fn sep_char(c: char) -> bool {
    c == '/' || c == '_' || c == '-' || c == '.'
}

/// Score awarded for a hit at candidate index `i` when the previous hit was
/// at index `last` (`-2` when there was none): 10 base, +5 directly after
/// the previous hit, +15 at the very front, +10 after a separator.
pub open spec fn hit_bonus(t: Seq<char>, i: int, last: int) -> int {
    10 + (if i == last + 1 {
        5int
    } else {
        0int
    }) + (if i == 0 {
        15int
    } else {
        0int
    }) + (if 0 < i <= t.len() && sep_char(t[i - 1]) {
        10int
    } else {
        0int
    })
}

/// Outcome of the greedy subsequence scan: the candidate indices that were
/// hit, and the bonus total they earned.
pub ghost struct ScanResult {
    pub hits: Seq<int>,
    pub score: int,
}

/// One left-to-right greedy pass over the candidate `t` starting at index
/// `i`, looking for pattern `p` from position `pi` on; `last` is the index
/// of the previous hit (or `-2`). A candidate character that equals the
/// next unmatched pattern character is always taken.
pub open spec fn scan(p: Seq<char>, t: Seq<char>, i: int, pi: int, last: int) -> ScanResult
    decreases t.len() - i,
{
    if i < 0 || i >= t.len() {
        ScanResult { hits: Seq::empty(), score: 0 }
    } else if 0 <= pi && pi < p.len() && t[i] == p[pi] {
        let rest = scan(p, t, i + 1, pi + 1, i);
        ScanResult { hits: seq![i] + rest.hits, score: hit_bonus(t, i, last) + rest.score }
    } else {
        scan(p, t, i + 1, pi, last)
    }
}

/// The hit indices of a whole scan.
pub open spec fn scan_hits(p: Seq<char>, t: Seq<char>) -> Seq<int> {
    scan(p, t, 0, 0, -2).hits
}

/// The bonus total of a whole scan.
pub open spec fn scan_score(p: Seq<char>, t: Seq<char>) -> int {
    scan(p, t, 0, 0, -2).score
}

/// The scan accepts exactly when every pattern character was hit.
pub open spec fn pattern_matches(p: Seq<char>, t: Seq<char>) -> bool {
    scan_hits(p, t).len() == p.len()
}

/// Final score of an accepted scan: bonuses minus the candidate's length.
pub open spec fn match_score(p: Seq<char>, t: Seq<char>) -> int {
    scan_score(p, t) - t.len()
}

/// What `str::to_lowercase` returns for a string with these characters.
pub uninterp spec fn lower_of(s: Seq<char>) -> Seq<char>;

/// Relies on `str::to_lowercase`: the folded string depends on the input
/// characters alone.
#[verifier::external_body]
pub(crate) fn lowercase(s: &str) -> (r: String)
    ensures
        r@ == lower_of(s@),
{
    s.to_lowercase()
}

/// Score of a non-empty, already-folded pattern `p` against the raw
/// candidate `t` (folded before the scan). Candidates whose folded form is
/// longer than `MAX_TEXT_LEN` are rejected outright.
pub open spec fn folded_result(p: Seq<char>, t: Seq<char>) -> Option<int> {
    if lower_of(t).len() > MAX_TEXT_LEN {
        None
    } else if pattern_matches(p, lower_of(t)) {
        Some(match_score(p, lower_of(t)))
    } else {
        None
    }
}

/// Score of a raw pattern against a raw candidate: an empty pattern always
/// scores 0, anything else is folded and scanned.
pub open spec fn fuzzy_result(pattern: Seq<char>, text: Seq<char>) -> Option<int> {
    if pattern.len() == 0 {
        Some(0)
    } else {
        folded_result(lower_of(pattern), text)
    }
}

/// A scan whose pattern position is already past the pattern never hits.
proof fn lemma_scan_done(p: Seq<char>, t: Seq<char>, i: int, pi: int, last: int)
    requires
        0 <= i <= t.len(),
        pi >= p.len(),
    ensures
        scan(p, t, i, pi, last).hits.len() == 0,
    decreases t.len() - i,
{
    if i < t.len() {
        lemma_scan_done(p, t, i + 1, pi, last);
    }
}

/// Every hit of a scan lies in the candidate, hits come strictly left to
/// right, the hit at offset `k` equals pattern character `pi + k`, and no
/// more characters are hit than the pattern still needs.
proof fn lemma_scan_bounds(p: Seq<char>, t: Seq<char>, i: int, pi: int, last: int)
    requires
        0 <= i <= t.len(),
        0 <= pi <= p.len(),
    ensures
        ({
            let s = scan(p, t, i, pi, last);
            &&& pi + s.hits.len() <= p.len()
            &&& forall|k: int|
                0 <= k < s.hits.len() ==> i <= #[trigger] s.hits[k] < t.len() && t[s.hits[k]]
                    == p[pi + k]
            &&& forall|k: int| 0 <= k && k + 1 < s.hits.len() ==> #[trigger] s.hits[k] < s.hits[k + 1]
        }),
    decreases t.len() - i,
{
    if i < t.len() {
        if 0 <= pi && pi < p.len() && t[i] == p[pi] {
            lemma_scan_bounds(p, t, i + 1, pi + 1, i);
            let s = scan(p, t, i, pi, last);
            let rest = scan(p, t, i + 1, pi + 1, i);
            assert(s.hits == seq![i] + rest.hits);
            assert(s.hits[0] == i);
            assert(forall|k: int| 1 <= k < s.hits.len() ==> #[trigger] s.hits[k] == rest.hits[k - 1]);
            assert(forall|k: int|
                0 <= k < s.hits.len() ==> i <= #[trigger] s.hits[k] < t.len() && t[s.hits[k]] == p[
                    pi + k
                ]);
            assert forall|k: int| 0 <= k && k + 1 < s.hits.len() implies #[trigger] s.hits[k] < s.hits[
                k + 1
            ] by {
                if k == 0 {
                    assert(s.hits[1] == rest.hits[0]);
                    assert(rest.hits[0] >= i + 1);
                } else {
                    assert(s.hits.len() == 1 + rest.hits.len());
                    assert(s.hits[k] == (seq![i] + rest.hits)[k]);
                    assert(s.hits[k + 1] == (seq![i] + rest.hits)[k + 1]);
                    assert(rest.hits[k - 1] < rest.hits[k]);
                }
            }
        } else {
            lemma_scan_bounds(p, t, i + 1, pi, last);
        }
    }
}

/// A scan for `p.push(c)` that hits the whole extended pattern first hits
/// all of `p`: lengthening the pattern can only lose candidates.
proof fn lemma_scan_extend(p: Seq<char>, c: char, t: Seq<char>, i: int, pi: int, last: int)
    requires
        0 <= i <= t.len(),
        0 <= pi <= p.len(),
    ensures
        pi + scan(p.push(c), t, i, pi, last).hits.len() == p.len() + 1 ==> pi + scan(
            p,
            t,
            i,
            pi,
            last,
        ).hits.len() == p.len(),
    decreases t.len() - i,
{
    if i < t.len() {
        if pi < p.len() {
            assert(p.push(c)[pi] == p[pi]);
            if t[i] == p[pi] {
                lemma_scan_extend(p, c, t, i + 1, pi + 1, i);
            } else {
                lemma_scan_extend(p, c, t, i + 1, pi, last);
            }
        } else {
            lemma_scan_done(p, t, i, pi, last);
        }
    }
}

/// An index sequence `at` that embeds `p` into `t` in order: each position
/// is in range, picks the corresponding pattern character, and positions
/// strictly increase.
pub open spec fn subsequence_at(p: Seq<char>, t: Seq<char>, at: Seq<int>) -> bool {
    &&& at.len() == p.len()
    &&& forall|k: int| 0 <= k < at.len() ==> 0 <= #[trigger] at[k] < t.len() && t[at[k]] == p[k]
    &&& forall|k: int| 0 <= k && k + 1 < at.len() ==> #[trigger] at[k] < at[k + 1]
}

/// `p` occurs within `t` in order.
pub open spec fn is_subsequence(p: Seq<char>, t: Seq<char>) -> bool {
    exists|at: Seq<int>| subsequence_at(p, t, at)
}

/// Whenever the matcher returns a score for a non-empty pattern, the folded
/// pattern occurs as an in-order subsequence of the folded candidate; an
/// empty pattern always succeeds with score 0.
pub proof fn lemma_match_is_subsequence(pattern: Seq<char>, text: Seq<char>)
    requires
        fuzzy_result(pattern, text) is Some,
    ensures
        pattern.len() > 0 ==> is_subsequence(lower_of(pattern), lower_of(text)),
        pattern.len() == 0 ==> fuzzy_result(pattern, text) == Some(0int),
{
    if pattern.len() > 0 {
        let p = lower_of(pattern);
        let t = lower_of(text);
        lemma_scan_bounds(p, t, 0, 0, -2);
        assert(subsequence_at(p, t, scan_hits(p, t)));
    }
}

/// A candidate accepted under the folded pattern `p.push(c)` is accepted
/// under `p` as well.
pub proof fn lemma_extend_narrows(p: Seq<char>, c: char, t: Seq<char>)
    ensures
        folded_result(p.push(c), t) is Some ==> folded_result(p, t) is Some,
{
    if folded_result(p.push(c), t) is Some {
        lemma_scan_extend(p, c, lower_of(t), 0, 0, -2);
    }
}

/// An accepted match: its score and the folded-candidate indices that were
/// hit, in scan order.
#[derive(Debug)]
pub struct FuzzyMatch {
    pub score: i32,
    pub matched_indices: Vec<usize>,
}

/// One row of a headless query result: a ranked entry resolved back to its
/// path, name and kind.
pub struct SearchResult {
    pub path: String,
    pub score: i32,
    pub name: String,
    pub is_dir: bool,
}

/// Collects a string's characters, in order.
pub(crate) fn str_chars(s: &str) -> (v: Vec<char>)
    ensures
        v@ == s@,
{
    let n = s.unicode_len();
    let mut v: Vec<char> = Vec::new();
    let mut i: usize = 0;
    while i < n
        invariant
            i <= n,
            n == s@.len(),
            v@ == s@.subrange(0, i as int),
        decreases n - i,
    {
        let c = s.get_char(i);
        v.push(c);
        i = i + 1;
        proof {
            assert(v@ =~= s@.subrange(0, i as int));
        }
    }
    proof {
        assert(v@ =~= s@);
    }
    v
}

fn sep(c: char) -> (r: bool)
    ensures
        r == sep_char(c),
{
    c == '/' || c == '_' || c == '-' || c == '.'
}

/// Runs the greedy scan over already-folded characters and reports the hits
/// and final score when every pattern character was found.
pub fn scan_match(pattern: &Vec<char>, text: &Vec<char>) -> (r: Option<FuzzyMatch>)
    requires
        text@.len() <= MAX_TEXT_LEN,
    ensures
        (match r {
            Some(m) => pattern_matches(pattern@, text@) && m.score as int == match_score(
                pattern@,
                text@,
            ) && m.matched_indices@.map_values(|u: usize| u as int) == scan_hits(
                pattern@,
                text@,
            ),
            None => !pattern_matches(pattern@, text@),
        }),
{
    let ghost p = pattern@;
    let ghost t = text@;
    let mut hits: Vec<usize> = Vec::new();
    let mut score: i32 = 0;
    let mut i: usize = 0;
    let mut pi: usize = 0;
    let mut has_last: bool = false;
    let mut last: usize = 0;
    while i < text.len()
        invariant
            text@.len() <= MAX_TEXT_LEN,
            p == pattern@,
            t == text@,
            i <= t.len(),
            pi <= p.len(),
            pi <= i,
            pi == hits@.len(),
            has_last ==> last < i,
            0 <= score <= 40 * (pi as int),
            scan(p, t, 0, 0, -2).hits == hits@.map_values(|u: usize| u as int) + scan(
                p,
                t,
                i as int,
                pi as int,
                (if has_last {
                    last as int
                } else {
                    -2int
                }),
            ).hits,
            scan(p, t, 0, 0, -2).score == score as int + scan(
                p,
                t,
                i as int,
                pi as int,
                (if has_last {
                    last as int
                } else {
                    -2int
                }),
            ).score,
        decreases t.len() - i,
    {
        let ghost lastg: int = if has_last {
            last as int
        } else {
            -2int
        };
        let c = text[i];
        if pi < pattern.len() && c == pattern[pi] {
            let ghost rest = scan(p, t, i + 1, pi + 1, i as int);
            proof {
                assert(scan(p, t, i as int, pi as int, lastg) == ScanResult {
                    hits: seq![i as int] + rest.hits,
                    score: hit_bonus(t, i as int, lastg) + rest.score,
                });
            }
            let mut b: i32 = 10;
            if has_last && i == last + 1 {
                b = b + 5;
            }
            if i == 0 {
                b = b + 15;
            }
            if i > 0 && sep(text[i - 1]) {
                b = b + 10;
            }
            proof {
                assert(b as int == hit_bonus(t, i as int, lastg));
            }
            let ghost old_hits = hits@;
            hits.push(i);
            score = score + b;
            pi = pi + 1;
            has_last = true;
            last = i;
            proof {
                assert(hits@.map_values(|u: usize| u as int) =~= old_hits.map_values(
                    |u: usize| u as int,
                ).push(i as int));
                assert(old_hits.map_values(|u: usize| u as int) + (seq![i as int] + rest.hits)
                    =~= hits@.map_values(|u: usize| u as int) + rest.hits);
            }
        } else {
            proof {
                assert(scan(p, t, i as int, pi as int, lastg) == scan(
                    p,
                    t,
                    i + 1,
                    pi as int,
                    lastg,
                ));
            }
        }
        i = i + 1;
    }
    proof {
        assert(scan(
            p,
            t,
            i as int,
            pi as int,
            (if has_last {
                last as int
            } else {
                -2int
            }),
        ).hits =~= Seq::<int>::empty());
        assert(scan(p, t, 0, 0, -2).hits =~= hits@.map_values(|u: usize| u as int));
    }
    if pi == pattern.len() {
        let final_score: i32 = score - (text.len() as i32);
        Some(FuzzyMatch { score: final_score, matched_indices: hits })
    } else {
        assert(scan_hits(p, t).len() == pi as int);
        None
    }
}

/// Fuzzy-matches `pattern` against `text`: both are folded to lowercase,
/// then the pattern must appear as a greedy left-to-right subsequence of
/// the candidate. An empty pattern matches everything with score 0.
pub fn fuzzy_match(pattern: &str, text: &str) -> (r: Option<FuzzyMatch>)
    ensures
        (match r {
            Some(m) => {
                &&& fuzzy_result(pattern@, text@) == Some(m.score as int)
                &&& pattern@.len() == 0 ==> m.score == 0 && m.matched_indices@.len() == 0
                &&& pattern@.len() > 0 ==> m.matched_indices@.map_values(|u: usize| u as int)
                    == scan_hits(lower_of(pattern@), lower_of(text@))
            },
            None => fuzzy_result(pattern@, text@) is None,
        }),
{
    if pattern.is_empty() {
        return Some(FuzzyMatch { score: 0, matched_indices: Vec::new() });
    }
    let lowered_pattern = lowercase(pattern);
    let lowered_text = lowercase(text);
    let text_chars = str_chars(lowered_text.as_str());
    if text_chars.len() > MAX_TEXT_LEN {
        return None;
    }
    let pattern_chars = str_chars(lowered_pattern.as_str());
    scan_match(&pattern_chars, &text_chars)
}

} // verus!
