use crate::entry::Entry;
use crate::entry::EntryModel;
use crate::entry::entry_models;
use crate::fuzzy::folded_result;
use crate::fuzzy::fuzzy_match;
use crate::fuzzy::fuzzy_result;
use crate::fuzzy::lemma_extend_narrows;
use crate::fuzzy::lower_of;
use vstd::multiset::Multiset;
use vstd::prelude::*;
use vstd::relations::sorted_by;
use vstd::relations::total_ordering;
use vstd::seq_lib::lemma_sorted_unique;

verus! {

broadcast use {vstd::seq_lib::group_to_multiset_ensures, vstd::multiset::group_multiset_axioms};

/// The mathematical value of a ranked row: a snapshot index and its score.
pub open spec fn rank_models(s: Seq<(usize, i32)>) -> Seq<(int, int)> {
    s.map_values(|p: (usize, i32)| (p.0 as int, p.1 as int))
}

/// Ranking order: higher scores first; equal scores keep snapshot order.
pub open spec fn rank_le(a: (int, int), b: (int, int)) -> bool {
    a.1 > b.1 || (a.1 == b.1 && a.0 <= b.0)
}

/// [`rank_le`] as a relation value.
pub open spec fn rank_order() -> spec_fn((int, int), (int, int)) -> bool {
    |a: (int, int), b: (int, int)| rank_le(a, b)
}

/// The ranking order compares any two rows and never two ways at once.
pub proof fn lemma_rank_order_total()
    ensures
        total_ordering(rank_order()),
{
}

/// The rows of a listing that match the query, in listing order: one
/// `(index, score)` pair for each entry whose name the query matches.
pub open spec fn match_pairs(s: Seq<EntryModel>, q: Seq<char>) -> Seq<(int, int)>
    decreases s.len(),
{
    if s.len() == 0 {
        Seq::empty()
    } else {
        let prefix = match_pairs(s.drop_last(), q);
        match fuzzy_result(q, s.last().name) {
            Some(sc) => prefix.push(((s.len() - 1) as int, sc)),
            None => prefix,
        }
    }
}

/// The ranked listing: matching rows sorted by descending score, ties kept
/// in listing order.
pub open spec fn ranked_spec(s: Seq<EntryModel>, q: Seq<char>) -> Seq<(int, int)> {
    match_pairs(s, q).sort_by(rank_order())
}

/// Like [`match_pairs`], but for an already-folded non-empty pattern.
pub open spec fn folded_pairs(s: Seq<EntryModel>, p: Seq<char>) -> Seq<(int, int)>
    decreases s.len(),
{
    if s.len() == 0 {
        Seq::empty()
    } else {
        let prefix = folded_pairs(s.drop_last(), p);
        match folded_result(p, s.last().name) {
            Some(sc) => prefix.push(((s.len() - 1) as int, sc)),
            None => prefix,
        }
    }
}

/// For a non-empty query the match set is the folded pattern's match set.
pub proof fn lemma_match_pairs_folded(s: Seq<EntryModel>, q: Seq<char>)
    requires
        q.len() > 0,
    ensures
        match_pairs(s, q) == folded_pairs(s, lower_of(q)),
    decreases s.len(),
{
    if s.len() > 0 {
        lemma_match_pairs_folded(s.drop_last(), q);
    }
}

/// Appending a character to an already-folded pattern never grows the set
/// of matching rows of any fixed listing.
pub proof fn lemma_longer_pattern_narrows(s: Seq<EntryModel>, p: Seq<char>, c: char)
    ensures
        folded_pairs(s, p.push(c)).len() <= folded_pairs(s, p).len(),
    decreases s.len(),
{
    if s.len() > 0 {
        lemma_longer_pattern_narrows(s.drop_last(), p, c);
        lemma_extend_narrows(p, c, s.last().name);
    }
}

/// A listing never yields more matching rows than it has entries.
pub proof fn lemma_match_pairs_bounded(s: Seq<EntryModel>, q: Seq<char>)
    ensures
        match_pairs(s, q).len() <= s.len(),
    decreases s.len(),
{
    if s.len() > 0 {
        lemma_match_pairs_bounded(s.drop_last(), q);
    }
}

/// The empty query keeps every row.
pub proof fn lemma_empty_query_matches_all(s: Seq<EntryModel>)
    ensures
        match_pairs(s, Seq::<char>::empty()).len() == s.len(),
    decreases s.len(),
{
    if s.len() > 0 {
        lemma_empty_query_matches_all(s.drop_last());
    }
}

/// Appending a character to the query never grows the ranked listing. For
/// a non-empty query this holds whenever folding the longer query appends
/// one character `d` to the folded old query, which folding does except in
/// its context-sensitive cases.
pub proof fn lemma_append_narrows_ranking(s: Seq<EntryModel>, q: Seq<char>, c: char, d: char)
    requires
        q.len() > 0 ==> lower_of(q.push(c)) == lower_of(q).push(d),
    ensures
        ranked_spec(s, q.push(c)).len() <= ranked_spec(s, q).len(),
{
    lemma_ranked_spec_props(s, q);
    lemma_ranked_spec_props(s, q.push(c));
    if q.len() == 0 {
        assert(q =~= Seq::<char>::empty());
        lemma_empty_query_matches_all(s);
        lemma_match_pairs_bounded(s, q.push(c));
    } else {
        lemma_match_pairs_folded(s, q);
        lemma_match_pairs_folded(s, q.push(c));
        lemma_longer_pattern_narrows(s, lower_of(q), d);
    }
}

/// Every matching row points into the listing.
pub proof fn lemma_match_pairs_in_range(s: Seq<EntryModel>, q: Seq<char>)
    ensures
        forall|k: int|
            0 <= k < match_pairs(s, q).len() ==> 0 <= (#[trigger] match_pairs(s, q)[k]).0
                < s.len(),
    decreases s.len(),
{
    if s.len() > 0 {
        lemma_match_pairs_in_range(s.drop_last(), q);
        let prefix = match_pairs(s.drop_last(), q);
        assert(s.drop_last().len() == s.len() - 1);
        assert forall|k: int|
            0 <= k < match_pairs(s, q).len() implies 0 <= (#[trigger] match_pairs(s, q)[k]).0
            < s.len() by {
            match fuzzy_result(q, s.last().name) {
                Some(sc) => {
                    assert(match_pairs(s, q) == prefix.push(((s.len() - 1) as int, sc)));
                    if k < prefix.len() {
                        assert(match_pairs(s, q)[k] == prefix[k]);
                    } else {
                        assert(match_pairs(s, q)[k] == ((s.len() - 1) as int, sc));
                    }
                },
                None => {
                    assert(match_pairs(s, q) == prefix);
                },
            }
        }
    }
}

/// The ranked listing has one row per matching entry, and every row points
/// into the listing.
pub proof fn lemma_ranked_spec_props(s: Seq<EntryModel>, q: Seq<char>)
    ensures
        ranked_spec(s, q).len() == match_pairs(s, q).len(),
        forall|k: int|
            0 <= k < ranked_spec(s, q).len() ==> 0 <= (#[trigger] ranked_spec(s, q)[k]).0
                < s.len(),
{
    lemma_rank_order_total();
    lemma_match_pairs_in_range(s, q);
    let mp = match_pairs(s, q);
    let rs = ranked_spec(s, q);
    mp.lemma_sort_by_ensures(rank_order());
    assert(mp.to_multiset().len() == rs.to_multiset().len());
    assert forall|k: int| 0 <= k < rs.len() implies 0 <= (#[trigger] rs[k]).0 < s.len() by {
        assert(rs.to_multiset().contains(rs[k]));
        assert(mp.to_multiset().contains(rs[k]));
        assert(mp.contains(rs[k]));
        let j = choose|j: int| 0 <= j < mp.len() && mp[j] == rs[k];
        assert(0 <= mp[j].0 < s.len());
    }
}

fn rank_le_exec(a: (usize, i32), b: (usize, i32)) -> (r: bool)
    ensures
        r == rank_le((a.0 as int, a.1 as int), (b.0 as int, b.1 as int)),
{
    a.1 > b.1 || (a.1 == b.1 && a.0 <= b.0)
}

/// Index of a least ranked row under the ranking order.
fn min_pair_index(v: &Vec<(usize, i32)>) -> (mi: usize)
    requires
        v@.len() > 0,
    ensures
        mi < v@.len(),
        forall|k: int|
            0 <= k < v@.len() ==> rank_le(
                (v@[mi as int].0 as int, v@[mi as int].1 as int),
                (#[trigger] v@[k].0 as int, v@[k].1 as int),
            ),
{
    let mut mi: usize = 0;
    let mut j: usize = 1;
    while j < v.len()
        invariant
            mi < j <= v@.len(),
            forall|k: int|
                0 <= k < j ==> rank_le(
                    (v@[mi as int].0 as int, v@[mi as int].1 as int),
                    (#[trigger] v@[k].0 as int, v@[k].1 as int),
                ),
        decreases v@.len() - j,
    {
        if rank_le_exec(v[j], v[mi]) {
            mi = j;
        }
        j = j + 1;
    }
    mi
}

/// Sorts ranked rows by descending score, snapshot order on ties. The
/// result holds exactly the rows that went in.
fn sort_pairs(pairs: Vec<(usize, i32)>) -> (r: Vec<(usize, i32)>)
    ensures
        rank_models(r@).to_multiset() == rank_models(pairs@).to_multiset(),
        sorted_by(rank_models(r@), rank_order()),
{
    let ghost input = pairs@;
    let mut rest = pairs;
    let mut out: Vec<(usize, i32)> = Vec::new();
    while rest.len() > 0
        invariant
            rank_models(out@).to_multiset().add(rank_models(rest@).to_multiset()) =~= rank_models(
                input,
            ).to_multiset(),
            sorted_by(rank_models(out@), rank_order()),
            forall|a: int, b: int|
                0 <= a < out@.len() && 0 <= b < rest@.len() ==> rank_le(
                    (#[trigger] out@[a].0 as int, out@[a].1 as int),
                    (#[trigger] rest@[b].0 as int, rest@[b].1 as int),
                ),
        decreases rest@.len(),
    {
        let ghost old_out = out@;
        let ghost old_rest = rest@;
        let mi = min_pair_index(&rest);
        let e = rest.remove(mi);
        out.push(e);
        proof {
            let em = (e.0 as int, e.1 as int);
            assert(rank_models(old_rest.remove(mi as int)) =~= rank_models(old_rest).remove(
                mi as int,
            ));
            assert(rank_models(old_out.push(e)) =~= rank_models(old_out).push(em));
            assert(rank_models(old_rest).remove(mi as int).to_multiset() =~= rank_models(
                old_rest,
            ).to_multiset().remove(em));
            assert(rank_models(out@).to_multiset() =~= rank_models(old_out).to_multiset().insert(
                em,
            ));
            assert(rank_models(old_rest).to_multiset().count(em) > 0);
            assert(rank_models(out@).to_multiset().add(rank_models(rest@).to_multiset())
                =~= rank_models(input).to_multiset());
            assert(sorted_by(rank_models(out@), rank_order()));
            assert forall|a: int, b: int|
                0 <= a < out@.len() && 0 <= b < rest@.len() implies rank_le(
                (#[trigger] out@[a].0 as int, out@[a].1 as int),
                (#[trigger] rest@[b].0 as int, rest@[b].1 as int),
            ) by {
                if a < old_out.len() {
                } else {
                    assert(out@[a] == e);
                    if b < mi {
                        assert(rest@[b] == old_rest[b]);
                    } else {
                        assert(rest@[b] == old_rest[b + 1]);
                    }
                }
            }
        }
    }
    proof {
        assert(rank_models(rest@).to_multiset() =~= Multiset::empty());
        assert(rank_models(out@).to_multiset() =~= rank_models(input).to_multiset());
    }
    out
}

/// Scores every listing row against the query and returns the ranked
/// listing.
pub(crate) fn compute_ranked(items: &Vec<Entry>, query: &str) -> (r: Vec<(usize, i32)>)
    ensures
        rank_models(r@) == ranked_spec(entry_models(items@), query@),
{
    let ghost mp = entry_models(items@);
    let mut pairs: Vec<(usize, i32)> = Vec::new();
    let mut j: usize = 0;
    proof {
        assert(mp.subrange(0, 0) =~= Seq::empty());
        assert(rank_models(pairs@) =~= match_pairs(mp.subrange(0, 0), query@));
    }
    while j < items.len()
        invariant
            j <= items@.len(),
            mp == entry_models(items@),
            rank_models(pairs@) == match_pairs(mp.subrange(0, j as int), query@),
            forall|k: int| 0 <= k < pairs@.len() ==> (#[trigger] pairs@[k]).0 < j,
        decreases items@.len() - j,
    {
        let ghost old_pairs = pairs@;
        proof {
            assert(mp.subrange(0, j + 1).drop_last() =~= mp.subrange(0, j as int));
            assert(mp.subrange(0, j + 1).last() == mp[j as int]);
        }
        let m = fuzzy_match(query, items[j].name.as_str());
        match m {
            Some(fm) => {
                pairs.push((j, fm.score));
                proof {
                    assert(rank_models(old_pairs.push((j, fm.score))) =~= rank_models(
                        old_pairs,
                    ).push((j as int, fm.score as int)));
                }
            },
            None => {},
        }
        j = j + 1;
        proof {
            assert(rank_models(pairs@) =~= match_pairs(mp.subrange(0, j as int), query@));
        }
    }
    proof {
        assert(mp.subrange(0, j as int) =~= mp);
    }
    let sorted = sort_pairs(pairs);
    proof {
        lemma_rank_order_total();
        match_pairs(mp, query@).lemma_sort_by_ensures(rank_order());
        lemma_sorted_unique(
            rank_models(sorted@),
            match_pairs(mp, query@).sort_by(rank_order()),
            rank_order(),
        );
        assert(rank_models(sorted@) =~= ranked_spec(mp, query@));
    }
    sorted
}

} // verus!
