//! The catalog assembler: sorts the collected records by name, removes
//! adjacent duplicate names (first in sort order wins), classifies
//! favorites by a configured keyword list, and applies an optional
//! case-insensitive search query to both lists. Also the root enumerator,
//! which computes the ordered list of directories to scan.

use vstd::prelude::*;
use crate::entry::App;
use crate::strutil::{
    concat2, contains_seq, find_char, first_index_of, lemma_first_index_of, lemma_lex_le_antisym,
    lemma_lex_le_total, lemma_lex_le_trans, lex_le, lower_of, lowercase, str_contains, str_eq,
    str_le,
};

verus! {

/// The records stand in ascending name order (ties allowed).
pub open spec fn sorted_by_name(s: Seq<App>) -> bool {
    forall|i: int, j: int| 0 <= i < j < s.len() ==> lex_le(s[i].name@, s[j].name@)
}

/// The records stand in strictly ascending name order: sorted, and no two
/// share a name.
pub open spec fn strictly_sorted_by_name(s: Seq<App>) -> bool {
    forall|i: int, j: int|
        0 <= i < j < s.len() ==> lex_le(s[i].name@, s[j].name@) && s[i].name@ != s[j].name@
}

proof fn lemma_to_multiset_insert_at(s: Seq<App>, a: App, p: int)
    requires
        0 <= p <= s.len(),
    ensures
        s.insert(p, a).to_multiset() == s.to_multiset().insert(a),
{
    broadcast use vstd::seq_lib::group_to_multiset_ensures;

    let t = s.insert(p, a);
    s.insert_ensures(p, a);
    assert(t.remove(p) =~= s);
    t.remove_ensures(p);
    assert(t.remove(p).to_multiset() =~= t.to_multiset().remove(t[p]));
    assert(t.contains(a)) by {
        assert(t[p] == a);
    }
    assert(t.to_multiset().count(a) > 0);
    assert(t.to_multiset() =~= s.to_multiset().insert(a));
}

/// The position at which `a` can be placed into the sorted `out` so that it
/// stays sorted.
fn insertion_point(out: &Vec<App>, a: &App) -> (p: usize)
    requires
        sorted_by_name(out@),
    ensures
        p <= out@.len(),
        forall|k: int| 0 <= k < p ==> lex_le(out@[k].name@, a.name@),
        forall|k: int| p <= k < out@.len() ==> lex_le(a.name@, out@[k].name@),
{
    let mut p: usize = out.len();
    loop
        invariant
            p <= out@.len(),
            sorted_by_name(out@),
            forall|k: int| p <= k < out@.len() ==> lex_le(a.name@, out@[k].name@),
        decreases p,
    {
        if p == 0 {
            return 0;
        }
        if str_le(out[p - 1].name.as_str(), a.name.as_str()) {
            proof {
                assert forall|k: int| 0 <= k < p implies lex_le(out@[k].name@, a.name@) by {
                    if k < p - 1 {
                        lemma_lex_le_trans(out@[k].name@, out@[p - 1].name@, a.name@);
                    }
                }
            }
            return p;
        }
        proof {
            lemma_lex_le_total(out@[p - 1].name@, a.name@);
        }
        p -= 1;
    }
}

/// Sorts the records by name ascending (case-sensitive ordinal); the result
/// is a permutation of the input. Which of two same-named records comes
/// first is left open: it follows from discovery order, which the platform
/// does not fix.
pub fn sort_by_name(records: Vec<App>) -> (r: Vec<App>)
    ensures
        sorted_by_name(r@),
        r@.to_multiset() == records@.to_multiset(),
{
    broadcast use vstd::seq_lib::group_to_multiset_ensures;

    let mut out: Vec<App> = Vec::new();
    let mut i: usize = 0;
    proof {
        assert(records@.take(0) =~= Seq::<App>::empty());
        assert(out@.to_multiset() =~= records@.take(0).to_multiset());
    }
    while i < records.len()
        invariant
            i <= records@.len(),
            sorted_by_name(out@),
            out@.to_multiset() == records@.take(i as int).to_multiset(),
        decreases records@.len() - i,
    {
        let a = records[i].clone();
        let p = insertion_point(&out, &a);
        proof {
            let ghost prev = out@;
            prev.insert_ensures(p as int, a);
            lemma_to_multiset_insert_at(prev, a, p as int);
            assert(records@.take(i + 1).drop_last() =~= records@.take(i as int));
            assert(records@.take(i + 1) =~= records@.take(i as int).push(records@[i as int]));
        }
        let ghost prev = out@;
        out.insert(p, a);
        proof {
            assert forall|x: int, y: int|
                0 <= x < y < out@.len() implies lex_le(out@[x].name@, out@[y].name@) by {
                prev.insert_ensures(p as int, a);
                if x < p && y == p {
                } else if x == p && y > p {
                } else if x < p && y > p {
                    lemma_lex_le_trans(out@[x].name@, a.name@, out@[y].name@);
                }
            }
            assert(a == records@[i as int]);
            vstd::seq_lib::to_multiset_build(records@.take(i as int), records@[i as int]);
            assert(out@.to_multiset() =~= records@.take(i + 1).to_multiset());
        }
        i += 1;
    }
    proof {
        assert(records@.take(records@.len() as int) =~= records@);
    }
    out
}

/// The sorted records with adjacent duplicate names removed; of a run of
/// equal names, the first record survives.
pub open spec fn dedup_names_spec(s: Seq<App>) -> Seq<App>
    decreases s.len(),
{
    if s.len() <= 1 {
        s
    } else if s[s.len() - 1].name@ == s[s.len() - 2].name@ {
        dedup_names_spec(s.drop_last())
    } else {
        dedup_names_spec(s.drop_last()).push(s.last())
    }
}

/// Removes records whose name equals that of the record just before them.
pub fn dedup_by_name(records: Vec<App>) -> (r: Vec<App>)
    ensures
        r@ == dedup_names_spec(records@),
{
    let mut out: Vec<App> = Vec::new();
    let mut i: usize = 0;
    proof {
        assert(records@.take(0) =~= Seq::<App>::empty());
    }
    while i < records.len()
        invariant
            i <= records@.len(),
            out@ == dedup_names_spec(records@.take(i as int)),
            i > 0 ==> out@.len() > 0 && out@[out@.len() - 1].name@ == records@[i - 1].name@,
        decreases records@.len() - i,
    {
        proof {
            assert(records@.take(i + 1).drop_last() =~= records@.take(i as int));
            assert(records@.take(i + 1).last() == records@[i as int]);
        }
        if i == 0 {
            out.push(records[0].clone());
            proof {
                assert(records@.take(1) =~= seq![records@[0]]);
                assert(out@ =~= dedup_names_spec(records@.take(1)));
            }
        } else {
            let last = out.len() - 1;
            if !str_eq(out[last].name.as_str(), records[i].name.as_str()) {
                out.push(records[i].clone());
            }
        }
        i += 1;
    }
    proof {
        assert(records@.take(records@.len() as int) =~= records@);
    }
    out
}

/// Some record of `d` carries the same name as `s[i]`.
pub open spec fn name_covered(s: Seq<App>, d: Seq<App>, i: int) -> bool {
    exists|j: int| 0 <= j < d.len() && d[j].name@ == s[i].name@
}

/// What name-deduplication of a sorted sequence guarantees: strictly sorted
/// output, every output record taken from the input, and every input name
/// still represented.
pub proof fn lemma_dedup_properties(s: Seq<App>)
    requires
        sorted_by_name(s),
    ensures
        strictly_sorted_by_name(dedup_names_spec(s)),
        forall|x: App| dedup_names_spec(s).contains(x) ==> s.contains(x),
        forall|i: int| 0 <= i < s.len() ==> #[trigger] name_covered(s, dedup_names_spec(s), i),
    decreases s.len(),
{
    if s.len() <= 1 {
        assert forall|i: int| 0 <= i < s.len() implies #[trigger] name_covered(
            s,
            dedup_names_spec(s),
            i,
        ) by {
            assert(dedup_names_spec(s) == s);
            assert(0 <= i < s.len() && s[i].name@ == s[i].name@);
            assert(name_covered(s, s, i));
        }
    } else {
        let t = s.drop_last();
        let last = s[s.len() - 1];
        assert(sorted_by_name(t)) by {
            assert(forall|k: int| 0 <= k < t.len() ==> t[k] == s[k]);
        }
        lemma_dedup_properties(t);
        let d0 = dedup_names_spec(t);
        assert forall|x: App| d0.contains(x) implies s.contains(x) by {
            assert(t.contains(x));
            let k = choose|k: int| 0 <= k < t.len() && t[k] == x;
            assert(s[k] == x);
        }
        if s[s.len() - 1].name@ == s[s.len() - 2].name@ {
            assert forall|i: int| 0 <= i < s.len() implies #[trigger] name_covered(
                s,
                dedup_names_spec(s),
                i,
            ) by {
                if i < s.len() - 1 {
                    assert(t[i] == s[i]);
                    assert(name_covered(t, d0, i));
                    let j = choose|j: int| 0 <= j < d0.len() && d0[j].name@ == t[i].name@;
                    assert(dedup_names_spec(s)[j].name@ == s[i].name@);
                } else {
                    assert(t[s.len() - 2] == s[s.len() - 2]);
                    assert(name_covered(t, d0, s.len() - 2));
                    let j = choose|j: int|
                        0 <= j < d0.len() && d0[j].name@ == t[s.len() - 2].name@;
                    assert(dedup_names_spec(s)[j].name@ == s[i].name@);
                }
            }
        } else {
            let d = d0.push(last);
            assert forall|k: int| 0 <= k < d0.len() implies lex_le(d[k].name@, last.name@)
                && d[k].name@ != last.name@ by {
                assert(d0.contains(d0[k]));
                assert(t.contains(d0[k]));
                let idx = choose|idx: int| 0 <= idx < t.len() && t[idx] == d0[k];
                assert(s[idx] == d0[k]);
                assert(lex_le(s[idx].name@, last.name@));
                if d0[k].name@ == last.name@ {
                    if idx == s.len() - 2 {
                        assert(false);
                    } else {
                        assert(lex_le(s[idx].name@, s[s.len() - 2].name@));
                        assert(lex_le(s[s.len() - 2].name@, last.name@));
                        lemma_lex_le_antisym(s[s.len() - 2].name@, last.name@);
                        assert(false);
                    }
                }
            }
            assert(strictly_sorted_by_name(d)) by {
                assert(forall|x: int, y: int|
                    0 <= x < y < d0.len() ==> d[x] == d0[x] && d[y] == d0[y]);
            }
            assert forall|i: int| 0 <= i < s.len() implies #[trigger] name_covered(
                s,
                dedup_names_spec(s),
                i,
            ) by {
                if i < s.len() - 1 {
                    assert(t[i] == s[i]);
                    assert(name_covered(t, d0, i));
                    let j = choose|j: int| 0 <= j < d0.len() && d0[j].name@ == t[i].name@;
                    assert(d[j].name@ == s[i].name@);
                } else {
                    assert(d[d.len() - 1].name@ == s[i].name@);
                }
            }
        }
    }
}

/// The lowercase form of the record's name contains one of the configured
/// keywords.
pub open spec fn is_favorite(a: App, kws: Seq<Seq<char>>) -> bool {
    exists|k: int| 0 <= k < kws.len() && contains_seq(lower_of(a.name@), kws[k])
}

/// The favorites test as a filter predicate.
pub open spec fn favorite_pred(kws: Seq<Seq<char>>) -> spec_fn(App) -> bool {
    |a: App| is_favorite(a, kws)
}

/// The search test as a filter predicate: the lowercase name contains the
/// (already lowercased) query.
pub open spec fn query_pred(q: Seq<char>) -> spec_fn(App) -> bool {
    |a: App| contains_seq(lower_of(a.name@), q)
}

fn matches_any_keyword(name: &String, keywords: &Vec<String>) -> (r: bool)
    ensures
        r == exists|k: int|
            0 <= k < keywords.deep_view().len() && contains_seq(
                lower_of(name@),
                keywords.deep_view()[k],
            ),
{
    let ghost kws = keywords.deep_view();
    let lname = lowercase(name.as_str());
    let mut k: usize = 0;
    while k < keywords.len()
        invariant
            k <= kws.len(),
            kws == keywords.deep_view(),
            kws.len() == keywords@.len(),
            lname@ == lower_of(name@),
            forall|m: int| 0 <= m < k ==> !contains_seq(lower_of(name@), kws[m]),
        decreases keywords@.len() - k,
    {
        if str_contains(lname.as_str(), keywords[k].as_str()) {
            proof {
                assert(contains_seq(lower_of(name@), kws[k as int]));
            }
            return true;
        }
        k += 1;
    }
    false
}

/// Filters the records down to the favorites: those whose lowercase name
/// contains one of the configured keywords.
pub fn filter_favorites(records: &Vec<App>, keywords: &Vec<String>) -> (r: Vec<App>)
    ensures
        r@ == records@.filter(favorite_pred(keywords.deep_view())),
{
    let ghost kws = keywords.deep_view();
    let ghost pred = favorite_pred(kws);
    let mut out: Vec<App> = Vec::new();
    let mut i: usize = 0;
    proof {
        reveal(Seq::filter);
        assert(records@.take(0) =~= Seq::<App>::empty());
        assert(out@ =~= records@.take(0).filter(pred));
    }
    while i < records.len()
        invariant
            i <= records@.len(),
            kws == keywords.deep_view(),
            pred == favorite_pred(kws),
            out@ == records@.take(i as int).filter(pred),
        decreases records@.len() - i,
    {
        let keep = matches_any_keyword(&records[i].name, keywords);
        proof {
            assert(keep == is_favorite(records@[i as int], kws));
        }
        if keep {
            out.push(records[i].clone());
        }
        proof {
            reveal(Seq::filter);
            assert(records@.take(i + 1).drop_last() =~= records@.take(i as int));
            assert(records@.take(i + 1).last() == records@[i as int]);
        }
        i += 1;
    }
    proof {
        assert(records@.take(records@.len() as int) =~= records@);
    }
    out
}

/// Filters the records down to those whose lowercase name contains the
/// already-lowercased query.
pub fn filter_by_query(records: &Vec<App>, query_lower: &str) -> (r: Vec<App>)
    ensures
        r@ == records@.filter(query_pred(query_lower@)),
{
    let ghost pred = query_pred(query_lower@);
    let mut out: Vec<App> = Vec::new();
    let mut i: usize = 0;
    proof {
        reveal(Seq::filter);
        assert(records@.take(0) =~= Seq::<App>::empty());
        assert(out@ =~= records@.take(0).filter(pred));
    }
    while i < records.len()
        invariant
            i <= records@.len(),
            pred == query_pred(query_lower@),
            out@ == records@.take(i as int).filter(pred),
        decreases records@.len() - i,
    {
        let lname = lowercase(records[i].name.as_str());
        let keep = str_contains(lname.as_str(), query_lower);
        if keep {
            out.push(records[i].clone());
        }
        proof {
            reveal(Seq::filter);
            assert(records@.take(i + 1).drop_last() =~= records@.take(i as int));
            assert(records@.take(i + 1).last() == records@[i as int]);
        }
        i += 1;
    }
    proof {
        assert(records@.take(records@.len() as int) =~= records@);
    }
    out
}

/// A filter keeps a strictly-sorted sequence strictly sorted, and hands out
/// only records of its input.
proof fn lemma_filter_keeps_order(s: Seq<App>, pred: spec_fn(App) -> bool)
    requires
        strictly_sorted_by_name(s),
    ensures
        strictly_sorted_by_name(s.filter(pred)),
        forall|x: App| s.filter(pred).contains(x) ==> s.contains(x) && pred(x),
    decreases s.len(),
{
    reveal(Seq::filter);
    if s.len() == 0 {
    } else {
        let t = s.drop_last();
        let last = s.last();
        assert(strictly_sorted_by_name(t)) by {
            assert(forall|k: int| 0 <= k < t.len() ==> t[k] == s[k]);
        }
        lemma_filter_keeps_order(t, pred);
        let f0 = t.filter(pred);
        assert forall|x: App| s.filter(pred).contains(x) implies s.contains(x) && pred(x) by {
            let j = choose|j: int| 0 <= j < s.filter(pred).len() && s.filter(pred)[j] == x;
            if pred(last) && j == s.filter(pred).len() - 1 {
                assert(s[s.len() - 1] == x);
            } else {
                assert(f0[j] == x);
                assert(f0.contains(x));
                assert(t.contains(x));
                assert(pred(x));
                let k = choose|k: int| 0 <= k < t.len() && t[k] == x;
                assert(s[k] == x);
            }
        }
        if pred(last) {
            let f = f0.push(last);
            assert forall|x: int, y: int|
                0 <= x < y < f.len() implies lex_le(f[x].name@, f[y].name@) && f[x].name@
                != f[y].name@ by {
                if y < f.len() - 1 {
                    assert(f[x] == f0[x] && f[y] == f0[y]);
                } else {
                    assert(f[x] == f0[x]);
                    assert(f0.contains(f0[x]));
                    assert(t.contains(f0[x]));
                    let k = choose|k: int| 0 <= k < t.len() && t[k] == f0[x];
                    assert(s[k] == f0[x]);
                    assert(lex_le(s[k].name@, last.name@) && s[k].name@ != last.name@);
                }
            }
        }
    }
}

proof fn lemma_filter_push(s: Seq<App>, pred: spec_fn(App) -> bool, x: App)
    ensures
        s.push(x).filter(pred) == if pred(x) {
            s.filter(pred).push(x)
        } else {
            s.filter(pred)
        },
{
    reveal(Seq::filter);
    assert(s.push(x).drop_last() =~= s);
    assert(s.push(x).last() == x);
}

/// Two filters commute: filtering by one predicate and then the other
/// keeps the same records in the same order either way round.
proof fn lemma_filter_swap(s: Seq<App>, p: spec_fn(App) -> bool, q: spec_fn(App) -> bool)
    ensures
        s.filter(p).filter(q) == s.filter(q).filter(p),
    decreases s.len(),
{
    reveal(Seq::filter);
    if s.len() == 0 {
    } else {
        let t = s.drop_last();
        let l = s.last();
        lemma_filter_swap(t, p, q);
        assert(t.push(l) =~= s);
        lemma_filter_push(t, p, l);
        lemma_filter_push(t, q, l);
        if p(l) {
            lemma_filter_push(t.filter(p), q, l);
        }
        if q(l) {
            lemma_filter_push(t.filter(q), p, l);
        }
    }
}

/// No two records of a strictly name-sorted sequence share a name.
pub proof fn lemma_names_unique(s: Seq<App>)
    requires
        strictly_sorted_by_name(s),
    ensures
        forall|i: int, j: int|
            0 <= i < s.len() && 0 <= j < s.len() && i != j ==> s[i].name@ != s[j].name@,
{
    assert forall|i: int, j: int|
        0 <= i < s.len() && 0 <= j < s.len() && i != j implies s[i].name@ != s[j].name@ by {
        if i < j {
            assert(lex_le(s[i].name@, s[j].name@) && s[i].name@ != s[j].name@);
        } else {
            assert(lex_le(s[j].name@, s[i].name@) && s[j].name@ != s[i].name@);
        }
    }
}

/// The output snapshot: the full sorted, deduplicated, possibly filtered
/// application list, and its favorites subset.
pub struct Catalog {
    pub apps: Vec<App>,
    pub favorites: Vec<App>,
}

/// The record's name passes the optional query: vacuously with no query,
/// else by case-insensitive substring match.
pub open spec fn passes_query(a: App, query: Option<&String>) -> bool {
    match query {
        Some(q) => contains_seq(lower_of(a.name@), lower_of(q@)),
        None => true,
    }
}

/// Aggregates the collected records into the output snapshot: sort by name,
/// drop adjacent duplicate names, classify favorites by the keyword list,
/// and filter both lists by the optional case-insensitive search query.
pub fn assemble_catalog(records: Vec<App>, keywords: &Vec<String>, query: Option<&String>) -> (c:
    Catalog)
    ensures
        strictly_sorted_by_name(c.apps@),
        strictly_sorted_by_name(c.favorites@),
        forall|x: App| c.apps@.contains(x) ==> records@.contains(x) && passes_query(x, query),
        c.favorites@ == c.apps@.filter(favorite_pred(keywords.deep_view())),
        forall|x: App|
            #[trigger] c.favorites@.contains(x) ==> c.apps@.contains(x) && is_favorite(
                x,
                keywords.deep_view(),
            ),
        forall|i: int|
            0 <= i < records@.len() && passes_query(records@[i], query) ==> #[trigger] name_covered(
                records@,
                c.apps@,
                i,
            ),
{
    broadcast use vstd::seq_lib::group_to_multiset_ensures, vstd::seq_lib::group_filter_ensures;

    let ghost recs = records@;
    let ghost kws = keywords.deep_view();
    let sorted = sort_by_name(records);
    let deduped = dedup_by_name(sorted);
    proof {
        lemma_dedup_properties(sorted@);
        assert forall|x: App| #[trigger] deduped@.contains(x) implies recs.contains(x) by {
            assert(sorted@.contains(x));
            assert(sorted@.to_multiset().count(x) > 0);
            assert(recs.to_multiset().count(x) > 0);
        }
        assert forall|i: int| 0 <= i < recs.len() implies #[trigger] name_covered(
            recs,
            deduped@,
            i,
        ) by {
            assert(recs.contains(recs[i])) by {
                assert(0 <= i < recs.len() && recs[i] == recs[i]);
            }
            assert(recs.to_multiset().count(recs[i]) > 0);
            assert(sorted@.to_multiset().count(recs[i]) > 0);
            assert(sorted@.contains(recs[i]));
            let k = choose|k: int| 0 <= k < sorted@.len() && sorted@[k] == recs[i];
            assert(name_covered(sorted@, deduped@, k));
            let j = choose|j: int| 0 <= j < deduped@.len() && deduped@[j].name@ == sorted@[k].name@;
            assert(deduped@[j].name@ == recs[i].name@);
        }
    }
    let favorites = filter_favorites(&deduped, keywords);
    proof {
        lemma_filter_keeps_order(deduped@, favorite_pred(kws));
    }
    match query {
        None => {
            let c = Catalog { apps: deduped, favorites };
            proof {
                assert forall|x: App| #[trigger] c.favorites@.contains(x) implies c.apps@.contains(
                    x,
                ) && is_favorite(x, keywords.deep_view()) by {
                    assert(c.apps@.filter(favorite_pred(kws)).contains(x));
                    assert(deduped@.filter(favorite_pred(kws)).contains(x));
                    assert(deduped@.contains(x));
                    assert(c.apps@.contains(x));
                    assert(favorite_pred(kws)(x));
                    assert(is_favorite(x, kws));
                }
            }
            c
        },
        Some(q) => {
            let ql = lowercase(q.as_str());
            let apps_f = filter_by_query(&deduped, ql.as_str());
            let favs_f = filter_by_query(&favorites, ql.as_str());
            proof {
                lemma_filter_keeps_order(deduped@, query_pred(ql@));
                lemma_filter_keeps_order(favorites@, query_pred(ql@));
                assert forall|x: App| #[trigger] apps_f@.contains(x) implies recs.contains(x) && passes_query(
                    x,
                    query,
                ) by {
                    assert(deduped@.filter(query_pred(ql@)).contains(x));
                    assert(deduped@.contains(x) && query_pred(ql@)(x));
                }
                assert forall|x: App| #[trigger] favs_f@.contains(x) implies apps_f@.contains(x)
                    && is_favorite(x, kws) by {
                    assert(favorites@.filter(query_pred(ql@)).contains(x));
                    assert(favorites@.contains(x) && query_pred(ql@)(x));
                    assert(deduped@.filter(favorite_pred(kws)).contains(x));
                    assert(favorite_pred(kws)(x));
                    assert(is_favorite(x, kws));
                    assert(deduped@.contains(x));
                    let d = choose|d: int| 0 <= d < deduped@.len() && deduped@[d] == x;
                    assert(query_pred(ql@)(deduped@[d]));
                    assert(apps_f@.contains(deduped@[d]));
                }
                assert forall|i: int|
                    0 <= i < recs.len() && passes_query(recs[i], query) implies #[trigger] name_covered(
                        recs,
                        apps_f@,
                        i,
                    ) by {
                    assert(name_covered(recs, deduped@, i));
                    let j = choose|j: int|
                        0 <= j < deduped@.len() && deduped@[j].name@ == recs[i].name@;
                    assert(query_pred(ql@)(deduped@[j]));
                    assert(apps_f@.contains(deduped@[j]));
                    let m = choose|m: int| 0 <= m < apps_f@.len() && apps_f@[m] == deduped@[j];
                    assert(apps_f@[m].name@ == recs[i].name@);
                }
            }
            let c = Catalog { apps: apps_f, favorites: favs_f };
            proof {
                lemma_filter_swap(deduped@, favorite_pred(kws), query_pred(ql@));
                assert(c.favorites@ == c.apps@.filter(favorite_pred(keywords.deep_view())));
                assert forall|x: App| #[trigger] c.favorites@.contains(x) implies c.apps@.contains(
                    x,
                ) && is_favorite(x, keywords.deep_view()) by {
                    assert(favs_f@.contains(x));
                    assert(apps_f@.contains(x) && is_favorite(x, kws));
                    assert(c.apps@.contains(x));
                }
            }
            c
        },
    }
}

/// Every catalog entry keeps the parser's guarantees: when every collected
/// record carries a non-empty name and a non-empty command, so does every
/// entry of the assembled applications and favorites lists.
pub proof fn lemma_catalog_fields_nonempty(records: Seq<App>, apps: Seq<App>, favorites: Seq<App>)
    requires
        forall|i: int|
            0 <= i < records.len() ==> records[i].name@.len() > 0 && records[i].command@.len() > 0,
        forall|x: App| apps.contains(x) ==> records.contains(x),
        forall|x: App| favorites.contains(x) ==> apps.contains(x),
    ensures
        forall|i: int| 0 <= i < apps.len() ==> apps[i].name@.len() > 0 && apps[i].command@.len() > 0,
        forall|i: int|
            0 <= i < favorites.len() ==> favorites[i].name@.len() > 0 && favorites[i].command@.len()
                > 0,
{
    assert forall|i: int|
        0 <= i < apps.len() implies apps[i].name@.len() > 0 && apps[i].command@.len() > 0 by {
        assert(apps.contains(apps[i]));
        assert(records.contains(apps[i]));
        let j = choose|j: int| 0 <= j < records.len() && records[j] == apps[i];
    }
    assert forall|i: int|
        0 <= i < favorites.len() implies favorites[i].name@.len() > 0
            && favorites[i].command@.len() > 0 by {
        assert(favorites.contains(favorites[i]));
        assert(apps.contains(favorites[i]));
        assert(records.contains(favorites[i]));
        let j = choose|j: int| 0 <= j < records.len() && records[j] == favorites[i];
    }
}

/// The fixed keyword list that classifies favorites.
pub open spec fn favorite_keywords_spec() -> Seq<Seq<char>> {
    seq![
        "neovim"@,
        "prism launcher"@,
        "steam"@,
        "zen browser"@,
        "obs studio"@,
        "cider"@,
        "discord"@,
    ]
}

/// Builds the configured favorites keyword list.
pub fn default_favorite_keywords() -> (r: Vec<String>)
    ensures
        r.deep_view() == favorite_keywords_spec(),
{
    let mut v: Vec<String> = Vec::new();
    v.push("neovim".to_owned());
    v.push("prism launcher".to_owned());
    v.push("steam".to_owned());
    v.push("zen browser".to_owned());
    v.push("obs studio".to_owned());
    v.push("cider".to_owned());
    v.push("discord".to_owned());
    proof {
        assert(v.deep_view() =~~= favorite_keywords_spec());
    }
    v
}

/// `s` split at every occurrence of `c`; empty segments are kept.
pub open spec fn split_char_spec(s: Seq<char>, c: char) -> Seq<Seq<char>>
    decreases s.len(),
{
    let i = first_index_of(s, c);
    if i < 0 || i >= s.len() {
        seq![s]
    } else {
        seq![s.take(i)] + split_char_spec(s.skip(i + 1), c)
    }
}

/// Splits `s` at every `c`, keeping empty segments, as `str::split` does.
pub fn split_on_char(s: &str, c: char) -> (r: Vec<String>)
    ensures
        r.deep_view() == split_char_spec(s@, c),
    decreases s@.len(),
{
    let slen = s.unicode_len();
    let i = find_char(s, c);
    proof {
        lemma_first_index_of(s@, c);
    }
    if i == slen {
        let mut v: Vec<String> = Vec::new();
        v.push(s.to_owned());
        proof {
            assert(v.deep_view() =~= split_char_spec(s@, c));
        }
        v
    } else {
        let head = s.substring_char(0, i);
        let tail = s.substring_char(i + 1, slen);
        proof {
            assert(tail@ =~= s@.skip(i + 1));
            assert(head@ =~= s@.take(i as int));
        }
        let mut rest = split_on_char(tail, c);
        let ghost rest_dv = rest.deep_view();
        let mut v: Vec<String> = Vec::new();
        v.push(head.to_owned());
        v.append(&mut rest);
        proof {
            assert(v@.len() == 1 + rest_dv.len());
            assert(v.deep_view() =~= seq![head@] + rest_dv);
            assert(v.deep_view() =~= split_char_spec(s@, c));
        }
        v
    }
}

/// The ordered directory list the scan walks: the user-local data directory
/// plus `/applications` first, then one entry per colon-separated segment
/// of the system data-directories variable (or a fixed two-path default
/// when the variable is unset), each suffixed with `/applications`.
pub open spec fn app_dirs_spec(user: Option<Seq<char>>, xdg: Option<Seq<char>>) -> Seq<Seq<char>> {
    let base: Seq<Seq<char>> = match user {
        Some(u) => seq![u + "/applications"@],
        None => seq![],
    };
    let list = match xdg {
        Some(x) => x,
        None => "/usr/local/share:/usr/share"@,
    };
    base + split_char_spec(list, ':').map_values(|seg: Seq<char>| seg + "/applications"@)
}

/// The view of an optional borrowed string.
pub open spec fn opt_str_view(o: Option<&String>) -> Option<Seq<char>> {
    match o {
        Some(s) => Some(s@),
        None => None,
    }
}

/// Computes the ordered list of directories that may hold application
/// metadata. `user_data_dir` is the user-local data directory when one is
/// known; `xdg_data_dirs` the colon-separated system data-directories
/// variable when set. No directory is required to exist.
pub fn get_application_dirs(user_data_dir: Option<&String>, xdg_data_dirs: Option<&String>) -> (r:
    Vec<String>)
    ensures
        r.deep_view() == app_dirs_spec(opt_str_view(user_data_dir), opt_str_view(xdg_data_dirs)),
{
    let ghost user_v = opt_str_view(user_data_dir);
    let ghost xdg_v = opt_str_view(xdg_data_dirs);
    let mut out: Vec<String> = Vec::new();
    match user_data_dir {
        Some(u) => {
            out.push(concat2(u.as_str(), "/applications"));
        },
        None => {},
    }
    let ghost base = out.deep_view();
    let list: String = match xdg_data_dirs {
        Some(x) => x.clone(),
        None => "/usr/local/share:/usr/share".to_owned(),
    };
    let segs = split_on_char(list.as_str(), ':');
    let ghost segs_dv = segs.deep_view();
    let ghost f = |seg: Seq<char>| seg + "/applications"@;
    let mut k: usize = 0;
    while k < segs.len()
        invariant
            k <= segs@.len(),
            segs_dv == segs.deep_view(),
            segs_dv.len() == segs@.len(),
            out.deep_view() == base + segs_dv.take(k as int).map_values(f),
            f == (|seg: Seq<char>| seg + "/applications"@),
        decreases segs@.len() - k,
    {
        let ghost prev_dv = out.deep_view();
        let piece = concat2(segs[k].as_str(), "/applications");
        proof {
            assert(piece@ == f(segs_dv[k as int]));
        }
        out.push(piece);
        proof {
            assert(out.deep_view() =~= prev_dv.push(f(segs_dv[k as int])));
            assert(segs_dv.take(k + 1).map_values(f) =~= segs_dv.take(k as int).map_values(
                f,
            ).push(f(segs_dv[k as int])));
            assert(out.deep_view() =~= base + segs_dv.take(k + 1).map_values(f));
        }
        k += 1;
    }
    proof {
        assert(segs_dv.take(segs_dv.len() as int) =~= segs_dv);
        assert(out.deep_view() =~= app_dirs_spec(user_v, xdg_v));
    }
    out
}

} // verus!
