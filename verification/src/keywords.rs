//! The related keywords of a page of search hits: how often each keyword of
//! the developers found is used, over all of them.

use vstd::prelude::*;
use crate::guard::{is_clean_keyword, is_noisy_keyword};
use crate::order::{keyword_before, keyword_le, lemma_lex_le_total, lemma_lex_le_transitive};
use crate::text::lower;

verus! {

/// A keyword and how often it is used.
#[derive(Debug, PartialEq, Eq)]
pub struct RelatedKeywords {
    /// The keyword.
    pub k: String,
    /// The number of its uses.
    pub c: usize,
}

/// One technology of a developer's report.
pub struct Tech {
    /// The keywords of the code references, where the technology has any.
    pub refs_kw: Option<Vec<RelatedKeywords>>,
    /// The keywords of the packages, where the technology has any.
    pub pkgs_kw: Option<Vec<RelatedKeywords>>,
}

/// The report on a developer's code.
pub struct Report {
    /// The technologies found, where any were looked for.
    pub tech: Option<Vec<Tech>>,
}

/// The document of a search hit.
pub struct EngSource {
    /// The report, where the document has one.
    pub report: Option<Report>,
}

/// One search hit.
pub struct EngHit {
    /// The document, where the hit carries it.
    pub source: Option<EngSource>,
}

/// A keyword and a count, as a sequence of characters and a number.
pub struct Counted {
    pub k: Seq<char>,
    pub c: nat,
}

impl View for RelatedKeywords {
    type V = Counted;

    open spec fn view(&self) -> Counted {
        Counted { k: self.k@, c: self.c as nat }
    }
}

/// The views of a sequence of entries, in order.
pub open spec fn entry_views(entries: Seq<RelatedKeywords>) -> Seq<Counted> {
    entries.map_values(|e: RelatedKeywords| e@)
}

/// The entries of a list that may be missing.
pub open spec fn list_entries(list: Option<Vec<RelatedKeywords>>) -> Seq<Counted> {
    match list {
        Some(entries) => entry_views(entries@),
        None => Seq::empty(),
    }
}

/// The entries of a technology: those of its code references, then those of
/// its packages.
pub open spec fn tech_entries(tech: Tech) -> Seq<Counted> {
    list_entries(tech.refs_kw) + list_entries(tech.pkgs_kw)
}

/// [`tech_entries`] as a function value.
pub open spec fn per_tech() -> spec_fn(Tech) -> Seq<Counted> {
    |t: Tech| tech_entries(t)
}

/// The entries of a hit. A hit without a document, a document without a
/// report and a report without technologies have none.
pub open spec fn hit_entries(hit: EngHit) -> Seq<Counted> {
    match hit.source {
        Some(EngSource { report: Some(Report { tech: Some(techs) }) }) => techs@.flat_map(
            per_tech(),
        ),
        _ => Seq::empty(),
    }
}

/// [`hit_entries`] as a function value.
pub open spec fn per_hit() -> spec_fn(EngHit) -> Seq<Counted> {
    |h: EngHit| hit_entries(h)
}

/// The entries of all the hits, in the order of the documents.
pub open spec fn all_entries(hits: Seq<EngHit>) -> Seq<Counted> {
    hits.flat_map(per_hit())
}

/// The sum of the counts that `entries` give for the keyword `k`.
pub open spec fn total(entries: Seq<Counted>, k: Seq<char>) -> nat
    decreases entries.len(),
{
    if entries.len() == 0 {
        0
    } else if entries.last().k == k {
        total(entries.drop_last(), k) + entries.last().c
    } else {
        total(entries.drop_last(), k)
    }
}

/// True when one of `entries` is for the keyword `k`.
pub open spec fn occurs(entries: Seq<Counted>, k: Seq<char>) -> bool {
    exists|i: int| 0 <= i < entries.len() && (#[trigger] entries[i]).k == k
}

/// True when the total of every clean keyword can be held in a `usize`.
pub open spec fn totals_fit(entries: Seq<Counted>) -> bool {
    forall|k: Seq<char>| is_clean_keyword(k) ==> #[trigger] total(entries, k) <= usize::MAX
}

/// True when `out` is the tally of `entries`: it lists each clean keyword of
/// the entries once, with the sum of its counts, and nothing else.
pub open spec fn is_tally(out: Seq<Counted>, entries: Seq<Counted>) -> bool {
    &&& forall|i: int|
        0 <= i < out.len() ==> is_clean_keyword((#[trigger] out[i]).k) && occurs(entries, out[i].k)
            && out[i].c == total(entries, out[i].k)
    &&& forall|i: int, j: int|
        0 <= i < j < out.len() ==> (#[trigger] out[i]).k != (#[trigger] out[j]).k
    &&& forall|p: int|
        0 <= p < entries.len() && is_clean_keyword((#[trigger] entries[p]).k) ==> occurs(
            out,
            entries[p].k,
        )
}

/// True when the keywords of `out` stand in their order.
pub open spec fn is_sorted(out: Seq<Counted>) -> bool {
    forall|i: int, j: int|
        0 <= i < j < out.len() ==> keyword_le((#[trigger] out[i]).k, (#[trigger] out[j]).k)
}

/// A keyword that does not occur has the total 0.
pub proof fn lemma_total_absent(entries: Seq<Counted>, k: Seq<char>)
    requires
        !occurs(entries, k),
    ensures
        total(entries, k) == 0,
    decreases entries.len(),
{
    if entries.len() > 0 {
        let rest = entries.drop_last();
        assert(entries[entries.len() - 1].k != k);
        assert forall|i: int| 0 <= i < rest.len() implies (#[trigger] rest[i]).k != k by {
            assert(entries[i].k != k);
        }
        lemma_total_absent(rest, k);
    }
}

/// One more entry adds its count to the total of its keyword and leaves the
/// other totals as they are.
pub proof fn lemma_total_push(entries: Seq<Counted>, e: Counted, k: Seq<char>)
    ensures
        total(entries.push(e), k) == total(entries, k) + (if e.k == k {
            e.c
        } else {
            0
        }),
{
    assert(entries.push(e).drop_last() == entries);
}

/// The total over the first entries is no more than the total over all.
pub proof fn lemma_total_prefix(entries: Seq<Counted>, n: int, k: Seq<char>)
    requires
        0 <= n <= entries.len(),
    ensures
        total(entries.take(n), k) <= total(entries, k),
    decreases entries.len(),
{
    if n == entries.len() {
        assert(entries.take(n) == entries);
    } else {
        lemma_total_prefix(entries.drop_last(), n, k);
        assert(entries.drop_last().take(n) == entries.take(n));
    }
}

/// An entry with a keyword that is not clean leaves the tally as it is.
pub proof fn lemma_tally_skip(out: Seq<Counted>, entries: Seq<Counted>, e: Counted)
    requires
        is_tally(out, entries),
        !is_clean_keyword(e.k),
    ensures
        is_tally(out, entries.push(e)),
{
    let more = entries.push(e);
    assert forall|i: int| 0 <= i < out.len() implies is_clean_keyword((#[trigger] out[i]).k)
        && occurs(more, out[i].k) && out[i].c == total(more, out[i].k) by {
        lemma_total_push(entries, e, out[i].k);
        let p = choose|p: int| 0 <= p < entries.len() && (#[trigger] entries[p]).k == out[i].k;
        assert(more[p].k == out[i].k);
    }
    assert forall|p: int|
        0 <= p < more.len() && is_clean_keyword((#[trigger] more[p]).k) implies occurs(
        out,
        more[p].k,
    ) by {
        assert(p < entries.len());
        assert(more[p] == entries[p]);
    }
}

/// An entry for a keyword that the tally holds adds its count there.
pub proof fn lemma_tally_update(out: Seq<Counted>, entries: Seq<Counted>, e: Counted, j: int)
    requires
        is_tally(out, entries),
        0 <= j < out.len(),
        out[j].k == e.k,
    ensures
        is_tally(out.update(j, Counted { k: e.k, c: out[j].c + e.c }), entries.push(e)),
{
    let more = entries.push(e);
    let next = out.update(j, Counted { k: e.k, c: out[j].c + e.c });
    assert forall|i: int| 0 <= i < next.len() implies is_clean_keyword((#[trigger] next[i]).k)
        && occurs(more, next[i].k) && next[i].c == total(more, next[i].k) by {
        lemma_total_push(entries, e, next[i].k);
        assert(next[i].k == out[i].k);
        if i != j {
            assert(out[i].k != out[j].k);
        }
        let p = choose|p: int| 0 <= p < entries.len() && (#[trigger] entries[p]).k == out[i].k;
        assert(more[p].k == out[i].k);
    }
    assert forall|i: int, k: int| 0 <= i < k < next.len() implies (#[trigger] next[i]).k != (
    #[trigger] next[k]).k by {
        assert(next[i].k == out[i].k);
        assert(next[k].k == out[k].k);
    }
    assert forall|p: int|
        0 <= p < more.len() && is_clean_keyword((#[trigger] more[p]).k) implies occurs(
        next,
        more[p].k,
    ) by {
        if p < entries.len() {
            assert(more[p] == entries[p]);
            let i = choose|i: int| 0 <= i < out.len() && (#[trigger] out[i]).k == entries[p].k;
            assert(next[i].k == out[i].k);
        } else {
            assert(next[j].k == e.k);
        }
    }
}

/// An entry for a clean keyword that the tally does not hold enters it with
/// its count, wherever it is put.
pub proof fn lemma_tally_insert(out: Seq<Counted>, entries: Seq<Counted>, e: Counted, at: int)
    requires
        is_tally(out, entries),
        is_clean_keyword(e.k),
        !occurs(out, e.k),
        0 <= at <= out.len(),
    ensures
        is_tally(out.insert(at, e), entries.push(e)),
{
    let more = entries.push(e);
    let next = out.insert(at, e);
    out.insert_ensures(at, e);
    assert(!occurs(entries, e.k)) by {
        if occurs(entries, e.k) {
            let p = choose|p: int| 0 <= p < entries.len() && (#[trigger] entries[p]).k == e.k;
            assert(occurs(out, entries[p].k));
        }
    }
    lemma_total_absent(entries, e.k);
    assert forall|i: int| 0 <= i < next.len() implies is_clean_keyword((#[trigger] next[i]).k)
        && occurs(more, next[i].k) && next[i].c == total(more, next[i].k) by {
        lemma_total_push(entries, e, next[i].k);
        if i == at {
            assert(more[entries.len() as int].k == e.k);
        } else {
            let old_i = if i < at {
                i
            } else {
                i - 1
            };
            assert(next[i] == out[old_i]);
            assert(out[old_i].k != e.k);
            let p = choose|p: int|
                0 <= p < entries.len() && (#[trigger] entries[p]).k == out[old_i].k;
            assert(more[p].k == out[old_i].k);
        }
    }
    assert forall|i: int, k: int| 0 <= i < k < next.len() implies (#[trigger] next[i]).k != (
    #[trigger] next[k]).k by {
        let old_i = if i < at {
            i
        } else {
            i - 1
        };
        let old_k = if k < at {
            k
        } else {
            k - 1
        };
        if i == at {
            assert(next[k] == out[old_k]);
        } else if k == at {
            assert(next[i] == out[old_i]);
        } else {
            assert(next[i] == out[old_i]);
            assert(next[k] == out[old_k]);
        }
    }
    assert forall|p: int|
        0 <= p < more.len() && is_clean_keyword((#[trigger] more[p]).k) implies occurs(
        next,
        more[p].k,
    ) by {
        if p < entries.len() {
            assert(more[p] == entries[p]);
            let i = choose|i: int| 0 <= i < out.len() && (#[trigger] out[i]).k == entries[p].k;
            if i < at {
                assert(next[i] == out[i]);
            } else {
                assert(next[i + 1] == out[i]);
            }
        } else {
            assert(next[at].k == e.k);
        }
    }
}

/// A keyword put behind those that come before it and ahead of those that
/// come after it leaves the list in order.
pub proof fn lemma_insert_sorted(out: Seq<Counted>, e: Counted, at: int)
    requires
        is_sorted(out),
        0 <= at <= out.len(),
        forall|i: int| 0 <= i < at ==> keyword_le((#[trigger] out[i]).k, e.k),
        forall|i: int| at <= i < out.len() ==> keyword_le(e.k, (#[trigger] out[i]).k),
    ensures
        is_sorted(out.insert(at, e)),
{
    let next = out.insert(at, e);
    out.insert_ensures(at, e);
    assert forall|i: int, j: int| 0 <= i < j < next.len() implies keyword_le(
        (#[trigger] next[i]).k,
        (#[trigger] next[j]).k,
    ) by {
        let old_i = if i < at {
            i
        } else {
            i - 1
        };
        let old_j = if j < at {
            j
        } else {
            j - 1
        };
        if i == at {
            assert(next[j] == out[old_j]);
        } else if j == at {
            assert(next[i] == out[old_i]);
        } else {
            assert(next[i] == out[old_i]);
            assert(next[j] == out[old_j]);
        }
    }
}

/// Copies the entries of a list to the end of `all`.
fn gather_list(all: &mut Vec<RelatedKeywords>, list: &Option<Vec<RelatedKeywords>>)
    ensures
        entry_views(final(all)@) == entry_views(old(all)@) + list_entries(*list),
{
    match list {
        Some(entries) => {
            let mut i: usize = 0;
            assert(entry_views(entries@).take(0) == Seq::<Counted>::empty());
            assert(entry_views(all@) + Seq::<Counted>::empty() == entry_views(all@));
            while i < entries.len()
                invariant
                    i <= entries.len(),
                    entry_views(all@) == entry_views(old(all)@) + entry_views(entries@).take(
                        i as int,
                    ),
                decreases entries.len() - i,
            {
                let e = RelatedKeywords { k: entries[i].k.clone(), c: entries[i].c };
                proof {
                    assert(e@ == entries[i as int]@);
                    assert(entry_views(all@.push(e)) == entry_views(all@).push(e@));
                    assert(entry_views(entries@).take(i + 1) == entry_views(entries@).take(
                        i as int,
                    ).push(e@));
                    assert((entry_views(old(all)@) + entry_views(entries@).take(i as int)).push(
                        e@,
                    ) == entry_views(old(all)@) + entry_views(entries@).take(i + 1));
                }
                all.push(e);
                i = i + 1;
            }
            assert(entry_views(entries@).take(entries.len() as int) == entry_views(entries@));
        },
        None => {
            assert(entry_views(all@) + Seq::<Counted>::empty() == entry_views(all@));
        },
    }
}

/// Copies the entries of a hit to the end of `all`.
fn gather_hit(all: &mut Vec<RelatedKeywords>, hit: &EngHit)
    ensures
        entry_views(final(all)@) == entry_views(old(all)@) + hit_entries(*hit),
{
    assert(entry_views(all@) + Seq::<Counted>::empty() == entry_views(all@));
    let source = match &hit.source {
        Some(source) => source,
        None => {
            return ;
        },
    };
    let report = match &source.report {
        Some(report) => report,
        None => {
            return ;
        },
    };
    let techs = match &report.tech {
        Some(techs) => techs,
        None => {
            return ;
        },
    };
    let mut i: usize = 0;
    assert(techs@.take(0).flat_map(per_tech()) == Seq::<Counted>::empty());
    while i < techs.len()
        invariant
            i <= techs.len(),
            entry_views(all@) == entry_views(old(all)@) + techs@.take(i as int).flat_map(
                per_tech(),
            ),
        decreases techs.len() - i,
    {
        let ghost before = entry_views(all@);
        gather_list(all, &techs[i].refs_kw);
        gather_list(all, &techs[i].pkgs_kw);
        proof {
            let done = techs@.take(i as int);
            done.lemma_flat_map_push(per_tech(), techs[i as int]);
            assert(techs@.take(i + 1) == done.push(techs[i as int]));
            assert(entry_views(all@) == before + tech_entries(techs[i as int]));
        }
        i = i + 1;
    }
    assert(techs@.take(techs.len() as int) == techs@);
}

/// The entries of all the hits, in the order of the documents.
pub fn gather_entries(hits: &Vec<EngHit>) -> (all: Vec<RelatedKeywords>)
    ensures
        entry_views(all@) == all_entries(hits@),
{
    let mut all: Vec<RelatedKeywords> = Vec::new();
    let mut i: usize = 0;
    assert(hits@.take(0).flat_map(per_hit()) == Seq::<Counted>::empty());
    assert(entry_views(all@) == Seq::<Counted>::empty());
    while i < hits.len()
        invariant
            i <= hits.len(),
            entry_views(all@) == hits@.take(i as int).flat_map(per_hit()),
        decreases hits.len() - i,
    {
        gather_hit(&mut all, &hits[i]);
        proof {
            let done = hits@.take(i as int);
            done.lemma_flat_map_push(per_hit(), hits[i as int]);
            assert(hits@.take(i + 1) == done.push(hits[i as int]));
        }
        i = i + 1;
    }
    assert(hits@.take(hits.len() as int) == hits@);
    all
}

/// Where `out` holds the keyword, if it does.
fn position_of(out: &Vec<RelatedKeywords>, keyword: &String) -> (at: Option<usize>)
    ensures
        match at {
            Some(j) => j < out.len() && out[j as int].k@ == keyword@,
            None => !occurs(entry_views(out@), keyword@),
        },
{
    let mut j: usize = 0;
    while j < out.len()
        invariant
            j <= out.len(),
            forall|i: int| 0 <= i < j ==> (#[trigger] out[i]).k@ != keyword@,
        decreases out.len() - j,
    {
        if out[j].k == *keyword {
            return Some(j);
        }
        j = j + 1;
    }
    proof {
        assert forall|i: int| 0 <= i < entry_views(out@).len() implies (#[trigger] entry_views(
            out@,
        )[i]).k != keyword@ by {
            assert(out[i].k@ != keyword@);
        }
    }
    None
}

/// Where a keyword that `out` does not hold goes: behind those that come
/// before it or are its equals in the order.
fn place_of(out: &Vec<RelatedKeywords>, keyword: &str) -> (at: usize)
    requires
        is_sorted(entry_views(out@)),
    ensures
        at <= out.len(),
        forall|i: int| 0 <= i < at ==> keyword_le((#[trigger] entry_views(out@)[i]).k, keyword@),
        forall|i: int|
            at <= i < out.len() ==> keyword_le(keyword@, (#[trigger] entry_views(out@)[i]).k),
{
    let ghost views = entry_views(out@);
    let mut at: usize = 0;
    while at < out.len() && keyword_before(out[at].k.as_str(), keyword)
        invariant
            at <= out.len(),
            views == entry_views(out@),
            forall|i: int| 0 <= i < at ==> keyword_le((#[trigger] views[i]).k, keyword@),
        decreases out.len() - at,
    {
        at = at + 1;
    }
    proof {
        assert forall|i: int| at <= i < out.len() implies keyword_le(
            keyword@,
            (#[trigger] views[i]).k,
        ) by {
            let first = views[at as int].k;
            assert(!keyword_le(first, keyword@));
            lemma_lex_le_total(lower(first), lower(keyword@));
            if i > at {
                assert(keyword_le(views[at as int].k, views[i].k));
                lemma_lex_le_transitive(lower(keyword@), lower(first), lower(views[i].k));
            }
        }
    }
    at
}

/// Tallies the entries: each clean keyword once, with the sum of its
/// counts, in the order of the keywords. Gives `None` where a sum cannot be
/// held in a `usize`.
pub fn tally(entries: &Vec<RelatedKeywords>) -> (r: Option<Vec<RelatedKeywords>>)
    ensures
        r is Some <==> totals_fit(entry_views(entries@)),
        r matches Some(out) ==> is_tally(entry_views(out@), entry_views(entries@)) && is_sorted(
            entry_views(out@),
        ),
{
    let ghost all = entry_views(entries@);
    let mut out: Vec<RelatedKeywords> = Vec::new();
    let mut i: usize = 0;
    assert(all.take(0) == Seq::<Counted>::empty());
    while i < entries.len()
        invariant
            i <= entries.len(),
            all == entry_views(entries@),
            is_tally(entry_views(out@), all.take(i as int)),
            is_sorted(entry_views(out@)),
        decreases entries.len() - i,
    {
        let ghost done = all.take(i as int);
        let ghost before = entry_views(out@);
        let ghost e = all[i as int];
        assert(all.take(i + 1) == done.push(e));
        assert(e == entries[i as int]@);
        if is_noisy_keyword(entries[i].k.as_str()) {
            proof {
                lemma_tally_skip(before, done, e);
            }
        } else {
            match position_of(&out, &entries[i].k) {
                Some(j) => {
                    assert(before[j as int].k == e.k);
                    match out[j].c.checked_add(entries[i].c) {
                        Some(sum) => {
                            let merged = RelatedKeywords { k: entries[i].k.clone(), c: sum };
                            proof {
                                lemma_tally_update(before, done, e, j as int);
                                assert(entry_views(out@.update(j as int, merged)) == before.update(
                                    j as int,
                                    merged@,
                                ));
                                assert forall|a: int, b: int|
                                    0 <= a < b < before.len() implies keyword_le(
                                    (#[trigger] before.update(j as int, merged@)[a]).k,
                                    (#[trigger] before.update(j as int, merged@)[b]).k,
                                ) by {
                                    assert(before.update(j as int, merged@)[a].k == before[a].k);
                                    assert(before.update(j as int, merged@)[b].k == before[b].k);
                                }
                            }
                            out.set(j, merged);
                        },
                        None => {
                            proof {
                                lemma_total_push(done, e, e.k);
                                lemma_total_prefix(all, i + 1, e.k);
                                assert(total(all, e.k) > usize::MAX);
                            }
                            return None;
                        },
                    }
                },
                None => {
                    let at = place_of(&out, entries[i].k.as_str());
                    let fresh = RelatedKeywords { k: entries[i].k.clone(), c: entries[i].c };
                    proof {
                        lemma_tally_insert(before, done, e, at as int);
                        lemma_insert_sorted(before, e, at as int);
                        assert(fresh@ == e);
                        assert(entry_views(out@.insert(at as int, fresh)) == before.insert(
                            at as int,
                            e,
                        ));
                    }
                    out.insert(at, fresh);
                },
            }
        }
        i = i + 1;
    }
    proof {
        assert(all.take(entries.len() as int) == all);
        let views = entry_views(out@);
        assert forall|k: Seq<char>| is_clean_keyword(k) implies #[trigger] total(all, k)
            <= usize::MAX by {
            if occurs(all, k) {
                let p = choose|p: int| 0 <= p < all.len() && (#[trigger] all[p]).k == k;
                assert(occurs(views, all[p].k));
                let j = choose|j: int| 0 <= j < views.len() && (#[trigger] views[j]).k == k;
                assert(views[j].c == total(all, k));
                assert(views[j] == out[j]@);
            } else {
                lemma_total_absent(all, k);
            }
        }
    }
    Some(out)
}

/// The related keywords of a page of search hits: each clean keyword of the
/// hits once, with the sum of its counts over all of them, in the order of
/// the keywords. Gives `None` where a sum cannot be held in a `usize`.
pub fn extract_keywords(hits: &Vec<EngHit>) -> (r: Option<Vec<RelatedKeywords>>)
    ensures
        r is Some <==> totals_fit(all_entries(hits@)),
        r matches Some(out) ==> is_tally(entry_views(out@), all_entries(hits@)) && is_sorted(
            entry_views(out@),
        ),
{
    tally(&gather_entries(hits))
}

} // verus!
