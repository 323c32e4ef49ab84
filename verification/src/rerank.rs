//! Risk scoring and reranking: computes, for every retrieval candidate, the
//! risk flags and the weighted risk score against a query, then orders the
//! candidates by descending score, equal scores keeping their original
//! relative order.

use vstd::prelude::*;
use vstd::multiset::Multiset;
use vstd::seq_lib::lemma_multiset_commutative;
use crate::distance::edit_distance;
use crate::distance::lev;
use crate::distance::min2;
use crate::features::class_overlap;
use crate::features::dominant_spec;
use crate::features::extract_dominant_term;
use crate::features::overlap_spec;
use crate::model::CandidateHit;
use crate::model::FlagView;
use crate::model::HitView;
use crate::model::QueryView;
use crate::model::RecordView;
use crate::model::RiskFlag;
use crate::model::SCORE_UNIT;
use crate::model::SearchQuery;
use crate::model::TrademarkRecord;
use crate::phonetic::phonetic_match;
use crate::phonetic::phonetic_match_spec;
use crate::text::normalize_spec;
use crate::text::normalize_text;
use crate::text::str_eq;

verus! {

/// Configuration for the re-ranker. Weights are fixed-point fractions of
/// [`SCORE_UNIT`]; each matched signal adds its weight toward the score.
#[derive(Debug, Clone, PartialEq, Eq, Structural)]
pub struct RerankConfig {
    /// Weight for phonetic similarity
    pub phonetic_weight: u32,
    /// Weight for fuzzy/edit distance
    pub fuzzy_weight: u32,
    /// Weight for class overlap
    pub class_weight: u32,
    /// Weight for dominant term match
    pub dominant_weight: u32,
    /// Maximum edit distance to consider
    pub max_edit_distance: usize,
}

impl Default for RerankConfig {
    /// Phonetic 0.3, fuzzy 0.2, class 0.25, dominant 0.25, in fractions of
    /// [`SCORE_UNIT`]; fuzzy matches count up to distance 3.
    fn default() -> (r: Self)
        ensures
            r == (RerankConfig {
                phonetic_weight: 300000,
                fuzzy_weight: 200000,
                class_weight: 250000,
                dominant_weight: 250000,
                max_edit_distance: 3,
            }),
    {
        RerankConfig {
            phonetic_weight: 300000,
            fuzzy_weight: 200000,
            class_weight: 250000,
            dominant_weight: 250000,
            max_edit_distance: 3,
        }
    }
}

/// What a fuzzy match at edit distance `d` contributes to the score: the
/// fuzzy weight scaled down linearly, `w * (1 - d / (max + 1))` in exact
/// arithmetic, rounded down.
pub open spec fn fuzzy_contrib(w: u32, maxd: usize, d: int) -> int {
    (w * (maxd + 1 - d)) / (maxd + 1)
}

/// The risk flags of one candidate, in the order the checks run: an exact
/// text match stands alone; otherwise phonetic, fuzzy, class-overlap and
/// dominant-term evidence accumulate.
pub open spec fn flags_spec(
    qn: Seq<char>,
    qclasses: Seq<u16>,
    qdom: Option<Seq<char>>,
    rec: RecordView,
    cfg: RerankConfig,
) -> Seq<FlagView> {
    let mn = normalize_spec(rec.mark_text);
    if qn == mn {
        seq![FlagView::ExactMatch]
    } else {
        (match phonetic_match_spec(qn, mn) {
            Some(p) => seq![FlagView::PhoneticMatch { algorithm: p.0, code: p.1 }],
            None => Seq::empty(),
        }) + ({
            let d = lev(qn, mn);
            if 0 < d <= cfg.max_edit_distance {
                seq![FlagView::FuzzyMatch { distance: d }]
            } else {
                Seq::empty()
            }
        }) + ({
            let ov = overlap_spec(qclasses, rec.classes);
            if ov.len() > 0 {
                seq![FlagView::ClassOverlap { classes: ov }]
            } else {
                Seq::empty()
            }
        }) + (match (qdom, dominant_spec(rec.mark_text)) {
            (Some(qd), Some(rd)) => if qd == rd {
                seq![FlagView::DominantTermMatch { term: rd }]
            } else {
                Seq::empty()
            },
            _ => Seq::empty(),
        })
    }
}

/// The accumulated weight of the matched signals, before clamping.
pub open spec fn raw_score_spec(
    qn: Seq<char>,
    qclasses: Seq<u16>,
    qdom: Option<Seq<char>>,
    rec: RecordView,
    cfg: RerankConfig,
) -> int {
    let mn = normalize_spec(rec.mark_text);
    (match phonetic_match_spec(qn, mn) {
        Some(p) => cfg.phonetic_weight as int,
        None => 0,
    }) + ({
        let d = lev(qn, mn);
        if 0 < d <= cfg.max_edit_distance {
            fuzzy_contrib(cfg.fuzzy_weight, cfg.max_edit_distance, d)
        } else {
            0
        }
    }) + (if overlap_spec(qclasses, rec.classes).len() > 0 {
        cfg.class_weight as int
    } else {
        0
    }) + (match (qdom, dominant_spec(rec.mark_text)) {
        (Some(qd), Some(rd)) => if qd == rd {
            cfg.dominant_weight as int
        } else {
            0
        },
        _ => 0,
    })
}

/// The risk score of one candidate: one whole unit for an exact match, else
/// the accumulated weights clamped to one unit.
pub open spec fn score_spec(
    qn: Seq<char>,
    qclasses: Seq<u16>,
    qdom: Option<Seq<char>>,
    rec: RecordView,
    cfg: RerankConfig,
) -> int {
    if qn == normalize_spec(rec.mark_text) {
        SCORE_UNIT as int
    } else {
        min2(raw_score_spec(qn, qclasses, qdom, rec, cfg), SCORE_UNIT as int)
    }
}

/// The scored hit for one candidate of a query.
pub open spec fn hit_spec(q: QueryView, cfg: RerankConfig, rec: RecordView, retrieval: u32) -> HitView {
    let qn = normalize_spec(q.mark_text);
    let qdom = dominant_spec(q.mark_text);
    HitView {
        record: rec,
        retrieval_score: retrieval,
        risk_score: score_spec(qn, q.classes, qdom, rec, cfg) as u32,
        flags: flags_spec(qn, q.classes, qdom, rec, cfg),
    }
}

/// All candidates scored, in input order.
pub open spec fn scored_seq(
    q: QueryView,
    cands: Seq<(RecordView, u32)>,
    cfg: RerankConfig,
) -> Seq<HitView> {
    Seq::new(cands.len(), |i: int| hit_spec(q, cfg, cands[i].0, cands[i].1))
}

/// The hits paired with their input positions.
pub open spec fn ranked(hits: Seq<HitView>) -> Seq<(int, HitView)> {
    Seq::new(hits.len(), |i: int| (i, hits[i]))
}

/// Inserts a hit before the first one whose score is strictly smaller: a hit
/// processed later goes after every earlier hit of equal score.
pub open spec fn insert_desc(s: Seq<(int, HitView)>, e: (int, HitView)) -> Seq<(int, HitView)>
    decreases s.len(),
{
    if s.len() == 0 {
        seq![e]
    } else if s[0].1.risk_score >= e.1.risk_score {
        seq![s[0]] + insert_desc(s.drop_first(), e)
    } else {
        seq![e] + s
    }
}

/// Insertion sort by descending score, processing the input left to right.
pub open spec fn sort_desc(s: Seq<(int, HitView)>) -> Seq<(int, HitView)>
    decreases s.len(),
{
    if s.len() == 0 {
        Seq::empty()
    } else {
        insert_desc(sort_desc(s.drop_last()), s.last())
    }
}

/// The reranked hits of a query: every candidate scored, then ordered by
/// descending risk score, equal scores keeping their input order.
pub open spec fn rerank_spec(
    q: QueryView,
    cands: Seq<(RecordView, u32)>,
    cfg: RerankConfig,
) -> Seq<HitView> {
    sort_desc(ranked(scored_seq(q, cands, cfg))).map_values(|p: (int, HitView)| p.1)
}

/// Ordered by descending score, with equal scores ordered by input position:
/// the shape `sort_desc` guarantees.
pub open spec fn stable_sorted(s: Seq<(int, HitView)>) -> bool {
    forall|a: int, b: int|
        0 <= a < b < s.len() ==> (s[a].1.risk_score > s[b].1.risk_score || (s[a].1.risk_score
            == s[b].1.risk_score && s[a].0 < s[b].0))
}

/// The position at which `insert_desc` places `e`: the index of the first
/// element with a strictly smaller score.
pub open spec fn first_lt(s: Seq<(int, HitView)>, e: (int, HitView)) -> int
    decreases s.len(),
{
    if s.len() == 0 {
        0
    } else if s[0].1.risk_score >= e.1.risk_score {
        1 + first_lt(s.drop_first(), e)
    } else {
        0
    }
}

pub proof fn lemma_first_lt_range(s: Seq<(int, HitView)>, e: (int, HitView))
    ensures
        0 <= first_lt(s, e) <= s.len(),
        forall|q: int| 0 <= q < first_lt(s, e) ==> s[q].1.risk_score >= e.1.risk_score,
        first_lt(s, e) < s.len() ==> s[first_lt(s, e)].1.risk_score < e.1.risk_score,
    decreases s.len(),
{
    if s.len() == 0 {
    } else if s[0].1.risk_score >= e.1.risk_score {
        lemma_first_lt_range(s.drop_first(), e);
        let p = first_lt(s, e);
        assert forall|q: int| 0 <= q < p implies s[q].1.risk_score >= e.1.risk_score by {
            if q > 0 {
                assert(s[q] == s.drop_first()[q - 1]);
            }
        }
        if p < s.len() {
            assert(s[p] == s.drop_first()[first_lt(s.drop_first(), e)]);
        }
    } else {
    }
}

/// Where the insertion lands: the new element sits at `first_lt`, everything
/// else keeps its relative order.
pub proof fn lemma_insert_shape(s: Seq<(int, HitView)>, e: (int, HitView))
    ensures
        insert_desc(s, e) == s.take(first_lt(s, e)) + seq![e] + s.skip(first_lt(s, e)),
    decreases s.len(),
{
    let p = first_lt(s, e);
    if s.len() == 0 {
        assert(s.take(0) =~= Seq::<(int, HitView)>::empty());
        assert(s.skip(0) =~= Seq::<(int, HitView)>::empty());
        assert(s.take(0) + seq![e] + s.skip(0) =~= seq![e]);
    } else if s[0].1.risk_score >= e.1.risk_score {
        lemma_insert_shape(s.drop_first(), e);
        let d = s.drop_first();
        let pd = first_lt(d, e);
        lemma_first_lt_range(d, e);
        assert(s.take(p) =~= seq![s[0]] + d.take(pd));
        assert(s.skip(p) =~= d.skip(pd));
        assert(seq![s[0]] + (d.take(pd) + seq![e] + d.skip(pd)) =~= (seq![s[0]] + d.take(pd))
            + seq![e] + d.skip(pd));
    } else {
        assert(s.take(0) =~= Seq::<(int, HitView)>::empty());
        assert(s.skip(0) =~= s);
        assert(s.take(0) + seq![e] + s.skip(0) =~= seq![e] + s);
    }
}

/// Inserting keeps the multiset of elements, adding the new one.
pub proof fn lemma_insert_multiset(s: Seq<(int, HitView)>, e: (int, HitView))
    ensures
        insert_desc(s, e).to_multiset() =~= s.to_multiset().insert(e),
        insert_desc(s, e).len() == s.len() + 1,
{
    broadcast use vstd::seq_lib::group_to_multiset_ensures;

    let p = first_lt(s, e);
    lemma_first_lt_range(s, e);
    lemma_insert_shape(s, e);
    lemma_multiset_commutative(s.take(p) + seq![e], s.skip(p));
    lemma_multiset_commutative(s.take(p), seq![e]);
    lemma_multiset_commutative(s.take(p), s.skip(p));
    assert(s.take(p) + s.skip(p) =~= s);
    assert(seq![e].to_multiset() =~= Multiset::<(int, HitView)>::empty().insert(e)) by {
        assert(seq![e] =~= Seq::<(int, HitView)>::empty().push(e));
        assert(Seq::<(int, HitView)>::empty().to_multiset() =~= Multiset::<(int, HitView)>::empty());
    }
}

/// Inserting an element whose input position is later than everything
/// already placed keeps the order stable-sorted.
pub proof fn lemma_insert_stable(s: Seq<(int, HitView)>, e: (int, HitView))
    requires
        stable_sorted(s),
        forall|k: int| 0 <= k < s.len() ==> s[k].0 < e.0,
    ensures
        stable_sorted(insert_desc(s, e)),
{
    let p = first_lt(s, e);
    lemma_first_lt_range(s, e);
    lemma_insert_shape(s, e);
    let r = insert_desc(s, e);
    assert(r.len() == s.len() + 1);
    assert forall|a: int, b: int| 0 <= a < b < r.len() implies (r[a].1.risk_score
        > r[b].1.risk_score || (r[a].1.risk_score == r[b].1.risk_score && r[a].0 < r[b].0)) by {
        let ea = if a < p {
            s[a]
        } else if a == p {
            e
        } else {
            s[a - 1]
        };
        let eb = if b < p {
            s[b]
        } else if b == p {
            e
        } else {
            s[b - 1]
        };
        assert(r[a] == ea);
        assert(r[b] == eb);
        if a < p && b == p {
            // an already-placed element against the new one
            assert(s[a].1.risk_score >= e.1.risk_score);
        } else if a == p && b > p {
            // the new element against a strictly smaller score
            assert(s[p].1.risk_score < e.1.risk_score);
            if b - 1 > p {
                assert(s[p].1.risk_score >= s[b - 1].1.risk_score);
            }
        }
    }
}

/// The sorted sequence: same elements, stable-sorted, same length.
pub proof fn lemma_sort_desc_ensures(s: Seq<(int, HitView)>)
    requires
        forall|a: int, b: int| 0 <= a < b < s.len() ==> s[a].0 < s[b].0,
    ensures
        stable_sorted(sort_desc(s)),
        sort_desc(s).to_multiset() =~= s.to_multiset(),
        sort_desc(s).len() == s.len(),
    decreases s.len(),
{
    broadcast use vstd::seq_lib::group_to_multiset_ensures;

    if s.len() == 0 {
        assert(Seq::<(int, HitView)>::empty().to_multiset() =~= Multiset::<(int, HitView)>::empty());
        assert(s.to_multiset() =~= Multiset::<(int, HitView)>::empty());
    } else {
        let d = s.drop_last();
        let e = s.last();
        lemma_sort_desc_ensures(d);
        let sd = sort_desc(d);
        assert forall|k: int| 0 <= k < sd.len() implies sd[k].0 < e.0 by {
            assert(sd.to_multiset().contains(sd[k]));
            assert(d.to_multiset().contains(sd[k]));
            assert(d.contains(sd[k]));
            let j = choose|j: int| 0 <= j < d.len() && d[j] == sd[k];
            assert(d[j].0 < e.0);
        }
        lemma_insert_stable(sd, e);
        lemma_insert_multiset(sd, e);
        assert(s =~= d.push(e));
        assert(s.to_multiset() =~= d.to_multiset().insert(e));
    }
}

/// The view of an optional borrowed text.
pub open spec fn view_opt_str(o: Option<&str>) -> Option<Seq<char>> {
    match o {
        Some(s) => Some(s@),
        None => None,
    }
}

/// The fuzzy contribution for one matched candidate.
fn fuzzy_amount(w: u32, maxd: usize, d: usize) -> (r: u32)
    requires
        1 <= d <= maxd,
    ensures
        r as int == fuzzy_contrib(w, maxd, d as int),
        r <= w,
{
    proof {
        lemma_fuzzy_contrib_bounds(w, maxd, d as int);
    }
    let a: u128 = ((maxd - d) as u128) + 1;
    proof {
        assert((w as u128) * a <= 0xffffffff0000000000000000u128) by (nonlinear_arith)
            requires
                w as u128 <= 0xffffffffu128,
                a <= 0x10000000000000000u128,
        ;
    }
    let num: u128 = (w as u128) * a;
    let den: u128 = (maxd as u128) + 1;
    let q = num / den;
    proof {
        assert(num == w as int * (maxd + 1 - d));
        assert(q as int == fuzzy_contrib(w, maxd, d as int));
    }
    q as u32
}

/// Compute risk score and flags for a single candidate, from the normalized
/// query text, the query's classes and its dominant term.
fn compute_risk(
    query_normalized: &str,
    query_classes: &[u16],
    query_dominant: Option<&str>,
    record: &TrademarkRecord,
    config: &RerankConfig,
) -> (r: (u32, Vec<RiskFlag>))
    ensures
        r.1@.map_values(|f: RiskFlag| f@) == flags_spec(
            query_normalized@,
            query_classes@,
            view_opt_str(query_dominant),
            record@,
            *config,
        ),
        r.0 as int == score_spec(
            query_normalized@,
            query_classes@,
            view_opt_str(query_dominant),
            record@,
            *config,
        ),
{
    let ghost qn: Seq<char> = query_normalized@;
    let ghost qcl: Seq<u16> = query_classes@;
    let ghost qd: Option<Seq<char>> = view_opt_str(query_dominant);
    let ghost cfg: RerankConfig = *config;

    let mark_normalized = normalize_text(record.mark_text.as_str());
    let ghost mn: Seq<char> = mark_normalized@;

    let mut flags: Vec<RiskFlag> = Vec::new();

    // Exact match: maximum risk, and the only flag.
    if str_eq(query_normalized, mark_normalized.as_str()) {
        flags.push(RiskFlag::ExactMatch);
        proof {
            assert(flags@.map_values(|f: RiskFlag| f@) =~= seq![FlagView::ExactMatch]);
        }
        return (SCORE_UNIT, flags);
    }
    let mut score: u64 = 0;

    // Phonetic match.
    let ghost ph_flags: Seq<FlagView> = match phonetic_match_spec(qn, mn) {
        Some(p) => seq![FlagView::PhoneticMatch { algorithm: p.0, code: p.1 }],
        None => Seq::empty(),
    };
    let ghost ph_score: int = match phonetic_match_spec(qn, mn) {
        Some(p) => cfg.phonetic_weight as int,
        None => 0,
    };
    match phonetic_match(query_normalized, mark_normalized.as_str()) {
        Some(p) => {
            let (algorithm, code) = p;
            let f = RiskFlag::PhoneticMatch { algorithm, code };
            proof {
                assert(flags@.push(f).map_values(|x: RiskFlag| x@) =~= ph_flags);
            }
            flags.push(f);
            score = score + config.phonetic_weight as u64;
        },
        None => {
            proof {
                assert(flags@.map_values(|x: RiskFlag| x@) =~= ph_flags);
            }
        },
    }

    // Fuzzy match by edit distance, within the configured cutoff.
    let ghost fz_flags: Seq<FlagView> = if 0 < lev(qn, mn) <= cfg.max_edit_distance {
        seq![FlagView::FuzzyMatch { distance: lev(qn, mn) }]
    } else {
        Seq::empty()
    };
    let ghost fz_score: int = if 0 < lev(qn, mn) <= cfg.max_edit_distance {
        fuzzy_contrib(cfg.fuzzy_weight, cfg.max_edit_distance, lev(qn, mn))
    } else {
        0
    };
    let d = edit_distance(query_normalized, mark_normalized.as_str());
    if 0 < d && d <= config.max_edit_distance {
        let f = RiskFlag::FuzzyMatch { distance: d };
        proof {
            assert(flags@.push(f).map_values(|x: RiskFlag| x@) =~= ph_flags + fz_flags);
        }
        flags.push(f);
        let amount = fuzzy_amount(config.fuzzy_weight, config.max_edit_distance, d);
        score = score + amount as u64;
    } else {
        proof {
            assert(ph_flags + fz_flags =~= ph_flags);
        }
    }

    // Classification overlap.
    let overlapping = class_overlap(query_classes, record.classes.as_slice());
    let ghost ov: Seq<u16> = overlap_spec(qcl, record@.classes);
    let ghost cl_flags: Seq<FlagView> = if ov.len() > 0 {
        seq![FlagView::ClassOverlap { classes: ov }]
    } else {
        Seq::empty()
    };
    let ghost cl_score: int = if ov.len() > 0 {
        cfg.class_weight as int
    } else {
        0
    };
    if overlapping.len() > 0 {
        let f = RiskFlag::ClassOverlap { classes: overlapping };
        proof {
            assert(flags@.push(f).map_values(|x: RiskFlag| x@) =~= ph_flags + fz_flags + cl_flags);
        }
        flags.push(f);
        score = score + config.class_weight as u64;
    } else {
        proof {
            assert(ph_flags + fz_flags + cl_flags =~= ph_flags + fz_flags);
        }
    }

    // Dominant-term match.
    let ghost dm_flags: Seq<FlagView> = match (qd, dominant_spec(record@.mark_text)) {
        (Some(a), Some(b)) => if a == b {
            seq![FlagView::DominantTermMatch { term: b }]
        } else {
            Seq::empty()
        },
        _ => Seq::empty(),
    };
    let ghost dm_score: int = if dm_flags.len() > 0 {
        cfg.dominant_weight as int
    } else {
        0
    };
    let mut dominant_hit = false;
    match query_dominant {
        Some(qds) => {
            match extract_dominant_term(record.mark_text.as_str()) {
                Some(rd) => {
                    if str_eq(qds, rd.as_str()) {
                        let f = RiskFlag::DominantTermMatch { term: rd };
                        proof {
                            assert(flags@.push(f).map_values(|x: RiskFlag| x@) =~= ph_flags
                                + fz_flags + cl_flags + dm_flags);
                        }
                        flags.push(f);
                        score = score + config.dominant_weight as u64;
                        dominant_hit = true;
                    }
                },
                None => {},
            }
        },
        None => {},
    }
    proof {
        if !dominant_hit {
            assert(dm_flags =~= Seq::<FlagView>::empty());
            assert(ph_flags + fz_flags + cl_flags + dm_flags =~= ph_flags + fz_flags + cl_flags);
        }
        assert(flags@.map_values(|x: RiskFlag| x@) == ph_flags + fz_flags + cl_flags + dm_flags);
        assert(flags_spec(qn, qcl, qd, record@, cfg) == ph_flags + fz_flags + cl_flags + dm_flags);
        assert(score as int == raw_score_spec(qn, qcl, qd, record@, cfg));
        lemma_raw_score_nonneg(qn, qcl, qd, record@, cfg);
    }

    let final_score: u32 = if score > (SCORE_UNIT as u64) {
        SCORE_UNIT
    } else {
        score as u32
    };
    (final_score, flags)
}

pub proof fn lemma_first_lt_at(s: Seq<(int, HitView)>, e: (int, HitView), k: int)
    requires
        0 <= k <= s.len(),
        forall|q: int| 0 <= q < k ==> s[q].1.risk_score >= e.1.risk_score,
        k < s.len() ==> s[k].1.risk_score < e.1.risk_score,
    ensures
        first_lt(s, e) == k,
    decreases k,
{
    if k == 0 {
    } else {
        lemma_first_lt_at(s.drop_first(), e, k - 1);
    }
}

/// The candidates' views, paired with their retrieval scores.
pub open spec fn cand_views(cands: Seq<(TrademarkRecord, u32)>) -> Seq<(RecordView, u32)> {
    cands.map_values(|p: (TrademarkRecord, u32)| (p.0@, p.1))
}

/// Re-rank candidates based on trademark risk analysis: every candidate is
/// scored against the query and annotated with its flags, then the list is
/// ordered by descending risk score; candidates of equal score keep their
/// original relative order, and none is dropped or added.
pub fn rerank(
    query: &SearchQuery,
    candidates: Vec<(TrademarkRecord, u32)>,
    config: &RerankConfig,
) -> (r: Vec<CandidateHit>)
    ensures
        r@.map_values(|h: CandidateHit| h@) == rerank_spec(query@, cand_views(candidates@), *config),
        r@.len() == candidates@.len(),
{
    let ghost cviews: Seq<(RecordView, u32)> = cand_views(candidates@);
    let ghost scored: Seq<HitView> = scored_seq(query@, cviews, *config);
    let ghost rankedall: Seq<(int, HitView)> = ranked(scored);

    let query_normalized = normalize_text(query.mark_text.as_str());
    let query_dominant = extract_dominant_term(query.mark_text.as_str());

    let mut rest = candidates;
    let mut out: Vec<CandidateHit> = Vec::new();
    let mut i: usize = 0;
    proof {
        assert(rest@.len() == rest.len());
        assert(cviews.len() == rest@.len());
        assert(rest@.map_values(|p: (TrademarkRecord, u32)| (p.0@, p.1)) =~= cviews.skip(0));
        assert(ranked(scored.take(0)) =~= Seq::<(int, HitView)>::empty());
        assert(out@.map_values(|h: CandidateHit| h@) =~= sort_desc(ranked(scored.take(
            0,
        ))).map_values(|p: (int, HitView)| p.1));
    }
    while rest.len() > 0
        invariant
            i <= cviews.len(),
            cviews.len() <= usize::MAX,
            rest@.len() == rest.len(),
            i + rest@.len() == cviews.len(),
            rest@.map_values(|p: (TrademarkRecord, u32)| (p.0@, p.1)) == cviews.skip(i as int),
            scored == scored_seq(query@, cviews, *config),
            scored.len() == cviews.len(),
            query_normalized@ == normalize_spec(query@.mark_text),
            (match query_dominant {
                Some(t) => dominant_spec(query@.mark_text) == Some(t@),
                None => dominant_spec(query@.mark_text) is None,
            }),
            out@.map_values(|h: CandidateHit| h@) == sort_desc(ranked(scored.take(
                i as int,
            ))).map_values(|p: (int, HitView)| p.1),
        decreases rest@.len(),
    {
        let ghost prev_rest: Seq<(TrademarkRecord, u32)> = rest@;
        let (rec, retrieval) = rest.remove(0);
        proof {
            let f = |p: (TrademarkRecord, u32)| (p.0@, p.1);
            assert(rest@ == prev_rest.remove(0));
            assert(rest@.len() == prev_rest.len() - 1);
            assert forall|k: int| 0 <= k < rest@.len() implies #[trigger] rest@.map_values(f)[k]
                == cviews.skip(i + 1 as int)[k] by {
                assert(rest@[k] == prev_rest[k + 1]);
                assert(prev_rest.map_values(f)[k + 1] == f(prev_rest[k + 1]));
                assert(cviews.skip(i as int)[k + 1] == cviews[i + 1 + k]);
                assert(cviews.skip(i + 1 as int)[k] == cviews[i + 1 + k]);
            }
            assert(rest@.map_values(f) =~= cviews.skip(i + 1 as int));
            let pv = cviews.skip(i as int)[0];
            assert(prev_rest.map_values(f)[0] == f(prev_rest[0]));
            assert((rec@, retrieval) == pv);
            assert(cviews[i as int] == pv);
        }
        let dom_ref: Option<&str> = match &query_dominant {
            Some(s) => Some(s.as_str()),
            None => None,
        };
        let (risk_score, flags) = compute_risk(
            query_normalized.as_str(),
            query.classes.as_slice(),
            dom_ref,
            &rec,
            config,
        );
        proof {
            lemma_score_spec_bounds(
                query_normalized@,
                query.classes@,
                view_opt_str(dom_ref),
                rec@,
                *config,
            );
        }
        let hit = CandidateHit { record: rec, retrieval_score: retrieval, risk_score, flags };
        proof {
            assert(hit@ == hit_spec(query@, *config, cviews[i as int].0, cviews[i as int].1));
            assert(hit@ == scored[i as int]);
        }
        let ghost spairs: Seq<(int, HitView)> = sort_desc(ranked(scored.take(i as int)));
        let ghost e: (int, HitView) = (i as int, hit@);
        proof {
            assert forall|a: int, b: int|
                0 <= a < b < ranked(scored.take(i as int)).len() implies ranked(scored.take(
                i as int,
            ))[a].0 < ranked(scored.take(i as int))[b].0 by {}
            lemma_sort_desc_ensures(ranked(scored.take(i as int)));
            assert(out@.map_values(|h: CandidateHit| h@).len() == out@.len());
            assert(spairs.map_values(|q: (int, HitView)| q.1).len() == spairs.len());
            assert(out@.len() == spairs.len());
        }
        let mut p: usize = 0;
        while p < out.len() && out[p].risk_score >= hit.risk_score
            invariant
                p <= out@.len(),
                out@.len() == spairs.len(),
                out@.map_values(|h: CandidateHit| h@) == spairs.map_values(
                    |q: (int, HitView)| q.1,
                ),
                e.1 == hit@,
                hit.risk_score == e.1.risk_score,
                forall|q: int| 0 <= q < p ==> spairs[q].1.risk_score >= e.1.risk_score,
            decreases out@.len() - p,
        {
            proof {
                assert(out@.map_values(|h: CandidateHit| h@)[p as int] == out@[p as int]@);
                assert(spairs.map_values(|q: (int, HitView)| q.1)[p as int] == spairs[p as int].1);
                assert(out@[p as int]@ == spairs[p as int].1);
            }
            p += 1;
        }
        proof {
            if p < out@.len() {
                assert(out@.map_values(|h: CandidateHit| h@)[p as int] == out@[p as int]@);
                assert(spairs.map_values(|q: (int, HitView)| q.1)[p as int] == spairs[p as int].1);
                assert(out@[p as int]@ == spairs[p as int].1);
                assert(spairs[p as int].1.risk_score < e.1.risk_score);
            }
            lemma_first_lt_at(spairs, e, p as int);
            lemma_insert_shape(spairs, e);
            // the sorted pairs for the extended prefix
            assert(ranked(scored.take(i + 1 as int)).drop_last() =~= ranked(scored.take(
                i as int,
            )));
            assert(ranked(scored.take(i + 1 as int)).last() == e);
            assert(sort_desc(ranked(scored.take(i + 1 as int))) == insert_desc(spairs, e));
            let li = out@.insert(p as int, hit);
            let ri = spairs.take(p as int) + seq![e] + spairs.skip(p as int);
            out@.insert_ensures(p as int, hit);
            assert(li.len() == ri.len());
            let fh = |h: CandidateHit| h@;
            let fp = |q: (int, HitView)| q.1;
            assert forall|k: int| 0 <= k < li.len() implies #[trigger] li.map_values(fh)[k]
                == ri.map_values(fp)[k] by {
                assert(li.map_values(fh)[k] == li[k]@);
                assert(ri.map_values(fp)[k] == ri[k].1);
                if k < p {
                    assert(li[k] == out@[k]);
                    assert(ri[k] == spairs[k]);
                    assert(out@.map_values(fh)[k] == out@[k]@);
                    assert(spairs.map_values(fp)[k] == spairs[k].1);
                } else if k == p {
                    assert(li[k] == hit);
                    assert(ri[k] == e);
                } else {
                    assert(li[k] == out@[k - 1]);
                    assert(ri[k] == spairs[k - 1]);
                    assert(out@.map_values(fh)[k - 1] == out@[k - 1]@);
                    assert(spairs.map_values(fp)[k - 1] == spairs[k - 1].1);
                }
            }
            assert(li.map_values(fh) =~= ri.map_values(fp));
        }
        out.insert(p, hit);
        i += 1;
    }
    proof {
        assert(cviews.skip(i as int).len() == 0);
        assert(scored.take(i as int) =~= scored);
        lemma_rerank_output_length(query@, cviews, *config);
    }
    out
}

/// The fuzzy contribution lies between zero and the fuzzy weight.
pub proof fn lemma_fuzzy_contrib_bounds(w: u32, maxd: usize, d: int)
    requires
        1 <= d <= maxd,
    ensures
        0 <= fuzzy_contrib(w, maxd, d) <= w,
{
    let a = maxd + 1 - d;
    let b = maxd + 1 as int;
    vstd::arithmetic::mul::lemma_mul_nonnegative(w as int, a);
    vstd::arithmetic::div_mod::lemma_div_pos_is_pos(w as int * a, b);
    vstd::arithmetic::mul::lemma_mul_inequality(a, b, w as int);
    assert(a * (w as int) == (w as int) * a) by (nonlinear_arith);
    assert(b * (w as int) == (w as int) * b) by (nonlinear_arith);
    vstd::arithmetic::div_mod::lemma_div_is_ordered(w as int * a, w as int * b, b);
    vstd::arithmetic::div_mod::lemma_div_multiples_vanish(w as int, b);
    assert(b * (w as int) == (w as int) * b) by (nonlinear_arith);
}

/// The accumulated raw weight of a candidate is never negative.
pub proof fn lemma_raw_score_nonneg(
    qn: Seq<char>,
    qclasses: Seq<u16>,
    qdom: Option<Seq<char>>,
    rec: RecordView,
    cfg: RerankConfig,
)
    ensures
        raw_score_spec(qn, qclasses, qdom, rec, cfg) >= 0,
{
    let mn = normalize_spec(rec.mark_text);
    let d = lev(qn, mn);
    if 0 < d <= cfg.max_edit_distance {
        lemma_fuzzy_contrib_bounds(cfg.fuzzy_weight, cfg.max_edit_distance, d);
    }
}

/// A candidate's risk score always lies between zero and one whole unit.
pub proof fn lemma_score_spec_bounds(
    qn: Seq<char>,
    qclasses: Seq<u16>,
    qdom: Option<Seq<char>>,
    rec: RecordView,
    cfg: RerankConfig,
)
    ensures
        0 <= score_spec(qn, qclasses, qdom, rec, cfg) <= SCORE_UNIT,
{
    lemma_raw_score_nonneg(qn, qclasses, qdom, rec, cfg);
}

/// Two position-tagged sequences with the same elements project to the same
/// hits.
proof fn lemma_proj_multiset(a: Seq<(int, HitView)>, b: Seq<(int, HitView)>)
    requires
        a.to_multiset() == b.to_multiset(),
    ensures
        a.map_values(|p: (int, HitView)| p.1).to_multiset() == b.map_values(
            |p: (int, HitView)| p.1,
        ).to_multiset(),
    decreases a.len(),
{
    broadcast use vstd::seq_lib::group_to_multiset_ensures;
    broadcast use vstd::multiset::group_multiset_axioms;

    let f = |p: (int, HitView)| p.1;
    if a.len() == 0 {
        assert(a.to_multiset().len() == 0);
        assert(b.len() == 0);
        assert(a.map_values(f) =~= b.map_values(f));
    } else {
        let x = a.last();
        assert(a =~= a.drop_last().push(x));
        assert(a.to_multiset() =~= a.drop_last().to_multiset().insert(x));
        assert(b.to_multiset().count(x) > 0) by {
            assert(a.to_multiset().count(x) > 0) by {
                vstd::multiset::lemma_insert_increases_count_by_1(a.drop_last().to_multiset(), x);
            }
        }
        assert(b.contains(x));
        let j = choose|j: int| 0 <= j < b.len() && b[j] == x;
        let b2 = b.remove(j);
        assert(b2.to_multiset() =~= b.to_multiset().remove(x));
        assert(a.drop_last().to_multiset() =~= b2.to_multiset()) by {
            assert forall|y: (int, HitView)| a.drop_last().to_multiset().count(y)
                == b2.to_multiset().count(y) by {
                vstd::multiset::lemma_insert_increases_count_by_1(a.drop_last().to_multiset(), x);
                if y != x {
                    vstd::multiset::lemma_insert_other_elements_unchanged(
                        a.drop_last().to_multiset(),
                        x,
                        y,
                    );
                }
            }
        }
        lemma_proj_multiset(a.drop_last(), b2);
        assert(a.map_values(f) =~= a.drop_last().map_values(f).push(f(x)));
        assert(a.map_values(f).to_multiset() =~= a.drop_last().map_values(f).to_multiset().insert(
            f(x),
        ));
        assert(b.map_values(f).remove(j) =~= b2.map_values(f));
        assert(b.map_values(f)[j] == f(x));
        assert(b.map_values(f).remove(j).to_multiset() =~= b.map_values(f).to_multiset().remove(
            f(x),
        ));
        assert(b.map_values(f).to_multiset() =~= b2.map_values(f).to_multiset().insert(f(x))) by {
            assert forall|y: HitView| b.map_values(f).to_multiset().count(y)
                == b2.map_values(f).to_multiset().insert(f(x)).count(y) by {
                assert(b.map_values(f).contains(f(x)));
                assert(b.map_values(f).to_multiset().count(f(x)) > 0);
                vstd::multiset::lemma_insert_increases_count_by_1(
                    b2.map_values(f).to_multiset(),
                    f(x),
                );
                if y != f(x) {
                    vstd::multiset::lemma_insert_other_elements_unchanged(
                        b2.map_values(f).to_multiset(),
                        f(x),
                        y,
                    );
                }
            }
        }
    }
}

/// The reranked hits are a permutation of the scored candidates: no hit is
/// dropped, added or changed by the ordering.
pub proof fn lemma_rerank_hits_permutation(
    q: QueryView,
    cands: Seq<(RecordView, u32)>,
    cfg: RerankConfig,
)
    ensures
        rerank_spec(q, cands, cfg).to_multiset() == scored_seq(q, cands, cfg).to_multiset(),
{
    let s = ranked(scored_seq(q, cands, cfg));
    lemma_sort_desc_ensures(s);
    lemma_proj_multiset(sort_desc(s), s);
    assert(s.map_values(|p: (int, HitView)| p.1) =~= scored_seq(q, cands, cfg));
}

/// A candidate whose normalized mark text equals the normalized query text
/// scores exactly one whole unit and carries exactly the one exact-match
/// flag.
pub proof fn lemma_exact_match_hit(q: QueryView, cfg: RerankConfig, rec: RecordView, retrieval: u32)
    requires
        normalize_spec(q.mark_text) == normalize_spec(rec.mark_text),
    ensures
        hit_spec(q, cfg, rec, retrieval).risk_score == SCORE_UNIT,
        hit_spec(q, cfg, rec, retrieval).flags == seq![FlagView::ExactMatch],
{
}

/// Every candidate's risk score lies between zero and one whole unit.
pub proof fn lemma_hit_score_in_unit(q: QueryView, cfg: RerankConfig, rec: RecordView, retrieval: u32)
    ensures
        hit_spec(q, cfg, rec, retrieval).risk_score <= SCORE_UNIT,
{
    let qn = normalize_spec(q.mark_text);
    let qdom = dominant_spec(q.mark_text);
    lemma_score_spec_bounds(qn, q.classes, qdom, rec, cfg);
}

/// The reranked output holds exactly one hit per input candidate: nothing is
/// dropped and nothing is added.
pub proof fn lemma_rerank_output_length(q: QueryView, cands: Seq<(RecordView, u32)>, cfg: RerankConfig)
    ensures
        rerank_spec(q, cands, cfg).len() == cands.len(),
{
    let s = ranked(scored_seq(q, cands, cfg));
    lemma_sort_desc_ensures(s);
}

/// The reranked output is ordered by descending risk score.
pub proof fn lemma_rerank_sorted(q: QueryView, cands: Seq<(RecordView, u32)>, cfg: RerankConfig)
    ensures
        forall|a: int, b: int|
            0 <= a < b < rerank_spec(q, cands, cfg).len() ==> rerank_spec(
                q,
                cands,
                cfg,
            )[a].risk_score >= rerank_spec(q, cands, cfg)[b].risk_score,
{
    let s = ranked(scored_seq(q, cands, cfg));
    lemma_sort_desc_ensures(s);
    let sp = sort_desc(s);
    let r = rerank_spec(q, cands, cfg);
    assert forall|a: int, b: int| 0 <= a < b < r.len() implies r[a].risk_score
        >= r[b].risk_score by {
        assert(r[a] == sp[a].1);
        assert(r[b] == sp[b].1);
    }
}

/// The reranked order is a permutation of the scored candidates: sorting
/// keeps the multiset of position-tagged hits exactly.
pub proof fn lemma_rerank_permutation(
    q: QueryView,
    cands: Seq<(RecordView, u32)>,
    cfg: RerankConfig,
)
    ensures
        sort_desc(ranked(scored_seq(q, cands, cfg))).to_multiset() == ranked(
            scored_seq(q, cands, cfg),
        ).to_multiset(),
{
    let s = ranked(scored_seq(q, cands, cfg));
    lemma_sort_desc_ensures(s);
}

/// Stability: each entry of the reranked order carries the input position of
/// its candidate, and two candidates of equal risk score stand in the order
/// of those positions — earlier input stays first.
pub proof fn lemma_rerank_stable(q: QueryView, cands: Seq<(RecordView, u32)>, cfg: RerankConfig)
    ensures
        forall|k: int|
            0 <= k < sort_desc(ranked(scored_seq(q, cands, cfg))).len() ==> (0 <= #[trigger] sort_desc(
                ranked(scored_seq(q, cands, cfg)),
            )[k].0 < cands.len() && sort_desc(ranked(scored_seq(q, cands, cfg)))[k].1 == scored_seq(
                q,
                cands,
                cfg,
            )[sort_desc(ranked(scored_seq(q, cands, cfg)))[k].0]),
        forall|a: int, b: int|
            0 <= a < b < sort_desc(ranked(scored_seq(q, cands, cfg))).len() && #[trigger] sort_desc(
                ranked(scored_seq(q, cands, cfg)),
            )[a].1.risk_score == #[trigger] sort_desc(ranked(scored_seq(q, cands, cfg)))[b].1.risk_score
                ==> sort_desc(ranked(scored_seq(q, cands, cfg)))[a].0 < sort_desc(
                ranked(scored_seq(q, cands, cfg)),
            )[b].0,
{
    broadcast use vstd::seq_lib::group_to_multiset_ensures;

    let s = ranked(scored_seq(q, cands, cfg));
    lemma_sort_desc_ensures(s);
    let sp = sort_desc(s);
    assert forall|k: int| 0 <= k < sp.len() implies {
        &&& 0 <= sp[k].0 < cands.len()
        &&& sp[k].1 == scored_seq(q, cands, cfg)[sp[k].0]
    } by {
        assert(sp.to_multiset().contains(sp[k]));
        assert(s.to_multiset().contains(sp[k]));
        assert(s.contains(sp[k]));
        let j = choose|j: int| 0 <= j < s.len() && s[j] == sp[k];
        assert(s[j] == (j, scored_seq(q, cands, cfg)[j]));
    }
}

} // verus!
