//! Structural feature extraction: dominant-term extraction, classification
//! overlap and character n-grams.

use vstd::prelude::*;
use crate::text::chars_vec;
use crate::text::vec_eq_str;
use crate::text::kept;
use crate::text::norm_words;
use crate::text::normalize_text;
use crate::text::normalize_spec;
use crate::text::upper_seq;
use crate::text::words;

verus! {

/// Tokens dropped before choosing a dominant term: business-entity suffixes
/// and common articles and conjunctions.
pub open spec fn is_stopword(w: Seq<char>) -> bool {
    ||| w == "INC"@
    ||| w == "LLC"@
    ||| w == "CORP"@
    ||| w == "CORPORATION"@
    ||| w == "CO"@
    ||| w == "COMPANY"@
    ||| w == "LTD"@
    ||| w == "THE"@
    ||| w == "A"@
    ||| w == "AN"@
    ||| w == "AND"@
    ||| w == "OF"@
    ||| w == "FOR"@
}

/// The words that are not stopwords, in order.
pub open spec fn filter_stop(ws: Seq<Seq<char>>) -> Seq<Seq<char>>
    decreases ws.len(),
{
    if ws.len() == 0 {
        Seq::empty()
    } else {
        (if is_stopword(ws[0]) {
            Seq::empty()
        } else {
            seq![ws[0]]
        }) + filter_stop(ws.drop_first())
    }
}

pub proof fn lemma_filter_stop_concat(a: Seq<Seq<char>>, b: Seq<Seq<char>>)
    ensures
        filter_stop(a + b) == filter_stop(a) + filter_stop(b),
    decreases a.len(),
{
    if a.len() == 0 {
        assert(a + b =~= b);
        assert(filter_stop(a) + filter_stop(b) =~= filter_stop(b));
    } else {
        assert((a + b).drop_first() =~= a.drop_first() + b);
        lemma_filter_stop_concat(a.drop_first(), b);
        let h = if is_stopword(a[0]) {
            Seq::<Seq<char>>::empty()
        } else {
            seq![a[0]]
        };
        assert(h + (filter_stop(a.drop_first()) + filter_stop(b)) =~= (h + filter_stop(
            a.drop_first(),
        )) + filter_stop(b));
    }
}

pub proof fn lemma_filter_stop_single(w: Seq<char>)
    ensures
        filter_stop(seq![w]) == (if is_stopword(w) {
            Seq::<Seq<char>>::empty()
        } else {
            seq![w]
        }),
{
    assert(seq![w].drop_first() =~= Seq::<Seq<char>>::empty());
    assert(filter_stop(Seq::<Seq<char>>::empty()) =~= Seq::<Seq<char>>::empty());
    if is_stopword(w) {
        assert(Seq::<Seq<char>>::empty() + Seq::<Seq<char>>::empty() =~= Seq::<
            Seq<char>,
        >::empty());
    } else {
        assert(seq![w] + Seq::<Seq<char>>::empty() =~= seq![w]);
    }
}

/// The longest of the given words; earlier words win ties.
pub open spec fn pick_longest(ws: Seq<Seq<char>>) -> Option<Seq<char>>
    decreases ws.len(),
{
    if ws.len() == 0 {
        None
    } else {
        match pick_longest(ws.drop_last()) {
            None => Some(ws.last()),
            Some(p) => if ws.last().len() > p.len() {
                Some(ws.last())
            } else {
                Some(p)
            },
        }
    }
}

/// The dominant term of a text: its normalized words with the stopwords
/// dropped, then the longest survivor, ties broken by first occurrence.
pub open spec fn dominant_spec(s: Seq<char>) -> Option<Seq<char>> {
    pick_longest(filter_stop(words(kept(upper_seq(s)))))
}

/// Whether this word is dropped before choosing a dominant term.
fn is_stopword_vec(w: &Vec<char>) -> (r: bool)
    ensures
        r == is_stopword(w@),
{
    vec_eq_str(w, "INC") || vec_eq_str(w, "LLC") || vec_eq_str(w, "CORP") || vec_eq_str(
        w,
        "CORPORATION",
    ) || vec_eq_str(w, "CO") || vec_eq_str(w, "COMPANY") || vec_eq_str(w, "LTD") || vec_eq_str(
        w,
        "THE",
    ) || vec_eq_str(w, "A") || vec_eq_str(w, "AN") || vec_eq_str(w, "AND") || vec_eq_str(w, "OF")
        || vec_eq_str(w, "FOR")
}

/// Extract the dominant term of a mark: the longest word of the normalized
/// text that is not a business-entity suffix or filler word; ties go to the
/// earlier word. Nothing is returned when no word survives.
pub fn extract_dominant_term(text: &str) -> (r: Option<String>)
    ensures
        (match r {
            Some(t) => dominant_spec(text@) == Some(t@),
            None => dominant_spec(text@) is None,
        }),
{
    let ws = norm_words(text);
    let ghost wv: Seq<Seq<char>> = ws@.map_values(|w: Vec<char>| w@);
    let mut best: Option<usize> = None;
    let mut k: usize = 0;
    proof {
        assert(wv.take(0) =~= Seq::<Seq<char>>::empty());
    }
    while k < ws.len()
        invariant
            k <= ws.len(),
            wv == ws@.map_values(|w: Vec<char>| w@),
            (match best {
                None => pick_longest(filter_stop(wv.take(k as int))) is None,
                Some(b) => b < k && pick_longest(filter_stop(wv.take(k as int))) == Some(
                    wv[b as int],
                ),
            }),
        decreases ws.len() - k,
    {
        proof {
            assert(wv.take(k + 1 as int) =~= wv.take(k as int) + seq![wv[k as int]]);
            lemma_filter_stop_concat(wv.take(k as int), seq![wv[k as int]]);
            lemma_filter_stop_single(wv[k as int]);
            if !is_stopword(wv[k as int]) {
                let fs = filter_stop(wv.take(k as int));
                assert(fs + seq![wv[k as int]] =~= (fs + seq![wv[k as int]]));
                assert((fs + seq![wv[k as int]]).drop_last() =~= fs);
                assert((fs + seq![wv[k as int]]).last() == wv[k as int]);
            } else {
                assert(filter_stop(wv.take(k as int)) + Seq::<Seq<char>>::empty() =~= filter_stop(
                    wv.take(k as int),
                ));
            }
        }
        if !is_stopword_vec(&ws[k]) {
            let cand_len = ws[k].len();
            match best {
                None => {
                    best = Some(k);
                },
                Some(b) => {
                    if cand_len > ws[b].len() {
                        best = Some(k);
                    }
                },
            }
        }
        k += 1;
    }
    proof {
        assert(wv.take(wv.len() as int) =~= wv);
    }
    match best {
        Some(b) => Some(crate::text::string_from_chars(&ws[b])),
        None => None,
    }
}

/// The normalized text with its spaces removed.
pub open spec fn despace(s: Seq<char>) -> Seq<char>
    decreases s.len(),
{
    if s.len() == 0 {
        Seq::empty()
    } else {
        (if s[0] == ' ' {
            Seq::<char>::empty()
        } else {
            seq![s[0]]
        }) + despace(s.drop_first())
    }
}

pub proof fn lemma_despace_concat(a: Seq<char>, b: Seq<char>)
    ensures
        despace(a + b) == despace(a) + despace(b),
    decreases a.len(),
{
    if a.len() == 0 {
        assert(a + b =~= b);
        assert(despace(a) + despace(b) =~= despace(b));
    } else {
        assert((a + b).drop_first() =~= a.drop_first() + b);
        lemma_despace_concat(a.drop_first(), b);
        let h = if a[0] == ' ' {
            Seq::<char>::empty()
        } else {
            seq![a[0]]
        };
        assert(h + (despace(a.drop_first()) + despace(b)) =~= (h + despace(a.drop_first()))
            + despace(b));
    }
}

pub proof fn lemma_despace_single(c: char)
    ensures
        despace(seq![c]) == (if c == ' ' {
            Seq::<char>::empty()
        } else {
            seq![c]
        }),
{
    assert(seq![c].drop_first() =~= Seq::<char>::empty());
    assert(despace(Seq::<char>::empty()) =~= Seq::<char>::empty());
    if c == ' ' {
        assert(Seq::<char>::empty() + Seq::<char>::empty() =~= Seq::<char>::empty());
    } else {
        assert(seq![c] + Seq::<char>::empty() =~= seq![c]);
    }
}

/// The character n-grams of a text: every window of `n` consecutive
/// characters of the normalized, space-free form. A base text shorter than
/// `n` yields itself as the only entry.
pub open spec fn ngrams_spec(s: Seq<char>, n: int) -> Seq<Seq<char>> {
    let base = despace(normalize_spec(s));
    if base.len() < n {
        seq![base]
    } else {
        Seq::new((base.len() - n + 1) as nat, |i: int| base.subrange(i, i + n))
    }
}

/// Generate character n-grams of the normalized, space-free text.
pub fn generate_ngrams(text: &str, n: usize) -> (r: Vec<String>)
    requires
        n >= 1,
    ensures
        r@.map_values(|x: String| x@) == ngrams_spec(text@, n as int),
{
    let normalized = normalize_text(text);
    let nv = chars_vec(normalized.as_str());
    let mut base: Vec<char> = Vec::new();
    let mut i: usize = 0;
    proof {
        assert(nv@.take(0) =~= Seq::<char>::empty());
    }
    while i < nv.len()
        invariant
            i <= nv@.len(),
            nv@ == normalize_spec(text@),
            base@ == despace(nv@.take(i as int)),
        decreases nv@.len() - i,
    {
        proof {
            assert(nv@.take(i + 1 as int) =~= nv@.take(i as int) + seq![nv@[i as int]]);
            lemma_despace_concat(nv@.take(i as int), seq![nv@[i as int]]);
            lemma_despace_single(nv@[i as int]);
            if nv@[i as int] == ' ' {
                assert(despace(nv@.take(i as int)) + Seq::<char>::empty() =~= despace(nv@.take(
                    i as int,
                )));
            } else {
                assert(despace(nv@.take(i as int)) + seq![nv@[i as int]] =~= despace(nv@.take(
                    i as int,
                )).push(nv@[i as int]));
            }
        }
        let c = nv[i];
        if c != ' ' {
            base.push(c);
        }
        i += 1;
    }
    proof {
        assert(nv@.take(nv@.len() as int) =~= nv@);
    }
    let ghost bs: Seq<char> = base@;
    if base.len() < n {
        let only = crate::text::string_from_chars(&base);
        let r = vec![only];
        proof {
            assert(r@.map_values(|x: String| x@) =~= seq![bs]);
        }
        return r;
    }
    let count = base.len() - n + 1;
    let mut r: Vec<String> = Vec::new();
    let mut i: usize = 0;
    while i < count
        invariant
            i <= count,
            n >= 1,
            count == base@.len() - n + 1,
            base@ == bs,
            base@.len() == base.len(),
            r@.map_values(|x: String| x@) == Seq::new(i as nat, |q: int| bs.subrange(q, q + n)),
        decreases count - i,
    {
        let mut w: Vec<char> = Vec::new();
        let mut q: usize = 0;
        while q < n
            invariant
                q <= n,
                i + n <= base@.len(),
                base@ == bs,
                base@.len() == base.len(),
                w@ == bs.subrange(i as int, i + q as int),
            decreases n - q,
        {
            w.push(base[i + q]);
            proof {
                assert(bs.subrange(i as int, i + q + 1 as int) =~= bs.subrange(
                    i as int,
                    i + q as int,
                ).push(bs[i + q]));
            }
            q += 1;
        }
        let s = crate::text::string_from_chars(&w);
        proof {
            assert(r@.push(s).map_values(|x: String| x@) =~= r@.map_values(|x: String| x@).push(
                s@,
            ));
            assert(r@.map_values(|x: String| x@).push(bs.subrange(i as int, i + n as int)) =~= Seq::new(
                (i + 1) as nat,
                |q: int| bs.subrange(q, q + n),
            ));
        }
        r.push(s);
        i += 1;
    }
    proof {
        assert(Seq::new(count as nat, |q: int| bs.subrange(q, q + n)) =~= ngrams_spec(
            text@,
            n as int,
        ));
    }
    r
}

/// The classification codes of `a` that also occur anywhere in `b`, in `a`'s
/// order, duplicates kept.
pub open spec fn overlap_spec(a: Seq<u16>, b: Seq<u16>) -> Seq<u16>
    decreases a.len(),
{
    if a.len() == 0 {
        Seq::empty()
    } else {
        (if b.contains(a[0]) {
            seq![a[0]]
        } else {
            Seq::empty()
        }) + overlap_spec(a.drop_first(), b)
    }
}

pub proof fn lemma_overlap_concat(a1: Seq<u16>, a2: Seq<u16>, b: Seq<u16>)
    ensures
        overlap_spec(a1 + a2, b) == overlap_spec(a1, b) + overlap_spec(a2, b),
    decreases a1.len(),
{
    if a1.len() == 0 {
        assert(a1 + a2 =~= a2);
        assert(overlap_spec(a1, b) + overlap_spec(a2, b) =~= overlap_spec(a2, b));
    } else {
        assert((a1 + a2).drop_first() =~= a1.drop_first() + a2);
        lemma_overlap_concat(a1.drop_first(), a2, b);
        let h = if b.contains(a1[0]) {
            seq![a1[0]]
        } else {
            Seq::<u16>::empty()
        };
        assert(h + (overlap_spec(a1.drop_first(), b) + overlap_spec(a2, b)) =~= (h + overlap_spec(
            a1.drop_first(),
            b,
        )) + overlap_spec(a2, b));
    }
}

pub proof fn lemma_overlap_single(x: u16, b: Seq<u16>)
    ensures
        overlap_spec(seq![x], b) == (if b.contains(x) {
            seq![x]
        } else {
            Seq::<u16>::empty()
        }),
{
    assert(seq![x].drop_first() =~= Seq::<u16>::empty());
    assert(overlap_spec(Seq::<u16>::empty(), b) =~= Seq::<u16>::empty());
    if b.contains(x) {
        assert(seq![x] + Seq::<u16>::empty() =~= seq![x]);
    } else {
        assert(Seq::<u16>::empty() + Seq::<u16>::empty() =~= Seq::<u16>::empty());
    }
}

/// An overlap exists exactly where the two lists share a code.
pub proof fn lemma_overlap_nonempty(a: Seq<u16>, b: Seq<u16>)
    ensures
        overlap_spec(a, b).len() > 0 <==> exists|i: int, j: int|
            0 <= i < a.len() && 0 <= j < b.len() && a[i] == b[j],
    decreases a.len(),
{
    if a.len() == 0 {
    } else {
        lemma_overlap_nonempty(a.drop_first(), b);
        if overlap_spec(a, b).len() > 0 {
            if b.contains(a[0]) {
                let j = choose|j: int| 0 <= j < b.len() && b[j] == a[0];
                assert(a[0] == b[j]);
            } else {
                assert(overlap_spec(a.drop_first(), b).len() > 0);
                let (i2, j2): (int, int) = choose|i2: int, j2: int|
                    0 <= i2 < a.drop_first().len() && 0 <= j2 < b.len() && a.drop_first()[i2]
                        == b[j2];
                assert(a[i2 + 1] == b[j2]);
            }
        }
        if exists|i: int, j: int| 0 <= i < a.len() && 0 <= j < b.len() && a[i] == b[j] {
            let (i, j): (int, int) = choose|i: int, j: int|
                0 <= i < a.len() && 0 <= j < b.len() && a[i] == b[j];
            if i == 0 {
                assert(b.contains(a[0]));
            } else {
                assert(a.drop_first()[i - 1] == b[j]);
                assert(overlap_spec(a.drop_first(), b).len() > 0);
            }
        }
    }
}

/// Whether an overlap exists does not depend on the order of the two lists,
/// though the overlap's contents do.
pub proof fn lemma_overlap_shared_symmetric(a: Seq<u16>, b: Seq<u16>)
    ensures
        overlap_spec(a, b).len() > 0 <==> overlap_spec(b, a).len() > 0,
{
    lemma_overlap_nonempty(a, b);
    lemma_overlap_nonempty(b, a);
    if overlap_spec(a, b).len() > 0 {
        let (i, j): (int, int) = choose|i: int, j: int|
            0 <= i < a.len() && 0 <= j < b.len() && a[i] == b[j];
        assert(b[j] == a[i]);
    }
    if overlap_spec(b, a).len() > 0 {
        let (i, j): (int, int) = choose|i: int, j: int|
            0 <= i < b.len() && 0 <= j < a.len() && b[i] == a[j];
        assert(a[j] == b[i]);
    }
}

fn contains_u16(xs: &[u16], x: u16) -> (r: bool)
    ensures
        r == xs@.contains(x),
{
    let mut i: usize = 0;
    while i < xs.len()
        invariant
            i <= xs@.len(),
            forall|q: int| 0 <= q < i ==> xs@[q] != x,
        decreases xs@.len() - i,
    {
        if xs[i] == x {
            return true;
        }
        i += 1;
    }
    false
}

/// Nice classification overlap: the codes of `classes1` that also occur in
/// `classes2`, in the first list's order, duplicates kept.
pub fn class_overlap(classes1: &[u16], classes2: &[u16]) -> (r: Vec<u16>)
    ensures
        r@ == overlap_spec(classes1@, classes2@),
{
    let mut r: Vec<u16> = Vec::new();
    let mut i: usize = 0;
    proof {
        assert(classes1@.take(0) =~= Seq::<u16>::empty());
    }
    while i < classes1.len()
        invariant
            i <= classes1@.len(),
            r@ == overlap_spec(classes1@.take(i as int), classes2@),
        decreases classes1@.len() - i,
    {
        proof {
            let x = classes1@[i as int];
            assert(classes1@.take(i + 1 as int) =~= classes1@.take(i as int) + seq![x]);
            lemma_overlap_concat(classes1@.take(i as int), seq![x], classes2@);
            lemma_overlap_single(x, classes2@);
            if classes2@.contains(x) {
                assert(overlap_spec(classes1@.take(i as int), classes2@) + seq![x] =~= overlap_spec(
                    classes1@.take(i as int),
                    classes2@,
                ).push(x));
            } else {
                assert(overlap_spec(classes1@.take(i as int), classes2@) + Seq::<u16>::empty()
                    =~= overlap_spec(classes1@.take(i as int), classes2@));
            }
        }
        if contains_u16(classes2, classes1[i]) {
            r.push(classes1[i]);
        }
        i += 1;
    }
    proof {
        assert(classes1@.take(classes1@.len() as int) =~= classes1@);
    }
    r
}

} // verus!
