//! Text normalization: the canonical comparison form of a mark text.
//!
//! `normalize_text` uppercases, drops every character that is neither
//! alphanumeric nor whitespace, collapses whitespace runs to single spaces
//! and trims the ends. ASCII characters are classified and mapped by
//! verified code; other characters go through the standard library, whose
//! answers are taken on trust under opaque names.

use vstd::prelude::*;
use vstd::string::StrSliceExecFns;

verus! {

/// What `char::is_alphanumeric` answers for a character outside ASCII.
pub uninterp spec fn unicode_alnum(c: char) -> bool;

/// What `char::is_whitespace` answers for a character outside ASCII.
pub uninterp spec fn unicode_space(c: char) -> bool;

/// What `char::to_uppercase` yields for a character outside ASCII.
pub uninterp spec fn unicode_upper(c: char) -> Seq<char>;

pub open spec fn is_ascii_char(c: char) -> bool {
    (c as u32) < 128
}

/// The characters that `char::is_alphanumeric` accepts: for ASCII these are
/// exactly the digits and letters.
pub open spec fn is_alnum(c: char) -> bool {
    if is_ascii_char(c) {
        (48 <= c as u32 && c as u32 <= 57)  // '0' ..= '9'
        || (65 <= c as u32 && c as u32 <= 90)  // 'A' ..= 'Z'
        || (97 <= c as u32 && c as u32 <= 122)  // 'a' ..= 'z'
    } else {
        unicode_alnum(c)
    }
}

/// The characters that `char::is_whitespace` accepts: for ASCII these are
/// space, tab, line feed, vertical tab, form feed and carriage return.
pub open spec fn is_space(c: char) -> bool {
    if is_ascii_char(c) {
        c as u32 == 32 || (9 <= c as u32 && c as u32 <= 13)
    } else {
        unicode_space(c)
    }
}

/// The uppercase mapping of one character: for ASCII, 'a'..='z' map to
/// 'A'..='Z' and every other character maps to itself.
pub open spec fn upper_char(c: char) -> Seq<char> {
    if is_ascii_char(c) {
        if 97 <= c as u32 && c as u32 <= 122 {
            seq![((c as u32 - 32) as u8) as char]
        } else {
            seq![c]
        }
    } else {
        unicode_upper(c)
    }
}

/// Relies on `char::is_alphanumeric`: a pure predicate of the character.
#[verifier::external_body]
fn alnum_non_ascii(c: char) -> (r: bool)
    requires
        !is_ascii_char(c),
    ensures
        r == unicode_alnum(c),
{
    c.is_alphanumeric()
}

/// Relies on `char::is_whitespace`: a pure predicate of the character.
#[verifier::external_body]
fn space_non_ascii(c: char) -> (r: bool)
    requires
        !is_ascii_char(c),
    ensures
        r == unicode_space(c),
{
    c.is_whitespace()
}

/// Relies on `char::to_uppercase`: the unconditional uppercase mapping of
/// one character, a pure function of the character alone.
#[verifier::external_body]
fn upper_non_ascii(c: char) -> (r: Vec<char>)
    requires
        !is_ascii_char(c),
    ensures
        r@ == unicode_upper(c),
{
    c.to_uppercase().collect()
}

/// Relies on `String`'s `FromIterator<char>`: collecting characters yields
/// the string of exactly those characters.
#[verifier::external_body]
pub fn string_from_chars(v: &Vec<char>) -> (r: String)
    ensures
        r@ == v@,
{
    v.iter().collect()
}

/// The characters of a string slice, in order.
pub fn chars_vec(s: &str) -> (r: Vec<char>)
    ensures
        r@ == s@,
{
    let n = s.unicode_len();
    let mut r: Vec<char> = Vec::new();
    let mut i: usize = 0;
    while i < n
        invariant
            i <= n,
            n == s@.len(),
            r@ == s@.take(i as int),
        decreases n - i,
    {
        let c = s.get_char(i);
        r.push(c);
        proof {
            assert(s@.take(i + 1 as int) =~= s@.take(i as int).push(s@[i as int]));
        }
        i += 1;
    }
    proof {
        assert(s@.take(n as int) =~= s@);
    }
    r
}

/// Whether a character survives the normalization filter.
pub open spec fn keep_char(c: char) -> bool {
    is_alnum(c) || is_space(c)
}

/// The uppercase expansion of a character sequence.
pub open spec fn upper_seq(s: Seq<char>) -> Seq<char>
    decreases s.len(),
{
    if s.len() == 0 {
        Seq::empty()
    } else {
        upper_char(s[0]) + upper_seq(s.drop_first())
    }
}

/// The subsequence of characters that survive the filter.
pub open spec fn kept(s: Seq<char>) -> Seq<char>
    decreases s.len(),
{
    if s.len() == 0 {
        Seq::empty()
    } else {
        (if keep_char(s[0]) {
            seq![s[0]]
        } else {
            Seq::empty()
        }) + kept(s.drop_first())
    }
}

pub proof fn lemma_upper_seq_single(c: char)
    ensures
        upper_seq(seq![c]) == upper_char(c),
{
    assert(seq![c].drop_first() =~= Seq::<char>::empty());
    assert(upper_seq(Seq::<char>::empty()) =~= Seq::<char>::empty());
    assert(upper_char(c) + Seq::<char>::empty() =~= upper_char(c));
}

pub proof fn lemma_kept_single(c: char)
    ensures
        kept(seq![c]) == (if keep_char(c) {
            seq![c]
        } else {
            Seq::<char>::empty()
        }),
{
    assert(seq![c].drop_first() =~= Seq::<char>::empty());
    assert(kept(Seq::<char>::empty()) =~= Seq::<char>::empty());
    if keep_char(c) {
        assert(seq![c] + Seq::<char>::empty() =~= seq![c]);
    } else {
        assert(Seq::<char>::empty() + Seq::<char>::empty() =~= Seq::<char>::empty());
    }
}

pub proof fn lemma_upper_seq_concat(a: Seq<char>, b: Seq<char>)
    ensures
        upper_seq(a + b) == upper_seq(a) + upper_seq(b),
    decreases a.len(),
{
    if a.len() == 0 {
        assert(a + b =~= b);
        assert(upper_seq(a) + upper_seq(b) =~= upper_seq(b));
    } else {
        assert((a + b).drop_first() =~= a.drop_first() + b);
        lemma_upper_seq_concat(a.drop_first(), b);
        assert(upper_char((a + b)[0]) + (upper_seq(a.drop_first()) + upper_seq(b)) =~= (upper_char(
            a[0],
        ) + upper_seq(a.drop_first())) + upper_seq(b));
    }
}

pub proof fn lemma_kept_concat(a: Seq<char>, b: Seq<char>)
    ensures
        kept(a + b) == kept(a) + kept(b),
    decreases a.len(),
{
    if a.len() == 0 {
        assert(a + b =~= b);
        assert(kept(a) + kept(b) =~= kept(b));
    } else {
        assert((a + b).drop_first() =~= a.drop_first() + b);
        lemma_kept_concat(a.drop_first(), b);
        let h = if keep_char(a[0]) {
            seq![a[0]]
        } else {
            Seq::<char>::empty()
        };
        assert(h + (kept(a.drop_first()) + kept(b)) =~= (h + kept(a.drop_first())) + kept(b));
    }
}

/// Index of the first whitespace character, or the length if there is none.
pub open spec fn first_sp(s: Seq<char>) -> int
    decreases s.len(),
{
    if s.len() == 0 {
        0
    } else if is_space(s[0]) {
        0
    } else {
        1 + first_sp(s.drop_first())
    }
}

pub proof fn lemma_first_sp_bounds(s: Seq<char>)
    ensures
        0 <= first_sp(s) <= s.len(),
    decreases s.len(),
{
    if s.len() == 0 {
    } else if is_space(s[0]) {
    } else {
        lemma_first_sp_bounds(s.drop_first());
    }
}

/// The maximal whitespace-free runs of a character sequence, in order.
pub open spec fn words(s: Seq<char>) -> Seq<Seq<char>>
    decreases s.len(),
    via words_decreases
{
    if s.len() == 0 {
        Seq::empty()
    } else if is_space(s[0]) {
        words(s.drop_first())
    } else {
        seq![s.take(first_sp(s))] + words(s.skip(first_sp(s)))
    }
}

#[via_fn]
proof fn words_decreases(s: Seq<char>) {
    if s.len() > 0 && !is_space(s[0]) {
        lemma_first_sp_bounds(s.drop_first());
    }
}

/// The given words joined by single spaces.
pub open spec fn join(ws: Seq<Seq<char>>) -> Seq<char>
    decreases ws.len(),
{
    if ws.len() == 0 {
        Seq::empty()
    } else if ws.len() == 1 {
        ws[0]
    } else {
        join(ws.drop_last()) + seq![' '] + ws.last()
    }
}

/// The canonical comparison form: uppercase, only alphanumeric characters
/// and spaces, single spaces between words, no leading or trailing space.
pub open spec fn normalize_spec(s: Seq<char>) -> Seq<char> {
    join(words(kept(upper_seq(s))))
}

/// Whether this character counts as whitespace.
pub fn is_space_char(c: char) -> (r: bool)
    ensures
        r == is_space(c),
{
    let u = c as u32;
    if u < 128 {
        u == 32 || (9 <= u && u <= 13)
    } else {
        space_non_ascii(c)
    }
}

/// Whether this character counts as alphanumeric.
pub fn is_alnum_char(c: char) -> (r: bool)
    ensures
        r == is_alnum(c),
{
    let u = c as u32;
    if u < 128 {
        (48 <= u && u <= 57) || (65 <= u && u <= 90) || (97 <= u && u <= 122)
    } else {
        alnum_non_ascii(c)
    }
}

/// Appends the uppercase expansion of `c`.
fn push_upper(out: &mut Vec<char>, c: char)
    ensures
        final(out)@ == old(out)@ + upper_char(c),
{
    let u = c as u32;
    if u < 128 {
        if 97 <= u && u <= 122 {
            out.push(((u - 32) as u8) as char);
        } else {
            out.push(c);
        }
        proof {
            assert(out@ =~= old(out)@ + upper_char(c));
        }
    } else {
        let up = upper_non_ascii(c);
        let mut k: usize = 0;
        while k < up.len()
            invariant
                k <= up.len(),
                up@ == unicode_upper(c),
                out@ == old(out)@ + up@.take(k as int),
            decreases up.len() - k,
        {
            out.push(up[k]);
            proof {
                assert(old(out)@ + up@.take(k + 1 as int) =~= (old(out)@ + up@.take(
                    k as int,
                )).push(up@[k as int]));
            }
            k += 1;
        }
        proof {
            assert(up@.take(up@.len() as int) =~= up@);
        }
    }
}

/// The uppercase expansion of a string's characters.
pub fn upper_chars(text: &str) -> (up: Vec<char>)
    ensures
        up@ == upper_seq(text@),
{
    let cv = chars_vec(text);
    let mut up: Vec<char> = Vec::new();
    let mut i: usize = 0;
    while i < cv.len()
        invariant
            i <= cv.len(),
            cv@ == text@,
            up@ == upper_seq(cv@.take(i as int)),
        decreases cv.len() - i,
    {
        proof {
            assert(cv@.take(i + 1 as int) =~= cv@.take(i as int) + seq![cv@[i as int]]);
            lemma_upper_seq_concat(cv@.take(i as int), seq![cv@[i as int]]);
            lemma_upper_seq_single(cv@[i as int]);
        }
        push_upper(&mut up, cv[i]);
        i += 1;
    }
    proof {
        assert(cv@.take(cv@.len() as int) =~= cv@);
    }
    up
}

/// Whether the characters of `w` spell exactly the string `s`.
pub fn vec_eq_str(w: &Vec<char>, s: &str) -> (r: bool)
    ensures
        r == (w@ == s@),
{
    let n = s.unicode_len();
    if w.len() != n {
        return false;
    }
    let mut i: usize = 0;
    while i < n
        invariant
            i <= n,
            n == s@.len(),
            w@.len() == n,
            forall|q: int| 0 <= q < i ==> w@[q] == s@[q],
        decreases n - i,
    {
        if w[i] != s.get_char(i) {
            return false;
        }
        i += 1;
    }
    proof {
        assert(w@ =~= s@);
    }
    true
}

/// Whether two string slices hold the same characters.
pub fn str_eq(a: &str, b: &str) -> (r: bool)
    ensures
        r == (a@ == b@),
{
    let n = a.unicode_len();
    if b.unicode_len() != n {
        return false;
    }
    let mut i: usize = 0;
    while i < n
        invariant
            i <= n,
            n == a@.len(),
            b@.len() == n,
            forall|q: int| 0 <= q < i ==> a@[q] == b@[q],
        decreases n - i,
    {
        if a.get_char(i) != b.get_char(i) {
            return false;
        }
        i += 1;
    }
    proof {
        assert(a@ =~= b@);
    }
    true
}

/// The whitespace-separated words of the normalized form of `text`, each
/// uppercase, non-empty and free of whitespace.
pub fn norm_words(text: &str) -> (ws: Vec<Vec<char>>)
    ensures
        ws@.map_values(|w: Vec<char>| w@) == words(kept(upper_seq(text@))),
{
    let up = upper_chars(text);
    // Filter to alphanumeric characters and whitespace.
    let mut kv: Vec<char> = Vec::new();
    let mut i: usize = 0;
    while i < up.len()
        invariant
            i <= up.len(),
            up@ == upper_seq(text@),
            kv@ == kept(up@.take(i as int)),
        decreases up.len() - i,
    {
        proof {
            assert(up@.take(i + 1 as int) =~= up@.take(i as int) + seq![up@[i as int]]);
            lemma_kept_concat(up@.take(i as int), seq![up@[i as int]]);
            lemma_kept_single(up@[i as int]);
            if keep_char(up@[i as int]) {
                assert(kept(up@.take(i as int)) + kept(seq![up@[i as int]]) =~= kept(up@.take(
                    i as int,
                )).push(up@[i as int]));
            } else {
                assert(kept(up@.take(i as int)) + kept(seq![up@[i as int]]) =~= kept(up@.take(
                    i as int,
                )));
            }
        }
        let c = up[i];
        if is_alnum_char(c) || is_space_char(c) {
            kv.push(c);
        }
        i += 1;
    }
    proof {
        assert(up@.take(up@.len() as int) =~= up@);
    }
    // Split into words.
    let ghost all: Seq<char> = kv@;
    let mut ws: Vec<Vec<char>> = Vec::new();
    let mut i: usize = 0;
    proof {
        assert(all.skip(0) =~= all);
        assert(ws@.map_values(|w: Vec<char>| w@) =~= Seq::<Seq<char>>::empty());
        assert(Seq::<Seq<char>>::empty() + words(all) =~= words(all));
    }
    while i < kv.len()
        invariant
            i <= kv.len(),
            kv@ == all,
            words(all) == ws@.map_values(|w: Vec<char>| w@) + words(all.skip(i as int)),
        decreases kv.len() - i,
    {
        let c = kv[i];
        if is_space_char(c) {
            proof {
                assert(all.skip(i as int).drop_first() =~= all.skip(i + 1 as int));
            }
            i += 1;
        } else {
            let mut w: Vec<char> = Vec::new();
            let mut j: usize = i;
            while j < kv.len() && !is_space_char(kv[j])
                invariant
                    i <= j <= kv.len(),
                    kv@ == all,
                    w@ == all.subrange(i as int, j as int),
                    forall|q: int| i <= q < j ==> !is_space(all[q]),
                    !is_space(all[i as int]),
                decreases kv.len() - j,
            {
                w.push(kv[j]);
                proof {
                    assert(all.subrange(i as int, j + 1 as int) =~= all.subrange(
                        i as int,
                        j as int,
                    ).push(all[j as int]));
                }
                j += 1;
            }
            proof {
                let suf = all.skip(i as int);
                let k = j - i as int;
                assert forall|q: int| 0 <= q < k implies !is_space(suf[q]) by {
                    assert(suf[q] == all[i + q]);
                }
                assert(k < suf.len() ==> is_space(suf[k]));
                lemma_words_word(suf, k);
                assert(suf.take(k) =~= all.subrange(i as int, j as int));
                assert(suf.skip(k) =~= all.skip(j as int));
                assert((ws@.map_values(|x: Vec<char>| x@) + (seq![w@] + words(all.skip(
                    j as int,
                )))) =~= (ws@.map_values(|x: Vec<char>| x@) + seq![w@]) + words(all.skip(j as int)));
                assert(ws@.push(w).map_values(|x: Vec<char>| x@) =~= ws@.map_values(
                    |x: Vec<char>| x@,
                ) + seq![w@]);
            }
            ws.push(w);
            i = j;
        }
    }
    proof {
        assert(all.skip(all.len() as int) =~= Seq::<char>::empty());
        assert(ws@.map_values(|w: Vec<char>| w@) + words(all.skip(all.len() as int)) =~= ws@.map_values(
            |w: Vec<char>| w@,
        ));
    }
    ws
}

/// Normalize text for comparison: uppercase, strip punctuation, collapse
/// whitespace runs to single spaces and trim the ends.
pub fn normalize_text(text: &str) -> (r: String)
    ensures
        r@ == normalize_spec(text@),
{
    let ws = norm_words(text);
    let ghost wv: Seq<Seq<char>> = ws@.map_values(|w: Vec<char>| w@);
    let mut out: Vec<char> = Vec::new();
    let mut k: usize = 0;
    while k < ws.len()
        invariant
            k <= ws.len(),
            wv == ws@.map_values(|w: Vec<char>| w@),
            out@ == join(wv.take(k as int)),
        decreases ws.len() - k,
    {
        if k > 0 {
            out.push(' ');
        }
        let ghost base: Seq<char> = out@;
        let mut j: usize = 0;
        while j < ws[k].len()
            invariant
                j <= ws@[k as int]@.len(),
                k < ws.len(),
                wv == ws@.map_values(|w: Vec<char>| w@),
                out@ == base + wv[k as int].take(j as int),
            decreases ws@[k as int]@.len() - j,
        {
            out.push(ws[k][j]);
            proof {
                assert(base + wv[k as int].take(j + 1 as int) =~= (base + wv[k as int].take(
                    j as int,
                )).push(wv[k as int][j as int]));
            }
            j += 1;
        }
        proof {
            assert(wv[k as int].take(wv[k as int].len() as int) =~= wv[k as int]);
            let t1 = wv.take(k + 1 as int);
            if k == 0 {
                assert(t1.len() == 1);
                assert(join(t1) == t1[0]);
                assert(out@ =~= join(t1));
            } else {
                assert(t1.len() >= 2);
                assert(t1.drop_last() =~= wv.take(k as int));
                assert(t1.last() == wv[k as int]);
                assert(out@ =~= join(wv.take(k as int)) + seq![' '] + wv[k as int]);
            }
        }
        k += 1;
    }
    proof {
        assert(wv.take(wv.len() as int) =~= wv);
    }
    string_from_chars(&out)
}

/// A character that normalization leaves alone: it survives the filter and
/// is its own uppercase form.
pub open spec fn norm_char(c: char) -> bool {
    keep_char(c) && upper_char(c) == seq![c]
}

/// An ASCII character that is not a lowercase letter.
pub open spec fn ascii_not_lower(c: char) -> bool {
    (c as u32) < 128 && !(97 <= c as u32 <= 122)
}

/// Uppercasing an ASCII text yields only ASCII characters that are not
/// lowercase letters.
pub proof fn lemma_upper_seq_ascii(s: Seq<char>)
    requires
        vstd::utf8::is_ascii_chars(s),
    ensures
        forall|i: int|
            0 <= i < upper_seq(s).len() ==> #[trigger] ascii_not_lower(upper_seq(s)[i]),
    decreases s.len(),
{
    if s.len() == 0 {
    } else {
        assert(vstd::utf8::is_ascii_chars(s.drop_first())) by {
            assert(forall|i: int|
                0 <= i < s.drop_first().len() ==> s.drop_first()[i] == s[i + 1]);
        }
        lemma_upper_seq_ascii(s.drop_first());
        let h = upper_char(s[0]);
        assert((s[0] as u32) < 128) by {
            assert('\0' <= s[0] <= '\u{7f}');
        }
        assert forall|i: int| 0 <= i < h.len() implies ascii_not_lower(h[i]) by {
            if 97 <= s[0] as u32 <= 122 {
                assert(h[i] == ((s[0] as u32 - 32) as u8) as char);
            } else {
                assert(h[i] == s[0]);
            }
        }
        assert forall|i: int| 0 <= i < upper_seq(s).len() implies #[trigger] ascii_not_lower(
            upper_seq(s)[i],
        ) by {
            if i < h.len() {
                assert(upper_seq(s)[i] == h[i]);
            } else {
                assert(upper_seq(s)[i] == upper_seq(s.drop_first())[i - h.len()]);
            }
        }
    }
}

/// Every character the filter keeps passes the filter and comes from the
/// filtered text.
pub proof fn lemma_kept_chars(t: Seq<char>)
    ensures
        forall|i: int|
            0 <= i < kept(t).len() ==> keep_char(#[trigger] kept(t)[i]) && t.contains(kept(t)[i]),
    decreases t.len(),
{
    if t.len() == 0 {
    } else {
        lemma_kept_chars(t.drop_first());
        let h = if keep_char(t[0]) {
            seq![t[0]]
        } else {
            Seq::<char>::empty()
        };
        assert forall|i: int| 0 <= i < kept(t).len() implies keep_char(#[trigger] kept(t)[i])
            && t.contains(kept(t)[i]) by {
            if i < h.len() {
                assert(kept(t)[i] == t[0]);
            } else {
                let x = kept(t.drop_first())[i - h.len()];
                assert(kept(t)[i] == x);
                assert(t.drop_first().contains(x));
                let j = choose|j: int| 0 <= j < t.drop_first().len() && t.drop_first()[j] == x;
                assert(t[j + 1] == x);
            }
        }
    }
}

/// Every word of a text is non-empty, free of whitespace, and made of the
/// text's characters.
pub proof fn lemma_words_wf(t: Seq<char>)
    ensures
        forall|k: int|
            0 <= k < words(t).len() ==> (#[trigger] words(t)[k]).len() > 0,
        forall|k: int, i: int|
            0 <= k < words(t).len() && 0 <= i < words(t)[k].len() ==> !is_space(
                #[trigger] words(t)[k][i],
            ) && t.contains(words(t)[k][i]),
    decreases t.len(),
{
    if t.len() == 0 {
    } else if is_space(t[0]) {
        lemma_words_wf(t.drop_first());
        assert forall|k: int, i: int|
            0 <= k < words(t).len() && 0 <= i < words(t)[k].len() implies !is_space(
            #[trigger] words(t)[k][i],
        ) && t.contains(words(t)[k][i]) by {
            let x = words(t.drop_first())[k][i];
            assert(words(t)[k][i] == x);
            assert(t.drop_first().contains(x));
            let j = choose|j: int| 0 <= j < t.drop_first().len() && t.drop_first()[j] == x;
            assert(t[j + 1] == x);
        }
    } else {
        let p = first_sp(t);
        lemma_first_sp_range(t);
        lemma_words_wf(t.skip(p));
        assert forall|k: int, i: int|
            0 <= k < words(t).len() && 0 <= i < words(t)[k].len() implies !is_space(
            #[trigger] words(t)[k][i],
        ) && t.contains(words(t)[k][i]) by {
            if k == 0 {
                assert(words(t)[0] == t.take(p));
                assert(words(t)[0][i] == t[i]);
            } else {
                let x = words(t.skip(p))[k - 1][i];
                assert(words(t)[k] == words(t.skip(p))[k - 1]);
                assert(t.skip(p).contains(x));
                let j = choose|j: int| 0 <= j < t.skip(p).len() && t.skip(p)[j] == x;
                assert(t[j + p] == x);
            }
        }
    }
}

/// A text of characters that are their own uppercase forms is unchanged by
/// uppercasing.
pub proof fn lemma_upper_seq_fixed(t: Seq<char>)
    requires
        forall|i: int| 0 <= i < t.len() ==> upper_char(#[trigger] t[i]) == seq![t[i]],
    ensures
        upper_seq(t) == t,
    decreases t.len(),
{
    if t.len() == 0 {
        assert(upper_seq(t) =~= t);
    } else {
        lemma_upper_seq_fixed(t.drop_first());
        assert(upper_seq(t) =~= seq![t[0]] + t.drop_first());
        assert(seq![t[0]] + t.drop_first() =~= t);
    }
}

/// A text whose characters all pass the filter is unchanged by filtering.
pub proof fn lemma_kept_fixed(t: Seq<char>)
    requires
        forall|i: int| 0 <= i < t.len() ==> keep_char(#[trigger] t[i]),
    ensures
        kept(t) == t,
    decreases t.len(),
{
    if t.len() == 0 {
        assert(kept(t) =~= t);
    } else {
        lemma_kept_fixed(t.drop_first());
        assert(kept(t) =~= seq![t[0]] + t.drop_first());
        assert(seq![t[0]] + t.drop_first() =~= t);
    }
}

/// Joining from the front: with at least two words, the joined text is the
/// first word, a space, and the rest joined.
pub proof fn lemma_join_first(ws: Seq<Seq<char>>)
    requires
        ws.len() >= 2,
    ensures
        join(ws) == ws[0] + seq![' '] + join(ws.drop_first()),
    decreases ws.len(),
{
    if ws.len() == 2 {
        assert(ws.drop_last().len() == 1);
        assert(join(ws.drop_last()) == ws[0]);
        assert(ws.drop_first().len() == 1);
        assert(join(ws.drop_first()) == ws.drop_first()[0]);
        assert(ws.drop_first()[0] == ws[1]);
        assert(ws.last() == ws[1]);
    } else {
        lemma_join_first(ws.drop_last());
        assert(ws.drop_last()[0] == ws[0]);
        assert(ws.drop_last().drop_first() =~= ws.drop_first().drop_last());
        assert(ws.drop_first().len() >= 2);
        assert(join(ws.drop_first()) == join(ws.drop_first().drop_last()) + seq![' ']
            + ws.drop_first().last());
        assert(ws.drop_first().last() == ws.last());
        assert((ws[0] + seq![' '] + join(ws.drop_first().drop_last()) + seq![' ']) + ws.last()
            =~= ws[0] + seq![' '] + (join(ws.drop_first().drop_last()) + seq![' '] + ws.last()));
    }
}

/// Splitting a joined text recovers the words, provided every word is
/// non-empty and free of whitespace.
pub proof fn lemma_words_join(ws: Seq<Seq<char>>)
    requires
        forall|k: int| 0 <= k < ws.len() ==> (#[trigger] ws[k]).len() > 0,
        forall|k: int, i: int|
            0 <= k < ws.len() && 0 <= i < ws[k].len() ==> !is_space(#[trigger] ws[k][i]),
    ensures
        words(join(ws)) == ws,
    decreases ws.len(),
{
    if ws.len() == 0 {
        assert(words(join(ws)) =~= ws);
    } else if ws.len() == 1 {
        let w = ws[0];
        assert(join(ws) == w);
        lemma_first_sp_at(w, w.len() as int);
        assert(w.take(w.len() as int) =~= w);
        assert(w.skip(w.len() as int) =~= Seq::<char>::empty());
        assert(seq![w] + words(Seq::<char>::empty()) =~= ws);
    } else {
        lemma_join_first(ws);
        let w = ws[0];
        let t = join(ws);
        let k = w.len() as int;
        assert(t =~= w + seq![' '] + join(ws.drop_first()));
        assert forall|i: int| 0 <= i < k implies !is_space(t[i]) by {
            assert(t[i] == w[i]);
        }
        assert(t[k] == ' ');
        assert(is_space(' '));
        lemma_words_word(t, k);
        assert(t.take(k) =~= w);
        assert(t.skip(k) =~= seq![' '] + join(ws.drop_first()));
        assert(t.skip(k).drop_first() =~= join(ws.drop_first()));
        assert(words(t.skip(k)) == words(join(ws.drop_first())));
        lemma_words_join(ws.drop_first());
        assert(seq![w] + ws.drop_first() =~= ws);
    }
}

/// Every character of a joined word list is a space or a character of one of
/// the words.
pub proof fn lemma_join_chars(ws: Seq<Seq<char>>)
    requires
        forall|k: int, i: int|
            0 <= k < ws.len() && 0 <= i < ws[k].len() ==> norm_char(#[trigger] ws[k][i]),
    ensures
        forall|j: int| 0 <= j < join(ws).len() ==> norm_char(#[trigger] join(ws)[j]),
    decreases ws.len(),
{
    if ws.len() == 0 {
    } else if ws.len() == 1 {
        assert forall|j: int| 0 <= j < join(ws).len() implies norm_char(#[trigger] join(ws)[j]) by {
            assert(join(ws)[j] == ws[0][j]);
        }
    } else {
        lemma_join_chars(ws.drop_last());
        assert(norm_char(' '));
        assert forall|j: int| 0 <= j < join(ws).len() implies norm_char(#[trigger] join(ws)[j]) by {
            let pre = join(ws.drop_last());
            if j < pre.len() {
                assert(join(ws)[j] == pre[j]);
            } else if j == pre.len() {
                assert(join(ws)[j] == ' ');
            } else {
                assert(join(ws)[j] == ws.last()[j - pre.len() - 1]);
            }
        }
    }
}

/// Normalization is idempotent: normalizing an already-normalized text
/// changes nothing. Stated for ASCII texts: what the standard library's case
/// mapping and character classes answer outside ASCII stands behind opaque
/// trusted names, which no proof can look through.
pub proof fn lemma_normalize_idempotent(s: Seq<char>)
    requires
        vstd::utf8::is_ascii_chars(s),
    ensures
        normalize_spec(normalize_spec(s)) == normalize_spec(s),
{
    let up = upper_seq(s);
    let kp = kept(up);
    let ws = words(kp);
    let n = join(ws);
    lemma_upper_seq_ascii(s);
    lemma_kept_chars(up);
    // every kept character is untouched by a second pass
    assert forall|i: int| 0 <= i < kp.len() implies norm_char(#[trigger] kp[i]) by {
        assert(keep_char(kp[i]));
        assert(up.contains(kp[i]));
        let j = choose|j: int| 0 <= j < up.len() && up[j] == kp[i];
        assert(ascii_not_lower(up[j]));
    }
    lemma_words_wf(kp);
    assert forall|k: int, i: int|
        0 <= k < ws.len() && 0 <= i < ws[k].len() implies norm_char(#[trigger] ws[k][i]) by {
        assert(kp.contains(ws[k][i]));
        let j = choose|j: int| 0 <= j < kp.len() && kp[j] == ws[k][i];
        assert(norm_char(kp[j]));
    }
    lemma_join_chars(ws);
    lemma_upper_seq_fixed(n);
    lemma_kept_fixed(n);
    assert forall|k: int, i: int|
        0 <= k < ws.len() && 0 <= i < ws[k].len() implies !is_space(#[trigger] ws[k][i]) by {}
    lemma_words_join(ws);
}

pub proof fn lemma_first_sp_at(s: Seq<char>, k: int)
    requires
        0 <= k <= s.len(),
        forall|j: int| 0 <= j < k ==> !is_space(s[j]),
        k < s.len() ==> is_space(s[k]),
    ensures
        first_sp(s) == k,
    decreases k,
{
    if k == 0 {
    } else {
        lemma_first_sp_at(s.drop_first(), k - 1);
    }
}

pub proof fn lemma_first_sp_range(s: Seq<char>)
    ensures
        0 <= first_sp(s) <= s.len(),
        forall|j: int| 0 <= j < first_sp(s) ==> !is_space(s[j]),
        first_sp(s) < s.len() ==> is_space(s[first_sp(s)]),
    decreases s.len(),
{
    if s.len() == 0 {
    } else if is_space(s[0]) {
    } else {
        lemma_first_sp_range(s.drop_first());
        assert forall|j: int| 0 <= j < first_sp(s) implies !is_space(s[j]) by {
            if j > 0 {
                assert(s[j] == s.drop_first()[j - 1]);
            }
        }
        if first_sp(s) < s.len() {
            assert(s[first_sp(s)] == s.drop_first()[first_sp(s.drop_first())]);
        }
    }
}

/// Splitting off a leading word: if the first `k` characters are not
/// whitespace and character `k` (if any) is, the word list starts with them.
pub proof fn lemma_words_word(s: Seq<char>, k: int)
    requires
        1 <= k <= s.len(),
        forall|j: int| 0 <= j < k ==> !is_space(s[j]),
        k < s.len() ==> is_space(s[k]),
    ensures
        words(s) == seq![s.take(k)] + words(s.skip(k)),
{
    lemma_first_sp_at(s, k);
}

} // verus!
