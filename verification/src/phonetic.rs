//! Phonetic encoding of mark texts and the symmetric sound-alike predicate.
//!
//! The Soundex and Metaphone codes come from the `rphonetic` crate through
//! trusted wrappers; both are deterministic functions of the input text, so
//! their results carry opaque names that the contracts share. rphonetic
//! indexes its letter tables with the uppercased character, which panics
//! outside ASCII, so the wrappers demand ASCII input and `compute_phonetics`
//! reports "no code" for any other text.

use vstd::prelude::*;
use rphonetic::Encoder;
use rphonetic::Metaphone;
use rphonetic::Soundex;

verus! {

/// What `rphonetic`'s default Soundex returns for an ASCII string.
pub uninterp spec fn soundex_of(s: Seq<char>) -> Seq<char>;

/// What `rphonetic`'s default Metaphone returns for an ASCII string.
pub uninterp spec fn metaphone_of(s: Seq<char>) -> Seq<char>;

/// Relies on `Soundex::default().encode`: a code computed from the
/// characters alone. Its mapping table is indexed with the uppercased
/// character, so only ASCII input may be handed to it.
#[verifier::external_body]
fn encode_soundex(text: &str) -> (r: String)
    requires
        vstd::utf8::is_ascii_chars(text@),
    ensures
        r@ == soundex_of(text@),
{
    Soundex::default().encode(text)
}

/// Relies on `Metaphone::default().encode`: a code computed from the
/// characters alone. It slices the input by byte positions that it counts
/// per character, so only ASCII input may be handed to it.
#[verifier::external_body]
fn encode_metaphone(text: &str) -> (r: String)
    requires
        vstd::utf8::is_ascii_chars(text@),
    ensures
        r@ == metaphone_of(text@),
{
    Metaphone::default().encode(text)
}

/// The Soundex code of a text, or nothing where the encoder yields an empty
/// code or cannot accept the text.
pub open spec fn soundex_code(s: Seq<char>) -> Option<Seq<char>> {
    if vstd::utf8::is_ascii_chars(s) && soundex_of(s).len() > 0 {
        Some(soundex_of(s))
    } else {
        None
    }
}

/// The Metaphone code of a text, or nothing where the encoder yields an
/// empty code or cannot accept the text.
pub open spec fn metaphone_code(s: Seq<char>) -> Option<Seq<char>> {
    if vstd::utf8::is_ascii_chars(s) && metaphone_of(s).len() > 0 {
        Some(metaphone_of(s))
    } else {
        None
    }
}

/// Phonetic encoding results for a mark.
#[derive(Debug, Clone)]
pub struct PhoneticCodes {
    pub soundex: Option<String>,
    pub metaphone: Option<String>,
}

impl Default for PhoneticCodes {
    /// No codes.
    fn default() -> (r: Self)
        ensures
            r.soundex is None,
            r.metaphone is None,
    {
        PhoneticCodes { soundex: None, metaphone: None }
    }
}

/// Compute phonetic encodings for a mark text. An empty code counts as "no
/// code", and so does text that the encoders cannot accept.
pub fn compute_phonetics(text: &str) -> (r: PhoneticCodes)
    ensures
        (match r.soundex {
            Some(c) => soundex_code(text@) == Some(c@),
            None => soundex_code(text@) is None,
        }),
        (match r.metaphone {
            Some(c) => metaphone_code(text@) == Some(c@),
            None => metaphone_code(text@) is None,
        }),
{
    if !text.is_ascii() {
        return PhoneticCodes { soundex: None, metaphone: None };
    }
    let s = encode_soundex(text);
    let m = encode_metaphone(text);
    let soundex = if s.as_str().is_empty() {
        None
    } else {
        Some(s)
    };
    let metaphone = if m.as_str().is_empty() {
        None
    } else {
        Some(m)
    };
    PhoneticCodes { soundex, metaphone }
}

/// The sound-alike verdict for a pair of texts: the Soundex codes are
/// compared first, then the Metaphone codes; the first agreeing algorithm is
/// reported with its code.
pub open spec fn phonetic_match_spec(a: Seq<char>, b: Seq<char>) -> Option<(Seq<char>, Seq<char>)> {
    if soundex_code(a) is Some && soundex_code(a) == soundex_code(b) {
        Some(("soundex"@, soundex_of(a)))
    } else if metaphone_code(a) is Some && metaphone_code(a) == metaphone_code(b) {
        Some(("metaphone"@, metaphone_of(a)))
    } else {
        None
    }
}

/// Check whether two texts are phonetically similar; reports the algorithm
/// that matched and the shared code.
pub fn phonetic_match(text1: &str, text2: &str) -> (r: Option<(String, String)>)
    ensures
        (match r {
            Some(p) => phonetic_match_spec(text1@, text2@) == Some((p.0@, p.1@)),
            None => phonetic_match_spec(text1@, text2@) is None,
        }),
{
    let codes1 = compute_phonetics(text1);
    let codes2 = compute_phonetics(text2);

    match (codes1.soundex, codes2.soundex) {
        (Some(s1), Some(s2)) => {
            if s1 == s2 {
                return Some(("soundex".to_owned(), s1));
            }
        },
        _ => {},
    }

    match (codes1.metaphone, codes2.metaphone) {
        (Some(m1), Some(m2)) => {
            if m1 == m2 {
                return Some(("metaphone".to_owned(), m1));
            }
        },
        _ => {},
    }

    None
}

/// The sound-alike predicate is symmetric: a pair of texts matches in one
/// order exactly as it does in the other, with the same algorithm and code.
pub proof fn lemma_phonetic_match_symmetric(a: Seq<char>, b: Seq<char>)
    ensures
        phonetic_match_spec(a, b) == phonetic_match_spec(b, a),
        phonetic_match_spec(a, b) is Some <==> phonetic_match_spec(b, a) is Some,
{
}

} // verus!
