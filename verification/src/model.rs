//! Core domain model for trademark analysis: records, queries, risk flags
//! and scored candidates.
//!
//! Scores and severities are fixed-point fractions of [`SCORE_UNIT`]: the
//! value `SCORE_UNIT` stands for 1.0 and `0` for 0.0.

use vstd::prelude::*;
use crate::text::upper_chars;
use crate::text::upper_seq;
use crate::text::vec_eq_str;

verus! {

/// One whole unit of risk score or severity.
pub const SCORE_UNIT: u32 = 1000000;

/// Status of a trademark registration.
#[derive(Debug, Clone, Copy, PartialEq, Eq, Hash, Structural)]
pub enum TrademarkStatus {
    /// Active registration
    Live,
    /// Cancelled, expired, or abandoned
    Dead,
    /// Application in progress
    Pending,
    /// Unknown status
    Unknown,
}

impl Default for TrademarkStatus {
    /// The status of a record that reports none.
    fn default() -> (r: Self)
        ensures
            r == TrademarkStatus::Unknown,
    {
        TrademarkStatus::Unknown
    }
}

/// The status named by a label, compared without regard to case.
pub open spec fn status_from_spec(s: Seq<char>) -> TrademarkStatus {
    if upper_seq(s) == "LIVE"@ {
        TrademarkStatus::Live
    } else if upper_seq(s) == "DEAD"@ {
        TrademarkStatus::Dead
    } else if upper_seq(s) == "PENDING"@ {
        TrademarkStatus::Pending
    } else {
        TrademarkStatus::Unknown
    }
}

impl<'a> From<&'a str> for TrademarkStatus {
    fn from(s: &'a str) -> (r: Self) {
        let up = upper_chars(s);
        if vec_eq_str(&up, "LIVE") {
            TrademarkStatus::Live
        } else if vec_eq_str(&up, "DEAD") {
            TrademarkStatus::Dead
        } else if vec_eq_str(&up, "PENDING") {
            TrademarkStatus::Pending
        } else {
            TrademarkStatus::Unknown
        }
    }
}

impl<'a> vstd::std_specs::convert::FromSpecImpl<&'a str> for TrademarkStatus {
    open spec fn obeys_from_spec() -> bool {
        true
    }

    open spec fn from_spec(s: &'a str) -> Self {
        status_from_spec(s@)
    }
}

/// The mathematical content of a trademark record.
pub ghost struct RecordView {
    pub serial_number: Seq<char>,
    pub registration_number: Option<Seq<char>>,
    pub mark_text: Seq<char>,
    pub mark_text_normalized: Option<Seq<char>>,
    pub status: TrademarkStatus,
    pub status_code: Option<Seq<char>>,
    pub classes: Seq<u16>,
    pub goods_services: Seq<char>,
    pub owner_name: Seq<char>,
    pub filing_date: Option<Seq<char>>,
    pub registration_date: Option<Seq<char>>,
    pub status_date: Option<Seq<char>>,
    pub is_design_mark: bool,
}

/// A normalized trademark record, the canonical representation consumed by
/// all downstream components.
#[derive(Debug, Clone)]
pub struct TrademarkRecord {
    /// Serial number of the application (digits, zero-padded)
    pub serial_number: String,
    /// Registration number (if registered)
    pub registration_number: Option<String>,
    /// The mark text (word mark)
    pub mark_text: String,
    /// Normalized/cleaned mark text for matching
    pub mark_text_normalized: Option<String>,
    /// Current status
    pub status: TrademarkStatus,
    /// Raw status code of the register
    pub status_code: Option<String>,
    /// Nice classification codes
    pub classes: Vec<u16>,
    /// Goods and services description
    pub goods_services: String,
    /// Owner/registrant name
    pub owner_name: String,
    /// Filing date (ISO format)
    pub filing_date: Option<String>,
    /// Registration date (ISO format)
    pub registration_date: Option<String>,
    /// Status change date (ISO format)
    pub status_date: Option<String>,
    /// Whether this is a design mark (has visual elements)
    pub is_design_mark: bool,
}

pub open spec fn view_opt_string(s: Option<String>) -> Option<Seq<char>> {
    match s {
        Some(x) => Some(x@),
        None => None,
    }
}

impl View for TrademarkRecord {
    type V = RecordView;

    open spec fn view(&self) -> RecordView {
        RecordView {
            serial_number: self.serial_number@,
            registration_number: view_opt_string(self.registration_number),
            mark_text: self.mark_text@,
            mark_text_normalized: view_opt_string(self.mark_text_normalized),
            status: self.status,
            status_code: view_opt_string(self.status_code),
            classes: self.classes@,
            goods_services: self.goods_services@,
            owner_name: self.owner_name@,
            filing_date: view_opt_string(self.filing_date),
            registration_date: view_opt_string(self.registration_date),
            status_date: view_opt_string(self.status_date),
            is_design_mark: self.is_design_mark,
        }
    }
}

/// The text a record is matched by: the pre-normalized text where one is
/// present, else the raw mark text.
pub open spec fn effective_mark_spec(r: RecordView) -> Seq<char> {
    match r.mark_text_normalized {
        Some(s) => s,
        None => r.mark_text,
    }
}

impl TrademarkRecord {
    /// A minimal record: everything but the serial number and mark text is
    /// empty or unknown.
    pub fn new(serial_number: &str, mark_text: &str) -> (r: Self)
        ensures
            r@.serial_number == serial_number@,
            r@.registration_number is None,
            r@.mark_text == mark_text@,
            r@.mark_text_normalized is None,
            r@.status == TrademarkStatus::Unknown,
            r@.status_code is None,
            r@.classes == Seq::<u16>::empty(),
            r@.goods_services == Seq::<char>::empty(),
            r@.owner_name == Seq::<char>::empty(),
            r@.filing_date is None,
            r@.registration_date is None,
            r@.status_date is None,
            !r@.is_design_mark,
    {
        let r = TrademarkRecord {
            serial_number: serial_number.to_owned(),
            registration_number: None,
            mark_text: mark_text.to_owned(),
            mark_text_normalized: None,
            status: TrademarkStatus::Unknown,
            status_code: None,
            classes: Vec::new(),
            goods_services: String::new(),
            owner_name: String::new(),
            filing_date: None,
            registration_date: None,
            status_date: None,
            is_design_mark: false,
        };
        proof {
            assert(r@.classes =~= Seq::<u16>::empty());
        }
        r
    }

    /// Get the effective mark text for matching (normalized if available).
    pub fn effective_mark_text(&self) -> (r: &str)
        ensures
            r@ == effective_mark_spec(self@),
    {
        match &self.mark_text_normalized {
            Some(s) => s.as_str(),
            None => self.mark_text.as_str(),
        }
    }
}

/// The mathematical content of a risk flag.
pub ghost enum FlagView {
    ExactMatch,
    PhoneticMatch { algorithm: Seq<char>, code: Seq<char> },
    FuzzyMatch { distance: int },
    ClassOverlap { classes: Seq<u16> },
    GoodsServicesSimilar { similarity: int },
    DominantTermMatch { term: Seq<char> },
    FamousMark,
    CommonLawRisk,
}

/// Types of trademark risk flags: the evidence kinds that justify a score.
#[derive(Debug, Clone, PartialEq)]
pub enum RiskFlag {
    /// Exact text match
    ExactMatch,
    /// Phonetically similar (sounds like)
    PhoneticMatch {
        /// Algorithm used (soundex or metaphone)
        algorithm: String,
        /// The phonetic code that matched
        code: String,
    },
    /// Similar spelling (edit distance)
    FuzzyMatch {
        /// Edit distance between the normalized texts
        distance: usize,
    },
    /// Same Nice classification
    ClassOverlap {
        /// Overlapping class numbers
        classes: Vec<u16>,
    },
    /// Similar goods/services description; the similarity is a fixed-point
    /// fraction of [`SCORE_UNIT`]. Reserved: the scorer does not emit it.
    GoodsServicesSimilar { similarity: u32 },
    /// Dominant term match
    DominantTermMatch {
        /// The dominant term that matched
        term: String,
    },
    /// Well-known mark. Reserved: the scorer does not emit it.
    FamousMark,
    /// Common law usage concern. Reserved: the scorer does not emit it.
    CommonLawRisk,
}

impl View for RiskFlag {
    type V = FlagView;

    open spec fn view(&self) -> FlagView {
        match self {
            RiskFlag::ExactMatch => FlagView::ExactMatch,
            RiskFlag::PhoneticMatch { algorithm, code } => FlagView::PhoneticMatch {
                algorithm: algorithm@,
                code: code@,
            },
            RiskFlag::FuzzyMatch { distance } => FlagView::FuzzyMatch { distance: *distance as int },
            RiskFlag::ClassOverlap { classes } => FlagView::ClassOverlap { classes: classes@ },
            RiskFlag::GoodsServicesSimilar { similarity } => FlagView::GoodsServicesSimilar {
                similarity: *similarity as int,
            },
            RiskFlag::DominantTermMatch { term } => FlagView::DominantTermMatch { term: term@ },
            RiskFlag::FamousMark => FlagView::FamousMark,
            RiskFlag::CommonLawRisk => FlagView::CommonLawRisk,
        }
    }
}

/// The human-readable label of a flag.
pub open spec fn label_spec(f: FlagView) -> Seq<char> {
    match f {
        FlagView::ExactMatch => "Exact Match"@,
        FlagView::PhoneticMatch { .. } => "Sounds Similar"@,
        FlagView::FuzzyMatch { .. } => "Spelled Similarly"@,
        FlagView::ClassOverlap { .. } => "Same Class"@,
        FlagView::GoodsServicesSimilar { .. } => "Similar Goods/Services"@,
        FlagView::DominantTermMatch { .. } => "Dominant Term Match"@,
        FlagView::FamousMark => "Famous Mark"@,
        FlagView::CommonLawRisk => "Common Law Risk"@,
    }
}

/// The fixed severity of a flag, in fixed-point fractions of [`SCORE_UNIT`]:
/// higher is more concerning. A fuzzy match loses a tenth of a unit per edit,
/// and never goes below zero; a goods similarity contributes half of itself,
/// a similarity above one unit counting as one.
pub open spec fn severity_spec(f: FlagView) -> int {
    match f {
        FlagView::ExactMatch => 1000000,
        FlagView::FamousMark => 950000,
        FlagView::PhoneticMatch { .. } => 800000,
        FlagView::DominantTermMatch { .. } => 700000,
        FlagView::ClassOverlap { .. } => 600000,
        FlagView::FuzzyMatch { distance } => if distance >= 5 {
            0
        } else {
            500000 - distance * 100000
        },
        FlagView::GoodsServicesSimilar { similarity } => if similarity > 1000000 {
            500000
        } else {
            similarity / 2
        },
        FlagView::CommonLawRisk => 400000,
    }
}

impl RiskFlag {
    /// Get a human-readable label for this flag.
    pub fn label(&self) -> (r: &'static str)
        ensures
            r@ == label_spec(self@),
    {
        match self {
            RiskFlag::ExactMatch => "Exact Match",
            RiskFlag::PhoneticMatch { .. } => "Sounds Similar",
            RiskFlag::FuzzyMatch { .. } => "Spelled Similarly",
            RiskFlag::ClassOverlap { .. } => "Same Class",
            RiskFlag::GoodsServicesSimilar { .. } => "Similar Goods/Services",
            RiskFlag::DominantTermMatch { .. } => "Dominant Term Match",
            RiskFlag::FamousMark => "Famous Mark",
            RiskFlag::CommonLawRisk => "Common Law Risk",
        }
    }

    /// Get severity weight (higher = more concerning), in fixed-point
    /// fractions of [`SCORE_UNIT`].
    pub fn severity(&self) -> (r: u32)
        ensures
            r as int == severity_spec(self@),
            r <= SCORE_UNIT,
    {
        match self {
            RiskFlag::ExactMatch => 1000000,
            RiskFlag::FamousMark => 950000,
            RiskFlag::PhoneticMatch { .. } => 800000,
            RiskFlag::DominantTermMatch { .. } => 700000,
            RiskFlag::ClassOverlap { .. } => 600000,
            RiskFlag::FuzzyMatch { distance } => {
                if *distance >= 5 {
                    0
                } else {
                    500000 - (*distance as u32) * 100000
                }
            },
            RiskFlag::GoodsServicesSimilar { similarity } => {
                if *similarity > 1000000 {
                    500000
                } else {
                    *similarity / 2
                }
            },
            RiskFlag::CommonLawRisk => 400000,
        }
    }
}

/// The largest severity among the given flags, or zero where there is none.
pub open spec fn max_severity_spec(fs: Seq<FlagView>) -> int
    decreases fs.len(),
{
    if fs.len() == 0 {
        0
    } else {
        let rest = max_severity_spec(fs.drop_last());
        if severity_spec(fs.last()) > rest {
            severity_spec(fs.last())
        } else {
            rest
        }
    }
}

/// The largest severity among the given flags, zero where there is none.
pub fn max_severity(flags: &[RiskFlag]) -> (r: u32)
    ensures
        r as int == max_severity_spec(flags@.map_values(|f: RiskFlag| f@)),
{
    let ghost fv: Seq<FlagView> = flags@.map_values(|f: RiskFlag| f@);
    let mut r: u32 = 0;
    let mut i: usize = 0;
    proof {
        assert(fv.take(0) =~= Seq::<FlagView>::empty());
    }
    while i < flags.len()
        invariant
            i <= flags@.len(),
            fv == flags@.map_values(|f: RiskFlag| f@),
            r as int == max_severity_spec(fv.take(i as int)),
        decreases flags@.len() - i,
    {
        let s = flags[i].severity();
        if s > r {
            r = s;
        }
        proof {
            assert(fv.take(i + 1 as int).drop_last() =~= fv.take(i as int));
            assert(fv.take(i + 1 as int).last() == fv[i as int]);
        }
        i += 1;
    }
    proof {
        assert(fv.take(fv.len() as int) =~= fv);
    }
    r
}

/// The mathematical content of a scored candidate.
pub ghost struct HitView {
    pub record: RecordView,
    pub retrieval_score: u32,
    pub risk_score: u32,
    pub flags: Seq<FlagView>,
}

/// A candidate hit from search retrieval, annotated with its computed risk.
#[derive(Debug, Clone)]
pub struct CandidateHit {
    /// The trademark record
    pub record: TrademarkRecord,
    /// Raw retrieval score from the backend, opaque to the scorer and passed
    /// through unchanged, in whatever encoding the caller chose
    pub retrieval_score: u32,
    /// Re-ranked risk score in fixed-point fractions of [`SCORE_UNIT`]
    /// (0 = no risk, `SCORE_UNIT` = high risk)
    pub risk_score: u32,
    /// Risk flags identified, in the order the checks run
    pub flags: Vec<RiskFlag>,
}

impl View for CandidateHit {
    type V = HitView;

    open spec fn view(&self) -> HitView {
        HitView {
            record: self.record@,
            retrieval_score: self.retrieval_score,
            risk_score: self.risk_score,
            flags: self.flags@.map_values(|f: RiskFlag| f@),
        }
    }
}

/// The mathematical content of a search query.
pub ghost struct QueryView {
    pub mark_text: Seq<char>,
    pub classes: Seq<u16>,
    pub status_filter: Option<TrademarkStatus>,
    pub limit: usize,
    pub phonetic: bool,
    pub fuzzy: bool,
}

/// Query parameters for trademark search.
#[derive(Debug, Clone)]
pub struct SearchQuery {
    /// The mark text to search for
    pub mark_text: String,
    /// Optional Nice classes to filter by
    pub classes: Vec<u16>,
    /// Filter by status
    pub status_filter: Option<TrademarkStatus>,
    /// Maximum results to retrieve
    pub limit: usize,
    /// Enable phonetic matching
    pub phonetic: bool,
    /// Enable fuzzy matching
    pub fuzzy: bool,
}

impl View for SearchQuery {
    type V = QueryView;

    open spec fn view(&self) -> QueryView {
        QueryView {
            mark_text: self.mark_text@,
            classes: self.classes@,
            status_filter: self.status_filter,
            limit: self.limit,
            phonetic: self.phonetic,
            fuzzy: self.fuzzy,
        }
    }
}

impl Default for SearchQuery {
    /// An empty query: no text, no class filter, no status filter, a limit
    /// of 100, both match kinds enabled.
    fn default() -> (r: Self)
        ensures
            r@.mark_text == Seq::<char>::empty(),
            r@.classes == Seq::<u16>::empty(),
            r@.status_filter is None,
            r@.limit == 100,
            r@.phonetic,
            r@.fuzzy,
    {
        let r = SearchQuery {
            mark_text: String::new(),
            classes: Vec::new(),
            status_filter: None,
            limit: 100,
            phonetic: true,
            fuzzy: true,
        };
        proof {
            assert(r@.classes =~= Seq::<u16>::empty());
        }
        r
    }
}

impl SearchQuery {
    /// A query for the given mark text with every other field as by default.
    pub fn new(mark_text: &str) -> (r: Self)
        ensures
            r@.mark_text == mark_text@,
            r@.classes == Seq::<u16>::empty(),
            r@.status_filter is None,
            r@.limit == 100,
            r@.phonetic,
            r@.fuzzy,
    {
        let r = SearchQuery {
            mark_text: mark_text.to_owned(),
            classes: Vec::new(),
            status_filter: None,
            limit: 100,
            phonetic: true,
            fuzzy: true,
        };
        proof {
            assert(r@.classes =~= Seq::<u16>::empty());
        }
        r
    }

    /// The same query restricted to the given Nice classes.
    pub fn with_classes(self, classes: Vec<u16>) -> (r: Self)
        ensures
            r@ == (QueryView { classes: classes@, ..self@ }),
    {
        SearchQuery { classes, ..self }
    }

    /// The same query with the given result limit.
    pub fn with_limit(self, limit: usize) -> (r: Self)
        ensures
            r@ == (QueryView { limit, ..self@ }),
    {
        SearchQuery { limit, ..self }
    }
}

} // verus!
