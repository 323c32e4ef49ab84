//! Query translation: converts an abstract `SearchQuery` into a
//! backend-specific query string.

use vstd::prelude::*;
use crate::model::QueryView;
use crate::model::SearchQuery;
use crate::model::TrademarkStatus;
use crate::text::chars_vec;
use crate::text::is_space;
use crate::text::is_space_char;
use crate::text::string_from_chars;
use vstd::string::StringExecFns;

verus! {

/// Errors from query translation.
#[derive(Debug, Clone, Copy, PartialEq, Eq, Structural)]
pub enum QueryError {
    /// The query text is empty or all whitespace.
    EmptyQuery,
    /// A classification code the dialect cannot express.
    InvalidClass(u16),
}

/// Whether a text is empty or all whitespace.
pub open spec fn is_blank(s: Seq<char>) -> bool {
    forall|i: int| 0 <= i < s.len() ==> is_space(s[i])
}

/// The text with every single quote doubled, as SQL string syntax wants it.
pub open spec fn escape_quotes(s: Seq<char>) -> Seq<char>
    decreases s.len(),
{
    if s.len() == 0 {
        Seq::empty()
    } else {
        (if s[0] == '\'' {
            seq!['\'', '\'']
        } else {
            seq![s[0]]
        }) + escape_quotes(s.drop_first())
    }
}

pub proof fn lemma_escape_concat(a: Seq<char>, b: Seq<char>)
    ensures
        escape_quotes(a + b) == escape_quotes(a) + escape_quotes(b),
    decreases a.len(),
{
    if a.len() == 0 {
        assert(a + b =~= b);
        assert(escape_quotes(a) + escape_quotes(b) =~= escape_quotes(b));
    } else {
        assert((a + b).drop_first() =~= a.drop_first() + b);
        lemma_escape_concat(a.drop_first(), b);
        let h = if a[0] == '\'' {
            seq!['\'', '\'']
        } else {
            seq![a[0]]
        };
        assert(h + (escape_quotes(a.drop_first()) + escape_quotes(b)) =~= (h + escape_quotes(
            a.drop_first(),
        )) + escape_quotes(b));
    }
}

pub proof fn lemma_escape_single(c: char)
    ensures
        escape_quotes(seq![c]) == (if c == '\'' {
            seq!['\'', '\'']
        } else {
            seq![c]
        }),
{
    assert(seq![c].drop_first() =~= Seq::<char>::empty());
    assert(escape_quotes(Seq::<char>::empty()) =~= Seq::<char>::empty());
    if c == '\'' {
        assert(seq!['\'', '\''] + Seq::<char>::empty() =~= seq!['\'', '\'']);
    } else {
        assert(seq![c] + Seq::<char>::empty() =~= seq![c]);
    }
}

/// The text with every single quote doubled.
pub fn escape_quotes_str(s: &str) -> (r: String)
    ensures
        r@ == escape_quotes(s@),
{
    let cv = chars_vec(s);
    let mut out: Vec<char> = Vec::new();
    let mut i: usize = 0;
    proof {
        assert(cv@.take(0) =~= Seq::<char>::empty());
    }
    while i < cv.len()
        invariant
            i <= cv@.len(),
            cv@ == s@,
            out@ == escape_quotes(cv@.take(i as int)),
        decreases cv@.len() - i,
    {
        proof {
            let c = cv@[i as int];
            assert(cv@.take(i + 1 as int) =~= cv@.take(i as int) + seq![c]);
            lemma_escape_concat(cv@.take(i as int), seq![c]);
            lemma_escape_single(c);
            if c == '\'' {
                assert(escape_quotes(cv@.take(i as int)) + seq!['\'', '\''] =~= escape_quotes(
                    cv@.take(i as int),
                ).push('\'').push('\''));
            } else {
                assert(escape_quotes(cv@.take(i as int)) + seq![c] =~= escape_quotes(cv@.take(
                    i as int,
                )).push(c));
            }
        }
        let c = cv[i];
        if c == '\'' {
            out.push('\'');
            out.push('\'');
        } else {
            out.push(c);
        }
        i += 1;
    }
    proof {
        assert(cv@.take(cv@.len() as int) =~= cv@);
    }
    string_from_chars(&out)
}

/// The character of a decimal digit.
pub open spec fn digit_char(d: int) -> char {
    ((48 + d) as u8) as char
}

/// The decimal numeral of a non-negative number, most significant digit
/// first, without leading zeros (a single zero for zero).
pub open spec fn dec_digits(n: int) -> Seq<char>
    decreases n,
{
    if n < 10 {
        seq![digit_char(n)]
    } else {
        dec_digits(n / 10) + seq![digit_char(n % 10)]
    }
}

/// The decimal numeral of a number.
pub fn usize_to_string(n: usize) -> (r: String)
    ensures
        r@ == dec_digits(n as int),
{
    let mut rev: Vec<char> = Vec::new();
    let mut m: usize = n;
    proof {
        assert(rev@.reverse() =~= Seq::<char>::empty());
        assert(dec_digits(m as int) + Seq::<char>::empty() =~= dec_digits(m as int));
    }
    while m >= 10
        invariant
            dec_digits(n as int) == dec_digits(m as int) + rev@.reverse(),
        decreases m,
    {
        let d = (m % 10) as u8;
        let c = (48 + d) as char;
        proof {
            assert(c == digit_char(m as int % 10));
            assert(rev@.push(c).reverse() =~= seq![c] + rev@.reverse());
            assert(dec_digits(m as int) == dec_digits(m as int / 10) + seq![digit_char(
                m as int % 10,
            )]);
            assert(dec_digits(m as int / 10) + (seq![c] + rev@.reverse()) =~= (dec_digits(
                m as int / 10,
            ) + seq![c]) + rev@.reverse());
        }
        rev.push(c);
        m = m / 10;
    }
    let d = m as u8;
    let c = (48 + d) as char;
    proof {
        assert(c == digit_char(m as int));
        assert(rev@.push(c).reverse() =~= seq![c] + rev@.reverse());
        assert(seq![digit_char(m as int)] + rev@.reverse() =~= dec_digits(m as int)
            + rev@.reverse());
    }
    rev.push(c);
    let ghost full: Seq<char> = dec_digits(n as int);
    proof {
        assert(rev@.reverse() == full);
        assert(rev@.len() == full.len());
    }
    let mut out: Vec<char> = Vec::new();
    let mut i: usize = rev.len();
    while i > 0
        invariant
            i <= rev@.len(),
            rev@.reverse() == full,
            full.len() == rev@.len(),
            out@ == full.take((rev@.len() - i) as int),
        decreases i,
    {
        i -= 1;
        out.push(rev[i]);
        proof {
            assert(full[(rev@.len() - i - 1) as int] == rev@[i as int]);
            assert(full.take((rev@.len() - i) as int) =~= full.take((rev@.len() - i - 1) as int).push(
                rev@[i as int],
            ));
        }
    }
    proof {
        assert(full.take(full.len() as int) =~= full);
    }
    string_from_chars(&out)
}

/// The label under which a status appears in a query string.
pub open spec fn status_label(st: TrademarkStatus) -> Seq<char> {
    match st {
        TrademarkStatus::Live => "Live"@,
        TrademarkStatus::Dead => "Dead"@,
        TrademarkStatus::Pending => "Pending"@,
        TrademarkStatus::Unknown => "Unknown"@,
    }
}

impl TrademarkStatus {
    /// The label under which this status appears in a query string.
    pub fn label(&self) -> (r: &'static str)
        ensures
            r@ == status_label(*self),
    {
        match self {
            TrademarkStatus::Live => "Live",
            TrademarkStatus::Dead => "Dead",
            TrademarkStatus::Pending => "Pending",
            TrademarkStatus::Unknown => "Unknown",
        }
    }
}

/// The status condition appended to a query, or nothing.
pub open spec fn status_clause(st: Option<TrademarkStatus>) -> Seq<char> {
    match st {
        None => Seq::empty(),
        Some(s) => " AND status = '"@ + status_label(s) + "'"@,
    }
}

/// The Manticore SQL statement for a query.
pub open spec fn manticore_sql(q: QueryView) -> Seq<char> {
    "SELECT * FROM trademarks WHERE MATCH('"@ + escape_quotes(q.mark_text) + "')"@ + status_clause(
        q.status_filter,
    ) + " LIMIT "@ + dec_digits(q.limit as int)
}

/// Whether the whole text is whitespace.
pub fn is_blank_str(s: &str) -> (r: bool)
    ensures
        r == is_blank(s@),
{
    let cv = chars_vec(s);
    let mut i: usize = 0;
    while i < cv.len()
        invariant
            i <= cv@.len(),
            cv@ == s@,
            forall|q: int| 0 <= q < i ==> is_space(s@[q]),
        decreases cv@.len() - i,
    {
        if !is_space_char(cv[i]) {
            return false;
        }
        i += 1;
    }
    true
}

/// Trait for translating queries to backend-specific syntax.
pub trait QueryDialect {
    /// The output type (usually a query string or a structured query).
    type Output;

    /// Translate a query to this dialect.
    fn translate(&self, query: &SearchQuery) -> Result<Self::Output, QueryError>;
}

/// Manticore SQL dialect generator.
#[derive(Debug)]
pub struct ManticoreDialect;

impl Default for ManticoreDialect {
    /// The dialect has no state.
    fn default() -> (r: Self)
        ensures
            true,
    {
        ManticoreDialect
    }
}

impl ManticoreDialect {
    /// The Manticore SQL statement for a query: a blank mark text is
    /// rejected, any other query translates.
    pub fn translate_query(&self, query: &SearchQuery) -> (r: Result<String, QueryError>)
        ensures
            (match r {
                Ok(sql) => !is_blank(query@.mark_text) && sql@ == manticore_sql(query@),
                Err(e) => is_blank(query@.mark_text) && e == QueryError::EmptyQuery,
            }),
    {
        if is_blank_str(query.mark_text.as_str()) {
            return Err(QueryError::EmptyQuery);
        }
        let escaped = escape_quotes_str(query.mark_text.as_str());
        let limit_str = usize_to_string(query.limit);
        let mut sql = "SELECT * FROM trademarks WHERE MATCH('".to_owned();
        sql.append(escaped.as_str());
        sql.append("')");
        match &query.status_filter {
            Some(st) => {
                sql.append(" AND status = '");
                sql.append(st.label());
                sql.append("'");
            },
            None => {},
        }
        sql.append(" LIMIT ");
        sql.append(limit_str.as_str());
        proof {
            assert(sql@ =~= manticore_sql(query@));
        }
        Ok(sql)
    }
}

impl QueryDialect for ManticoreDialect {
    type Output = String;

    fn translate(&self, query: &SearchQuery) -> Result<String, QueryError> {
        self.translate_query(query)
    }
}

/// Generate the query variants of a term: the term itself.
pub fn generate_variants(text: &str) -> (r: Vec<String>)
    ensures
        r@.len() == 1,
        r@[0]@ == text@,
{
    let v = vec![text.to_owned()];
    v
}

} // verus!
