//! Search-backend support: the error taxonomy, the backend configuration and
//! the statement builder. The network client itself lives outside the
//! library and consumes these.

use vstd::prelude::*;
use crate::model::QueryView;
use crate::model::SearchQuery;
use crate::query::dec_digits;
use crate::query::escape_quotes;
use crate::query::escape_quotes_str;
use crate::query::status_clause;
use crate::query::usize_to_string;
use vstd::string::StringExecFns;

verus! {

/// Errors from search backend operations.
#[derive(Debug, Clone)]
pub enum BackendError {
    /// Connection failed
    Connection(String),
    /// Query execution failed
    QueryFailed(String),
    /// The response could not be read
    ParseError(String),
    /// Backend not available
    Unavailable,
}

impl BackendError {
    /// A short, fixed description of the error kind.
    pub fn kind_label(&self) -> (r: &'static str)
        ensures
            (match self {
                BackendError::Connection(_) => r@ == "Connection failed"@,
                BackendError::QueryFailed(_) => r@ == "Query execution failed"@,
                BackendError::ParseError(_) => r@ == "Parse error"@,
                BackendError::Unavailable => r@ == "Backend not available"@,
            }),
    {
        match self {
            BackendError::Connection(_) => "Connection failed",
            BackendError::QueryFailed(_) => "Query execution failed",
            BackendError::ParseError(_) => "Parse error",
            BackendError::Unavailable => "Backend not available",
        }
    }
}

/// Manticore Search backend configuration.
#[derive(Debug, Clone)]
pub struct ManticoreConfig {
    /// Base URL for the backend HTTP API
    pub base_url: String,
    /// Table/index name
    pub table_name: String,
    /// Request timeout in seconds
    pub timeout_secs: u64,
}

impl Default for ManticoreConfig {
    /// The local default endpoint and table.
    fn default() -> (r: Self)
        ensures
            r.base_url@ == "http://127.0.0.1:9308"@,
            r.table_name@ == "trademarks"@,
            r.timeout_secs == 30,
    {
        ManticoreConfig {
            base_url: "http://127.0.0.1:9308".to_owned(),
            table_name: "trademarks".to_owned(),
            timeout_secs: 30,
        }
    }
}

/// The retrieval statement the backend runs for a query: a weighted match
/// over the given table, the optional status condition, and the limit.
pub open spec fn backend_sql(table_name: Seq<char>, q: QueryView) -> Seq<char> {
    "SELECT *, WEIGHT() as _score FROM "@ + table_name + " WHERE MATCH('"@ + escape_quotes(
        q.mark_text,
    ) + "')"@ + status_clause(q.status_filter) + " LIMIT "@ + dec_digits(q.limit as int)
}

/// Build the retrieval statement for a query against the given table.
pub fn build_search_sql(table_name: &str, query: &SearchQuery) -> (r: String)
    ensures
        r@ == backend_sql(table_name@, query@),
{
    let escaped = escape_quotes_str(query.mark_text.as_str());
    let limit_str = usize_to_string(query.limit);
    let mut sql = "SELECT *, WEIGHT() as _score FROM ".to_owned();
    sql.append(table_name);
    sql.append(" WHERE MATCH('");
    sql.append(escaped.as_str());
    sql.append("')");
    match &query.status_filter {
        Some(st) => {
            sql.append(" AND status = '");
            sql.append(st.label());
            sql.append("'");
        },
        None => {},
    }
    sql.append(" LIMIT ");
    sql.append(limit_str.as_str());
    proof {
        assert(sql@ =~= backend_sql(table_name@, query@));
    }
    sql
}

} // verus!
