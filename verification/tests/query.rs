use ilegalflow::backend::build_search_sql;
use ilegalflow::backend::BackendError;
use ilegalflow::backend::ManticoreConfig;
use ilegalflow::model::SearchQuery;
use ilegalflow::model::TrademarkStatus;
use ilegalflow::query::generate_variants;
use ilegalflow::query::ManticoreDialect;
use ilegalflow::query::QueryDialect;
use ilegalflow::query::QueryError;

#[test]
fn test_manticore_basic() {
    let dialect = ManticoreDialect;
    let query = SearchQuery::new("NIKE");
    let sql = dialect.translate(&query).unwrap();
    assert!(sql.contains("MATCH('NIKE')"));
    assert!(sql.contains("LIMIT 100"));
}

#[test]
fn test_manticore_escaping() {
    let dialect = ManticoreDialect;
    let query = SearchQuery::new("O'REILLY");
    let sql = dialect.translate(&query).unwrap();
    assert!(sql.contains("O''REILLY"));
}

#[test]
fn test_empty_query_error() {
    let dialect = ManticoreDialect;
    let query = SearchQuery::new("   ");
    assert!(matches!(dialect.translate(&query), Err(QueryError::EmptyQuery)));
}

#[test]
fn manticore_whole_statement() {
    let dialect = ManticoreDialect;
    let query = SearchQuery::new("NIKE").with_limit(20);
    let sql = dialect.translate(&query).unwrap();
    assert_eq!(sql, "SELECT * FROM trademarks WHERE MATCH('NIKE') LIMIT 20");
}

#[test]
fn manticore_status_filter() {
    let dialect = ManticoreDialect;
    let mut query = SearchQuery::new("NIKE");
    query.status_filter = Some(TrademarkStatus::Live);
    let sql = dialect.translate(&query).unwrap();
    assert!(sql.contains("AND status = 'Live'"));
}

#[test]
fn test_build_query() {
    let config = ManticoreConfig::default();
    let query = SearchQuery::new("NIKE").with_limit(50);
    let sql = build_search_sql(&config.table_name, &query);

    assert!(sql.contains("MATCH('NIKE')"));
    assert!(sql.contains("LIMIT 50"));
    assert!(sql.contains("trademarks"));
}

#[test]
fn test_query_escaping() {
    let config = ManticoreConfig::default();
    let query = SearchQuery::new("O'REILLY");
    let sql = build_search_sql(&config.table_name, &query);

    assert!(sql.contains("O''REILLY"));
}

#[test]
fn manticore_config_defaults() {
    let config = ManticoreConfig::default();
    assert_eq!(config.base_url, "http://127.0.0.1:9308");
    assert_eq!(config.table_name, "trademarks");
    assert_eq!(config.timeout_secs, 30);
}

#[test]
fn backend_error_kind_labels() {
    assert_eq!(BackendError::Unavailable.kind_label(), "Backend not available");
    assert_eq!(BackendError::Connection("x".into()).kind_label(), "Connection failed");
    assert_eq!(BackendError::QueryFailed("x".into()).kind_label(), "Query execution failed");
    assert_eq!(BackendError::ParseError("x".into()).kind_label(), "Parse error");
}

#[test]
fn variants_hold_the_term_itself() {
    let variants = generate_variants("NIKE");
    assert_eq!(variants, vec!["NIKE"]);
}

#[test]
fn query_builders_set_fields() {
    let query = SearchQuery::new("ACME").with_classes(vec![9, 42]).with_limit(5);
    assert_eq!(query.mark_text, "ACME");
    assert_eq!(query.classes, vec![9, 42]);
    assert_eq!(query.limit, 5);
    assert!(query.phonetic);
    assert!(query.fuzzy);
    assert_eq!(query.status_filter, None);
}
