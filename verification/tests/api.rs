use valytics::api::{
    check_portfolio_lists, normalize_ticker, parse_ticker_list, Insight, PortfolioRequestError,
    SearchQuery,
};

#[test]
fn tickers_are_trimmed_and_upper_cased() {
    assert_eq!(parse_ticker_list(" aapl, msft ,goog"), vec!["AAPL", "MSFT", "GOOG"]);
}

#[test]
fn empty_ticker_pieces_are_dropped() {
    assert_eq!(parse_ticker_list("aapl,, ,msft,"), vec!["AAPL", "MSFT"]);
    assert!(parse_ticker_list("").is_empty());
    assert!(parse_ticker_list(" , ,").is_empty());
    assert!(parse_ticker_list("\u{3000},\t\n,").is_empty());
    assert_eq!(parse_ticker_list("\u{A0}tsla\u{2003}"), vec!["TSLA"]);
}

#[test]
fn single_ticker_list() {
    assert_eq!(parse_ticker_list("nvda"), vec!["NVDA"]);
}

#[test]
fn normalize_ticker_upper_cases() {
    assert_eq!(normalize_ticker("aapl"), "AAPL");
    assert_eq!(normalize_ticker("Brk-B"), "BRK-B");
    assert_eq!(normalize_ticker(""), "");
}

#[test]
fn portfolio_lists_must_match() {
    assert!(check_portfolio_lists(2, 2).is_ok());
    assert!(check_portfolio_lists(1, 1).is_ok());
    assert!(matches!(check_portfolio_lists(0, 0), Err(PortfolioRequestError::MismatchedLists)));
    assert!(matches!(check_portfolio_lists(2, 3), Err(PortfolioRequestError::MismatchedLists)));
    assert!(matches!(check_portfolio_lists(3, 2), Err(PortfolioRequestError::MismatchedLists)));
    assert!(matches!(check_portfolio_lists(0, 1), Err(PortfolioRequestError::MismatchedLists)));
}

#[test]
fn refused_request_message() {
    assert_eq!(
        PortfolioRequestError::MismatchedLists.message(),
        "Invalid tickers or weights. Provide comma-separated lists of equal length."
    );
}

#[test]
fn plain_records() {
    let q = SearchQuery { q: "apple".to_string() };
    assert_eq!(q.q, "apple");
    let i = Insight {
        category: "risk".to_string(),
        message: "High debt".to_string(),
        severity: "high".to_string(),
    };
    assert_eq!(i.category, "risk");
    assert_eq!(i.severity, "high");
}
