use valytics::quotes::{company_display_name, equity_listings, history_window, SearchQuote, SECONDS_PER_YEAR};

fn quote(symbol: &str, long: Option<&str>, short: Option<&str>, exchange: &str, kind: &str) -> SearchQuote {
    SearchQuote {
        symbol: symbol.to_string(),
        longname: long.map(|s| s.to_string()),
        shortname: short.map(|s| s.to_string()),
        exchange: exchange.to_string(),
        quote_type: kind.to_string(),
    }
}

#[test]
fn display_name_prefers_long_name() {
    let long = Some("Apple Inc.".to_string());
    let short = Some("Apple".to_string());
    assert_eq!(company_display_name(&long, &short), "Apple Inc.");
    assert_eq!(company_display_name(&None, &short), "Apple");
    assert_eq!(company_display_name(&None, &None), "");
    assert_eq!(company_display_name(&long, &None), "Apple Inc.");
}

#[test]
fn only_equities_are_listed() {
    let quotes = vec![
        quote("AAPL", Some("Apple Inc."), Some("Apple"), "NMS", "EQUITY"),
        quote("AAPL240621C00100000", None, Some("AAPL Jun 2024"), "OPR", "OPTION"),
        quote("APLE", None, Some("Apple Hospitality"), "NYQ", "EQUITY"),
        quote("XAPL", None, None, "PNK", "EQUITY"),
        quote("AAPLX", None, None, "NAS", "equity"),
    ];
    let listings = equity_listings(&quotes);
    assert_eq!(
        listings,
        vec![
            ("AAPL".to_string(), "Apple Inc.".to_string(), "NMS".to_string()),
            ("APLE".to_string(), "Apple Hospitality".to_string(), "NYQ".to_string()),
            ("XAPL".to_string(), String::new(), "PNK".to_string()),
        ]
    );
    assert!(equity_listings(&Vec::new()).is_empty());
}

#[test]
fn history_window_spans_whole_years() {
    assert_eq!(SECONDS_PER_YEAR, 365 * 24 * 60 * 60);
    assert_eq!(history_window(1_700_000_000, 5), (1_700_000_000 - 157_680_000, 1_700_000_000));
    assert_eq!(history_window(1_700_000_000, 0), (1_700_000_000, 1_700_000_000));
    assert_eq!(history_window(0, 1), (-31_536_000, 0));
}
