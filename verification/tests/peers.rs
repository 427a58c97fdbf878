use valytics::peers::{comparable_peers, get_peer_group, sector_beta_hundredths};

fn strings(items: &[&str]) -> Vec<String> {
    items.iter().map(|s| s.to_string()).collect()
}

#[test]
fn peer_group_of_technology_sector() {
    assert_eq!(
        get_peer_group("Technology", "Consumer Electronics"),
        strings(&["AAPL", "MSFT", "GOOGL", "META", "NVDA", "ADBE", "CRM", "ORCL"])
    );
}

#[test]
fn peer_group_matches_on_industry() {
    assert_eq!(
        get_peer_group("Basic Materials", "Oil & Gas Integrated Energy"),
        strings(&["XOM", "CVX", "COP", "SLB", "EOG", "PXD", "MPC", "VLO"])
    );
}

#[test]
fn peer_group_first_listed_sector_wins() {
    // "Healthcare" comes before "Energy" in the table.
    assert_eq!(
        get_peer_group("Energy", "Healthcare Plans"),
        strings(&["JNJ", "PFE", "UNH", "ABT", "MRK", "TMO", "DHR", "BMY"])
    );
}

#[test]
fn peer_group_matches_a_substring() {
    assert_eq!(
        get_peer_group("US Financial Services Group", ""),
        strings(&["JPM", "BAC", "WFC", "GS", "MS", "BLK", "SCHW", "C"])
    );
}

#[test]
fn peer_group_defaults_when_nothing_matches() {
    assert_eq!(
        get_peer_group("Utilities", "Regulated Electric"),
        strings(&["AAPL", "MSFT", "GOOGL", "META", "NVDA"])
    );
    assert_eq!(get_peer_group("", ""), strings(&["AAPL", "MSFT", "GOOGL", "META", "NVDA"]));
}

#[test]
fn peer_group_matching_is_case_sensitive() {
    assert_eq!(
        get_peer_group("technology", "industrials"),
        strings(&["AAPL", "MSFT", "GOOGL", "META", "NVDA"])
    );
}

#[test]
fn comparable_peers_leave_out_the_company() {
    assert_eq!(
        comparable_peers("MSFT", "Technology", "Software"),
        strings(&["AAPL", "GOOGL", "META", "NVDA", "ADBE", "CRM", "ORCL"])
    );
}

#[test]
fn comparable_peers_of_an_outsider_are_the_whole_group() {
    assert_eq!(
        comparable_peers("INTC", "Technology", "Semiconductors"),
        get_peer_group("Technology", "Semiconductors")
    );
}

#[test]
fn comparable_peers_compare_tickers_exactly() {
    // A lower-case ticker is a different ticker.
    assert_eq!(comparable_peers("aapl", "", "").len(), 5);
    assert_eq!(comparable_peers("AAPL", "", ""), strings(&["MSFT", "GOOGL", "META", "NVDA"]));
}

#[test]
fn sector_betas() {
    assert_eq!(sector_beta_hundredths("Technology"), Some(120));
    assert_eq!(sector_beta_hundredths("Financial Services"), Some(110));
    assert_eq!(sector_beta_hundredths("Healthcare"), Some(90));
    assert_eq!(sector_beta_hundredths("Consumer Cyclical"), Some(115));
    assert_eq!(sector_beta_hundredths("Industrials"), Some(110));
    assert_eq!(sector_beta_hundredths("Energy"), Some(130));
    assert_eq!(sector_beta_hundredths("Utilities"), Some(70));
    assert_eq!(sector_beta_hundredths("Real Estate"), Some(80));
}

#[test]
fn sector_beta_first_match_and_default() {
    assert_eq!(sector_beta_hundredths("Energy Technology"), Some(120));
    assert_eq!(sector_beta_hundredths("Regulated Utilities"), Some(70));
    assert_eq!(sector_beta_hundredths("Basic Materials"), None);
    assert_eq!(sector_beta_hundredths(""), None);
}
