//! Sector tables: the peer group that a comparable-company analysis queries,
//! and the sector beta that a discounted-cash-flow model starts from.

use vstd::prelude::*;
use crate::text::{contains_chars, str_contains, views};

verus! {

/// The first index `i` in `from..len` for which `p(i)` holds, if any.
pub open spec fn first_from(p: spec_fn(int) -> bool, len: int, from: int) -> Option<int>
    decreases len - from,
{
    if from >= len {
        None
    } else if p(from) {
        Some(from)
    } else {
        first_from(p, len, from + 1)
    }
}

/// Sector names of the peer table, in the order in which they are tried.
pub open spec fn peer_sector_names() -> Seq<Seq<char>> {
    seq![
        "Technology"@,
        "Financial Services"@,
        "Healthcare"@,
        "Consumer Cyclical"@,
        "Industrials"@,
        "Energy"@,
    ]
}

/// The peer tickers of each sector of `peer_sector_names`, at the same index.
pub open spec fn peer_lists() -> Seq<Seq<Seq<char>>> {
    seq![
        seq!["AAPL"@, "MSFT"@, "GOOGL"@, "META"@, "NVDA"@, "ADBE"@, "CRM"@, "ORCL"@],
        seq!["JPM"@, "BAC"@, "WFC"@, "GS"@, "MS"@, "BLK"@, "SCHW"@, "C"@],
        seq!["JNJ"@, "PFE"@, "UNH"@, "ABT"@, "MRK"@, "TMO"@, "DHR"@, "BMY"@],
        seq!["AMZN"@, "TSLA"@, "HD"@, "NKE"@, "MCD"@, "SBUX"@, "LOW"@, "TGT"@],
        seq!["BA"@, "CAT"@, "GE"@, "HON"@, "UPS"@, "UNP"@, "RTX"@, "LMT"@],
        seq!["XOM"@, "CVX"@, "COP"@, "SLB"@, "EOG"@, "PXD"@, "MPC"@, "VLO"@],
    ]
}

/// The peer group used when no sector of the table matches.
pub open spec fn default_peers() -> Seq<Seq<char>> {
    seq!["AAPL"@, "MSFT"@, "GOOGL"@, "META"@, "NVDA"@]
}

/// Entry `i` of the peer table matches a company when its sector name occurs
/// in the company's sector or in its industry.
pub open spec fn peer_match(sector: Seq<char>, industry: Seq<char>) -> spec_fn(int) -> bool {
    |i: int|
        contains_chars(sector, peer_sector_names()[i]) || contains_chars(
            industry,
            peer_sector_names()[i],
        )
}

/// The peer group of a company: that of the first matching table entry, else the default.
pub open spec fn peer_group_spec(sector: Seq<char>, industry: Seq<char>) -> Seq<Seq<char>> {
    match first_from(peer_match(sector, industry), 6, 0) {
        Some(i) => peer_lists()[i],
        None => default_peers(),
    }
}

/// A company names a sector when the sector's name occurs in its sector or in
/// its industry.
pub open spec fn names_sector(sector: Seq<char>, industry: Seq<char>, name: Seq<char>) -> bool {
    contains_chars(sector, name) || contains_chars(industry, name)
}

/// Which peer group a company gets: that of the first of Technology,
/// Financial Services, Healthcare, Consumer Cyclical, Industrials and Energy
/// that it names, in that order, and the large technology companies when it
/// names none of them.
pub proof fn law_peer_group_by_sector(sector: Seq<char>, industry: Seq<char>)
    ensures
        names_sector(sector, industry, "Technology"@) ==> peer_group_spec(sector, industry)
            == seq!["AAPL"@, "MSFT"@, "GOOGL"@, "META"@, "NVDA"@, "ADBE"@, "CRM"@, "ORCL"@],
        !names_sector(sector, industry, "Technology"@) && names_sector(
            sector,
            industry,
            "Financial Services"@,
        ) ==> peer_group_spec(sector, industry)
            == seq!["JPM"@, "BAC"@, "WFC"@, "GS"@, "MS"@, "BLK"@, "SCHW"@, "C"@],
        !names_sector(sector, industry, "Technology"@) && !names_sector(
            sector,
            industry,
            "Financial Services"@,
        ) && names_sector(sector, industry, "Healthcare"@) ==> peer_group_spec(sector, industry)
            == seq!["JNJ"@, "PFE"@, "UNH"@, "ABT"@, "MRK"@, "TMO"@, "DHR"@, "BMY"@],
        !names_sector(sector, industry, "Technology"@) && !names_sector(
            sector,
            industry,
            "Financial Services"@,
        ) && !names_sector(sector, industry, "Healthcare"@) && names_sector(
            sector,
            industry,
            "Consumer Cyclical"@,
        ) ==> peer_group_spec(sector, industry)
            == seq!["AMZN"@, "TSLA"@, "HD"@, "NKE"@, "MCD"@, "SBUX"@, "LOW"@, "TGT"@],
        !names_sector(sector, industry, "Technology"@) && !names_sector(
            sector,
            industry,
            "Financial Services"@,
        ) && !names_sector(sector, industry, "Healthcare"@) && !names_sector(
            sector,
            industry,
            "Consumer Cyclical"@,
        ) && names_sector(sector, industry, "Industrials"@) ==> peer_group_spec(sector, industry)
            == seq!["BA"@, "CAT"@, "GE"@, "HON"@, "UPS"@, "UNP"@, "RTX"@, "LMT"@],
        !names_sector(sector, industry, "Technology"@) && !names_sector(
            sector,
            industry,
            "Financial Services"@,
        ) && !names_sector(sector, industry, "Healthcare"@) && !names_sector(
            sector,
            industry,
            "Consumer Cyclical"@,
        ) && !names_sector(sector, industry, "Industrials"@) && names_sector(
            sector,
            industry,
            "Energy"@,
        ) ==> peer_group_spec(sector, industry)
            == seq!["XOM"@, "CVX"@, "COP"@, "SLB"@, "EOG"@, "PXD"@, "MPC"@, "VLO"@],
        !names_sector(sector, industry, "Technology"@) && !names_sector(
            sector,
            industry,
            "Financial Services"@,
        ) && !names_sector(sector, industry, "Healthcare"@) && !names_sector(
            sector,
            industry,
            "Consumer Cyclical"@,
        ) && !names_sector(sector, industry, "Industrials"@) && !names_sector(
            sector,
            industry,
            "Energy"@,
        ) ==> peer_group_spec(sector, industry) == seq![
            "AAPL"@,
            "MSFT"@,
            "GOOGL"@,
            "META"@,
            "NVDA"@,
        ],
{
    let p = peer_match(sector, industry);
    let names = peer_sector_names();
    assert(names[0] == "Technology"@);
    assert(names[1] == "Financial Services"@);
    assert(names[2] == "Healthcare"@);
    assert(names[3] == "Consumer Cyclical"@);
    assert(names[4] == "Industrials"@);
    assert(names[5] == "Energy"@);
    assert forall|k: int| 0 <= k < 6 implies p(k) == names_sector(sector, industry, names[k]) by {}
    assert(first_from(p, 6, 6) == None::<int>);
    assert(first_from(p, 6, 5) == (if p(5) { Some(5int) } else { None }));
    assert(first_from(p, 6, 4) == (if p(4) { Some(4int) } else { first_from(p, 6, 5) }));
    assert(first_from(p, 6, 3) == (if p(3) { Some(3int) } else { first_from(p, 6, 4) }));
    assert(first_from(p, 6, 2) == (if p(2) { Some(2int) } else { first_from(p, 6, 3) }));
    assert(first_from(p, 6, 1) == (if p(1) { Some(1int) } else { first_from(p, 6, 2) }));
    assert(first_from(p, 6, 0) == (if p(0) { Some(0int) } else { first_from(p, 6, 1) }));
}

fn owned_list(items: &[&str]) -> (v: Vec<String>)
    ensures
        views(v@) == items@.map_values(|s: &str| s@),
{
    let mut v: Vec<String> = Vec::new();
    let mut i: usize = 0;
    while i < items.len()
        invariant
            i <= items@.len(),
            views(v@) =~= items@.subrange(0, i as int).map_values(|s: &str| s@),
        decreases items.len() - i,
    {
        let ghost before = v@;
        let item: &str = items[i];
        let owned = String::from_str(item);
        v.push(owned);
        assert(views(v@) =~= views(before).push(item@));
        assert(items@.subrange(0, i + 1) =~= items@.subrange(0, i as int).push(item));
        i = i + 1;
    }
    assert(items@.subrange(0, items@.len() as int) =~= items@);
    v
}

fn peer_sector_name(i: usize) -> (r: &'static str)
    requires
        i < 6,
    ensures
        r@ == peer_sector_names()[i as int],
{
    match i {
        0 => "Technology",
        1 => "Financial Services",
        2 => "Healthcare",
        3 => "Consumer Cyclical",
        4 => "Industrials",
        _ => "Energy",
    }
}

fn peer_list(i: usize) -> (r: Vec<String>)
    requires
        i < 6,
    ensures
        views(r@) == peer_lists()[i as int],
{
    let r = match i {
        0 => owned_list(&["AAPL", "MSFT", "GOOGL", "META", "NVDA", "ADBE", "CRM", "ORCL"]),
        1 => owned_list(&["JPM", "BAC", "WFC", "GS", "MS", "BLK", "SCHW", "C"]),
        2 => owned_list(&["JNJ", "PFE", "UNH", "ABT", "MRK", "TMO", "DHR", "BMY"]),
        3 => owned_list(&["AMZN", "TSLA", "HD", "NKE", "MCD", "SBUX", "LOW", "TGT"]),
        4 => owned_list(&["BA", "CAT", "GE", "HON", "UPS", "UNP", "RTX", "LMT"]),
        _ => owned_list(&["XOM", "CVX", "COP", "SLB", "EOG", "PXD", "MPC", "VLO"]),
    };
    assert(views(r@) =~= peer_lists()[i as int]);
    r
}

/// The tickers of the companies that a company of the given sector and industry
/// is compared with: the list of the first table sector whose name occurs in
/// `sector` or in `industry`, else a default list of large technology companies.
pub fn get_peer_group(sector: &str, industry: &str) -> (r: Vec<String>)
    ensures
        views(r@) == peer_group_spec(sector@, industry@),
{
    let ghost p = peer_match(sector@, industry@);
    let mut i: usize = 0;
    while i < 6
        invariant
            i <= 6,
            p == peer_match(sector@, industry@),
            first_from(p, 6, 0) == first_from(p, 6, i as int),
        decreases 6 - i,
    {
        let name = peer_sector_name(i);
        if str_contains(sector, name) || str_contains(industry, name) {
            assert(p(i as int));
            return peer_list(i);
        }
        assert(!p(i as int));
        i = i + 1;
    }
    let r = owned_list(&["AAPL", "MSFT", "GOOGL", "META", "NVDA"]);
    assert(views(r@) =~= default_peers());
    r
}

/// `s` with every element equal to `x` left out, the others in their order.
pub open spec fn without(s: Seq<Seq<char>>, x: Seq<char>) -> Seq<Seq<char>>
    decreases s.len(),
{
    if s.len() == 0 {
        seq![]
    } else {
        let rest = without(s.drop_last(), x);
        if s.last() == x {
            rest
        } else {
            rest.push(s.last())
        }
    }
}

/// What `without` leaves holds no `x`, and each of its elements stands in `s`.
pub proof fn lemma_without(s: Seq<Seq<char>>, x: Seq<char>)
    ensures
        without(s, x).len() <= s.len(),
        forall|i: int| 0 <= i < without(s, x).len() ==> #[trigger] without(s, x)[i] != x,
        forall|i: int| 0 <= i < without(s, x).len() ==> s.contains(#[trigger] without(s, x)[i]),
    decreases s.len(),
{
    if s.len() > 0 {
        lemma_without(s.drop_last(), x);
        let rest = without(s.drop_last(), x);
        assert forall|i: int| 0 <= i < without(s, x).len() implies s.contains(
            #[trigger] without(s, x)[i],
        ) by {
            if i < rest.len() {
                let j = choose|j: int| 0 <= j < s.drop_last().len() && s.drop_last()[j] == rest[i];
                assert(s[j] == rest[i]);
            } else {
                assert(s[s.len() - 1] == without(s, x)[i]);
            }
        }
    }
}

/// Leaving out a ticker that the list does not hold leaves the list as it is.
pub proof fn lemma_without_absent(s: Seq<Seq<char>>, x: Seq<char>)
    requires
        !s.contains(x),
    ensures
        without(s, x) == s,
    decreases s.len(),
{
    if s.len() > 0 {
        assert(!s.drop_last().contains(x)) by {
            if s.drop_last().contains(x) {
                let j = choose|j: int| 0 <= j < s.drop_last().len() && s.drop_last()[j] == x;
                assert(s[j] == x);
            }
        }
        lemma_without_absent(s.drop_last(), x);
        assert(s.last() != x) by {
            assert(s[s.len() - 1] == s.last());
        }
        assert(s.drop_last().push(s.last()) =~= s);
    }
}

/// Leaving out `x` removes every copy of `x` and nothing else: each other
/// ticker occurs as often as before.
pub proof fn law_without_counts(s: Seq<Seq<char>>, x: Seq<char>, y: Seq<char>)
    ensures
        without(s, x).to_multiset().count(x) == 0,
        y != x ==> without(s, x).to_multiset().count(y) == s.to_multiset().count(y),
    decreases s.len(),
{
    broadcast use vstd::seq_lib::group_to_multiset_ensures;

    if s.len() == 0 {
        assert(without(s, x) =~= Seq::<Seq<char>>::empty());
    } else {
        law_without_counts(s.drop_last(), x, y);
        assert(s.drop_last().push(s.last()) =~= s);
    }
}

/// A company whose own ticker is not in its peer group is compared with the
/// whole peer group: `comparable_peers` then gives what `get_peer_group` gives.
pub proof fn law_comparable_peers_whole_group(ticker: Seq<char>, sector: Seq<char>, industry: Seq<char>)
    requires
        !peer_group_spec(sector, industry).contains(ticker),
    ensures
        without(peer_group_spec(sector, industry), ticker) == peer_group_spec(sector, industry),
{
    lemma_without_absent(peer_group_spec(sector, industry), ticker);
}

/// The tickers that a comparable-company analysis of `ticker` queries: its
/// peer group, in order, with the company itself left out.
pub fn comparable_peers(ticker: &str, sector: &str, industry: &str) -> (r: Vec<String>)
    ensures
        views(r@) == without(peer_group_spec(sector@, industry@), ticker@),
        forall|i: int| 0 <= i < r@.len() ==> #[trigger] r@[i]@ != ticker@,
        forall|i: int|
            0 <= i < r@.len() ==> peer_group_spec(sector@, industry@).contains(#[trigger] r@[i]@),
{
    let group = get_peer_group(sector, industry);
    let own = String::from_str(ticker);
    let mut r: Vec<String> = Vec::new();
    let mut i: usize = 0;
    while i < group.len()
        invariant
            i <= group@.len(),
            own@ == ticker@,
            views(r@) == without(views(group@).subrange(0, i as int), ticker@),
        decreases group.len() - i,
    {
        let ghost before = views(group@).subrange(0, i as int);
        assert(views(group@).subrange(0, i + 1).drop_last() =~= before);
        if group[i] != own {
            let peer = group[i].clone();
            r.push(peer);
            assert(views(r@) =~= without(before, ticker@).push(peer@));
        }
        i = i + 1;
    }
    assert(views(group@).subrange(0, group@.len() as int) =~= views(group@));
    proof {
        lemma_without(views(group@), ticker@);
        assert forall|i: int| 0 <= i < r@.len() implies #[trigger] r@[i]@ != ticker@ by {
            assert(views(r@)[i] == r@[i]@);
        }
        assert forall|i: int|
            0 <= i < r@.len() implies peer_group_spec(sector@, industry@).contains(
            #[trigger] r@[i]@,
        ) by {
            assert(views(r@)[i] == r@[i]@);
        }
    }
    r
}

/// Sector names of the beta table, in the order in which they are tried.
pub open spec fn beta_sector_names() -> Seq<Seq<char>> {
    seq![
        "Technology"@,
        "Financial Services"@,
        "Healthcare"@,
        "Consumer Cyclical"@,
        "Industrials"@,
        "Energy"@,
        "Utilities"@,
        "Real Estate"@,
    ]
}

/// The beta of each sector of `beta_sector_names`, in hundredths, at the same index.
pub open spec fn beta_hundredths_table() -> Seq<u32> {
    seq![120u32, 110u32, 90u32, 115u32, 110u32, 130u32, 70u32, 80u32]
}

/// Entry `i` of the beta table matches when its sector name occurs in the company's sector.
pub open spec fn beta_match(sector: Seq<char>) -> spec_fn(int) -> bool {
    |i: int| contains_chars(sector, beta_sector_names()[i])
}

/// The sector beta of a company, in hundredths: that of the first matching entry, if any.
pub open spec fn sector_beta_spec(sector: Seq<char>) -> Option<u32> {
    match first_from(beta_match(sector), 8, 0) {
        Some(i) => Some(beta_hundredths_table()[i]),
        None => None,
    }
}

/// Which beta a valuation assumes for a sector: that of the first of
/// Technology (1.20), Financial Services (1.10), Healthcare (0.90), Consumer
/// Cyclical (1.15), Industrials (1.10), Energy (1.30), Utilities (0.70) and
/// Real Estate (0.80) whose name occurs in the sector, in hundredths; none
/// when the sector holds none of these names.
pub proof fn law_sector_beta_by_name(sector: Seq<char>)
    ensures
        contains_chars(sector, "Technology"@)
            ==> sector_beta_spec(sector) == Some(120u32),
        !contains_chars(sector, "Technology"@) && contains_chars(sector, "Financial Services"@)
            ==> sector_beta_spec(sector) == Some(110u32),
        !contains_chars(sector, "Technology"@) && !contains_chars(sector, "Financial Services"@) && contains_chars(sector, "Healthcare"@)
            ==> sector_beta_spec(sector) == Some(90u32),
        !contains_chars(sector, "Technology"@) && !contains_chars(sector, "Financial Services"@) && !contains_chars(sector, "Healthcare"@) && contains_chars(sector, "Consumer Cyclical"@)
            ==> sector_beta_spec(sector) == Some(115u32),
        !contains_chars(sector, "Technology"@) && !contains_chars(sector, "Financial Services"@) && !contains_chars(sector, "Healthcare"@) && !contains_chars(sector, "Consumer Cyclical"@) && contains_chars(sector, "Industrials"@)
            ==> sector_beta_spec(sector) == Some(110u32),
        !contains_chars(sector, "Technology"@) && !contains_chars(sector, "Financial Services"@) && !contains_chars(sector, "Healthcare"@) && !contains_chars(sector, "Consumer Cyclical"@) && !contains_chars(sector, "Industrials"@) && contains_chars(sector, "Energy"@)
            ==> sector_beta_spec(sector) == Some(130u32),
        !contains_chars(sector, "Technology"@) && !contains_chars(sector, "Financial Services"@) && !contains_chars(sector, "Healthcare"@) && !contains_chars(sector, "Consumer Cyclical"@) && !contains_chars(sector, "Industrials"@) && !contains_chars(sector, "Energy"@) && contains_chars(sector, "Utilities"@)
            ==> sector_beta_spec(sector) == Some(70u32),
        !contains_chars(sector, "Technology"@) && !contains_chars(sector, "Financial Services"@) && !contains_chars(sector, "Healthcare"@) && !contains_chars(sector, "Consumer Cyclical"@) && !contains_chars(sector, "Industrials"@) && !contains_chars(sector, "Energy"@) && !contains_chars(sector, "Utilities"@) && contains_chars(sector, "Real Estate"@)
            ==> sector_beta_spec(sector) == Some(80u32),
        !contains_chars(sector, "Technology"@) && !contains_chars(sector, "Financial Services"@) && !contains_chars(sector, "Healthcare"@) && !contains_chars(sector, "Consumer Cyclical"@) && !contains_chars(sector, "Industrials"@) && !contains_chars(sector, "Energy"@) && !contains_chars(sector, "Utilities"@) && !contains_chars(sector, "Real Estate"@)
            ==> sector_beta_spec(sector) == None::<u32>,
{
    let p = beta_match(sector);
    let names = beta_sector_names();
    let table = beta_hundredths_table();
    assert(names[0] == "Technology"@);
    assert(table[0] == 120u32);
    assert(names[1] == "Financial Services"@);
    assert(table[1] == 110u32);
    assert(names[2] == "Healthcare"@);
    assert(table[2] == 90u32);
    assert(names[3] == "Consumer Cyclical"@);
    assert(table[3] == 115u32);
    assert(names[4] == "Industrials"@);
    assert(table[4] == 110u32);
    assert(names[5] == "Energy"@);
    assert(table[5] == 130u32);
    assert(names[6] == "Utilities"@);
    assert(table[6] == 70u32);
    assert(names[7] == "Real Estate"@);
    assert(table[7] == 80u32);
    assert forall|k: int| 0 <= k < 8 implies p(k) == contains_chars(sector, names[k]) by {}
    assert(first_from(p, 8, 8) == None::<int>);
    assert(first_from(p, 8, 7) == (if p(7) { Some(7int) } else { first_from(p, 8, 8) }));
    assert(first_from(p, 8, 6) == (if p(6) { Some(6int) } else { first_from(p, 8, 7) }));
    assert(first_from(p, 8, 5) == (if p(5) { Some(5int) } else { first_from(p, 8, 6) }));
    assert(first_from(p, 8, 4) == (if p(4) { Some(4int) } else { first_from(p, 8, 5) }));
    assert(first_from(p, 8, 3) == (if p(3) { Some(3int) } else { first_from(p, 8, 4) }));
    assert(first_from(p, 8, 2) == (if p(2) { Some(2int) } else { first_from(p, 8, 3) }));
    assert(first_from(p, 8, 1) == (if p(1) { Some(1int) } else { first_from(p, 8, 2) }));
    assert(first_from(p, 8, 0) == (if p(0) { Some(0int) } else { first_from(p, 8, 1) }));
}

fn beta_entry(i: usize) -> (r: (&'static str, u32))
    requires
        i < 8,
    ensures
        r.0@ == beta_sector_names()[i as int],
        r.1 == beta_hundredths_table()[i as int],
{
    match i {
        0 => ("Technology", 120),
        1 => ("Financial Services", 110),
        2 => ("Healthcare", 90),
        3 => ("Consumer Cyclical", 115),
        4 => ("Industrials", 110),
        5 => ("Energy", 130),
        6 => ("Utilities", 70),
        _ => ("Real Estate", 80),
    }
}

/// The beta, in hundredths, that a valuation assumes for a company of `sector`:
/// that of the first table sector whose name occurs in `sector`; `None` when
/// no entry matches, and the model's default beta stands.
pub fn sector_beta_hundredths(sector: &str) -> (r: Option<u32>)
    ensures
        r == sector_beta_spec(sector@),
{
    let ghost p = beta_match(sector@);
    let mut i: usize = 0;
    while i < 8
        invariant
            i <= 8,
            p == beta_match(sector@),
            first_from(p, 8, 0) == first_from(p, 8, i as int),
        decreases 8 - i,
    {
        let (name, beta) = beta_entry(i);
        if str_contains(sector, name) {
            assert(p(i as int));
            return Some(beta);
        }
        assert(!p(i as int));
        i = i + 1;
    }
    None
}

} // verus!
