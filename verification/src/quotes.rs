//! Rules applied to market-data replies: which name a listed company goes
//! by, which search hits are listed companies, and the time window of a
//! price-history request.

use vstd::prelude::*;

verus! {

/// Seconds in a 365-day year, the unit of a price-history window.
pub const SECONDS_PER_YEAR: i64 = 31_536_000;

/// One hit of a ticker search, as the market-data service reports it.
#[derive(Debug, Clone)]
pub struct SearchQuote {
    pub symbol: String,
    pub longname: Option<String>,
    pub shortname: Option<String>,
    pub exchange: String,
    pub quote_type: String,
}

/// The view of an optional string.
pub open spec fn opt_view(o: Option<String>) -> Option<Seq<char>> {
    match o {
        Some(s) => Some(s@),
        None => None,
    }
}

/// The name a company goes by: its long name, else its short name, else empty.
pub open spec fn display_name_spec(long: Option<Seq<char>>, short: Option<Seq<char>>) -> Seq<
    char,
> {
    match long {
        Some(l) => l,
        None => match short {
            Some(s) => s,
            None => Seq::empty(),
        },
    }
}

/// A search hit is a listed company when its quote type is "EQUITY".
pub open spec fn is_equity(q: SearchQuote) -> bool {
    q.quote_type@ == "EQUITY"@
}

/// The listing (ticker, name, exchange) that a search hit gives.
pub open spec fn listing_of(q: SearchQuote) -> (Seq<char>, Seq<char>, Seq<char>) {
    (q.symbol@, display_name_spec(opt_view(q.longname), opt_view(q.shortname)), q.exchange@)
}

/// The listings of the equity hits among `qs`, in order.
pub open spec fn equity_listings_spec(qs: Seq<SearchQuote>) -> Seq<(Seq<char>, Seq<char>, Seq<char>)>
    decreases qs.len(),
{
    if qs.len() == 0 {
        seq![]
    } else {
        let rest = equity_listings_spec(qs.drop_last());
        if is_equity(qs.last()) {
            rest.push(listing_of(qs.last()))
        } else {
            rest
        }
    }
}

/// The name a company goes by is its long name when it has one, else its
/// short name, else empty.
pub proof fn law_display_name(long: Seq<char>, short: Option<Seq<char>>, only_short: Seq<char>)
    ensures
        display_name_spec(Some(long), short) == long,
        display_name_spec(None, Some(only_short)) == only_short,
        display_name_spec(None, None) == Seq::<char>::empty(),
{
}

/// A ticker search lists its hits in order, each hit whose quote type is
/// exactly "EQUITY" as (symbol, long name else short name else empty,
/// exchange), and no hit of any other quote type.
pub proof fn law_equity_listings(qs: Seq<SearchQuote>, q: SearchQuote)
    ensures
        equity_listings_spec(Seq::empty()) == Seq::<(Seq<char>, Seq<char>, Seq<char>)>::empty(),
        q.quote_type@ != "EQUITY"@ ==> equity_listings_spec(qs.push(q)) == equity_listings_spec(qs),
        q.quote_type@ == "EQUITY"@ ==> equity_listings_spec(qs.push(q)) == equity_listings_spec(
            qs,
        ).push(
            (
                q.symbol@,
                match q.longname {
                    Some(l) => l@,
                    None => match q.shortname {
                        Some(s) => s@,
                        None => Seq::<char>::empty(),
                    },
                },
                q.exchange@,
            ),
        ),
{
    assert(qs.push(q).drop_last() =~= qs);
    assert(qs.push(q).last() == q);
}

/// The views of a list of listings.
pub open spec fn listing_views(v: Seq<(String, String, String)>) -> Seq<(Seq<char>, Seq<char>, Seq<char>)> {
    v.map_values(|l: (String, String, String)| (l.0@, l.1@, l.2@))
}

/// The name a company goes by: its long name, else its short name, else empty.
pub fn company_display_name(long: &Option<String>, short: &Option<String>) -> (r: String)
    ensures
        r@ == display_name_spec(opt_view(*long), opt_view(*short)),
{
    match long {
        Some(l) => l.clone(),
        None => match short {
            Some(s) => s.clone(),
            None => String::new(),
        },
    }
}

/// The (ticker, name, exchange) listings of the equity hits of a ticker
/// search, in the order in which the service reported them.
pub fn equity_listings(quotes: &Vec<SearchQuote>) -> (r: Vec<(String, String, String)>)
    ensures
        listing_views(r@) == equity_listings_spec(quotes@),
{
    let equity = String::from_str("EQUITY");
    let mut r: Vec<(String, String, String)> = Vec::new();
    let mut i: usize = 0;
    assert(quotes@.subrange(0, 0) =~= Seq::<SearchQuote>::empty());
    while i < quotes.len()
        invariant
            i <= quotes@.len(),
            equity@ == "EQUITY"@,
            listing_views(r@) =~= equity_listings_spec(quotes@.subrange(0, i as int)),
        decreases quotes.len() - i,
    {
        let ghost prefix = quotes@.subrange(0, i + 1);
        assert(prefix.drop_last() =~= quotes@.subrange(0, i as int));
        let q = &quotes[i];
        assert(prefix.last() == *q);
        if q.quote_type == equity {
            let name = company_display_name(&q.longname, &q.shortname);
            let listing = (q.symbol.clone(), name, q.exchange.clone());
            let ghost before = r@;
            r.push(listing);
            assert(listing_views(r@) =~= listing_views(before).push(listing_of(*q)));
        }
        i = i + 1;
    }
    assert(quotes@.subrange(0, quotes@.len() as int) =~= quotes@);
    r
}

/// The (start, end) Unix timestamps of a price history of `years` years that
/// ends at `now`.
pub fn history_window(now: i64, years: u32) -> (r: (i64, i64))
    requires
        now - years * SECONDS_PER_YEAR >= i64::MIN,
    ensures
        r.0 == now - years * SECONDS_PER_YEAR,
        r.1 == now,
{
    let span: i64 = (years as i64) * 365 * 24 * 60 * 60;
    (now - span, now)
}

} // verus!
