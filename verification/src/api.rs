//! Request-side rules of the HTTP API: ticker normalisation, the portfolio
//! request's ticker list and its validation, and the plain records that the
//! API exchanges.

use vstd::prelude::*;
use crate::text::{slice_views, split_chars, split_commas, to_uppercase, trim, trimmed, uppercased, views};

verus! {

/// Query of the ticker search endpoint.
#[derive(Debug, Clone)]
pub struct SearchQuery {
    pub q: String,
}

/// A key insight or risk about a company.
#[derive(Debug, Clone)]
pub struct Insight {
    /// One of "strength", "weakness", "risk", "opportunity".
    pub category: String,
    pub message: String,
    /// One of "low", "medium", "high".
    pub severity: String,
}

/// Why a portfolio request is refused.
#[derive(Debug, Clone, Copy, PartialEq, Eq)]
pub enum PortfolioRequestError {
    /// The ticker list is empty, or it and the weight list differ in length.
    MismatchedLists,
}

/// The text with which a refused portfolio request is answered.
pub open spec fn mismatched_lists_message() -> Seq<char> {
    "Invalid tickers or weights. Provide comma-separated lists of equal length."@
}

impl PortfolioRequestError {
    /// The message that answers the request.
    pub fn message(&self) -> (r: String)
        ensures
            r@ == mismatched_lists_message(),
    {
        match self {
            PortfolioRequestError::MismatchedLists => String::from_str(
                "Invalid tickers or weights. Provide comma-separated lists of equal length.",
            ),
        }
    }
}

/// A ticker as the endpoints look it up: the path segment in upper case.
pub fn normalize_ticker(raw: &str) -> (r: String)
    ensures
        r@ == uppercased(raw@),
{
    to_uppercase(raw)
}

/// The ticker that one comma-separated piece of a list names.
pub open spec fn ticker_of(piece: Seq<char>) -> Seq<char> {
    uppercased(trimmed(piece))
}

/// The tickers that the pieces of a list name, in order, empty ones left out:
/// a piece of white space alone names none (the upper case of an empty
/// string is empty), nor does one whose upper case is empty.
pub open spec fn tickers_from_pieces(pieces: Seq<Seq<char>>) -> Seq<Seq<char>>
    decreases pieces.len(),
{
    if pieces.len() == 0 {
        seq![]
    } else {
        let rest = tickers_from_pieces(pieces.drop_last());
        if trimmed(pieces.last()).len() == 0 || ticker_of(pieces.last()).len() == 0 {
            rest
        } else {
            rest.push(ticker_of(pieces.last()))
        }
    }
}

/// Each piece of a list names one ticker, its trimmed text in upper case,
/// unless that is empty; pieces of white space alone name none; the order
/// of the pieces is kept.
pub proof fn law_ticker_list_step(pieces: Seq<Seq<char>>, piece: Seq<char>)
    ensures
        tickers_from_pieces(Seq::empty()) == Seq::<Seq<char>>::empty(),
        trimmed(piece).len() == 0 ==> tickers_from_pieces(pieces.push(piece))
            == tickers_from_pieces(pieces),
        uppercased(trimmed(piece)).len() == 0 ==> tickers_from_pieces(pieces.push(piece))
            == tickers_from_pieces(pieces),
        trimmed(piece).len() > 0 && uppercased(trimmed(piece)).len() > 0 ==> tickers_from_pieces(
            pieces.push(piece),
        ) == tickers_from_pieces(pieces).push(uppercased(trimmed(piece))),
{
    assert(pieces.push(piece).drop_last() =~= pieces);
    assert(pieces.push(piece).last() == piece);
}

proof fn lemma_keeps_every_piece(pieces: Seq<Seq<char>>)
    requires
        forall|k: int|
            0 <= k < pieces.len() ==> trimmed(#[trigger] pieces[k]).len() > 0 && uppercased(
                trimmed(pieces[k]),
            ).len() > 0,
    ensures
        tickers_from_pieces(pieces).len() == pieces.len(),
        forall|k: int|
            0 <= k < pieces.len() ==> #[trigger] tickers_from_pieces(pieces)[k] == uppercased(
                trimmed(pieces[k]),
            ),
    decreases pieces.len(),
{
    if pieces.len() > 0 {
        let front = pieces.drop_last();
        assert forall|k: int| 0 <= k < front.len() implies trimmed(#[trigger] front[k]).len() > 0
            && uppercased(trimmed(front[k])).len() > 0 by {
            assert(front[k] == pieces[k]);
        }
        lemma_keeps_every_piece(front);
        let last = pieces.last();
        assert(trimmed(pieces[pieces.len() - 1]).len() > 0);
        assert(front.push(last) =~= pieces);
        law_ticker_list_step(front, last);
        assert forall|k: int| 0 <= k < pieces.len() implies #[trigger] tickers_from_pieces(
            pieces,
        )[k] == uppercased(trimmed(pieces[k])) by {
            if k < front.len() {
                assert(pieces[k] == front[k]);
            }
        }
    }
}

/// When no piece is blank, every piece gives its ticker, whatever its
/// length: the list has one ticker per piece, in order.
pub proof fn law_ticker_list_keeps_every_piece(pieces: Seq<Seq<char>>)
    ensures
        (forall|k: int|
            0 <= k < pieces.len() ==> trimmed(#[trigger] pieces[k]).len() > 0 && uppercased(
                trimmed(pieces[k]),
            ).len() > 0) ==> tickers_from_pieces(pieces).len() == pieces.len() && (forall|k: int|
            0 <= k < pieces.len() ==> #[trigger] tickers_from_pieces(pieces)[k] == uppercased(
                trimmed(pieces[k]),
            )),
{
    if forall|k: int|
        0 <= k < pieces.len() ==> trimmed(#[trigger] pieces[k]).len() > 0 && uppercased(
            trimmed(pieces[k]),
        ).len() > 0 {
        lemma_keeps_every_piece(pieces);
    }
}

/// No ticker that a list names is empty.
pub proof fn lemma_tickers_nonempty(pieces: Seq<Seq<char>>)
    ensures
        forall|i: int|
            0 <= i < tickers_from_pieces(pieces).len() ==> #[trigger] tickers_from_pieces(
                pieces,
            )[i].len() > 0,
    decreases pieces.len(),
{
    if pieces.len() > 0 {
        lemma_tickers_nonempty(pieces.drop_last());
        let rest = tickers_from_pieces(pieces.drop_last());
        assert forall|i: int|
            0 <= i < tickers_from_pieces(pieces).len() implies #[trigger] tickers_from_pieces(
            pieces,
        )[i].len() > 0 by {
            if i < rest.len() {
                assert(tickers_from_pieces(pieces)[i] == rest[i]);
            }
        }
    }
}

/// The tickers of a portfolio request's comma-separated list: each piece
/// with its surrounding white space removed and put in upper case, empty
/// results left out.
pub fn parse_ticker_list(list: &str) -> (r: Vec<String>)
    ensures
        views(r@) == tickers_from_pieces(split_chars(list@, ',')),
        forall|i: int| 0 <= i < r@.len() ==> (#[trigger] r@[i])@.len() > 0,
{
    let pieces = split_commas(list);
    let ghost all = slice_views(pieces@);
    let mut r: Vec<String> = Vec::new();
    let mut i: usize = 0;
    assert(all.subrange(0, 0) =~= Seq::<Seq<char>>::empty());
    while i < pieces.len()
        invariant
            i <= pieces@.len(),
            all == slice_views(pieces@),
            views(r@) =~= tickers_from_pieces(all.subrange(0, i as int)),
        decreases pieces.len() - i,
    {
        let ghost prefix = all.subrange(0, i + 1);
        assert(prefix.drop_last() =~= all.subrange(0, i as int));
        assert(prefix.last() == pieces@[i as int]@);
        let piece = trim(pieces[i]);
        if !piece.is_empty() {
            let ticker = to_uppercase(piece);
            if !ticker.as_str().is_empty() {
                let ghost before = r@;
                r.push(ticker);
                assert(views(r@) =~= views(before).push(ticker@));
            }
        }
        i = i + 1;
    }
    assert(all.subrange(0, pieces@.len() as int) =~= all);
    proof {
        lemma_tickers_nonempty(all);
        assert forall|i: int| 0 <= i < r@.len() implies (#[trigger] r@[i])@.len() > 0 by {
            assert(views(r@)[i] == r@[i]@);
        }
    }
    r
}

/// Accepts a portfolio request whose ticker list is not empty and holds as
/// many tickers as the weight list holds weights.
pub fn check_portfolio_lists(ticker_count: usize, weight_count: usize) -> (r: Result<
    (),
    PortfolioRequestError,
>)
    ensures
        r is Ok <==> (ticker_count > 0 && ticker_count == weight_count),
{
    if ticker_count == 0 || ticker_count != weight_count {
        Err(PortfolioRequestError::MismatchedLists)
    } else {
        Ok(())
    }
}

} // verus!
