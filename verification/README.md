# valytics

Backend of a stock-analytics service (company ratios, discounted-cash-flow
valuation, comparable companies, portfolio risk), served over HTTP.

- `src/` — the verified library: the plain-value rules of the service.
  - `text`: substring search, splitting at commas, trimming Unicode white
    space, and the trusted call of `str::to_uppercase`.
  - `peers`: the sector peer table (`get_peer_group`), the peers a comparable
    analysis queries (`comparable_peers`), the sector beta table.
  - `config`: `Config` and the `PORT` setting rule (`parse_u16`, default 3001).
  - `api`: ticker normalisation, the portfolio request's ticker list and its
    validation, `SearchQuery`, `Insight`.
  - `quotes`: display names, equity search hits, price-history windows.
- `app/` — the server: axum routes, HTTP calls to the quote service, serde
  models, and the floating-point analytics, which Verus does not check.
- `tests/` — tests of the library.
