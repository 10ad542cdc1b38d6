# crowbar

A Steam data API: market search and item lookup, store search and app details,
answered in one JSON envelope and cached in Redis.

- `src/` is the verified library. It builds the Steam request URLs, reads the
  Steam pages and responses (with `scraper` for HTML, behind trusted wrappers),
  shapes the answers, and computes the cache keys (`sha2`, `hex`). Its contracts
  state each result over a mathematical model of JSON values (`json.rs`).
  - `text.rs`: searching, replacing, decimal numbers, `str::parse` for unsigned integers.
  - `json.rs`: the JSON model, objects as entry lists, and their map laws.
  - `encoding.rs`: percent-encoding, SHA-256 and hex, cache keys.
  - `html.rs`: parsed documents and selectors, and what queries read from them.
  - `market.rs`: market search and item listing.
  - `store.rs`: store search results, app pages and app details.
  - `maps.rs`: the Steam Deck compatibility categories.
  - `response.rs`: the answer envelope and what each endpoint answers.
  - `cache.rs`: what a cached handler stores and answers, over a model of the cache.
  - `config.rs`: port and Redis settings.
- `app/` is the Rocket server: routes, rate limiting, HTTP requests, JSON
  parsing and writing, the Redis cache and the clock.
- `tests/` exercise the library on concrete pages and responses.
