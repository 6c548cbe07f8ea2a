# tophub

A client for the Tophub hot-list API (`https://api.tophubdata.com`), with its
logic verified in Verus.

- `src/` is the verified library:
  - `api.rs`: the request of each API operation (URL, `Authorization` header,
    query parameters).
  - `cli.rs`: the command line's decisions: API key priority, the hashid list,
    the `--details` and `--mode` checks, the `batch` combination, reports.
  - `dump.rs`: export file names (the zero-padded time stamp, which sorts in
    time order, or `--name`),
    the flattening of node results into CSV rows, one row per hot item, and
    the JSON and JSON Lines export text.
  - `fetch.rs`: retrying a node query, ordering concurrent results and
    leaving out given-up nodes, walking
    the pages of the node list.
  - `json.rs`: the model of the API's JSON answers and what makes one valid
    (JSON number texts, distinct keys), how a value is shown as cell text,
    and its JSON text as written by `serde_json`.
  - `text.rs`: decimal rendering, Unicode whitespace trimming, splitting.
- `app/main.rs` is the command line program: arguments, HTTP, concurrency,
  progress bar, reading the clock, and files.
- `tests/` runs the library on concrete values.
