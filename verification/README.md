# alamo2radarr

A one-shot job that adds repertory movies shown in Alamo Drafthouse specialty collections
to Radarr, with its decisions verified by Verus.

## Layout

- `src/` — the verified library.
  - `titles.rs`: normalization of Alamo display titles (event prefixes, labels, release
    years), eligibility by collection, and the distinct titles of a schedule.
  - `matching.rs`: exact, case-insensitive matching of a title against Radarr lookup results,
    one result per TMDB movie, in year and TMDB order.
  - `radarr.rs`, `alamo_movies.rs`: the API models, the add-movie payload builder, client
    configuration and endpoint URLs.
  - `sync.rs`: a run as a state machine — each step takes the response to the last action and
    returns the next action — with the laws of a run.
  - `settings.rs`: the run's settings from its environment variables.
  - `lookup.rs`: plain title and collection filters.
  - `text.rs`, `urls.rs`, `outside.rs`: characters, URL computations of the `url` crate, and
    the outside types the library carries.
- `app/` — the program: environment, HTTP requests with `reqwest`, JSON with `serde`, and the
  loop that performs each action of a run.
- `tests/` — tests of the library.
