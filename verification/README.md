# jeb

A command-line client for TypeSafe AI's System One API (the Jev model), with its
request-building logic verified in Verus.

- `src/` — the verified library:
  - `text.rs`: trimming, cutting and splitting text as `str` does, with their models;
  - `json.rs`: the library's JSON value and its model; reading JSON text through
    `serde_json`; filling in a missing `"model"`;
  - `keymap.rs`: a map from text keys, each key once (the request's question and
    option maps);
  - `types.rs`: questions, requests, token usage;
  - `request.rs`: building a request from the question flags, choosing where the
    request comes from, preparing a JSON payload;
  - `client.rs`: the client's configuration (API key, base URL, endpoint, HTTP client)
    and the check of the API's status.
- `app/` — the program: argument parsing, reading files and standard input, the HTTP
  call, the JSON schemas with serde, and the decision summary (which works on
  floating-point probabilities).
- `tests/` — tests of the library.
