# makepay

The MakePay SDK with its core proved in Verus.

- `src/` is the verified library:
  - `text` — Unicode whitespace, trimming, base-URL normalisation and HTML
    escaping, with laws (escaped text cannot break out of an attribute or
    open a tag; normalisation is idempotent).
  - `url_model` — URLs built with the `url` crate, tracked by a ghost record
    of how they were made, with every edit kept within the `u32` byte
    limit of the `url` crate; form-urlencoded path segments.
  - `checkout`, `html` — hosted and embedded checkout URLs, the modal
    script URL, the embed button and iframe snippets.
  - `webhook` — signature header reading, timestamp tolerance and
    HMAC-SHA-256 verification, with the laws that a correctly signed body is
    accepted and that spacing, hex letter case and unknown header parts make
    no difference.
  - `json` — JSON values, API response interpretation, donation payloads
    (tagging twice changes nothing) and webhook parsing with `serde_json`.
  - `options`, `client`, `error` — payment link options and request bodies,
    client configuration and validation, request URLs and resource paths.
- `app/` is the asynchronous HTTP client built on `reqwest`, with the
  serde and `thiserror` derives that the library's types cannot carry.
- `tests/` runs the library on concrete values.
