# browserless-html-to-pdf

A self-hosted HTTP service that converts HTML to PDF and renders PDF pages to PNG or
JPEG, written as a Verus-verified library with a thin service around it.

## Layout

- `src/` — the verified library.
  - `config.rs`, `strmap.rs` — settings read from environment variables, with the
    default and the accepted range of each, and the first invalid setting reported.
  - `models/dto.rs` — request and response shapes, page selection (`"1,3,5-7"`),
    file-name sanitizing, CSS length splitting.
  - `routes/` — the decisions of each endpoint: HTML size limit, storage keys, page
    caps, multipart boundary, download-link checks and content types.
  - `services/storage.rs` — HMAC-SHA256 signed download links; `services/codec.rs`
    (base64), `services/html_to_pdf.rs` (page layout, default conversion),
    `services/pdf_to_image.rs` (page counting, PNG/JPEG output).
  - `error.rs` — error kinds, their HTTP status and the text a client sees.
  - `text.rs`, `decimal.rs` — character-level string operations and decimal integers.
- `app/` — the HTTP server: axum routing, rate limiting, rendering with float geometry
  (page sizes, margins, scale), storage through OpenDAL, and the JSON wire types.
- `tests/` — tests of the library.
