# pwr_viewgen

Turns Discord webhook message payloads into Discord-looking HTML previews, checks
them against the platform's limits, and prepares the webhook request that sends
them. The library is written in Verus: every function carries a contract over a
mathematical model of its input and output, and Verus proves it.

## Layout

- `src/markdown/` — Discord's markdown dialect. `parse` turns text into blocks
  (paragraphs, headings, subtext, quotes, lists, code blocks) and `parse_inline`
  into spans (emphasis, spoilers, code, links, autolinks, emoji, mentions,
  timestamps). `ir.rs` holds the tree and its model, `laws.rs` the proofs that
  literal text is merged and nesting is bounded, `timestamp.rs` the `<t:…>`
  formats.
- `src/render/` — HTML rendering of blocks, embeds and components, and of whole
  messages and documents; every output is stated exactly as a function of the
  message and the clock.
- `src/shape.rs` — the component shapes the webhook API accepts: what may stand
  at the top and inside a container, action rows of buttons or one select menu,
  sections of text beside a thumbnail or button, option values of string selects.
- `src/validate.rs` — the limits a message must keep before it is sent, with the
  path of the first violation.
- `src/webhook.rs` — building the webhook request and reading its answer.
- `src/shot.rs`, `src/cli.rs`, `src/data_uri.rs` — the decisions behind PNG
  capture, output targets and data URIs.
- `app/` — the command line, the JSON front end, HTTP delivery, the local web UI
  and the browser capture, around the library.
- `tests/` — examples and golden renders.

Calls into `chrono`, `serde_json` and a few `std` functions go through small
trusted functions whose contracts name what they return.
