# linear_tui

The logic of a terminal client for Linear, written in Verus: every function in
`src/` carries a contract that Verus proves.

## Layout

- `src/` — the verified library.
  - Issue lists: `grouping` (sections, nesting, presets), `partition`,
    `row` (which columns fit, and each issue's line), `list` (the list's
    frame: its lines, the rows a click selects, the scroll), `views` (the
    custom views list), `navigation` (cursor moves and reselection).
  - Issue pages: `show` (the Markdown of `issue show`, comment threads),
    `changes` (what `issue update` reports), `detail`, `body` (the main
    column: title, description, sub-issues, comment cards), `panel` (the
    properties column), `memo`, `markdown` (inline runs, wrapping by
    display width, rendering), `widgets` (the small pieces the views share).
  - Interaction: `hints` (the key hints of each screen), `palette`.
  - Commands: `resolve` (names to priorities, estimates, members, labels,
    projects, cycles), `mutation` (what a create or update sends), `api`,
    `message`, `identifier`, `notation` (key sequences), `control`,
    `context`, `screen`, `snapshot`, `handoff`, `callback` (the sign-in
    callback's answers), `clipboard`.
  - Foundations: `entity`, `text`, `timestamp`, `look`, `fuzzy`, `input`,
    `cycles`.
- `tests/` — ordinary Rust tests against the library.
- `app/` — the program around it: the command line, the sign-in callback
  server, and the git queries behind `context`. It hands the library plain
  values and prints what comes back. The terminal interface and the Linear
  client are not part of this crate; the commands that need them say so.

## Trust

The proofs rest on the few functions marked `#[verifier::external_body]`,
each a single call into std, `unicode-width` or `base64`, with a doc comment
that says what its contract claims.

## Verifying

Run Verus on `src/lib.rs` with the crate's dependencies; `cargo test` runs the
tests.
