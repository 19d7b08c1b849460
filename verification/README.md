# tape_tui

An inline-first terminal UI kernel whose logic is verified with Verus: the functions in
`src/` state what they do in `requires`/`ensures` contracts over mathematical models (`Seq`,
`Map`, `nat`), and the properties that span several operations are proved in `src/laws.rs`.
Styles are values of the `StyleFn` trait, whose `styled` spec function says what a style
makes of a text (`WrapStyle` puts text between two strings, such as a color code and its
reset), so rendered lines are stated through the styles that made them. Where a result is
made by code that the library does not see — a callback or a child component, a shared
atomic flag — the contract says so and states the rest: a component may say what it renders
(`Component::renders`), and the calls the library makes into callbacks and components
(handed events, focus changes, submissions, selections) are recorded in ghost logs that
the contracts speak of.

Layout:

- `src/text.rs`, `src/chars.rs`, `src/digits.rs`, `src/render.rs` — display-width
  measurement (ANSI-aware), truncation, word wrapping, padding and number formatting.
- `src/keys.rs` — parsing raw terminal input into events, and editor key bindings.
- `src/widgets/` — text, truncated text, boxes, containers, spacers, select and settings
  lists, the single-line input, the multi-line editor (its state machine is specified in
  `editor_model.rs`), markdown rendering (tables, lists, code blocks), images, and the
  spinner face of the loaders.
- `src/runtime/` — component registry and focus, terminal commands and their bytes, the
  inline viewport, hardware cursor placement, surface budgets and z-order, the compositing
  decisions after surfaces render (lane reservations, clipping, viewport, overlay cursor), the surface host
  (showing, hiding and re-showing surfaces, focus hand-off and input routing) and the
  runtime command batch.
- `src/laws.rs` — z-order laws, focus laws of the surface host, composition of command
  batches, list navigation, and the editor's undo and kill/yank laws.
- `app/` — what runs outside the verifier: the runtime driver that owns the terminal, and
  the loader threads and their render requests.
- `tests/` — executable tests of the library.

Outside crates: `unicode-segmentation` (grapheme clusters), `unicode-width` (cell widths)
and `markdown` (CommonMark/GFM parsing) are called behind small trusted wrappers whose
contracts are stated next to them.
