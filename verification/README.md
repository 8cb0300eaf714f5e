# rho_tui

Terminal UI building blocks with their behaviour stated and proved in Verus:
key decoding and matching, the stdin buffer that splits raw input into
complete sequences, the multi-line editor (editing, motion, kill ring, undo,
history, bracketed paste, autocomplete), the single-line input, select
lists, tab bars, image escape sequences, frame planning for differential
rendering, and slash-command and file-path completion.

Layout:

- `src/` — the verified library. Each module states its contracts over
  spec functions and views; laws that relate several operations are public
  proof functions named `law_*`.
- `tests/` — tests run against the compiled library.
- `app/` — what stays outside verification: terminal I/O through crossterm,
  the file system behind completion, environment reading, floating-point
  computations, and the loop that feeds input to the editor and writes the
  planned frames.
