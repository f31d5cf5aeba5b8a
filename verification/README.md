# openrouter

A command-line client for the OpenRouter HTTP API, built around a
library whose behaviour is specified and proved.

- `src/` is the library, with its specifications and proofs:
  - `text.rs`: character sequences, substring search, trimming, lowercasing,
    decimal rendering and column padding;
  - `models.rs`: the catalogue address, the case-insensitive model search and
    the text of the model listing;
  - `chat.rs`: the chat completion request and what is read from a complete
    reply;
  - `stream.rs`: decoding of a streamed reply (lines, `data:` events, token
    counts and reply pieces), with the laws that draining keeps only the
    partial line and that chunk boundaries do not matter.
- `app/` is the program: argument parsing, HTTP, JSON (de)serialisation,
  timing and terminal output.
- `tests/` runs the library on concrete values.
