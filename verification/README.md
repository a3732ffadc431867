# sempack

A verified semantic compression toolkit: it extracts text from common file types and writes
it in compact, structured forms that people and language models can read.

A file is detected, routed, extracted into a universal document, normalized (NFC), reduced by
a profile and emitted in an output format.

- `src/`: the library. Verus proves every function to meet its contract.
  - `ir`, `text`, `text_map`, `tokens`: documents, strings, ordered metadata, token counts
  - `detect`, `profile`, `error`, `plugin`, `registry`, `normalize`, `pipeline`: the engine
  - `extractors`, `reducers`, `emitters`: the built-in plugins, wired in `builtin`
  - `bridge`: the calls into other crates, with what is believed of them without proof
- `tests/`: what the library does on concrete values.
- `app/`: the command line program.

Properties of the library as a whole are public proof functions named `law_...`, next to what
they speak of.
