# mecab_furigana_rs

MeCab-based furigana and romaji annotation for Japanese text, with the text
processing verified in Verus.

MeCab's analysis of a sentence is turned into bracketed furigana
(`知ら[しら]ない天井[てんじょう]だ`), Hepburn romaji (`shira nai tenjou da`) and
per-morpheme data; the bracket format is parsed back into segments and
rendered as HTML span markup.

## Layout

- `src/` — the verified library. Every public function states its result
  exactly, over specifications written on `Seq<char>`:
  - `text.rs` — the string operations used throughout (`trim`, `lines`,
    `split`, `starts_with`, `contains`, ASCII lowercasing) as specifications,
    with executable counterparts on `Vec<char>`.
  - `kana.rs` — kanji detection, katakana → hiragana, Hepburn romanization.
  - `mecab.rs` — MeCab output → furigana, romaji and morphemes.
  - `segment.rs` — bracket text → segments → HTML.
  - `pipeline.rs` — the bracket text parsed back shows the analysed text.
  - `config.rs` — `dicrc` charset detection and `.env` parsing.
  - `dict.rs` — dictionary search order, dictionary choice, user dictionary
    lists, MeCab's arguments, and the startup check's decision.
- `app/` — the process side: environment variables, `.env` and `dicrc`
  files, probing dictionary directories, and running `mecab`. It gathers
  what it reads and lets the library decide.
- `tests/` — tests of the library on concrete values.

## Properties proved

Besides each function's contract, the library proves, among others: that the
bracket text produced from MeCab output parses back to exactly the analysed
text, provided every kanji surface holds a CJK ideograph with no `[` after it
and its reading holds no `]`; that a well-formed bracket string parses into
exactly its annotated runs, and shows the input without its readings; that
parsed segments are coalesced and annotated; that HTML escaping leaves no raw
markup and is undone by decoding; that a hiragana letter and its katakana
partner share their romaji, and that hiragana text romanizes exactly as its
katakana does, on text without ヴ, ヵ, ヶ, ヮ, ヰ, ヱ or a small ャ, ュ, ョ outside
a digraph; that the dictionary candidates are tried names first; and that
cleaning a user dictionary list is idempotent.  The startup check's decision
(binary, dictionary, user dictionaries, and their messages) is verified too;
only the probing is left to `app/`.
