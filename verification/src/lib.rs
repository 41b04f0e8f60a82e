//! Furigana and romaji annotation of Japanese text.
//!
//! The library turns MeCab's morphological analysis into bracketed furigana
//! (`天井[てんじょう]`), Hepburn romaji and per-morpheme data; parses the
//! bracket format back into segments and renders them as HTML; and holds the
//! rules by which a MeCab dictionary and its configuration are found.  Every
//! function states its result in terms of the specifications beside it.
use vstd::prelude::*;

pub mod config;
pub mod dict;
pub mod kana;
pub mod mecab;
pub mod pipeline;
pub mod segment;
pub mod text;

pub use config::{dicrc_declares_non_utf8, get_env, parse_dotenv, EnvMap};
pub use dict::{
    dict_candidates, find_mecab_dict, find_mecab_user_dicts, mecab_args, mecab_dict_names,
    mecab_dict_roots, mecab_readiness,
};
pub use kana::{has_kanji, kata_to_hira, kata_to_romaji};
pub use mecab::{
    annotate_from_output, annotate_furigana_only_from_output, annotate_input, parse_mecab_output,
    FuriganaResult, Morpheme,
};
pub use segment::{furigana_to_html, parse_furigana, segments_to_html, Segment};

verus! {

} // verus!
