use mecab_furigana_rs::{
    annotate_from_output, annotate_furigana_only_from_output, annotate_input, parse_mecab_output,
};

const MECAB_SHIRANAI_TENJOU: &str = "\
知ら\t動詞,自立,*,*,五段・ラ行,未然形,知る,シラ,シラ
ない\t助動詞,*,*,*,特殊・ナイ,基本形,ない,ナイ,ナイ
天井\t名詞,一般,*,*,*,*,天井,テンジョウ,テンジョー
だ\t助動詞,*,*,*,特殊・ダ,基本形,だ,ダ,ダ
EOS
";

const MECAB_MANGA: &str = "\
オレ\t名詞,代名詞,一般,*,*,*,オレ,オレ,オレ
が\t助詞,格助詞,一般,*,*,*,が,ガ,ガ
最初\t名詞,副詞可能,*,*,*,*,最初,サイショ,サイショ
に\t助詞,格助詞,一般,*,*,*,に,ニ,ニ
仲間\t名詞,一般,*,*,*,*,仲間,ナカマ,ナカマ
に\t助詞,格助詞,一般,*,*,*,に,ニ,ニ
なっ\t動詞,自立,*,*,五段・ラ行,連用タ接続,なる,ナッ,ナッ
て\t助詞,接続助詞,*,*,*,*,て,テ,テ
背中\t名詞,一般,*,*,*,*,背中,セナカ,セナカ
守っ\t動詞,自立,*,*,五段・ラ行,連用タ接続,守る,マモッ,マモッ
て\t助詞,接続助詞,*,*,*,*,て,テ,テ
やる\t動詞,非自立,*,*,五段・ラ行,基本形,やる,ヤル,ヤル
よ\t助詞,終助詞,*,*,*,*,よ,ヨ,ヨ
!\t記号,一般,*,*,*,*,!,!,!
EOS
";

/// Simulated MeCab output for the classic segmentation example
/// "すもももももももものうち".
const MECAB_SUMOMO: &str = "\
すもも\t名詞,一般,*,*,*,*,すもも,スモモ,スモモ
も\t助詞,係助詞,*,*,*,*,も,モ,モ
もも\t名詞,一般,*,*,*,*,もも,モモ,モモ
も\t助詞,係助詞,*,*,*,*,も,モ,モ
もも\t名詞,一般,*,*,*,*,もも,モモ,モモ
の\t助詞,連体化,*,*,*,*,の,ノ,ノ
うち\t名詞,非自立,副詞可能,*,*,*,うち,ウチ,ウチ
EOS
";

#[test]
fn test_furigana_brackets_kanji_only() {
    let (furigana, _, _) = parse_mecab_output(MECAB_SHIRANAI_TENJOU).unwrap();
    assert!(furigana.contains("知ら[しら]"), "got: {furigana}");
    assert!(furigana.contains("天井[てんじょう]"), "got: {furigana}");
    assert!(!furigana.contains("ない["), "kana should not be bracketed: {furigana}");
    assert!(!furigana.contains("だ["), "kana should not be bracketed: {furigana}");
}

#[test]
fn test_furigana_full_sentence() {
    let (furigana, _, _) = parse_mecab_output(MECAB_SHIRANAI_TENJOU).unwrap();
    assert_eq!(furigana, "知ら[しら]ない天井[てんじょう]だ");
}

#[test]
fn test_romaji_from_mecab_morphemes() {
    let (_, romaji, _) = parse_mecab_output(MECAB_SHIRANAI_TENJOU).unwrap();
    assert!(romaji.contains("shira"), "got: {romaji}");
    assert!(romaji.contains("nai"), "got: {romaji}");
    assert!(romaji.contains("tenjou"), "got: {romaji}");
    assert!(romaji.contains("da"), "got: {romaji}");
}

#[test]
fn test_furigana_manga_sentence() {
    let (furigana, _, _) = parse_mecab_output(MECAB_MANGA).unwrap();
    assert!(furigana.contains("最初[さいしょ]"), "got: {furigana}");
    assert!(furigana.contains("仲間[なかま]"), "got: {furigana}");
    assert!(furigana.contains("背中[せなか]"), "got: {furigana}");
    assert!(furigana.contains("守っ[まもっ]"), "got: {furigana}");
    assert!(!furigana.contains("オレ["), "katakana should not be bracketed: {furigana}");
    assert!(!furigana.contains("やる["), "hiragana should not be bracketed: {furigana}");
}

#[test]
fn test_romaji_manga_sentence() {
    let (_, romaji, _) = parse_mecab_output(MECAB_MANGA).unwrap();
    assert!(romaji.contains("saisho"), "got: {romaji}");
    assert!(romaji.contains("nakama"), "got: {romaji}");
    assert!(romaji.contains("senaka"), "got: {romaji}");
}

#[test]
fn test_parse_empty_mecab_output() {
    assert!(parse_mecab_output("EOS\n").is_none());
    assert!(parse_mecab_output("").is_none());
}

#[test]
fn test_parse_no_reading_field() {
    let output = "hello\t記号,一般,*,*,*,*\nEOS\n";
    let (furigana, _, _) = parse_mecab_output(output).unwrap();
    assert_eq!(furigana, "hello");
}

#[test]
fn test_furigana_empty_brackets_on_dictionary_gap() {
    // A kanji-bearing surface whose features lack a reading column gets
    // empty brackets, so the gap is visible in the rendered annotation.
    let output = "知ら\t動詞,自立,*,*,五段・ラ行,未然形\nEOS\n";
    let (furigana, _, _) = parse_mecab_output(output).unwrap();
    assert_eq!(furigana, "知ら[]");
}

#[test]
fn test_morphemes_base_form_and_pos() {
    let (_, _, morphemes) = parse_mecab_output(MECAB_SHIRANAI_TENJOU).unwrap();
    assert_eq!(morphemes.len(), 4);

    assert_eq!(morphemes[0].surface, "知ら");
    assert_eq!(morphemes[0].base_form, "知る");
    assert_eq!(morphemes[0].pos, "動詞");
    assert_eq!(morphemes[0].reading, "しら");

    assert_eq!(morphemes[2].surface, "天井");
    assert_eq!(morphemes[2].base_form, "天井");
    assert_eq!(morphemes[2].pos, "名詞");
    assert_eq!(morphemes[2].romaji, "tenjou");
}

#[test]
fn test_morphemes_manga_sentence() {
    let (_, _, morphemes) = parse_mecab_output(MECAB_MANGA).unwrap();
    let mamot = morphemes.iter().find(|m| m.surface == "守っ").unwrap();
    assert_eq!(mamot.base_form, "守る");
    assert_eq!(mamot.pos, "動詞");
    let nat = morphemes.iter().find(|m| m.surface == "なっ").unwrap();
    assert_eq!(nat.base_form, "なる");
}

#[test]
fn test_segmentation_sumomo() {
    let (_, _, morphemes) = parse_mecab_output(MECAB_SUMOMO).unwrap();
    let surfaces: Vec<&str> = morphemes.iter().map(|m| m.surface.as_str()).collect();
    assert_eq!(surfaces, &["すもも", "も", "もも", "も", "もも", "の", "うち"]);
}

#[test]
fn test_segmentation_sumomo_pos() {
    let (_, _, morphemes) = parse_mecab_output(MECAB_SUMOMO).unwrap();
    assert_eq!(morphemes[0].pos, "名詞");
    assert_eq!(morphemes[1].pos, "助詞");
    assert_eq!(morphemes[2].pos, "名詞");
    assert_eq!(morphemes[5].pos, "助詞");
    assert_eq!(morphemes[6].surface, "うち");
}

#[test]
fn test_annotate_empty_text() {
    assert!(annotate_input("").is_none());
    assert!(annotate_input("   ").is_none());
}

// ── Further cases ───────────────────────────────────────────────────────────

#[test]
fn annotate_input_trims() {
    assert_eq!(annotate_input("  知らない天井だ\n").as_deref(), Some("知らない天井だ"));
    assert_eq!(annotate_input("\u{3000}食べる\t").as_deref(), Some("食べる"));
    assert!(annotate_input("\u{3000}\n\t").is_none());
}

#[test]
fn romaji_line_exact() {
    let (_, romaji, _) = parse_mecab_output(MECAB_SHIRANAI_TENJOU).unwrap();
    assert_eq!(romaji, "shira nai tenjou da");
    let (_, romaji, _) = parse_mecab_output(MECAB_MANGA).unwrap();
    assert_eq!(romaji, "ore ga saisho ni nakama ni na te senaka mamo te yaru yo !");
}

#[test]
fn morpheme_all_fields() {
    let (_, _, morphemes) = parse_mecab_output(MECAB_SHIRANAI_TENJOU).unwrap();
    let m = &morphemes[0];
    assert_eq!(m.surface, "知ら");
    assert_eq!(m.reading, "しら");
    assert_eq!(m.romaji, "shira");
    assert_eq!(m.base_form, "知る");
    assert_eq!(m.pos, "動詞");
    assert_eq!(m.pos_detail, "自立");
}

#[test]
fn morpheme_defaults_without_features() {
    // No tab: the whole line is the surface, the features are one empty field.
    let (furigana, romaji, morphemes) = parse_mecab_output("abc\n").unwrap();
    assert_eq!(furigana, "abc");
    assert_eq!(romaji, "abc");
    assert_eq!(morphemes[0].pos, "");
    assert_eq!(morphemes[0].pos_detail, "*");
    assert_eq!(morphemes[0].base_form, "abc");
    assert_eq!(morphemes[0].reading, "");
}

#[test]
fn morpheme_star_fields_fall_back() {
    let (_, _, morphemes) = parse_mecab_output("猫\t名詞,一般,*,*,*,*,*,*\n").unwrap();
    assert_eq!(morphemes[0].base_form, "猫");
    assert_eq!(morphemes[0].reading, "");
    assert_eq!(morphemes[0].romaji, "猫");
}

#[test]
fn mecab_crlf_lines_and_blank_lines() {
    let out = "天\t名詞,一般,*,*,*,*,天,テン,テン\r\n\r\nEOS\r\n";
    let (furigana, romaji, morphemes) = parse_mecab_output(out).unwrap();
    assert_eq!(furigana, "天[てん]");
    assert_eq!(romaji, "ten");
    assert_eq!(morphemes.len(), 1);
}

#[test]
fn mecab_only_empty_surfaces_is_none() {
    assert!(parse_mecab_output("\t記号,一般\nEOS\n").is_none());
}

#[test]
fn mecab_romaji_space_pairs_halved_and_trimmed() {
    // The surface " " (no reading) romanizes as itself, giving "a   b" when
    // joined; the first pair of spaces is halved.
    let out = "ア\t名詞,*,*,*,*,*,ア,ア\n \t記号\nブ\t名詞,*,*,*,*,*,ブ,ブ\n";
    let (_, romaji, _) = parse_mecab_output(out).unwrap();
    assert_eq!(romaji, "a  bu");
}

#[test]
fn annotate_from_output_fields() {
    let r = annotate_from_output(MECAB_SHIRANAI_TENJOU).unwrap();
    assert_eq!(r.furigana, "知ら[しら]ない天井[てんじょう]だ");
    assert_eq!(r.romaji, "shira nai tenjou da");
    assert_eq!(r.morphemes.len(), 4);
    assert!(annotate_from_output("EOS\n").is_none());
}

#[test]
fn annotate_furigana_only_drops_romaji() {
    let full = annotate_from_output(MECAB_MANGA).unwrap();
    let only = annotate_furigana_only_from_output(MECAB_MANGA).unwrap();
    assert_eq!(only.furigana, full.furigana);
    assert_eq!(only.morphemes, full.morphemes);
    assert!(only.romaji.is_empty());
    assert!(annotate_furigana_only_from_output("").is_none());
}
