use mecab_furigana_rs::{has_kanji, kata_to_hira, kata_to_romaji};

#[test]
fn test_kata_to_romaji_basic() {
    assert_eq!(kata_to_romaji("サイショ"), "saisho");
    assert_eq!(kata_to_romaji("ナカマ"), "nakama");
    assert_eq!(kata_to_romaji("セナカ"), "senaka");
}

#[test]
fn test_kata_to_romaji_digraphs() {
    assert_eq!(kata_to_romaji("シャ"), "sha");
    assert_eq!(kata_to_romaji("チョ"), "cho");
    assert_eq!(kata_to_romaji("キュ"), "kyu");
    assert_eq!(kata_to_romaji("ジャ"), "ja");
}

#[test]
fn test_kata_to_romaji_gemination() {
    assert_eq!(kata_to_romaji("ナッテ"), "natte");
    assert_eq!(kata_to_romaji("マッテ"), "matte");
    assert_eq!(kata_to_romaji("ニッポン"), "nippon");
}

#[test]
fn test_kata_to_romaji_long_vowel() {
    assert_eq!(kata_to_romaji("ラーメン"), "raamen");
    assert_eq!(kata_to_romaji("コーヒー"), "koohii");
}

#[test]
fn test_kata_to_romaji_loanwords() {
    assert_eq!(kata_to_romaji("ファイル"), "fairu");
    assert_eq!(kata_to_romaji("ティー"), "tii");
}

#[test]
fn test_has_kanji() {
    assert!(has_kanji("天井"));
    assert!(has_kanji("知ら"));
    assert!(!has_kanji("おはよう"));
    assert!(!has_kanji("オレ"));
    assert!(!has_kanji("hello"));
    assert!(!has_kanji("!"));
}

#[test]
fn test_kata_to_hira() {
    assert_eq!(kata_to_hira("テンジョウ"), "てんじょう");
    assert_eq!(kata_to_hira("サイショ"), "さいしょ");
    assert_eq!(kata_to_hira("さいしょ"), "さいしょ");
    assert_eq!(kata_to_hira("ABC"), "ABC");
}

// ── Further cases ───────────────────────────────────────────────────────────

#[test]
fn romaji_hiragana_reads_like_katakana() {
    assert_eq!(kata_to_romaji("らーめん"), "raamen");
    assert_eq!(kata_to_romaji("しゃしん"), "shashin");
    assert_eq!(kata_to_romaji("きって"), "kitte");
}

#[test]
fn romaji_gemination_before_vowel_or_end_writes_nothing() {
    assert_eq!(kata_to_romaji("ッア"), "a");
    assert_eq!(kata_to_romaji("アッ"), "a");
    assert_eq!(kata_to_romaji("ッ"), "");
}

#[test]
fn romaji_long_mark_after_consonant_or_at_start() {
    assert_eq!(kata_to_romaji("ー"), "");
    assert_eq!(kata_to_romaji("ンー"), "nu");
    assert_eq!(kata_to_romaji("Aー"), "Au");
}

#[test]
fn romaji_passes_non_kana_through() {
    assert_eq!(kata_to_romaji("ABC 123!"), "ABC 123!");
    assert_eq!(kata_to_romaji(""), "");
    assert_eq!(kata_to_romaji("天"), "天");
}

#[test]
fn romaji_loanword_digraphs() {
    assert_eq!(kata_to_romaji("ヴァイオリン"), "vaiorin");
    assert_eq!(kata_to_romaji("ウィキ"), "wiki");
    assert_eq!(kata_to_romaji("ディスク"), "disuku");
    assert_eq!(kata_to_romaji("フォーク"), "fooku");
    assert_eq!(kata_to_romaji("ヴ"), "vu");
}

#[test]
fn romaji_small_vowel_alone() {
    assert_eq!(kata_to_romaji("ァ"), "a");
    assert_eq!(kata_to_romaji("カァ"), "kaa");
}

#[test]
fn hira_shift_bounds() {
    // ァ (U+30A1) and ヶ (U+30F6) are the ends of the shifted range.
    assert_eq!(kata_to_hira("ァヶ"), "ぁゖ");
    // ー (U+30FC) and ・ (U+30FB) are outside it.
    assert_eq!(kata_to_hira("ー・"), "ー・");
    assert_eq!(kata_to_hira(""), "");
}

#[test]
fn kanji_ranges() {
    assert!(has_kanji("\u{4E00}"));
    assert!(has_kanji("\u{9FFF}"));
    assert!(has_kanji("\u{3400}"));
    assert!(has_kanji("\u{4DBF}"));
    assert!(has_kanji("\u{F900}"));
    assert!(has_kanji("\u{FAFF}"));
    assert!(!has_kanji("\u{3399}"));
    assert!(!has_kanji("\u{FB00}"));
    assert!(!has_kanji(""));
}
