//! Concrete instances of the properties the library proves.
use mecab_furigana_rs::{
    find_mecab_user_dicts, kata_to_hira, kata_to_romaji, parse_furigana, parse_mecab_output,
    segments_to_html, Segment,
};

fn shown_text(segments: &[Segment]) -> String {
    segments
        .iter()
        .map(|s| match s {
            Segment::Kanji { text, .. } => text.as_str(),
            Segment::Other(t) => t.as_str(),
        })
        .collect()
}

#[test]
fn bracket_text_parses_back_to_surfaces() {
    let out = "\
オレ\t名詞,代名詞,一般,*,*,*,オレ,オレ,オレ
が\t助詞,格助詞,一般,*,*,*,が,ガ,ガ
最初\t名詞,副詞可能,*,*,*,*,最初,サイショ,サイショ
に\t助詞,格助詞,一般,*,*,*,に,ニ,ニ
守っ\t動詞,自立,*,*,五段・ラ行,連用タ接続,守る,マモッ,マモッ
て\t助詞,接続助詞,*,*,*,*,て,テ,テ
お茶\t名詞,一般,*,*,*,*,お茶,オチャ,オチャ
EOS
";
    let (furigana, _, morphemes) = parse_mecab_output(out).unwrap();
    let surfaces: String = morphemes.iter().map(|m| m.surface.as_str()).collect();
    assert_eq!(shown_text(&parse_furigana(&furigana)), surfaces);
    assert_eq!(surfaces, "オレが最初に守ってお茶");
}

#[test]
fn parsed_segments_are_coalesced() {
    let segments = parse_furigana("a[b]c知ら[しら]ないd");
    for pair in segments.windows(2) {
        assert!(!matches!(pair, [Segment::Other(_), Segment::Other(_)]));
    }
    for s in &segments {
        match s {
            Segment::Other(t) => assert!(!t.is_empty()),
            Segment::Kanji { reading, .. } => assert!(reading.is_some()),
        }
    }
    assert_eq!(
        segments,
        [
            Segment::Other("a[b]c".into()),
            Segment::Kanji { text: "知".into(), reading: Some("し".into()) },
            Segment::Other("らないd".into())
        ]
    );
}

#[test]
fn escaped_html_has_no_raw_markup() {
    let html = segments_to_html(&[Segment::Other("<a href=\"x\">&</a>".into())]);
    assert!(!html.contains('<') && !html.contains('>') && !html.contains('"'));
    assert_eq!(html, "&lt;a href=&quot;x&quot;&gt;&amp;&lt;/a&gt;");
}

#[test]
fn hira_twice_is_hira_once() {
    for s in ["テンジョウ", "ァヶヴー", "さいしょ", "ABC天"] {
        assert_eq!(kata_to_hira(&kata_to_hira(s)), kata_to_hira(s));
    }
}

#[test]
fn hiragana_romanizes_like_katakana() {
    for s in ["シャシン", "マッテ", "ラーメン", "ファイル", "ヰヱャ", "ティー"] {
        assert_eq!(kata_to_romaji(&kata_to_hira(s)), kata_to_hira(&kata_to_romaji(s)));
    }
    // ヴ has no hiragana entry.
    assert_eq!(kata_to_romaji(&kata_to_hira("ヴ")), "ゔ");
    assert_eq!(kata_to_romaji("ヴ"), "vu");
}

#[test]
fn cleaned_user_dicts_are_stable() {
    let once = find_mecab_user_dicts(Some(" a.dic ,, b.dic ,")).unwrap();
    assert_eq!(once, "a.dic,b.dic");
    assert_eq!(find_mecab_user_dicts(Some(&once)).unwrap(), once);
}

#[test]
fn escaping_is_undone_by_decoding() {
    let text = "a<b>&\"c\" &amp; 天";
    let html = segments_to_html(&[Segment::Other(text.into())]);
    let decoded = html
        .replace("&lt;", "<")
        .replace("&gt;", ">")
        .replace("&quot;", "\"")
        .replace("&amp;", "&");
    assert_eq!(decoded, text);
}

#[test]
fn hiragana_romanizes_exactly_like_katakana() {
    for s in ["シャシン", "マッテ", "ラーメン", "ファイル", "ティー", "キョウト", "ア、イ!"] {
        assert_eq!(kata_to_romaji(&kata_to_hira(s)), kata_to_romaji(s));
    }
    // A stray small ャ is left unromanized, so the scripts differ there.
    assert_ne!(kata_to_romaji(&kata_to_hira("ャ")), kata_to_romaji("ャ"));
}

#[test]
fn single_kana_shared_by_scripts() {
    for (h, k) in [("あ", "ア"), ("ぱ", "パ"), ("ぁ", "ァ"), ("ん", "ン"), ("を", "ヲ")] {
        assert_eq!(kata_to_romaji(h), kata_to_romaji(k));
    }
}

#[test]
fn bracket_string_decomposes() {
    // w0 k1[r1] w1 k2[r2] w2
    let segments = parse_furigana("お知ら[しら]せ、東京[とうきょう]へ!");
    let kanji: Vec<&Segment> =
        segments.iter().filter(|s| matches!(s, Segment::Kanji { .. })).collect();
    assert_eq!(
        kanji,
        [
            &Segment::Kanji { text: "知".into(), reading: Some("し".into()) },
            &Segment::Kanji { text: "東京".into(), reading: Some("とうきょう".into()) }
        ]
    );
    assert_eq!(shown_text(&segments), "お知らせ、東京へ!");
}
