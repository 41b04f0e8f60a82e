use mecab_furigana_rs::{furigana_to_html, parse_furigana, segments_to_html, Segment};

#[test]
fn test_parse_basic() {
    let result = parse_furigana("食[た]べる");
    assert_eq!(
        result,
        [
            Segment::Kanji { text: "食".into(), reading: Some("た".into()) },
            Segment::Other("べる".into())
        ]
    );
}

#[test]
fn test_parse_multiple() {
    let result = parse_furigana("食[た]べ物[もの]");
    assert_eq!(
        result,
        [
            Segment::Kanji { text: "食".into(), reading: Some("た".into()) },
            Segment::Other("べ".into()),
            Segment::Kanji { text: "物".into(), reading: Some("もの".into()) }
        ]
    );
}

#[test]
fn test_parse_no_brackets() {
    assert_eq!(parse_furigana("日本語"), [Segment::Other("日本語".into())]);
}

#[test]
fn test_parse_empty() {
    let result: Vec<Segment> = parse_furigana("");
    assert!(result.is_empty());
}

#[test]
fn test_parse_bracket_without_kanji() {
    assert_eq!(parse_furigana("[hello]"), [Segment::Other("[hello]".into())]);
}

#[test]
fn test_parse_empty_reading() {
    assert_eq!(
        parse_furigana("漢字[]"),
        [Segment::Kanji { text: "漢字".into(), reading: Some("".into()) }]
    );
}

#[test]
fn test_parse_consecutive() {
    assert_eq!(
        parse_furigana("東京[とうきょう]大阪[おおさか]"),
        [
            Segment::Kanji { text: "東京".into(), reading: Some("とうきょう".into()) },
            Segment::Kanji { text: "大阪".into(), reading: Some("おおさか".into()) }
        ]
    );
}

#[test]
fn test_parse_kanji_without_reading() {
    assert_eq!(parse_furigana("東京"), [Segment::Other("東京".into())]);
}

#[test]
fn test_parse_mixed_cjk_non_cjk() {
    assert_eq!(parse_furigana("abc123!@#"), [Segment::Other("abc123!@#".into())]);
}

#[test]
fn test_render_basic() {
    let segments = [
        Segment::Kanji { text: "食".into(), reading: Some("た".into()) },
        Segment::Other("べる".into()),
    ];
    assert_eq!(
        segments_to_html(&segments),
        "<span class=\"furigana\"><span class=\"read\">た</span><span class=\"base\">食</span></span>べる"
    );
}

#[test]
fn test_render_empty_segments() {
    assert_eq!(segments_to_html(&[]), "");
}

#[test]
fn test_render_kanji_no_reading() {
    let segments = [Segment::Other("東京".into())];
    assert_eq!(segments_to_html(&segments), "東京");
}

#[test]
fn test_render_empty_reading() {
    let segments = [Segment::Kanji { text: "漢字".into(), reading: Some("".into()) }];
    assert_eq!(
        segments_to_html(&segments),
        "<span class=\"furigana\"><span class=\"read\"></span><span class=\"base\">漢字</span></span>"
    );
}

#[test]
fn test_render_html_escaping() {
    let segments = [Segment::Other("<script>".into())];
    assert_eq!(segments_to_html(&segments), "&lt;script&gt;");
}

#[test]
fn test_smoke_furigana_to_html() {
    assert_eq!(
        furigana_to_html("食[た]べ物[もの]"),
        "<span class=\"furigana\"><span class=\"read\">た</span><span class=\"base\">食</span></span>べ<span class=\"furigana\"><span class=\"read\">もの</span><span class=\"base\">物</span></span>"
    );
}

#[test]
fn test_parse_trims_trailing_okurigana() {
    let segments = parse_furigana("知ら[しら]");
    assert_eq!(
        segments,
        [
            Segment::Kanji { text: "知".into(), reading: Some("し".into()) },
            Segment::Other("ら".into())
        ],
        "trailing matching kana 'ら' should be split from both text and reading"
    );
}

#[test]
fn test_okurigana_full_sentence() {
    let segments = parse_furigana("知ら[しら]ない天井[てんじょう]だ");
    assert_eq!(
        segments,
        [
            Segment::Kanji { text: "知".into(), reading: Some("し".into()) },
            Segment::Other("らない".into()),
            Segment::Kanji { text: "天井".into(), reading: Some("てんじょう".into()) },
            Segment::Other("だ".into())
        ]
    );
    assert_eq!(
        furigana_to_html("知ら[しら]ない天井[てんじょう]だ"),
        "<span class=\"furigana\"><span class=\"read\">し</span><span class=\"base\">知</span></span>らない<span class=\"furigana\"><span class=\"read\">てんじょう</span><span class=\"base\">天井</span></span>だ"
    );
}

// ── Further cases ───────────────────────────────────────────────────────────

#[test]
fn parse_unterminated_reading_runs_to_end() {
    assert_eq!(
        parse_furigana("東[とう"),
        [Segment::Kanji { text: "東".into(), reading: Some("とう".into()) }]
    );
}

#[test]
fn parse_kanji_run_extends_to_bracket() {
    // A kanji run takes everything up to the next `[`, kana included.
    assert_eq!(
        parse_furigana("東京へ行[い]く"),
        [
            Segment::Kanji { text: "東京へ行".into(), reading: Some("い".into()) },
            Segment::Other("く".into())
        ]
    );
}

#[test]
fn parse_bracket_after_non_kanji_is_literal() {
    assert_eq!(parse_furigana("abc[]123"), [Segment::Other("abc[]123".into())]);
    assert_eq!(furigana_to_html("abc[]123"), "abc[]123");
}

#[test]
fn parse_reading_equal_to_kana_tail_is_not_trimmed_past_kanji() {
    assert_eq!(
        parse_furigana("お茶[おちゃ]"),
        [
            Segment::Other("お".into()),
            Segment::Kanji { text: "茶".into(), reading: Some("おちゃ".into()) }
        ]
    );
}

#[test]
fn render_kanji_without_reading_as_text() {
    let segments = [Segment::Kanji { text: "<東>".into(), reading: None }];
    assert_eq!(segments_to_html(&segments), "&lt;東&gt;");
}

#[test]
fn render_escapes_every_special_character() {
    let segments = [
        Segment::Other("a&b\"c".into()),
        Segment::Kanji { text: "字".into(), reading: Some("<&>".into()) },
    ];
    assert_eq!(
        segments_to_html(&segments),
        "a&amp;b&quot;c<span class=\"furigana\"><span class=\"read\">&lt;&amp;&gt;</span><span class=\"base\">字</span></span>"
    );
}
