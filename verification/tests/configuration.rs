use mecab_furigana_rs::{
    dicrc_declares_non_utf8, dict_candidates, find_mecab_dict, find_mecab_user_dicts, get_env,
    mecab_args, mecab_dict_names, mecab_dict_roots, parse_dotenv,
};

#[test]
fn test_parse_dotenv_basic() {
    let map = parse_dotenv("FOO=bar\nBAZ=qux\n");
    assert_eq!(map.get("FOO").map(String::as_str), Some("bar"));
    assert_eq!(map.get("BAZ").map(String::as_str), Some("qux"));
}

#[test]
fn test_parse_dotenv_comments_blanks_export() {
    let src = "\
# comment line
\n
export MECAB_DICT_DIR=/opt/homebrew/lib/mecab/dic/ipadic
  MECAB_USER_DICT = ./mydict.dic  # trailing-space tolerance
";
    let map = parse_dotenv(src);
    assert_eq!(
        map.get("MECAB_DICT_DIR").map(String::as_str),
        Some("/opt/homebrew/lib/mecab/dic/ipadic"),
    );
    // Inline `#` is intentionally not a comment.
    assert!(map.contains_key("MECAB_USER_DICT"));
}

#[test]
fn test_parse_dotenv_quoted_values() {
    let map = parse_dotenv("A=\"with spaces\"\nB='single quoted'\nC=\"mixed'\n");
    assert_eq!(map.get("A").map(String::as_str), Some("with spaces"));
    assert_eq!(map.get("B").map(String::as_str), Some("single quoted"));
    // Unmatched quote pair → left as-is.
    assert_eq!(map.get("C").map(String::as_str), Some("\"mixed'"));
}

#[test]
fn test_parse_dotenv_skips_malformed() {
    let map = parse_dotenv("no_equals_sign\n=missing_key\nGOOD=ok\n");
    assert_eq!(map.len(), 1);
    assert_eq!(map.get("GOOD").map(String::as_str), Some("ok"));
}

#[test]
fn test_dicrc_utf8_passes() {
    assert!(!dicrc_declares_non_utf8("config-charset = UTF-8\n"));
    assert!(!dicrc_declares_non_utf8("dictionary-charset = utf-8\n"));
}

#[test]
fn test_dicrc_euc_jp_rejected() {
    assert!(dicrc_declares_non_utf8("config-charset = EUC-JP\n"));
    assert!(dicrc_declares_non_utf8("config-charset=eucjp\n"));
}

#[test]
fn test_dicrc_shift_jis_rejected() {
    assert!(dicrc_declares_non_utf8("charset = Shift_JIS\n"));
    assert!(dicrc_declares_non_utf8("charset = CP932\n"));
}

#[test]
fn test_dicrc_no_charset_line_is_ok() {
    assert!(!dicrc_declares_non_utf8("cost-factor = 800\nbos-feature = BOS/EOS\n"));
    assert!(!dicrc_declares_non_utf8(""));
}

#[test]
fn test_dicrc_mixed_lines_rejected_on_any_non_utf8() {
    let src = "cost-factor = 800\nconfig-charset = EUC-JP\nbos-feature = BOS/EOS\n";
    assert!(dicrc_declares_non_utf8(src));
}

// ── Further cases ───────────────────────────────────────────────────────────

#[test]
fn dicrc_value_after_second_equals_is_ignored() {
    assert!(!dicrc_declares_non_utf8("charset = utf-8 = euc\n"));
    assert!(!dicrc_declares_non_utf8("charset\n"));
    assert!(dicrc_declares_non_utf8("  CHARSET =  EUC-JP  \r\n"));
    // The key must start the line.
    assert!(!dicrc_declares_non_utf8("my-charset = EUC-JP\n"));
}

#[test]
fn dotenv_later_line_wins_and_export_is_stripped() {
    let map = parse_dotenv("K=1\nexport K=2\nL=''\nM=\"\n");
    assert_eq!(map.get("K").map(String::as_str), Some("2"));
    assert_eq!(map.get("L").map(String::as_str), Some(""));
    assert_eq!(map.get("M").map(String::as_str), Some("\""));
    assert_eq!(map.len(), 3);
    assert!(map.get("missing").is_none());
    assert!(!map.contains_key("missing"));
}

#[test]
fn dotenv_empty_input() {
    let map = parse_dotenv("");
    assert_eq!(map.len(), 0);
}

#[test]
fn env_process_value_takes_precedence() {
    let map = parse_dotenv("MECAB_DICT_DIR=/from/dotenv\n");
    assert_eq!(
        get_env(Some("/from/env".to_string()), &map, "MECAB_DICT_DIR").as_deref(),
        Some("/from/env")
    );
    assert_eq!(get_env(None, &map, "MECAB_DICT_DIR").as_deref(), Some("/from/dotenv"));
    assert!(get_env(None, &map, "MECAB_USER_DICT").is_none());
}

#[test]
fn user_dicts_cleaned() {
    assert_eq!(find_mecab_user_dicts(Some("./mydict.dic")).as_deref(), Some("./mydict.dic"));
    assert_eq!(
        find_mecab_user_dicts(Some(" ./names.dic , ,./neologisms.dic,")).as_deref(),
        Some("./names.dic,./neologisms.dic")
    );
    assert!(find_mecab_user_dicts(Some(" , ,")).is_none());
    assert!(find_mecab_user_dicts(Some("")).is_none());
    assert!(find_mecab_user_dicts(None).is_none());
}

#[test]
fn dict_candidates_names_first() {
    let roots = mecab_dict_roots();
    let names = mecab_dict_names();
    assert_eq!(roots.len(), 6);
    assert_eq!(names.len(), 12);
    let c = dict_candidates();
    assert_eq!(c.len(), 72);
    assert_eq!(c[0], "/usr/share/mecab/dic/mecab-ipadic-neologd");
    assert_eq!(c[1], "/var/lib/mecab/dic/mecab-ipadic-neologd");
    assert_eq!(c[6], "/usr/share/mecab/dic/ipadic-neologd");
    assert_eq!(c[71], "/opt/local/lib/mecab/dic/jumandic");
}

#[test]
fn dict_choice() {
    let usable = vec![false; 72];
    assert!(find_mecab_dict(None, false, &usable).is_none());
    assert_eq!(find_mecab_dict(Some("/my/dic"), true, &usable).as_deref(), Some("/my/dic"));
    assert!(find_mecab_dict(Some("/my/dic"), false, &usable).is_none());
    let mut usable = vec![false; 72];
    usable[14] = true;
    usable[20] = true;
    assert_eq!(
        find_mecab_dict(Some("/my/dic"), false, &usable).as_deref(),
        Some("/usr/lib/mecab/dic/naist-jdic")
    );
}

#[test]
fn mecab_arguments() {
    assert_eq!(mecab_args("/d", None), vec!["-r", "/dev/null", "-d", "/d"]);
    assert_eq!(
        mecab_args("/d", Some("a.dic,b.dic")),
        vec!["-r", "/dev/null", "-d", "/d", "-u", "a.dic,b.dic"]
    );
}

#[test]
fn readiness_decision_and_messages() {
    assert_eq!(
        mecab_furigana_rs::mecab_readiness(false, Some("/d"), None),
        Err("mecab binary not found — install with:\n  Debian/Ubuntu: sudo apt install mecab\n  Other: install mecab and ensure it is on $PATH".to_string())
    );
    let no_dict = mecab_furigana_rs::mecab_readiness(true, None, Some("x.dic")).unwrap_err();
    assert_eq!(
        no_dict,
        format!(
            "no MeCab UTF-8 dictionary found\n  Debian/Ubuntu: sudo apt install mecab-naist-jdic\n  Custom path:   export MECAB_DICT_DIR=/path/to/dic\n  searched roots: {}\n  searched names: {}",
            mecab_dict_roots().join(", "),
            mecab_dict_names().join(", ")
        )
    );
    assert!(no_dict.contains("searched roots: /usr/share/mecab/dic, /var/lib/mecab/dic,"));
    assert_eq!(
        mecab_furigana_rs::mecab_readiness(true, Some("/d"), Some("./a.dic")),
        Err("MECAB_USER_DICT references missing file: ./a.dic\n  Build with: mecab-dict-index -d /d -u ./a.dic -f UTF-8 -t UTF-8 <source.csv>".to_string())
    );
    assert_eq!(mecab_furigana_rs::mecab_readiness(true, Some("/d"), None), Ok("/d".to_string()));
}

#[test]
fn empty_override_counts_as_unset() {
    let none = vec![false; 72];
    assert!(find_mecab_dict(Some(""), true, &none).is_none());
    let mut first = vec![false; 72];
    first[0] = true;
    assert_eq!(
        find_mecab_dict(Some(""), true, &first).as_deref(),
        Some("/usr/share/mecab/dic/mecab-ipadic-neologd")
    );
    let r = mecab_furigana_rs::mecab_readiness(true, Some(""), None);
    assert!(r.unwrap_err().starts_with("no MeCab UTF-8 dictionary found"));
}
