//! Kana and kanji: character classes, katakana → hiragana, and Hepburn
//! romanization.
use vstd::prelude::*;
use crate::text::{char_from_u32, chars_of, extend_chars, string_of};

verus! {

// ── Character classes ──────────────────────────────────────────────────────

/// A CJK ideograph counted as kanji: Unified Ideographs, Extension A, or
/// Compatibility Ideographs.
pub open spec fn is_kanji(c: char) -> bool {
    ||| ('\u{4E00}' <= c && c <= '\u{9FFF}')
    ||| ('\u{3400}' <= c && c <= '\u{4DBF}')
    ||| ('\u{F900}' <= c && c <= '\u{FAFF}')
}

/// Some character of `s` is kanji.
pub open spec fn contains_kanji(s: Seq<char>) -> bool {
    exists|i: int| 0 <= i < s.len() && is_kanji(#[trigger] s[i])
}

/// True if the string contains any CJK ideograph (kanji).
pub fn has_kanji(s: &str) -> (r: bool)
    ensures
        r == contains_kanji(s@),
{
    let v = chars_of(s);
    has_kanji_chars(&v)
}

/// `has_kanji` on a character vector.
pub(crate) fn has_kanji_chars(v: &Vec<char>) -> (r: bool)
    ensures
        r == contains_kanji(v@),
{
    let mut i: usize = 0;
    while i < v.len()
        invariant
            i <= v.len(),
            forall|k: int| 0 <= k < i ==> !is_kanji(#[trigger] v@[k]),
        decreases v.len() - i,
    {
        let c = v[i];
        if ('\u{4E00}' <= c && c <= '\u{9FFF}') || ('\u{3400}' <= c && c <= '\u{4DBF}') || (
        '\u{F900}' <= c && c <= '\u{FAFF}') {
            return true;
        }
        i = i + 1;
    }
    false
}

// ── Katakana → hiragana ────────────────────────────────────────────────────

/// A katakana letter `ァ`..=`ヶ` moves down by `0x60` to its hiragana
/// counterpart; every other character is kept.
pub open spec fn hira_char(c: char) -> char {
    if '\u{30A1}' <= c && c <= '\u{30F6}' {
        ((c as u32) - 0x60) as char
    } else {
        c
    }
}

/// `hira_char` applied to every character.
pub open spec fn hira(s: Seq<char>) -> Seq<char> {
    s.map_values(|c: char| hira_char(c))
}

/// `hira_char` on one character.
pub(crate) fn kata_char_to_hira(c: char) -> (r: char)
    ensures
        r == hira_char(c),
{
    if '\u{30A1}' <= c && c <= '\u{30F6}' {
        let code = (c as u32) - 0x60;
        match char_from_u32(code) {
            Some(h) => {
                proof {
                    vstd::utf8::char_u32_cast(h, code);
                }
                h
            },
            None => c,
        }
    } else {
        c
    }
}

/// `kata_to_hira` on a character vector.
pub(crate) fn kata_to_hira_chars(v: &Vec<char>) -> (r: Vec<char>)
    ensures
        r@ == hira(v@),
{
    let mut r: Vec<char> = Vec::new();
    let mut i: usize = 0;
    while i < v.len()
        invariant
            i <= v.len(),
            r@ == hira(v@.take(i as int)),
        decreases v.len() - i,
    {
        r.push(kata_char_to_hira(v[i]));
        i = i + 1;
        assert(r@ == hira(v@.take(i as int)));
    }
    assert(v@.take(v.len() as int) == v@);
    r
}

/// Convert katakana string to hiragana (Unicode shift -0x60).
pub fn kata_to_hira(s: &str) -> (r: String)
    ensures
        r@ == hira(s@),
{
    let v = chars_of(s);
    let h = kata_to_hira_chars(&v);
    string_of(&h)
}

// ── Romanization tables ────────────────────────────────────────────────────

/// Hepburn romaji of a single katakana or hiragana letter.
pub open spec fn kana_romaji(c: char) -> Option<Seq<char>> {
    match c {
        'ア' | 'あ' => Some("a"@),
        'イ' | 'い' => Some("i"@),
        'ウ' | 'う' => Some("u"@),
        'エ' | 'え' => Some("e"@),
        'オ' | 'お' => Some("o"@),
        'カ' | 'か' => Some("ka"@),
        'キ' | 'き' => Some("ki"@),
        'ク' | 'く' => Some("ku"@),
        'ケ' | 'け' => Some("ke"@),
        'コ' | 'こ' => Some("ko"@),
        'サ' | 'さ' => Some("sa"@),
        'シ' | 'し' => Some("shi"@),
        'ス' | 'す' => Some("su"@),
        'セ' | 'せ' => Some("se"@),
        'ソ' | 'そ' => Some("so"@),
        'タ' | 'た' => Some("ta"@),
        'チ' | 'ち' => Some("chi"@),
        'ツ' | 'つ' => Some("tsu"@),
        'テ' | 'て' => Some("te"@),
        'ト' | 'と' => Some("to"@),
        'ナ' | 'な' => Some("na"@),
        'ニ' | 'に' => Some("ni"@),
        'ヌ' | 'ぬ' => Some("nu"@),
        'ネ' | 'ね' => Some("ne"@),
        'ノ' | 'の' => Some("no"@),
        'ハ' | 'は' => Some("ha"@),
        'ヒ' | 'ひ' => Some("hi"@),
        'フ' | 'ふ' => Some("fu"@),
        'ヘ' | 'へ' => Some("he"@),
        'ホ' | 'ほ' => Some("ho"@),
        'マ' | 'ま' => Some("ma"@),
        'ミ' | 'み' => Some("mi"@),
        'ム' | 'む' => Some("mu"@),
        'メ' | 'め' => Some("me"@),
        'モ' | 'も' => Some("mo"@),
        'ヤ' | 'や' => Some("ya"@),
        'ユ' | 'ゆ' => Some("yu"@),
        'ヨ' | 'よ' => Some("yo"@),
        'ラ' | 'ら' => Some("ra"@),
        'リ' | 'り' => Some("ri"@),
        'ル' | 'る' => Some("ru"@),
        'レ' | 'れ' => Some("re"@),
        'ロ' | 'ろ' => Some("ro"@),
        'ワ' | 'わ' => Some("wa"@),
        'ヲ' | 'を' => Some("wo"@),
        'ン' | 'ん' => Some("n"@),
        'ガ' | 'が' => Some("ga"@),
        'ギ' | 'ぎ' => Some("gi"@),
        'グ' | 'ぐ' => Some("gu"@),
        'ゲ' | 'げ' => Some("ge"@),
        'ゴ' | 'ご' => Some("go"@),
        'ザ' | 'ざ' => Some("za"@),
        'ジ' | 'じ' => Some("ji"@),
        'ズ' | 'ず' => Some("zu"@),
        'ゼ' | 'ぜ' => Some("ze"@),
        'ゾ' | 'ぞ' => Some("zo"@),
        'ダ' | 'だ' => Some("da"@),
        'ヂ' | 'ぢ' => Some("di"@),
        'ヅ' | 'づ' => Some("du"@),
        'デ' | 'で' => Some("de"@),
        'ド' | 'ど' => Some("do"@),
        'バ' | 'ば' => Some("ba"@),
        'ビ' | 'び' => Some("bi"@),
        'ブ' | 'ぶ' => Some("bu"@),
        'ベ' | 'べ' => Some("be"@),
        'ボ' | 'ぼ' => Some("bo"@),
        'パ' | 'ぱ' => Some("pa"@),
        'ピ' | 'ぴ' => Some("pi"@),
        'プ' | 'ぷ' => Some("pu"@),
        'ペ' | 'ぺ' => Some("pe"@),
        'ポ' | 'ぽ' => Some("po"@),
        'ァ' | 'ぁ' => Some("a"@),
        'ィ' | 'ぃ' => Some("i"@),
        'ゥ' | 'ぅ' => Some("u"@),
        'ェ' | 'ぇ' => Some("e"@),
        'ォ' | 'ぉ' => Some("o"@),
        'ヴ' => Some("vu"@),
        _ => None,
    }
}

/// Hepburn romaji of a two-kana digraph: a letter followed by a small
/// `ャュョァィゥェォ` (or hiragana counterpart).
pub open spec fn digraph_romaji(first: char, second: char) -> Option<Seq<char>> {
    match (first, second) {
        ('キ' | 'き', 'ャ' | 'ゃ') => Some("kya"@),
        ('キ' | 'き', 'ュ' | 'ゅ') => Some("kyu"@),
        ('キ' | 'き', 'ョ' | 'ょ') => Some("kyo"@),
        ('シ' | 'し', 'ャ' | 'ゃ') => Some("sha"@),
        ('シ' | 'し', 'ュ' | 'ゅ') => Some("shu"@),
        ('シ' | 'し', 'ョ' | 'ょ') => Some("sho"@),
        ('チ' | 'ち', 'ャ' | 'ゃ') => Some("cha"@),
        ('チ' | 'ち', 'ュ' | 'ゅ') => Some("chu"@),
        ('チ' | 'ち', 'ョ' | 'ょ') => Some("cho"@),
        ('ニ' | 'に', 'ャ' | 'ゃ') => Some("nya"@),
        ('ニ' | 'に', 'ュ' | 'ゅ') => Some("nyu"@),
        ('ニ' | 'に', 'ョ' | 'ょ') => Some("nyo"@),
        ('ヒ' | 'ひ', 'ャ' | 'ゃ') => Some("hya"@),
        ('ヒ' | 'ひ', 'ュ' | 'ゅ') => Some("hyu"@),
        ('ヒ' | 'ひ', 'ョ' | 'ょ') => Some("hyo"@),
        ('ミ' | 'み', 'ャ' | 'ゃ') => Some("mya"@),
        ('ミ' | 'み', 'ュ' | 'ゅ') => Some("myu"@),
        ('ミ' | 'み', 'ョ' | 'ょ') => Some("myo"@),
        ('リ' | 'り', 'ャ' | 'ゃ') => Some("rya"@),
        ('リ' | 'り', 'ュ' | 'ゅ') => Some("ryu"@),
        ('リ' | 'り', 'ョ' | 'ょ') => Some("ryo"@),
        ('ギ' | 'ぎ', 'ャ' | 'ゃ') => Some("gya"@),
        ('ギ' | 'ぎ', 'ュ' | 'ゅ') => Some("gyu"@),
        ('ギ' | 'ぎ', 'ョ' | 'ょ') => Some("gyo"@),
        ('ジ' | 'じ', 'ャ' | 'ゃ') => Some("ja"@),
        ('ジ' | 'じ', 'ュ' | 'ゅ') => Some("ju"@),
        ('ジ' | 'じ', 'ョ' | 'ょ') => Some("jo"@),
        ('ビ' | 'び', 'ャ' | 'ゃ') => Some("bya"@),
        ('ビ' | 'び', 'ュ' | 'ゅ') => Some("byu"@),
        ('ビ' | 'び', 'ョ' | 'ょ') => Some("byo"@),
        ('ピ' | 'ぴ', 'ャ' | 'ゃ') => Some("pya"@),
        ('ピ' | 'ぴ', 'ュ' | 'ゅ') => Some("pyu"@),
        ('ピ' | 'ぴ', 'ョ' | 'ょ') => Some("pyo"@),
        ('テ' | 'て', 'ィ' | 'ぃ') => Some("ti"@),
        ('デ' | 'で', 'ィ' | 'ぃ') => Some("di"@),
        ('フ' | 'ふ', 'ァ' | 'ぁ') => Some("fa"@),
        ('フ' | 'ふ', 'ィ' | 'ぃ') => Some("fi"@),
        ('フ' | 'ふ', 'ェ' | 'ぇ') => Some("fe"@),
        ('フ' | 'ふ', 'ォ' | 'ぉ') => Some("fo"@),
        ('ウ' | 'う', 'ィ' | 'ぃ') => Some("wi"@),
        ('ウ' | 'う', 'ェ' | 'ぇ') => Some("we"@),
        ('ヴ', 'ァ' | 'ぁ') => Some("va"@),
        ('ヴ', 'ィ' | 'ぃ') => Some("vi"@),
        ('ヴ', 'ェ' | 'ぇ') => Some("ve"@),
        ('ヴ', 'ォ' | 'ぉ') => Some("vo"@),
        _ => None,
    }
}

/// Table lookup for `kana_romaji`.
fn single_kana_romaji(c: char) -> (r: Option<&'static str>)
    ensures
        r matches Some(x) ==> kana_romaji(c) == Some(x@),
        r is None ==> kana_romaji(c) is None,
{
    match c {
        'ア' | 'あ' => Some("a"),
        'イ' | 'い' => Some("i"),
        'ウ' | 'う' => Some("u"),
        'エ' | 'え' => Some("e"),
        'オ' | 'お' => Some("o"),
        'カ' | 'か' => Some("ka"),
        'キ' | 'き' => Some("ki"),
        'ク' | 'く' => Some("ku"),
        'ケ' | 'け' => Some("ke"),
        'コ' | 'こ' => Some("ko"),
        'サ' | 'さ' => Some("sa"),
        'シ' | 'し' => Some("shi"),
        'ス' | 'す' => Some("su"),
        'セ' | 'せ' => Some("se"),
        'ソ' | 'そ' => Some("so"),
        'タ' | 'た' => Some("ta"),
        'チ' | 'ち' => Some("chi"),
        'ツ' | 'つ' => Some("tsu"),
        'テ' | 'て' => Some("te"),
        'ト' | 'と' => Some("to"),
        'ナ' | 'な' => Some("na"),
        'ニ' | 'に' => Some("ni"),
        'ヌ' | 'ぬ' => Some("nu"),
        'ネ' | 'ね' => Some("ne"),
        'ノ' | 'の' => Some("no"),
        'ハ' | 'は' => Some("ha"),
        'ヒ' | 'ひ' => Some("hi"),
        'フ' | 'ふ' => Some("fu"),
        'ヘ' | 'へ' => Some("he"),
        'ホ' | 'ほ' => Some("ho"),
        'マ' | 'ま' => Some("ma"),
        'ミ' | 'み' => Some("mi"),
        'ム' | 'む' => Some("mu"),
        'メ' | 'め' => Some("me"),
        'モ' | 'も' => Some("mo"),
        'ヤ' | 'や' => Some("ya"),
        'ユ' | 'ゆ' => Some("yu"),
        'ヨ' | 'よ' => Some("yo"),
        'ラ' | 'ら' => Some("ra"),
        'リ' | 'り' => Some("ri"),
        'ル' | 'る' => Some("ru"),
        'レ' | 'れ' => Some("re"),
        'ロ' | 'ろ' => Some("ro"),
        'ワ' | 'わ' => Some("wa"),
        'ヲ' | 'を' => Some("wo"),
        'ン' | 'ん' => Some("n"),
        'ガ' | 'が' => Some("ga"),
        'ギ' | 'ぎ' => Some("gi"),
        'グ' | 'ぐ' => Some("gu"),
        'ゲ' | 'げ' => Some("ge"),
        'ゴ' | 'ご' => Some("go"),
        'ザ' | 'ざ' => Some("za"),
        'ジ' | 'じ' => Some("ji"),
        'ズ' | 'ず' => Some("zu"),
        'ゼ' | 'ぜ' => Some("ze"),
        'ゾ' | 'ぞ' => Some("zo"),
        'ダ' | 'だ' => Some("da"),
        'ヂ' | 'ぢ' => Some("di"),
        'ヅ' | 'づ' => Some("du"),
        'デ' | 'で' => Some("de"),
        'ド' | 'ど' => Some("do"),
        'バ' | 'ば' => Some("ba"),
        'ビ' | 'び' => Some("bi"),
        'ブ' | 'ぶ' => Some("bu"),
        'ベ' | 'べ' => Some("be"),
        'ボ' | 'ぼ' => Some("bo"),
        'パ' | 'ぱ' => Some("pa"),
        'ピ' | 'ぴ' => Some("pi"),
        'プ' | 'ぷ' => Some("pu"),
        'ペ' | 'ぺ' => Some("pe"),
        'ポ' | 'ぽ' => Some("po"),
        'ァ' | 'ぁ' => Some("a"),
        'ィ' | 'ぃ' => Some("i"),
        'ゥ' | 'ぅ' => Some("u"),
        'ェ' | 'ぇ' => Some("e"),
        'ォ' | 'ぉ' => Some("o"),
        'ヴ' => Some("vu"),
        _ => None,
    }
}

/// Table lookup for `digraph_romaji`.
fn digraph_kana_romaji(first: char, second: char) -> (r: Option<&'static str>)
    ensures
        r matches Some(x) ==> digraph_romaji(first, second) == Some(x@),
        r is None ==> digraph_romaji(first, second) is None,
{
    // Only a small kana can complete a digraph.
    if !(second == 'ャ' || second == 'ュ' || second == 'ョ' || second == 'ゃ' || second == 'ゅ'
        || second == 'ょ' || second == 'ァ' || second == 'ィ' || second == 'ゥ' || second == 'ェ'
        || second == 'ォ' || second == 'ぁ' || second == 'ぃ' || second == 'ぅ' || second == 'ぇ'
        || second == 'ぉ') {
        return None;
    }
    match (first, second) {
        ('キ' | 'き', 'ャ' | 'ゃ') => Some("kya"),
        ('キ' | 'き', 'ュ' | 'ゅ') => Some("kyu"),
        ('キ' | 'き', 'ョ' | 'ょ') => Some("kyo"),
        ('シ' | 'し', 'ャ' | 'ゃ') => Some("sha"),
        ('シ' | 'し', 'ュ' | 'ゅ') => Some("shu"),
        ('シ' | 'し', 'ョ' | 'ょ') => Some("sho"),
        ('チ' | 'ち', 'ャ' | 'ゃ') => Some("cha"),
        ('チ' | 'ち', 'ュ' | 'ゅ') => Some("chu"),
        ('チ' | 'ち', 'ョ' | 'ょ') => Some("cho"),
        ('ニ' | 'に', 'ャ' | 'ゃ') => Some("nya"),
        ('ニ' | 'に', 'ュ' | 'ゅ') => Some("nyu"),
        ('ニ' | 'に', 'ョ' | 'ょ') => Some("nyo"),
        ('ヒ' | 'ひ', 'ャ' | 'ゃ') => Some("hya"),
        ('ヒ' | 'ひ', 'ュ' | 'ゅ') => Some("hyu"),
        ('ヒ' | 'ひ', 'ョ' | 'ょ') => Some("hyo"),
        ('ミ' | 'み', 'ャ' | 'ゃ') => Some("mya"),
        ('ミ' | 'み', 'ュ' | 'ゅ') => Some("myu"),
        ('ミ' | 'み', 'ョ' | 'ょ') => Some("myo"),
        ('リ' | 'り', 'ャ' | 'ゃ') => Some("rya"),
        ('リ' | 'り', 'ュ' | 'ゅ') => Some("ryu"),
        ('リ' | 'り', 'ョ' | 'ょ') => Some("ryo"),
        ('ギ' | 'ぎ', 'ャ' | 'ゃ') => Some("gya"),
        ('ギ' | 'ぎ', 'ュ' | 'ゅ') => Some("gyu"),
        ('ギ' | 'ぎ', 'ョ' | 'ょ') => Some("gyo"),
        ('ジ' | 'じ', 'ャ' | 'ゃ') => Some("ja"),
        ('ジ' | 'じ', 'ュ' | 'ゅ') => Some("ju"),
        ('ジ' | 'じ', 'ョ' | 'ょ') => Some("jo"),
        ('ビ' | 'び', 'ャ' | 'ゃ') => Some("bya"),
        ('ビ' | 'び', 'ュ' | 'ゅ') => Some("byu"),
        ('ビ' | 'び', 'ョ' | 'ょ') => Some("byo"),
        ('ピ' | 'ぴ', 'ャ' | 'ゃ') => Some("pya"),
        ('ピ' | 'ぴ', 'ュ' | 'ゅ') => Some("pyu"),
        ('ピ' | 'ぴ', 'ョ' | 'ょ') => Some("pyo"),
        ('テ' | 'て', 'ィ' | 'ぃ') => Some("ti"),
        ('デ' | 'で', 'ィ' | 'ぃ') => Some("di"),
        ('フ' | 'ふ', 'ァ' | 'ぁ') => Some("fa"),
        ('フ' | 'ふ', 'ィ' | 'ぃ') => Some("fi"),
        ('フ' | 'ふ', 'ェ' | 'ぇ') => Some("fe"),
        ('フ' | 'ふ', 'ォ' | 'ぉ') => Some("fo"),
        ('ウ' | 'う', 'ィ' | 'ぃ') => Some("wi"),
        ('ウ' | 'う', 'ェ' | 'ぇ') => Some("we"),
        ('ヴ', 'ァ' | 'ぁ') => Some("va"),
        ('ヴ', 'ィ' | 'ぃ') => Some("vi"),
        ('ヴ', 'ェ' | 'ぇ') => Some("ve"),
        ('ヴ', 'ォ' | 'ぉ') => Some("vo"),
        _ => None,
    }
}


// ── Hepburn romanization ───────────────────────────────────────────────────

/// A romaji vowel.
pub open spec fn is_vowel(c: char) -> bool {
    c == 'a' || c == 'i' || c == 'u' || c == 'e' || c == 'o'
}

/// Small tsu, katakana or hiragana: doubles the next consonant.
pub open spec fn is_small_tsu(c: char) -> bool {
    c == 'ッ' || c == 'っ'
}

/// What a small tsu writes when `rest` follows it: the first letter of the
/// next kana's romaji when that letter is a consonant, else nothing.
pub open spec fn geminate(rest: Seq<char>) -> Seq<char> {
    if rest.len() > 0 {
        match kana_romaji(rest[0]) {
            Some(r) => if r.len() > 0 && !is_vowel(r[0]) {
                seq![r[0]]
            } else {
                seq![]
            },
            None => seq![],
        }
    } else {
        seq![]
    }
}

/// What the long vowel mark `ー` writes after `out`: the last vowel again,
/// `u` after any other letter, and nothing at the very start.
pub open spec fn lengthen(out: Seq<char>) -> Seq<char> {
    if out.len() == 0 {
        seq![]
    } else if is_vowel(out.last()) {
        seq![out.last()]
    } else {
        seq!['u']
    }
}

/// Romaji of a character on its own: its table entry, or the character itself
/// when it is not kana.
pub open spec fn single_or_self(c: char) -> Seq<char> {
    match kana_romaji(c) {
        Some(r) => r,
        None => seq![c],
    }
}

/// Romanization of `s` continued after the already written `out`, reading
/// left to right: small tsu geminates, `ー` lengthens, a digraph is taken
/// before a single kana, and anything else passes through.
pub open spec fn romaji_after(s: Seq<char>, out: Seq<char>) -> Seq<char>
    decreases s.len(),
{
    if s.len() == 0 {
        out
    } else if is_small_tsu(s[0]) {
        romaji_after(s.drop_first(), out + geminate(s.drop_first()))
    } else if s[0] == 'ー' {
        romaji_after(s.drop_first(), out + lengthen(out))
    } else if s.len() >= 2 && digraph_romaji(s[0], s[1]) is Some {
        romaji_after(s.skip(2), out + digraph_romaji(s[0], s[1]).unwrap())
    } else {
        romaji_after(s.drop_first(), out + single_or_self(s[0]))
    }
}

/// Hepburn romanization of a kana string.
pub open spec fn romaji(s: Seq<char>) -> Seq<char> {
    romaji_after(s, seq![])
}

/// `kata_to_romaji` on a character vector.
pub(crate) fn kata_to_romaji_chars(chars: &Vec<char>) -> (r: Vec<char>)
    ensures
        r@ == romaji(chars@),
{
    let mut out: Vec<char> = Vec::new();
    let mut i: usize = 0;
    assert(chars@.skip(0) == chars@);
    while i < chars.len()
        invariant
            i <= chars.len(),
            romaji(chars@) == romaji_after(chars@.skip(i as int), out@),
        decreases chars.len() - i,
    {
        let ghost rest = chars@.skip(i as int);
        let c = chars[i];
        if c == 'ッ' || c == 'っ' {
            let ghost before = out@;
            if i + 1 < chars.len() {
                if let Some(next_rom) = single_kana_romaji(chars[i + 1]) {
                    let nr = chars_of(next_rom);
                    if nr.len() > 0 {
                        let f = nr[0];
                        if f != 'a' && f != 'i' && f != 'u' && f != 'e' && f != 'o' {
                            out.push(f);
                        }
                    }
                }
            }
            assert(rest.drop_first() == chars@.skip(i + 1));
            assert(out@ == before + geminate(rest.drop_first()));
            i = i + 1;
            continue;
        }
        if c == 'ー' {
            let ghost before = out@;
            let n = out.len();
            if n > 0 {
                let last = out[n - 1];
                if last == 'a' || last == 'i' || last == 'u' || last == 'e' || last == 'o' {
                    out.push(last);
                } else {
                    out.push('u');
                }
            }
            assert(rest.drop_first() == chars@.skip(i + 1));
            assert(out@ == before + lengthen(before));
            i = i + 1;
            continue;
        }
        if i + 1 < chars.len() {
            if let Some(rom) = digraph_kana_romaji(c, chars[i + 1]) {
                let rv = chars_of(rom);
                extend_chars(&mut out, &rv);
                assert(rest.skip(2) == chars@.skip(i + 2));
                i = i + 2;
                continue;
            }
        }
        let ghost before = out@;
        match single_kana_romaji(c) {
            Some(rom) => {
                let rv = chars_of(rom);
                extend_chars(&mut out, &rv);
            },
            None => {
                out.push(c);
            },
        }
        assert(out@ == before + single_or_self(c));
        assert(rest.drop_first() == chars@.skip(i + 1));
        i = i + 1;
    }
    out
}

/// Convert a katakana string to romaji using Hepburn romanization.
///
/// Handles digraphs (キャ→kya), gemination (ッ→double consonant),
/// long vowels (ー→repeat), and loanword kana (ファ→fa, ティ→ti).
pub fn kata_to_romaji(s: &str) -> (r: String)
    ensures
        r@ == romaji(s@),
{
    let v = chars_of(s);
    let r = kata_to_romaji_chars(&v);
    string_of(&r)
}


// ── Laws ───────────────────────────────────────────────────────────────────

/// Converting to hiragana twice is converting once: hiragana and every
/// other character are left alone.
pub proof fn lemma_hira_idempotent(s: Seq<char>)
    ensures
        hira(hira(s)) == hira(s),
{
    assert forall|i: int| 0 <= i < s.len() implies #[trigger] hira(hira(s))[i] == hira(s)[i] by {
        let c = s[i];
        if '\u{30A1}' <= c && c <= '\u{30F6}' {
            let h = ((c as u32) - 0x60) as char;
            assert(h as u32 == (c as u32) - 0x60);
        }
    }
    assert(hira(hira(s)) =~= hira(s));
}

/// Romanizing text without kana after `out` appends the text unchanged.
proof fn lemma_romaji_after_non_kana(s: Seq<char>, out: Seq<char>)
    requires
        forall|i: int|
            0 <= i < s.len() ==> kana_romaji(#[trigger] s[i]) is None && !is_small_tsu(s[i])
                && s[i] != 'ー',
    ensures
        romaji_after(s, out) == out + s,
    decreases s.len(),
{
    if s.len() > 0 {
        let rest = s.drop_first();
        assert forall|i: int| 0 <= i < rest.len() implies kana_romaji(#[trigger] rest[i]) is None
            && !is_small_tsu(rest[i]) && rest[i] != 'ー' by {
            assert(rest[i] == s[i + 1]);
        }
        assert(kana_romaji(s[0]) is None);
        if s.len() >= 2 {
            assert(digraph_romaji(s[0], s[1]) is None);
        }
        lemma_romaji_after_non_kana(rest, out + seq![s[0]]);
        assert(out + seq![s[0]] + rest == out + s);
    }
}


/// ASCII text: text that `hira` leaves alone.
pub open spec fn is_ascii_text(r: Seq<char>) -> bool {
    forall|i: int| 0 <= i < r.len() ==> (#[trigger] r[i] as u32) < 0x80
}

/// A non-empty word of lowercase ASCII letters.
pub open spec fn is_lower_word(r: Seq<char>) -> bool {
    r.len() > 0 && forall|i: int| 0 <= i < r.len() ==> 'a' <= #[trigger] r[i] && r[i] <= 'z'
}

/// The romanization tables hold non-empty lowercase ASCII words only.
proof fn lemma_tables_ascii(c: char, d: char)
    ensures
        kana_romaji(c) matches Some(r) ==> is_ascii_text(r) && is_lower_word(r),
        digraph_romaji(c, d) matches Some(r) ==> is_ascii_text(r) && is_lower_word(r),
{
    reveal_strlit("a");
    reveal_strlit("ba");
    reveal_strlit("be");
    reveal_strlit("bi");
    reveal_strlit("bo");
    reveal_strlit("bu");
    reveal_strlit("bya");
    reveal_strlit("byo");
    reveal_strlit("byu");
    reveal_strlit("cha");
    reveal_strlit("chi");
    reveal_strlit("cho");
    reveal_strlit("chu");
    reveal_strlit("da");
    reveal_strlit("de");
    reveal_strlit("di");
    reveal_strlit("do");
    reveal_strlit("du");
    reveal_strlit("e");
    reveal_strlit("fa");
    reveal_strlit("fe");
    reveal_strlit("fi");
    reveal_strlit("fo");
    reveal_strlit("fu");
    reveal_strlit("ga");
    reveal_strlit("ge");
    reveal_strlit("gi");
    reveal_strlit("go");
    reveal_strlit("gu");
    reveal_strlit("gya");
    reveal_strlit("gyo");
    reveal_strlit("gyu");
    reveal_strlit("ha");
    reveal_strlit("he");
    reveal_strlit("hi");
    reveal_strlit("ho");
    reveal_strlit("hya");
    reveal_strlit("hyo");
    reveal_strlit("hyu");
    reveal_strlit("i");
    reveal_strlit("ja");
    reveal_strlit("ji");
    reveal_strlit("jo");
    reveal_strlit("ju");
    reveal_strlit("ka");
    reveal_strlit("ke");
    reveal_strlit("ki");
    reveal_strlit("ko");
    reveal_strlit("ku");
    reveal_strlit("kya");
    reveal_strlit("kyo");
    reveal_strlit("kyu");
    reveal_strlit("ma");
    reveal_strlit("me");
    reveal_strlit("mi");
    reveal_strlit("mo");
    reveal_strlit("mu");
    reveal_strlit("mya");
    reveal_strlit("myo");
    reveal_strlit("myu");
    reveal_strlit("n");
    reveal_strlit("na");
    reveal_strlit("ne");
    reveal_strlit("ni");
    reveal_strlit("no");
    reveal_strlit("nu");
    reveal_strlit("nya");
    reveal_strlit("nyo");
    reveal_strlit("nyu");
    reveal_strlit("o");
    reveal_strlit("pa");
    reveal_strlit("pe");
    reveal_strlit("pi");
    reveal_strlit("po");
    reveal_strlit("pu");
    reveal_strlit("pya");
    reveal_strlit("pyo");
    reveal_strlit("pyu");
    reveal_strlit("ra");
    reveal_strlit("re");
    reveal_strlit("ri");
    reveal_strlit("ro");
    reveal_strlit("ru");
    reveal_strlit("rya");
    reveal_strlit("ryo");
    reveal_strlit("ryu");
    reveal_strlit("sa");
    reveal_strlit("se");
    reveal_strlit("sha");
    reveal_strlit("shi");
    reveal_strlit("sho");
    reveal_strlit("shu");
    reveal_strlit("so");
    reveal_strlit("su");
    reveal_strlit("ta");
    reveal_strlit("te");
    reveal_strlit("ti");
    reveal_strlit("to");
    reveal_strlit("tsu");
    reveal_strlit("u");
    reveal_strlit("va");
    reveal_strlit("ve");
    reveal_strlit("vi");
    reveal_strlit("vo");
    reveal_strlit("vu");
    reveal_strlit("wa");
    reveal_strlit("we");
    reveal_strlit("wi");
    reveal_strlit("wo");
    reveal_strlit("ya");
    reveal_strlit("yo");
    reveal_strlit("yu");
    reveal_strlit("za");
    reveal_strlit("ze");
    reveal_strlit("zo");
    reveal_strlit("zu");
}

/// `hira` leaves ASCII text alone.
proof fn lemma_hira_ascii(r: Seq<char>)
    requires
        is_ascii_text(r),
    ensures
        hira(r) == r,
{
    assert forall|i: int| 0 <= i < r.len() implies #[trigger] hira(r)[i] == r[i] by {
        assert((r[i] as u32) < 0x80);
    }
    assert(hira(r) =~= r);
}

/// The code point of `hira_char(c)`.
proof fn lemma_hira_char_code(c: char)
    ensures
        hira_char(c) as u32 == if '\u{30A1}' <= c && c <= '\u{30F6}' {
            (c as u32) - 0x60
        } else {
            (c as u32) as int
        },
{
    if '\u{30A1}' <= c && c <= '\u{30F6}' {
        let h = ((c as u32) - 0x60) as char;
        assert(h as u32 == (c as u32) - 0x60);
    }
}

/// A katakana letter and its hiragana counterpart share a table entry;
/// ヴ is the exception, as its hiragana ゔ has none.
proof fn lemma_kana_romaji_hira(c: char)
    requires
        c != 'ヴ',
    ensures
        kana_romaji(hira_char(c)) == kana_romaji(c),
{
    lemma_hira_char_code(c);
}

/// Digraphs read alike in both scripts, ヴ aside.
proof fn lemma_digraph_romaji_hira(a: char, b: char)
    requires
        a != 'ヴ',
    ensures
        digraph_romaji(hira_char(a), hira_char(b)) == digraph_romaji(a, b),
{
    lemma_hira_char_code(a);
    lemma_hira_char_code(b);
}


/// Text with no kana, no small tsu and no long vowel mark romanizes to
/// itself: punctuation, Latin letters and kanji pass through.
pub proof fn lemma_romaji_non_kana(s: Seq<char>)
    requires
        forall|i: int|
            0 <= i < s.len() ==> kana_romaji(#[trigger] s[i]) is None && !is_small_tsu(s[i])
                && s[i] != 'ー',
    ensures
        romaji(s) == s,
{
    lemma_romaji_after_non_kana(s, seq![]);
    assert(Seq::<char>::empty() + s == s);
}

/// `hira` distributes over concatenation.
proof fn lemma_hira_concat(a: Seq<char>, b: Seq<char>)
    ensures
        hira(a + b) == hira(a) + hira(b),
{
    assert(hira(a + b) =~= hira(a) + hira(b));
}

/// Romanizing hiragana after `hira(out)` is `hira` of romanizing the
/// same text after `out`.
proof fn lemma_romaji_after_hira(s: Seq<char>, out: Seq<char>)
    requires
        forall|i: int| 0 <= i < s.len() ==> #[trigger] s[i] != 'ヴ',
    ensures
        romaji_after(hira(s), hira(out)) == hira(romaji_after(s, out)),
    decreases s.len(),
{
    if s.len() > 0 {
        let c = s[0];
        let h = hira(s);
        let rest = s.drop_first();
        assert(h[0] == hira_char(c));
        assert(h.drop_first() == hira(rest));
        assert forall|i: int| 0 <= i < rest.len() implies #[trigger] rest[i] != 'ヴ' by {
            assert(rest[i] == s[i + 1]);
        }
        lemma_hira_char_code(c);
        lemma_kana_romaji_hira(c);
        lemma_tables_ascii(c, c);
        if is_small_tsu(c) {
            assert(is_small_tsu(h[0]));
            let g = geminate(rest);
            if rest.len() > 0 {
                assert(rest[0] != 'ヴ');
                lemma_kana_romaji_hira(rest[0]);
                lemma_tables_ascii(rest[0], rest[0]);
                assert(hira(rest)[0] == hira_char(rest[0]));
                match kana_romaji(rest[0]) {
                    Some(r) => {
                        if r.len() > 0 {
                            assert((r[0] as u32) < 0x80);
                        }
                    },
                    None => {},
                }
            }
            assert(geminate(hira(rest)) == g);
            assert(hira(g) == g) by {
                if g.len() > 0 {
                    let r = kana_romaji(rest[0])->0;
                    assert((r[0] as u32) < 0x80);
                    lemma_hira_ascii(g);
                } else {
                    assert(hira(g) =~= g);
                }
            }
            lemma_hira_concat(out, g);
            lemma_romaji_after_hira(rest, out + g);
        } else if c == 'ー' {
            assert(h[0] == 'ー');
            let l = lengthen(out);
            assert(lengthen(hira(out)) == hira(l)) by {
                if out.len() > 0 {
                    let x = out.last();
                    lemma_hira_char_code(x);
                    assert(hira(out).last() == hira_char(x));
                    assert(is_vowel(hira_char(x)) == is_vowel(x));
                    if is_vowel(x) {
                        assert(hira_char(x) == x);
                        assert(hira(l) =~= l);
                    } else {
                        assert(hira(l) =~= seq!['u']);
                    }
                } else {
                    assert(hira(l) =~= l);
                }
            }
            lemma_hira_concat(out, l);
            lemma_romaji_after_hira(rest, out + l);
        } else if s.len() >= 2 && digraph_romaji(c, s[1]) is Some {
            lemma_digraph_romaji_hira(c, s[1]);
            lemma_tables_ascii(c, s[1]);
            assert(h[1] == hira_char(s[1]));
            let r = digraph_romaji(c, s[1])->0;
            lemma_hira_ascii(r);
            assert(h.skip(2) == hira(s.skip(2)));
            assert forall|i: int| 0 <= i < s.skip(2).len() implies #[trigger] s.skip(2)[i] != 'ヴ' by {
                assert(s.skip(2)[i] == s[i + 2]);
            }
            lemma_hira_concat(out, r);
            lemma_romaji_after_hira(s.skip(2), out + r);
        } else {
            if s.len() >= 2 {
                lemma_digraph_romaji_hira(c, s[1]);
                assert(h[1] == hira_char(s[1]));
            }
            assert(!is_small_tsu(h[0]));
            assert(h[0] != 'ー');
            let t = single_or_self(c);
            assert(single_or_self(hira_char(c)) == hira(t)) by {
                match kana_romaji(c) {
                    Some(r) => {
                        lemma_hira_ascii(r);
                    },
                    None => {
                        assert(hira(t) =~= seq![hira_char(c)]);
                    },
                }
            }
            lemma_hira_concat(out, t);
            lemma_romaji_after_hira(rest, out + t);
        }
    }
}

/// Hiragana romanizes as katakana does: converting to hiragana before
/// romanizing gives the romanization converted to hiragana (which changes
/// only characters that are not romanized).  Text with ヴ is left out, as
/// the table has no entry for its hiragana ゔ.
pub proof fn lemma_romaji_of_hira(s: Seq<char>)
    requires
        forall|i: int| 0 <= i < s.len() ==> #[trigger] s[i] != 'ヴ',
    ensures
        romaji(hira(s)) == hira(romaji(s)),
{
    assert(hira(Seq::<char>::empty()) =~= Seq::<char>::empty());
    lemma_romaji_after_hira(s, seq![]);
}


/// A hiragana letter and its katakana partner (0x60 above it) share their
/// single-kana romaji, ゔ aside (the table has no entry for it); and every
/// entry is a non-empty lowercase ASCII word.
pub proof fn lemma_kana_scripts_share_entries(c: char)
    ensures
        ('\u{3041}' <= c && c <= '\u{3096}' && c != 'ゔ') ==> kana_romaji(c) == kana_romaji(
            ((c as u32) + 0x60) as char,
        ),
        kana_romaji(c) matches Some(r) ==> is_lower_word(r),
{
    lemma_tables_ascii(c, c);
    if '\u{3041}' <= c && c <= '\u{3096}' && c != 'ゔ' {
        let code: u32 = ((c as u32) + 0x60) as u32;
        let k = code as char;
        assert(k as u32 == code);
        assert(k != 'ヴ');
        lemma_hira_char_code(k);
        assert(hira_char(k) as u32 == c as u32);
        assert(hira_char(k) == c);
        lemma_kana_romaji_hira(k);
    }
}

/// Text that romanizes without leaving katakana behind: it holds none of
/// ヴ, ヵ, ヶ, ヮ, ヰ, ヱ, and every small ャ, ュ, ョ directly follows a letter
/// it forms a digraph with.
pub open spec fn kana_roundtrip_safe(s: Seq<char>) -> bool {
    forall|i: int|
        0 <= i < s.len() ==> {
            let c = #[trigger] s[i];
            &&& c != 'ヴ' && c != 'ヵ' && c != 'ヶ' && c != 'ヮ' && c != 'ヰ' && c != 'ヱ'
            &&& (c == 'ャ' || c == 'ュ' || c == 'ョ') ==> i > 0 && digraph_romaji(
                s[i - 1],
                c,
            ) is Some
        }
}

/// No character in the katakana block that `hira` shifts.
pub open spec fn no_shifted_katakana(s: Seq<char>) -> bool {
    forall|i: int| 0 <= i < s.len() ==> !('\u{30A1}' <= #[trigger] s[i] && s[i] <= '\u{30F6}')
}

/// Romanizing safe text after katakana-free output leaves no katakana.
proof fn lemma_romaji_after_no_katakana(s: Seq<char>, out: Seq<char>)
    requires
        kana_roundtrip_safe(s),
        no_shifted_katakana(out),
    ensures
        no_shifted_katakana(romaji_after(s, out)),
    decreases s.len(),
{
    if s.len() > 0 {
        let c = s[0];
        assert(c != 'ャ' && c != 'ュ' && c != 'ョ');
        lemma_tables_ascii(c, c);
        let k: int = if is_small_tsu(c) || c == 'ー' {
            1
        } else if s.len() >= 2 && digraph_romaji(c, s[1]) is Some {
            2
        } else {
            1
        };
        let tail = s.skip(k);
        assert forall|i: int| 0 <= i < tail.len() implies {
            let d = #[trigger] tail[i];
            &&& d != 'ヴ' && d != 'ヵ' && d != 'ヶ' && d != 'ヮ' && d != 'ヰ' && d != 'ヱ'
            &&& (d == 'ャ' || d == 'ュ' || d == 'ョ') ==> i > 0 && digraph_romaji(
                tail[i - 1],
                d,
            ) is Some
        } by {
            assert(tail[i] == s[i + k]);
            if i > 0 {
                assert(tail[i - 1] == s[i + k - 1]);
            } else {
                let d = tail[i];
                if d == 'ャ' || d == 'ュ' || d == 'ョ' {
                    assert(digraph_romaji(s[k - 1], d) is Some);
                    if k == 2 {
                        lemma_tables_ascii(c, s[1]);
                        assert(digraph_romaji(c, s[1]) is Some);
                    }
                }
            }
        }
        let emitted = if is_small_tsu(c) {
            geminate(s.drop_first())
        } else if c == 'ー' {
            lengthen(out)
        } else if k == 2 {
            digraph_romaji(c, s[1])->0
        } else {
            single_or_self(c)
        };
        assert(no_shifted_katakana(emitted)) by {
            if is_small_tsu(c) {
                if s.len() > 1 {
                    lemma_tables_ascii(s[1], s[1]);
                    match kana_romaji(s[1]) {
                        Some(r) => {
                            if r.len() > 0 {
                                assert((r[0] as u32) < 0x80);
                            }
                        },
                        None => {},
                    }
                }
            } else if c == 'ー' {
                if out.len() > 0 {
                    assert(out[out.len() - 1] == out.last());
                }
            } else if k == 2 {
                lemma_tables_ascii(c, s[1]);
            } else {
                match kana_romaji(c) {
                    Some(r) => {},
                    None => {
                        assert(!('\u{30A1}' <= c && c <= '\u{30F6}'));
                        assert(emitted == seq![c]);
                    },
                }
            }
        }
        let next = out + emitted;
        assert(no_shifted_katakana(next)) by {
            assert forall|i: int| 0 <= i < next.len() implies !('\u{30A1}' <= #[trigger] next[i]
                && next[i] <= '\u{30F6}') by {
                if i < out.len() {
                    assert(next[i] == out[i]);
                } else {
                    assert(next[i] == emitted[i - out.len()]);
                }
            }
        }
        if k == 1 {
            assert(tail == s.drop_first());
        }
        lemma_romaji_after_no_katakana(tail, next);
    }
}

/// Hiragana romanizes exactly like the katakana it came from, on text
/// without ヴ, ヵ, ヶ, ヮ, ヰ, ヱ or a small ャ, ュ, ョ outside a digraph (those
/// either lack a hiragana entry or pass through unromanized).
pub proof fn lemma_romaji_hira_same(s: Seq<char>)
    requires
        kana_roundtrip_safe(s),
    ensures
        romaji(hira(s)) == romaji(s),
{
    assert forall|i: int| 0 <= i < s.len() implies #[trigger] s[i] != 'ヴ' by {}
    lemma_romaji_of_hira(s);
    lemma_romaji_after_no_katakana(s, seq![]);
    let r = romaji(s);
    assert forall|i: int| 0 <= i < r.len() implies #[trigger] hira(r)[i] == r[i] by {}
    assert(hira(r) =~= r);
}


/// The vowel a small ァ, ィ, ゥ, ェ, ォ (or hiragana ぁ…ぉ) writes.
pub open spec fn small_vowel(c: char) -> Option<char> {
    if c == 'ァ' || c == 'ぁ' {
        Some('a')
    } else if c == 'ィ' || c == 'ぃ' {
        Some('i')
    } else if c == 'ゥ' || c == 'ぅ' {
        Some('u')
    } else if c == 'ェ' || c == 'ぇ' {
        Some('e')
    } else if c == 'ォ' || c == 'ぉ' {
        Some('o')
    } else {
        None
    }
}

/// The vowel a small ャ, ュ, ョ (or ゃ, ゅ, ょ) writes.
pub open spec fn small_y_vowel(c: char) -> Option<char> {
    if c == 'ャ' || c == 'ゃ' {
        Some('a')
    } else if c == 'ュ' || c == 'ゅ' {
        Some('u')
    } else if c == 'ョ' || c == 'ょ' {
        Some('o')
    } else {
        None
    }
}

/// The consonant part of a palatalized syllable written from an `i`-column
/// syllable: `sh`, `ch` and `j` stay as they are, any other drops its `i`
/// for `y` (`ki` → `ky`).
pub open spec fn palatal_stem(r: Seq<char>) -> Seq<char> {
    let base = r.drop_last();
    if base == seq!['s', 'h'] || base == seq!['c', 'h'] || base == seq!['j'] {
        base
    } else {
        base.push('y')
    }
}

/// The palatal rows of the digraph table, one syllable at a time.
proof fn lemma_palatal_row(k: char, s: char)
    requires
        kana_romaji(k) is Some,
        kana_romaji(k)->0.len() >= 2,
        kana_romaji(k)->0.last() == 'i',
        k != 'ヂ' && k != 'ぢ',
        small_y_vowel(s) is Some,
    ensures
        digraph_romaji(k, s) == Some(palatal_stem(kana_romaji(k)->0).push(small_y_vowel(s)->0)),
{
    assert(seq!['j'][0] == 'j');
    assert(seq!['s', 'h'].len() == 2 && seq!['c', 'h'].len() == 2 && seq!['j'].len() == 1);
    reveal_strlit("a");
    reveal_strlit("ba");
    reveal_strlit("be");
    reveal_strlit("bi");
    reveal_strlit("bo");
    reveal_strlit("bu");
    reveal_strlit("bya");
    reveal_strlit("byo");
    reveal_strlit("byu");
    reveal_strlit("cha");
    reveal_strlit("chi");
    reveal_strlit("cho");
    reveal_strlit("chu");
    reveal_strlit("da");
    reveal_strlit("de");
    reveal_strlit("di");
    reveal_strlit("do");
    reveal_strlit("du");
    reveal_strlit("e");
    reveal_strlit("fa");
    reveal_strlit("fe");
    reveal_strlit("fi");
    reveal_strlit("fo");
    reveal_strlit("fu");
    reveal_strlit("ga");
    reveal_strlit("ge");
    reveal_strlit("gi");
    reveal_strlit("go");
    reveal_strlit("gu");
    reveal_strlit("gya");
    reveal_strlit("gyo");
    reveal_strlit("gyu");
    reveal_strlit("ha");
    reveal_strlit("he");
    reveal_strlit("hi");
    reveal_strlit("ho");
    reveal_strlit("hya");
    reveal_strlit("hyo");
    reveal_strlit("hyu");
    reveal_strlit("i");
    reveal_strlit("ja");
    reveal_strlit("ji");
    reveal_strlit("jo");
    reveal_strlit("ju");
    reveal_strlit("ka");
    reveal_strlit("ke");
    reveal_strlit("ki");
    reveal_strlit("ko");
    reveal_strlit("ku");
    reveal_strlit("kya");
    reveal_strlit("kyo");
    reveal_strlit("kyu");
    reveal_strlit("ma");
    reveal_strlit("me");
    reveal_strlit("mi");
    reveal_strlit("mo");
    reveal_strlit("mu");
    reveal_strlit("mya");
    reveal_strlit("myo");
    reveal_strlit("myu");
    reveal_strlit("n");
    reveal_strlit("na");
    reveal_strlit("ne");
    reveal_strlit("ni");
    reveal_strlit("no");
    reveal_strlit("nu");
    reveal_strlit("nya");
    reveal_strlit("nyo");
    reveal_strlit("nyu");
    reveal_strlit("o");
    reveal_strlit("pa");
    reveal_strlit("pe");
    reveal_strlit("pi");
    reveal_strlit("po");
    reveal_strlit("pu");
    reveal_strlit("pya");
    reveal_strlit("pyo");
    reveal_strlit("pyu");
    reveal_strlit("ra");
    reveal_strlit("re");
    reveal_strlit("ri");
    reveal_strlit("ro");
    reveal_strlit("ru");
    reveal_strlit("rya");
    reveal_strlit("ryo");
    reveal_strlit("ryu");
    reveal_strlit("sa");
    reveal_strlit("se");
    reveal_strlit("sha");
    reveal_strlit("shi");
    reveal_strlit("sho");
    reveal_strlit("shu");
    reveal_strlit("so");
    reveal_strlit("su");
    reveal_strlit("ta");
    reveal_strlit("te");
    reveal_strlit("ti");
    reveal_strlit("to");
    reveal_strlit("tsu");
    reveal_strlit("u");
    reveal_strlit("va");
    reveal_strlit("ve");
    reveal_strlit("vi");
    reveal_strlit("vo");
    reveal_strlit("vu");
    reveal_strlit("wa");
    reveal_strlit("we");
    reveal_strlit("wi");
    reveal_strlit("wo");
    reveal_strlit("ya");
    reveal_strlit("yo");
    reveal_strlit("yu");
    reveal_strlit("za");
    reveal_strlit("ze");
    reveal_strlit("zo");
    reveal_strlit("zu");
    if k == 'キ' || k == 'き' {
        assert(kana_romaji(k)->0 =~= "ki"@);
        assert(kana_romaji(k)->0.drop_last() =~= seq!['k']);
        assert(palatal_stem(kana_romaji(k)->0) =~= seq!['k', 'y']);
        if s == 'ャ' || s == 'ゃ' {
            assert(seq!['k', 'y'].push('a') =~= "kya"@);
        }
        if s == 'ュ' || s == 'ゅ' {
            assert(seq!['k', 'y'].push('u') =~= "kyu"@);
        }
        if s == 'ョ' || s == 'ょ' {
            assert(seq!['k', 'y'].push('o') =~= "kyo"@);
        }
    } else if k == 'シ' || k == 'し' {
        assert(kana_romaji(k)->0 =~= "shi"@);
        assert(kana_romaji(k)->0.drop_last() =~= seq!['s', 'h']);
        assert(palatal_stem(kana_romaji(k)->0) =~= seq!['s', 'h']);
        if s == 'ャ' || s == 'ゃ' {
            assert(seq!['s', 'h'].push('a') =~= "sha"@);
        }
        if s == 'ュ' || s == 'ゅ' {
            assert(seq!['s', 'h'].push('u') =~= "shu"@);
        }
        if s == 'ョ' || s == 'ょ' {
            assert(seq!['s', 'h'].push('o') =~= "sho"@);
        }
    } else if k == 'チ' || k == 'ち' {
        assert(kana_romaji(k)->0 =~= "chi"@);
        assert(kana_romaji(k)->0.drop_last() =~= seq!['c', 'h']);
        assert(palatal_stem(kana_romaji(k)->0) =~= seq!['c', 'h']);
        if s == 'ャ' || s == 'ゃ' {
            assert(seq!['c', 'h'].push('a') =~= "cha"@);
        }
        if s == 'ュ' || s == 'ゅ' {
            assert(seq!['c', 'h'].push('u') =~= "chu"@);
        }
        if s == 'ョ' || s == 'ょ' {
            assert(seq!['c', 'h'].push('o') =~= "cho"@);
        }
    } else if k == 'ニ' || k == 'に' {
        assert(kana_romaji(k)->0 =~= "ni"@);
        assert(kana_romaji(k)->0.drop_last() =~= seq!['n']);
        assert(palatal_stem(kana_romaji(k)->0) =~= seq!['n', 'y']);
        if s == 'ャ' || s == 'ゃ' {
            assert(seq!['n', 'y'].push('a') =~= "nya"@);
        }
        if s == 'ュ' || s == 'ゅ' {
            assert(seq!['n', 'y'].push('u') =~= "nyu"@);
        }
        if s == 'ョ' || s == 'ょ' {
            assert(seq!['n', 'y'].push('o') =~= "nyo"@);
        }
    } else if k == 'ヒ' || k == 'ひ' {
        assert(kana_romaji(k)->0 =~= "hi"@);
        assert(kana_romaji(k)->0.drop_last() =~= seq!['h']);
        assert(palatal_stem(kana_romaji(k)->0) =~= seq!['h', 'y']);
        if s == 'ャ' || s == 'ゃ' {
            assert(seq!['h', 'y'].push('a') =~= "hya"@);
        }
        if s == 'ュ' || s == 'ゅ' {
            assert(seq!['h', 'y'].push('u') =~= "hyu"@);
        }
        if s == 'ョ' || s == 'ょ' {
            assert(seq!['h', 'y'].push('o') =~= "hyo"@);
        }
    } else if k == 'ミ' || k == 'み' {
        assert(kana_romaji(k)->0 =~= "mi"@);
        assert(kana_romaji(k)->0.drop_last() =~= seq!['m']);
        assert(palatal_stem(kana_romaji(k)->0) =~= seq!['m', 'y']);
        if s == 'ャ' || s == 'ゃ' {
            assert(seq!['m', 'y'].push('a') =~= "mya"@);
        }
        if s == 'ュ' || s == 'ゅ' {
            assert(seq!['m', 'y'].push('u') =~= "myu"@);
        }
        if s == 'ョ' || s == 'ょ' {
            assert(seq!['m', 'y'].push('o') =~= "myo"@);
        }
    } else if k == 'リ' || k == 'り' {
        assert(kana_romaji(k)->0 =~= "ri"@);
        assert(kana_romaji(k)->0.drop_last() =~= seq!['r']);
        assert(palatal_stem(kana_romaji(k)->0) =~= seq!['r', 'y']);
        if s == 'ャ' || s == 'ゃ' {
            assert(seq!['r', 'y'].push('a') =~= "rya"@);
        }
        if s == 'ュ' || s == 'ゅ' {
            assert(seq!['r', 'y'].push('u') =~= "ryu"@);
        }
        if s == 'ョ' || s == 'ょ' {
            assert(seq!['r', 'y'].push('o') =~= "ryo"@);
        }
    } else if k == 'ギ' || k == 'ぎ' {
        assert(kana_romaji(k)->0 =~= "gi"@);
        assert(kana_romaji(k)->0.drop_last() =~= seq!['g']);
        assert(palatal_stem(kana_romaji(k)->0) =~= seq!['g', 'y']);
        if s == 'ャ' || s == 'ゃ' {
            assert(seq!['g', 'y'].push('a') =~= "gya"@);
        }
        if s == 'ュ' || s == 'ゅ' {
            assert(seq!['g', 'y'].push('u') =~= "gyu"@);
        }
        if s == 'ョ' || s == 'ょ' {
            assert(seq!['g', 'y'].push('o') =~= "gyo"@);
        }
    } else if k == 'ジ' || k == 'じ' {
        assert(kana_romaji(k)->0 =~= "ji"@);
        assert(kana_romaji(k)->0.drop_last() =~= seq!['j']);
        assert(palatal_stem(kana_romaji(k)->0) =~= seq!['j']);
        if s == 'ャ' || s == 'ゃ' {
            assert(seq!['j'].push('a') =~= "ja"@);
        }
        if s == 'ュ' || s == 'ゅ' {
            assert(seq!['j'].push('u') =~= "ju"@);
        }
        if s == 'ョ' || s == 'ょ' {
            assert(seq!['j'].push('o') =~= "jo"@);
        }
    } else if k == 'ビ' || k == 'び' {
        assert(kana_romaji(k)->0 =~= "bi"@);
        assert(kana_romaji(k)->0.drop_last() =~= seq!['b']);
        assert(palatal_stem(kana_romaji(k)->0) =~= seq!['b', 'y']);
        if s == 'ャ' || s == 'ゃ' {
            assert(seq!['b', 'y'].push('a') =~= "bya"@);
        }
        if s == 'ュ' || s == 'ゅ' {
            assert(seq!['b', 'y'].push('u') =~= "byu"@);
        }
        if s == 'ョ' || s == 'ょ' {
            assert(seq!['b', 'y'].push('o') =~= "byo"@);
        }
    } else if k == 'ピ' || k == 'ぴ' {
        assert(kana_romaji(k)->0 =~= "pi"@);
        assert(kana_romaji(k)->0.drop_last() =~= seq!['p']);
        assert(palatal_stem(kana_romaji(k)->0) =~= seq!['p', 'y']);
        if s == 'ャ' || s == 'ゃ' {
            assert(seq!['p', 'y'].push('a') =~= "pya"@);
        }
        if s == 'ュ' || s == 'ゅ' {
            assert(seq!['p', 'y'].push('u') =~= "pyu"@);
        }
        if s == 'ョ' || s == 'ょ' {
            assert(seq!['p', 'y'].push('o') =~= "pyo"@);
        }
    } else {
        assert(false);
    }
}

/// Hepburn digraphs follow the syllables they are built from.  An
/// `i`-column syllable (`ki`, `shi`, `chi`, `ni`, `hi`, `mi`, `ri`, `gi`,
/// `ji`, `bi`, `pi`; ヂ has no digraph) with a small ャ/ュ/ョ is its palatal
/// stem plus the small kana's vowel (キャ → kya, シュ → shu, ジョ → jo).  フ
/// and ヴ with a small ァ/ィ/ェ/ォ write `f` or `v` plus that vowel; ウ with a
/// small ィ/ェ writes `w` plus it; テ and デ with a small ィ write `ti`, `di`.
/// And every digraph ends in the vowel of its small kana.
pub proof fn lemma_digraph_rules(k: char, s: char)
    ensures
        (kana_romaji(k) matches Some(r) && r.len() >= 2 && r.last() == 'i' && k != 'ヂ' && k
            != 'ぢ' && small_y_vowel(s) is Some) ==> digraph_romaji(k, s) == Some(
            palatal_stem(kana_romaji(k)->0).push(small_y_vowel(s)->0),
        ),
        (small_vowel(s) is Some && small_vowel(s)->0 != 'u') ==> {
            &&& (k == 'フ' || k == 'ふ') ==> digraph_romaji(k, s) == Some(
                seq!['f', small_vowel(s)->0],
            )
            &&& k == 'ヴ' ==> digraph_romaji(k, s) == Some(seq!['v', small_vowel(s)->0])
        },
        (small_vowel(s) is Some && (small_vowel(s)->0 == 'i' || small_vowel(s)->0 == 'e') && (k
            == 'ウ' || k == 'う')) ==> digraph_romaji(k, s) == Some(seq!['w', small_vowel(s)->0]),
        (small_vowel(s) == Some('i') && (k == 'テ' || k == 'て')) ==> digraph_romaji(k, s)
            == Some(seq!['t', 'i']),
        (small_vowel(s) == Some('i') && (k == 'デ' || k == 'で')) ==> digraph_romaji(k, s)
            == Some(seq!['d', 'i']),
        digraph_romaji(k, s) matches Some(r) ==> r.len() > 0 && (r.last() == small_vowel(s)->0
            && small_vowel(s) is Some || r.last() == small_y_vowel(s)->0 && small_y_vowel(
            s,
        ) is Some),
{
    reveal_strlit("a");
    reveal_strlit("ba");
    reveal_strlit("be");
    reveal_strlit("bi");
    reveal_strlit("bo");
    reveal_strlit("bu");
    reveal_strlit("bya");
    reveal_strlit("byo");
    reveal_strlit("byu");
    reveal_strlit("cha");
    reveal_strlit("chi");
    reveal_strlit("cho");
    reveal_strlit("chu");
    reveal_strlit("da");
    reveal_strlit("de");
    reveal_strlit("di");
    reveal_strlit("do");
    reveal_strlit("du");
    reveal_strlit("e");
    reveal_strlit("fa");
    reveal_strlit("fe");
    reveal_strlit("fi");
    reveal_strlit("fo");
    reveal_strlit("fu");
    reveal_strlit("ga");
    reveal_strlit("ge");
    reveal_strlit("gi");
    reveal_strlit("go");
    reveal_strlit("gu");
    reveal_strlit("gya");
    reveal_strlit("gyo");
    reveal_strlit("gyu");
    reveal_strlit("ha");
    reveal_strlit("he");
    reveal_strlit("hi");
    reveal_strlit("ho");
    reveal_strlit("hya");
    reveal_strlit("hyo");
    reveal_strlit("hyu");
    reveal_strlit("i");
    reveal_strlit("ja");
    reveal_strlit("ji");
    reveal_strlit("jo");
    reveal_strlit("ju");
    reveal_strlit("ka");
    reveal_strlit("ke");
    reveal_strlit("ki");
    reveal_strlit("ko");
    reveal_strlit("ku");
    reveal_strlit("kya");
    reveal_strlit("kyo");
    reveal_strlit("kyu");
    reveal_strlit("ma");
    reveal_strlit("me");
    reveal_strlit("mi");
    reveal_strlit("mo");
    reveal_strlit("mu");
    reveal_strlit("mya");
    reveal_strlit("myo");
    reveal_strlit("myu");
    reveal_strlit("n");
    reveal_strlit("na");
    reveal_strlit("ne");
    reveal_strlit("ni");
    reveal_strlit("no");
    reveal_strlit("nu");
    reveal_strlit("nya");
    reveal_strlit("nyo");
    reveal_strlit("nyu");
    reveal_strlit("o");
    reveal_strlit("pa");
    reveal_strlit("pe");
    reveal_strlit("pi");
    reveal_strlit("po");
    reveal_strlit("pu");
    reveal_strlit("pya");
    reveal_strlit("pyo");
    reveal_strlit("pyu");
    reveal_strlit("ra");
    reveal_strlit("re");
    reveal_strlit("ri");
    reveal_strlit("ro");
    reveal_strlit("ru");
    reveal_strlit("rya");
    reveal_strlit("ryo");
    reveal_strlit("ryu");
    reveal_strlit("sa");
    reveal_strlit("se");
    reveal_strlit("sha");
    reveal_strlit("shi");
    reveal_strlit("sho");
    reveal_strlit("shu");
    reveal_strlit("so");
    reveal_strlit("su");
    reveal_strlit("ta");
    reveal_strlit("te");
    reveal_strlit("ti");
    reveal_strlit("to");
    reveal_strlit("tsu");
    reveal_strlit("u");
    reveal_strlit("va");
    reveal_strlit("ve");
    reveal_strlit("vi");
    reveal_strlit("vo");
    reveal_strlit("vu");
    reveal_strlit("wa");
    reveal_strlit("we");
    reveal_strlit("wi");
    reveal_strlit("wo");
    reveal_strlit("ya");
    reveal_strlit("yo");
    reveal_strlit("yu");
    reveal_strlit("za");
    reveal_strlit("ze");
    reveal_strlit("zo");
    reveal_strlit("zu");
    if kana_romaji(k) is Some && kana_romaji(k)->0.len() >= 2 && kana_romaji(k)->0.last() == 'i'
        && k != 'ヂ' && k != 'ぢ' && small_y_vowel(s) is Some {
        lemma_palatal_row(k, s);
    }
}

} // verus!
