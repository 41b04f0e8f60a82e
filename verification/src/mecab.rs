//! MeCab output parsed into morphemes, bracketed furigana and romaji.
use vstd::prelude::*;
use crate::kana::{contains_kanji, has_kanji_chars, hira, kata_to_hira_chars, kata_to_romaji_chars, romaji};
use crate::text::{
    chars_of, concat, extend_chars, find_char, first_index, join, lemma_concat_push, lemma_join_push,
    lines, lines_chars, slice_chars, split, split_chars, string_of, trim, trim_chars, views,
};

verus! {

// ── Public types ───────────────────────────────────────────────────────────

/// A single morpheme (word/token) from MeCab's analysis.
#[derive(Debug, Clone, PartialEq, Eq)]
pub struct Morpheme {
    /// Surface form as it appears in the text (e.g. `"知ら"`).
    pub surface: String,
    /// Hiragana reading, empty if unavailable (e.g. `"しら"`).
    pub reading: String,
    /// Hepburn romaji (e.g. `"shira"`).
    pub romaji: String,
    /// Dictionary/base form — the lemma (e.g. `"知る"` for surface `"知ら"`).
    pub base_form: String,
    /// Part of speech (e.g. `"動詞"`, `"名詞"`, `"助詞"`).
    pub pos: String,
    /// POS sub-category (e.g. `"自立"`, `"一般"`, `"格助詞"`).
    pub pos_detail: String,
}

/// The mathematical value of a [`Morpheme`].
pub struct MorphemeView {
    pub surface: Seq<char>,
    pub reading: Seq<char>,
    pub romaji: Seq<char>,
    pub base_form: Seq<char>,
    pub pos: Seq<char>,
    pub pos_detail: Seq<char>,
}

impl View for Morpheme {
    type V = MorphemeView;

    open spec fn view(&self) -> MorphemeView {
        MorphemeView {
            surface: self.surface@,
            reading: self.reading@,
            romaji: self.romaji@,
            base_form: self.base_form@,
            pos: self.pos@,
            pos_detail: self.pos_detail@,
        }
    }
}

/// The views of a sequence of morphemes.
pub open spec fn morpheme_views(ms: Seq<Morpheme>) -> Seq<MorphemeView> {
    ms.map_values(|m: Morpheme| m@)
}

/// Result of furigana/romaji annotation.
#[derive(Debug, Clone, PartialEq, Eq)]
pub struct FuriganaResult {
    /// Annotated text with bracketed hiragana readings for kanji.
    /// Example: `"知ら[しら]ない天井[てんじょう]だ"`
    pub furigana: String,
    /// Hepburn romaji derived from MeCab's katakana readings.
    /// Example: `"shira nai tenjou da"`
    pub romaji: String,
    /// Per-morpheme breakdown with readings, POS, and base forms.
    /// Provides word boundaries (segmentation) and dictionary lookup keys.
    pub morphemes: Vec<Morpheme>,
}

/// Furigana text, romaji text and morphemes, as values.
pub type Annotation = (Seq<char>, Seq<char>, Seq<MorphemeView>);

impl View for FuriganaResult {
    type V = Annotation;

    open spec fn view(&self) -> Annotation {
        (self.furigana@, self.romaji@, morpheme_views(self.morphemes@))
    }
}

// ── Specification of MeCab output ──────────────────────────────────────────

/// The placeholder MeCab writes for an absent feature.
pub open spec fn star() -> Seq<char> {
    seq!['*']
}

/// The end-of-sentence line.
pub open spec fn eos() -> Seq<char> {
    seq!['E', 'O', 'S']
}

/// A line that describes a morpheme: neither empty nor `EOS`.
pub open spec fn is_morpheme_line(line: Seq<char>) -> bool {
    line.len() > 0 && line != eos()
}

/// The surface form: the line up to its first tab.
pub open spec fn surface_of(line: Seq<char>) -> Seq<char> {
    line.take(first_index(line, '\t') as int)
}

/// The comma-separated features after the first tab (none without a tab).
pub open spec fn fields_of(line: Seq<char>) -> Seq<Seq<char>> {
    let t = first_index(line, '\t');
    split(if t < line.len() { line.skip(t + 1 as int) } else { seq![] }, ',')
}

/// Feature `i`, unless absent or `*`, in which case `default`.
pub open spec fn field_or(fields: Seq<Seq<char>>, i: int, default: Seq<char>) -> Seq<char> {
    if fields.len() > i && fields[i] != star() {
        fields[i]
    } else {
        default
    }
}

/// The morpheme a line describes.  Features are
/// `POS,sub1,sub2,sub3,conj_type,conj_form,base,reading,pronunciation`; the
/// reading is katakana, given in hiragana and romanized.
pub open spec fn morpheme_of(line: Seq<char>) -> MorphemeView {
    let surface = surface_of(line);
    let fields = fields_of(line);
    let kata = field_or(fields, 7, seq![]);
    MorphemeView {
        surface: surface,
        reading: hira(kata),
        romaji: if kata.len() > 0 {
            romaji(kata)
        } else {
            surface
        },
        base_form: field_or(fields, 6, surface),
        pos: if fields.len() > 0 {
            fields[0]
        } else {
            star()
        },
        pos_detail: if fields.len() > 1 {
            fields[1]
        } else {
            star()
        },
    }
}

/// The morphemes described by a sequence of lines, in order.
pub open spec fn morphemes_of(ls: Seq<Seq<char>>) -> Seq<MorphemeView>
    decreases ls.len(),
{
    if ls.len() == 0 {
        seq![]
    } else if is_morpheme_line(ls.last()) {
        morphemes_of(ls.drop_last()).push(morpheme_of(ls.last()))
    } else {
        morphemes_of(ls.drop_last())
    }
}

/// A morpheme in bracket format: `surface[reading]` when the surface holds
/// kanji (the brackets stay, empty, when the reading is unknown), the bare
/// surface otherwise.
pub open spec fn furigana_piece(m: MorphemeView) -> Seq<char> {
    if contains_kanji(m.surface) {
        m.surface + seq!['['] + m.reading + seq![']']
    } else {
        m.surface
    }
}

/// The bracket-format text of a morpheme sequence.
pub open spec fn furigana_text(ms: Seq<MorphemeView>) -> Seq<char> {
    concat(ms.map_values(|m: MorphemeView| furigana_piece(m)))
}

/// `str::replace("  ", " ")`: each non-overlapping pair of spaces, scanned
/// left to right, becomes one space.
pub open spec fn halve_space_pairs(s: Seq<char>) -> Seq<char>
    decreases s.len(),
{
    if s.len() >= 2 && s[0] == ' ' && s[1] == ' ' {
        seq![' '] + halve_space_pairs(s.skip(2))
    } else if s.len() == 0 {
        s
    } else {
        seq![s[0]] + halve_space_pairs(s.drop_first())
    }
}

/// The romaji text of a morpheme sequence: the morphemes' romaji joined by
/// spaces, double spaces halved, and the ends trimmed.
pub open spec fn romaji_text(ms: Seq<MorphemeView>) -> Seq<char> {
    trim(halve_space_pairs(join(ms.map_values(|m: MorphemeView| m.romaji), seq![' '])))
}

/// The annotation that MeCab output describes; none when its furigana text
/// is empty.
pub open spec fn mecab_annotation(stdout: Seq<char>) -> Option<Annotation> {
    let ms = morphemes_of(lines(stdout));
    let f = furigana_text(ms);
    if f.len() == 0 {
        None
    } else {
        Some((f, romaji_text(ms), ms))
    }
}

/// The annotation without romaji.
pub open spec fn furigana_only_annotation(stdout: Seq<char>) -> Option<Annotation> {
    match mecab_annotation(stdout) {
        Some((f, _, ms)) => Some((f, seq![], ms)),
        None => None,
    }
}

// ── Implementation ─────────────────────────────────────────────────────────

/// Whether a field is the `*` placeholder.
fn is_star(f: &Vec<char>) -> (r: bool)
    ensures
        r == (f@ == star()),
{
    if f.len() == 1 && f[0] == '*' {
        assert(f@ == star());
        true
    } else {
        false
    }
}

/// `field_or` on a field vector.
fn field_or_exec(fields: &Vec<Vec<char>>, i: usize, default: &Vec<char>) -> (r: Vec<char>)
    ensures
        r@ == field_or(views(fields@), i as int, default@),
{
    if fields.len() > i && !is_star(&fields[i]) {
        slice_chars(&fields[i], 0, fields[i].len())
    } else {
        slice_chars(default, 0, default.len())
    }
}

/// Parses one morpheme line.
fn morpheme_from_line(line: &Vec<char>) -> (m: Morpheme)
    ensures
        m@ == morpheme_of(line@),
{
    let t = find_char(line, 0, '\t');
    assert(line@.skip(0) == line@);
    let surface = slice_chars(line, 0, t);
    let features = if t < line.len() {
        slice_chars(line, t + 1, line.len())
    } else {
        Vec::new()
    };
    let fields = split_chars(&features, ',');
    let ghost fv = views(fields@);
    let empty: Vec<char> = Vec::new();
    let kata = field_or_exec(&fields, 7, &empty);
    let base_form = field_or_exec(&fields, 6, &surface);
    let reading = kata_to_hira_chars(&kata);
    let romaji_chars = if kata.len() > 0 {
        kata_to_romaji_chars(&kata)
    } else {
        slice_chars(&surface, 0, surface.len())
    };
    let star_v = vec!['*'];
    let pos = if fields.len() > 0 {
        slice_chars(&fields[0], 0, fields[0].len())
    } else {
        slice_chars(&star_v, 0, 1)
    };
    let pos_detail = if fields.len() > 1 {
        slice_chars(&fields[1], 0, fields[1].len())
    } else {
        slice_chars(&star_v, 0, 1)
    };
    proof {
        assert(surface@ == surface_of(line@));
        assert(surface@.subrange(0, surface@.len() as int) == surface@);
        assert(fv == fields_of(line@));
        if fields.len() > 0 {
            assert(fields@[0]@.subrange(0, fields@[0]@.len() as int) == fv[0]);
        }
        if fields.len() > 1 {
            assert(fields@[1]@.subrange(0, fields@[1]@.len() as int) == fv[1]);
        }
        assert(star_v@.subrange(0, 1) == star());
    }
    Morpheme {
        surface: string_of(&surface),
        reading: string_of(&reading),
        romaji: string_of(&romaji_chars),
        base_form: string_of(&base_form),
        pos: string_of(&pos),
        pos_detail: string_of(&pos_detail),
    }
}

/// `halve_space_pairs` on a character vector.
fn halve_space_pairs_chars(v: &Vec<char>) -> (r: Vec<char>)
    ensures
        r@ == halve_space_pairs(v@),
{
    let mut out: Vec<char> = Vec::new();
    let mut i: usize = 0;
    assert(v@.skip(0) == v@);
    while i < v.len()
        invariant
            i <= v.len(),
            halve_space_pairs(v@) == out@ + halve_space_pairs(v@.skip(i as int)),
        decreases v.len() - i,
    {
        let ghost s = v@.skip(i as int);
        if i + 1 < v.len() && v[i] == ' ' && v[i + 1] == ' ' {
            out.push(' ');
            assert(s.skip(2) == v@.skip(i + 2));
            i = i + 2;
        } else {
            out.push(v[i]);
            assert(s.drop_first() == v@.skip(i + 1));
            i = i + 1;
        }
    }
    assert(v@.skip(v.len() as int) == Seq::<char>::empty());
    out
}

/// Parse raw MeCab stdout into (furigana, romaji, morphemes).
///
/// Pure function — no I/O.  Useful for testing with synthetic MeCab output
/// without needing the MeCab binary or dictionary installed.
///
/// Each non-EOS line is `surface\tPOS,sub1,sub2,sub3,conj_type,conj_form,base,reading,pronunciation`.
/// Kanji surfaces get bracketed hiragana: `天井[てんじょう]`.
/// Romaji is derived from the katakana reading field.
pub fn parse_mecab_output(stdout: &str) -> (r: Option<(String, String, Vec<Morpheme>)>)
    ensures
        match r {
            Some((f, ro, ms)) => mecab_annotation(stdout@) == Some((f@, ro@, morpheme_views(ms@))),
            None => mecab_annotation(stdout@) is None,
        },
{
    let text = chars_of(stdout);
    let ls = lines_chars(&text);
    let ghost lv = views(ls@);
    let mut furigana: Vec<char> = Vec::new();
    let mut joined: Vec<char> = Vec::new();
    let mut morphemes: Vec<Morpheme> = Vec::new();
    let mut k: usize = 0;
    assert(lv.take(0) == Seq::<Seq<char>>::empty());
    while k < ls.len()
        invariant
            k <= ls.len(),
            lv == views(ls@),
            lv == lines(stdout@),
            morpheme_views(morphemes@) == morphemes_of(lv.take(k as int)),
            furigana@ == furigana_text(morpheme_views(morphemes@)),
            joined@ == join(
                morpheme_views(morphemes@).map_values(|m: MorphemeView| m.romaji),
                seq![' '],
            ),
        decreases ls.len() - k,
    {
        let line = &ls[k];
        assert(lv.take(k + 1).drop_last() == lv.take(k as int));
        assert(lv.take(k + 1).last() == line@);
        let is_eos = line.len() == 3 && line[0] == 'E' && line[1] == 'O' && line[2] == 'S';
        proof {
            if is_eos {
                assert(line@ =~= eos());
            }
            if line@ == eos() {
                assert(line@[0] == 'E' && line@[1] == 'O' && line@[2] == 'S');
            }
        }
        if !is_eos && line.len() > 0 {
            let m = morpheme_from_line(line);
            let ghost old_ms = morpheme_views(morphemes@);
            let ghost mv = m@;
            let surface = chars_of(m.surface.as_str());
            let reading = chars_of(m.reading.as_str());
            let piece_kanji = has_kanji_chars(&surface);
            let ghost old_f = furigana@;
            extend_chars(&mut furigana, &surface);
            if piece_kanji {
                furigana.push('[');
                extend_chars(&mut furigana, &reading);
                furigana.push(']');
            }
            assert(furigana@ == old_f + furigana_piece(mv));
            let rom = chars_of(m.romaji.as_str());
            let ghost old_j = joined@;
            if morphemes.len() > 0 {
                joined.push(' ');
            }
            extend_chars(&mut joined, &rom);
            morphemes.push(m);
            proof {
                let new_ms = morpheme_views(morphemes@);
                assert(new_ms == old_ms.push(mv));
                let pf = |x: MorphemeView| furigana_piece(x);
                let rf = |x: MorphemeView| x.romaji;
                assert(new_ms.map_values(pf) == old_ms.map_values(pf).push(furigana_piece(mv)));
                lemma_concat_push(old_ms.map_values(pf), furigana_piece(mv));
                assert(new_ms.map_values(rf) == old_ms.map_values(rf).push(mv.romaji));
                lemma_join_push(old_ms.map_values(rf), mv.romaji, seq![' ']);
                assert(old_ms.map_values(rf).len() == old_ms.len());
            }
        }
        k = k + 1;
    }
    assert(lv.take(ls.len() as int) == lv);
    if furigana.len() == 0 {
        None
    } else {
        let halved = halve_space_pairs_chars(&joined);
        let romaji_line = trim_chars(&halved);
        Some((string_of(&furigana), string_of(&romaji_line), morphemes))
    }
}

/// The text MeCab is given for `text`: trimmed, and none when nothing is
/// left.
pub fn annotate_input(text: &str) -> (r: Option<String>)
    ensures
        match r {
            Some(t) => t@ == trim(text@) && t@.len() > 0,
            None => trim(text@).len() == 0,
        },
{
    let v = chars_of(text);
    let t = trim_chars(&v);
    if t.len() == 0 {
        None
    } else {
        Some(string_of(&t))
    }
}

/// The annotation described by MeCab's output for a text.
pub fn annotate_from_output(stdout: &str) -> (r: Option<FuriganaResult>)
    ensures
        match r {
            Some(res) => mecab_annotation(stdout@) == Some(res@),
            None => mecab_annotation(stdout@) is None,
        },
{
    match parse_mecab_output(stdout) {
        Some((furigana, romaji, morphemes)) => Some(FuriganaResult { furigana, romaji, morphemes }),
        None => None,
    }
}

/// The annotation described by MeCab's output, without romaji.
pub fn annotate_furigana_only_from_output(stdout: &str) -> (r: Option<FuriganaResult>)
    ensures
        match r {
            Some(res) => furigana_only_annotation(stdout@) == Some(res@),
            None => furigana_only_annotation(stdout@) is None,
        },
{
    match parse_mecab_output(stdout) {
        Some((furigana, _, morphemes)) => Some(
            FuriganaResult { furigana, romaji: String::new(), morphemes },
        ),
        None => None,
    }
}


// ── Laws ───────────────────────────────────────────────────────────────────

/// Skipping romaji changes nothing else: the furigana-only annotation has
/// the same furigana text and morphemes as the full one, an empty romaji
/// text, and exists exactly when the full one does.
pub proof fn lemma_furigana_only_matches_full(stdout: Seq<char>)
    ensures
        furigana_only_annotation(stdout) is Some <==> mecab_annotation(stdout) is Some,
        mecab_annotation(stdout) matches Some((f, _, ms)) ==> furigana_only_annotation(stdout)
            == Some((f, Seq::<char>::empty(), ms)),
{
}

/// Output is annotated exactly when some morpheme line has a non-empty
/// surface.
pub proof fn lemma_annotated_iff_surface(stdout: Seq<char>)
    ensures
        mecab_annotation(stdout) is Some <==> exists|i: int|
            0 <= i < morphemes_of(lines(stdout)).len() && #[trigger] morphemes_of(
                lines(stdout),
            )[i].surface.len() > 0,
{
    let ms = morphemes_of(lines(stdout));
    lemma_furigana_text_empty(ms);
}

/// The bracket text is empty exactly when every surface is.
proof fn lemma_furigana_text_empty(ms: Seq<MorphemeView>)
    ensures
        furigana_text(ms).len() == 0 <==> forall|i: int|
            0 <= i < ms.len() ==> (#[trigger] ms[i]).surface.len() == 0,
    decreases ms.len(),
{
    let pf = |m: MorphemeView| furigana_piece(m);
    if ms.len() > 0 {
        let p = ms.drop_last();
        lemma_furigana_text_empty(p);
        assert(ms.map_values(pf).drop_last() == p.map_values(pf));
        assert(ms.map_values(pf).last() == furigana_piece(ms.last()));
        assert(furigana_text(ms) == furigana_text(p) + furigana_piece(ms.last()));
        assert(furigana_piece(ms.last()).len() >= ms.last().surface.len());
        if furigana_text(ms).len() == 0 {
            assert forall|i: int| 0 <= i < ms.len() implies (#[trigger] ms[i]).surface.len() == 0 by {
                if i < p.len() {
                    assert(ms[i] == p[i]);
                }
            }
        }
        if forall|i: int| 0 <= i < ms.len() ==> (#[trigger] ms[i]).surface.len() == 0 {
            assert forall|i: int| 0 <= i < p.len() implies (#[trigger] p[i]).surface.len() == 0 by {
                assert(ms[i] == p[i]);
            }
            assert(ms[ms.len() - 1].surface.len() == 0);
            assert(!contains_kanji(ms.last().surface));
        }
    } else {
        assert(ms.map_values(pf).len() == 0);
    }
}


/// Morphemes are read line by line and independently: the morphemes of two
/// runs of lines are those of the first followed by those of the second, and
/// a single line gives its morpheme exactly when it is neither empty nor
/// `EOS`.  So an `EOS` ends a sentence without ending the output.
pub proof fn lemma_morphemes_by_line(a: Seq<Seq<char>>, b: Seq<Seq<char>>, l: Seq<char>)
    ensures
        morphemes_of(a + b) == morphemes_of(a) + morphemes_of(b),
        morphemes_of(seq![l]) == if is_morpheme_line(l) {
            seq![morpheme_of(l)]
        } else {
            Seq::<MorphemeView>::empty()
        },
    decreases b.len(),
{
    assert(seq![l].drop_last() == Seq::<Seq<char>>::empty());
    assert(seq![l].last() == l);
    assert(morphemes_of(Seq::<Seq<char>>::empty()) == Seq::<MorphemeView>::empty());
    if is_morpheme_line(l) {
        assert(Seq::<MorphemeView>::empty().push(morpheme_of(l)) == seq![morpheme_of(l)]);
    }
    if b.len() == 0 {
        assert(a + b == a);
        assert(morphemes_of(a) + morphemes_of(b) == morphemes_of(a));
    } else {
        lemma_morphemes_by_line(a, b.drop_last(), l);
        assert((a + b).drop_last() == a + b.drop_last());
        assert((a + b).last() == b.last());
        if is_morpheme_line(b.last()) {
            assert(morphemes_of(a) + morphemes_of(b.drop_last()).push(morpheme_of(b.last()))
                == (morphemes_of(a) + morphemes_of(b.drop_last())).push(morpheme_of(b.last())));
        }
    }
}

} // verus!
