//! Bracketed furigana text (`天井[てんじょう]`) parsed into segments, and
//! segments rendered as HTML span markup.
use vstd::prelude::*;
use crate::text::{
    chars_of, extend_chars, find_char, first_index, lemma_first_index, lemma_first_index_bounds, push_char, slice_chars,
    string_of,
};

verus! {

// ── Segments ───────────────────────────────────────────────────────────────

/// A single annotated segment of Japanese text.
#[derive(Debug, Clone, PartialEq, Eq)]
pub enum Segment {
    /// A kanji character or sequence with its reading.
    Kanji { text: String, reading: Option<String> },
    /// Non-kanji text (kana, punctuation, ASCII, whitespace).
    Other(String),
}

/// The mathematical value of a [`Segment`].
pub enum SegmentView {
    Kanji { text: Seq<char>, reading: Option<Seq<char>> },
    Other(Seq<char>),
}

impl View for Segment {
    type V = SegmentView;

    open spec fn view(&self) -> SegmentView {
        match self {
            Segment::Kanji { text, reading } => SegmentView::Kanji {
                text: text@,
                reading: match reading {
                    Some(r) => Some(r@),
                    None => None,
                },
            },
            Segment::Other(s) => SegmentView::Other(s@),
        }
    }
}

/// The views of a sequence of segments.
pub open spec fn seg_views(s: Seq<Segment>) -> Seq<SegmentView> {
    s.map_values(|x: Segment| x@)
}

// ── Parsing specification ──────────────────────────────────────────────────

/// A CJK ideograph that opens a kanji run: Unified Ideographs or
/// Extension A.
pub open spec fn is_cjk_char(c: char) -> bool {
    ('\u{4E00}' <= c && c <= '\u{9FFF}') || ('\u{3400}' <= c && c <= '\u{4DBF}')
}

/// Number of trailing characters that `text` and `reading` share and that
/// are not CJK: the okurigana written out in both.
pub open spec fn okurigana_len(text: Seq<char>, reading: Seq<char>) -> nat
    decreases text.len(),
{
    if text.len() > 0 && reading.len() > 0 && !is_cjk_char(text.last()) && text.last()
        == reading.last() {
        1 + okurigana_len(text.drop_last(), reading.drop_last())
    } else {
        0
    }
}

/// `chunk` added as plain text after `acc`: merged into a trailing `Other`
/// segment, a new `Other` segment otherwise, and nothing when empty.
pub open spec fn add_other(acc: Seq<SegmentView>, chunk: Seq<char>) -> Seq<SegmentView> {
    if chunk.len() == 0 {
        acc
    } else if acc.len() > 0 && acc.last() is Other {
        acc.drop_last().push(SegmentView::Other(acc.last()->0 + chunk))
    } else {
        acc.push(SegmentView::Other(chunk))
    }
}

/// A piece added after `acc`; plain text coalesces.
pub open spec fn add_piece(acc: Seq<SegmentView>, p: SegmentView) -> Seq<SegmentView> {
    match p {
        SegmentView::Other(c) => add_other(acc, c),
        _ => acc.push(p),
    }
}

/// Pieces with neighbouring plain text merged and empty plain text dropped.
pub open spec fn coalesce(ps: Seq<SegmentView>) -> Seq<SegmentView>
    decreases ps.len(),
{
    if ps.len() == 0 {
        seq![]
    } else {
        add_piece(coalesce(ps.drop_last()), ps.last())
    }
}

/// The pieces of bracketed furigana text, read left to right.
///
/// A character that is not CJK is plain text.  A CJK character opens a run
/// that extends to the next `[`; without one, the rest of the input is plain
/// text.  With one, the reading runs to the next `]` (or the end), and the
/// okurigana shared by the run and the reading is split off as plain text.
pub open spec fn furigana_pieces(s: Seq<char>) -> Seq<SegmentView>
    decreases s.len(),
{
    if s.len() == 0 {
        seq![]
    } else if !is_cjk_char(s[0]) {
        seq![SegmentView::Other(seq![s[0]])] + furigana_pieces(s.drop_first())
    } else {
        let j = first_index(s, '[');
        if j >= s.len() {
            seq![SegmentView::Other(s)]
        } else {
            let text = s.take(j as int);
            let rest = s.skip(j + 1 as int);
            let k = first_index(rest, ']');
            let reading = rest.take(k as int);
            let after = if k < rest.len() {
                rest.skip(k + 1 as int)
            } else {
                seq![]
            };
            let n = okurigana_len(text, reading);
            seq![
                SegmentView::Kanji {
                    text: text.take(text.len() - n),
                    reading: Some(reading.take(reading.len() - n)),
                },
                SegmentView::Other(text.skip(text.len() - n)),
            ] + furigana_pieces(after)
        }
    }
}

/// The segments of bracketed furigana text.
pub open spec fn parse_segments(s: Seq<char>) -> Seq<SegmentView> {
    coalesce(furigana_pieces(s))
}

// ── Parsing implementation ─────────────────────────────────────────────────

/// `is_cjk_char` on one character.
fn is_cjk(c: char) -> (r: bool)
    ensures
        r == is_cjk_char(c),
{
    ('\u{4E00}' <= c && c <= '\u{9FFF}') || ('\u{3400}' <= c && c <= '\u{4DBF}')
}

/// Appends characters to a `String`.
fn append_chars(s: &mut String, v: &Vec<char>)
    ensures
        final(s)@ == old(s)@ + v@,
{
    let mut i: usize = 0;
    while i < v.len()
        invariant
            i <= v.len(),
            s@ == old(s)@ + v@.take(i as int),
        decreases v.len() - i,
    {
        push_char(s, v[i]);
        i = i + 1;
        assert(s@ == old(s)@ + v@.take(i as int));
    }
    assert(v@.take(v.len() as int) == v@);
}

/// Splits the shared trailing okurigana off a kanji run and its reading:
/// returns the kanji part, its reading, and the okurigana.
fn trim_trailing_okurigana(text: &Vec<char>, reading: &Vec<char>) -> (r: (
    Vec<char>,
    Vec<char>,
    Vec<char>,
))
    ensures
        ({
            let n = okurigana_len(text@, reading@);
            &&& n <= text@.len()
            &&& n <= reading@.len()
            &&& r.0@ == text@.take(text@.len() - n)
            &&& r.1@ == reading@.take(reading@.len() - n)
            &&& r.2@ == text@.skip(text@.len() - n)
        }),
{
    let mut t: usize = text.len();
    let mut r: usize = reading.len();
    assert(text@.take(t as int) == text@);
    assert(reading@.take(r as int) == reading@);
    while t > 0 && r > 0 && !is_cjk(text[t - 1]) && text[t - 1] == reading[r - 1]
        invariant
            t <= text.len(),
            r <= reading.len(),
            text.len() - t == reading.len() - r,
            okurigana_len(text@, reading@) == (text.len() - t) + okurigana_len(
                text@.take(t as int),
                reading@.take(r as int),
            ),
        decreases t,
    {
        assert(text@.take(t as int).drop_last() == text@.take(t - 1));
        assert(reading@.take(r as int).drop_last() == reading@.take(r - 1));
        t = t - 1;
        r = r - 1;
    }
    let kanji_text = slice_chars(text, 0, t);
    let kanji_reading = slice_chars(reading, 0, r);
    let okurigana = slice_chars(text, t, text.len());
    assert(text@.subrange(0, t as int) == text@.take(t as int));
    assert(reading@.subrange(0, r as int) == reading@.take(r as int));
    assert(text@.subrange(t as int, text.len() as int) == text@.skip(t as int));
    (kanji_text, kanji_reading, okurigana)
}

/// Adds plain text after the segments, merging into a trailing `Other`.
fn push_other(segments: &mut Vec<Segment>, chunk: &Vec<char>)
    ensures
        seg_views(final(segments)@) == add_other(seg_views(old(segments)@), chunk@),
{
    if chunk.len() == 0 {
        return;
    }
    let ghost before = seg_views(segments@);
    match segments.pop() {
        Some(Segment::Other(mut existing)) => {
            append_chars(&mut existing, chunk);
            segments.push(Segment::Other(existing));
            assert(seg_views(segments@) == before.drop_last().push(
                SegmentView::Other(before.last()->0 + chunk@),
            ));
        },
        Some(last) => {
            segments.push(last);
            assert(seg_views(segments@) == before);
            segments.push(Segment::Other(string_of(chunk)));
            assert(seg_views(segments@) == before.push(SegmentView::Other(chunk@)));
        },
        None => {
            segments.push(Segment::Other(string_of(chunk)));
            assert(seg_views(segments@) == before.push(SegmentView::Other(chunk@)));
        },
    }
}

/// Parse a bracketed furigana string into structured segments.
///
/// "知ら[しら]ない天井[てんじょう]だ"
/// → [
///     Kanji { text: "知", reading: Some("し") },
///     Other("らない"),
///     Kanji { text: "天井", reading: Some("てんじょう") },
///     Other("だ"),
///   ]
/// Trailing okurigana matching the reading is split off so the HTML
/// renderer only puts furigana over the kanji portion.
pub fn parse_furigana(input: &str) -> (r: Vec<Segment>)
    ensures
        seg_views(r@) == parse_segments(input@),
{
    let v = chars_of(input);
    let n = v.len();
    let mut segments: Vec<Segment> = Vec::new();
    let ghost mut done: Seq<SegmentView> = seq![];
    let mut i: usize = 0;
    assert(v@.skip(0) == v@);
    assert(seg_views(segments@) == Seq::<SegmentView>::empty());
    while i < n
        invariant
            n == v.len(),
            i <= n,
            furigana_pieces(v@) == done + furigana_pieces(v@.skip(i as int)),
            seg_views(segments@) == coalesce(done),
        decreases n - i,
    {
        let ghost s = v@.skip(i as int);
        let c = v[i];
        if !is_cjk(c) {
            let one = vec![c];
            push_other(&mut segments, &one);
            proof {
                assert(s.drop_first() == v@.skip(i + 1));
                assert(one@ == seq![s[0]]);
                let p = SegmentView::Other(seq![s[0]]);
                assert(furigana_pieces(s) == seq![p] + furigana_pieces(v@.skip(i + 1)));
                assert(done.push(p).drop_last() == done);
                assert(done + furigana_pieces(s) == done.push(p) + furigana_pieces(
                    v@.skip(i + 1),
                ));
                done = done.push(p);
            }
            i = i + 1;
        } else {
            let j = find_char(&v, i, '[');
            if j >= n {
                let rest_text = slice_chars(&v, i, n);
                push_other(&mut segments, &rest_text);
                proof {
                    assert(rest_text@ == s);
                    let p = SegmentView::Other(s);
                    assert(furigana_pieces(s) == seq![p]);
                    assert(v@.skip(n as int) == Seq::<char>::empty());
                    assert(done.push(p).drop_last() == done);
                    assert(done + furigana_pieces(s) == done.push(p) + furigana_pieces(
                        v@.skip(n as int),
                    ));
                    done = done.push(p);
                }
                i = n;
            } else {
                let text = slice_chars(&v, i, j);
                let k = find_char(&v, j + 1, ']');
                let reading = slice_chars(&v, j + 1, k);
                let next = if k < n {
                    k + 1
                } else {
                    n
                };
                let (kanji_text, kanji_reading, okurigana) = trim_trailing_okurigana(
                    &text,
                    &reading,
                );
                let ghost before = seg_views(segments@);
                segments.push(
                    Segment::Kanji {
                        text: string_of(&kanji_text),
                        reading: Some(string_of(&kanji_reading)),
                    },
                );
                push_other(&mut segments, &okurigana);
                proof {
                    let rest = s.skip(j - i + 1);
                    assert(s.take(j - i) == text@);
                    assert(rest == v@.skip(j + 1));
                    assert(rest.take(k - j - 1) == reading@);
                    if k < n {
                        assert(rest.skip(k - j) == v@.skip(k + 1));
                    } else {
                        assert(v@.skip(n as int) == Seq::<char>::empty());
                    }
                    let nn = okurigana_len(text@, reading@);
                    let kp = SegmentView::Kanji {
                        text: text@.take(text@.len() - nn),
                        reading: Some(reading@.take(reading@.len() - nn)),
                    };
                    let op = SegmentView::Other(text@.skip(text@.len() - nn));
                    assert(furigana_pieces(s) == seq![kp, op] + furigana_pieces(
                        v@.skip(next as int),
                    ));
                    let d1 = done.push(kp);
                    let d2 = d1.push(op);
                    assert(d1.drop_last() == done);
                    assert(d2.drop_last() == d1);
                    assert(coalesce(d1) == before.push(kp));
                    assert(done + furigana_pieces(s) == d2 + furigana_pieces(
                        v@.skip(next as int),
                    ));
                    done = d2;
                }
                i = next;
            }
        }
    }
    proof {
        assert(v@.skip(n as int) == Seq::<char>::empty());
        assert(done + Seq::<SegmentView>::empty() == done);
    }
    segments
}

// ── HTML rendering ─────────────────────────────────────────────────────────

/// HTML escaping of one character: `&`, `<`, `>` and `"` become entities.
pub open spec fn escape_char(c: char) -> Seq<char> {
    if c == '&' {
        "&amp;"@
    } else if c == '<' {
        "&lt;"@
    } else if c == '>' {
        "&gt;"@
    } else if c == '"' {
        "&quot;"@
    } else {
        seq![c]
    }
}

/// HTML escaping of a string, character by character.
pub open spec fn escape(s: Seq<char>) -> Seq<char>
    decreases s.len(),
{
    if s.len() == 0 {
        seq![]
    } else {
        escape(s.drop_last()) + escape_char(s.last())
    }
}

/// Opening markup of an annotated kanji run, up to its reading.
pub open spec fn ruby_open() -> Seq<char> {
    "<span class=\"furigana\"><span class=\"read\">"@
}

/// Markup between the reading and the base text.
pub open spec fn ruby_mid() -> Seq<char> {
    "</span><span class=\"base\">"@
}

/// Closing markup of an annotated kanji run.
pub open spec fn ruby_close() -> Seq<char> {
    "</span></span>"@
}

/// HTML of one segment: a kanji run with a reading becomes a `furigana`
/// span holding a `read` span and a `base` span; everything else is its
/// escaped text.
pub open spec fn render_segment(seg: SegmentView) -> Seq<char> {
    match seg {
        SegmentView::Kanji { text, reading: Some(r) } => ruby_open() + escape(r) + ruby_mid()
            + escape(text) + ruby_close(),
        SegmentView::Kanji { text, reading: None } => escape(text),
        SegmentView::Other(s) => escape(s),
    }
}

/// HTML of a sequence of segments, in order.
pub open spec fn render(segs: Seq<SegmentView>) -> Seq<char>
    decreases segs.len(),
{
    if segs.len() == 0 {
        seq![]
    } else {
        render(segs.drop_last()) + render_segment(segs.last())
    }
}

/// HTML escaping (`&`, `<`, `>`, `"`), appended to `out`.
fn push_html_escaped(out: &mut Vec<char>, s: &String)
    ensures
        final(out)@ == old(out)@ + escape(s@),
{
    let v = chars_of(s.as_str());
    let mut i: usize = 0;
    assert(v@.take(0) == Seq::<char>::empty());
    while i < v.len()
        invariant
            i <= v.len(),
            out@ == old(out)@ + escape(v@.take(i as int)),
        decreases v.len() - i,
    {
        let c = v[i];
        let ghost before = out@;
        if c == '&' {
            extend_chars(out, &chars_of("&amp;"));
        } else if c == '<' {
            extend_chars(out, &chars_of("&lt;"));
        } else if c == '>' {
            extend_chars(out, &chars_of("&gt;"));
        } else if c == '"' {
            extend_chars(out, &chars_of("&quot;"));
        } else {
            out.push(c);
        }
        assert(out@ == before + escape_char(c));
        assert(v@.take(i + 1).drop_last() == v@.take(i as int));
        i = i + 1;
    }
    assert(v@.take(v.len() as int) == v@);
}

/// Render segments as HTML span markup for CSS-based ruby annotation display.
///
/// The output uses `<span class="furigana">` as a CSS grid container
/// with two children:
/// - `<span class="read">` — the reading (small text above)
/// - `<span class="base">` — the kanji (baseline text)
///
/// Non-kanji segments pass through as-is (HTML-escaped).
pub fn segments_to_html(segments: &[Segment]) -> (r: String)
    ensures
        r@ == render(seg_views(segments@)),
{
    let mut out: Vec<char> = Vec::new();
    let mut i: usize = 0;
    assert(seg_views(segments@).take(0) == Seq::<SegmentView>::empty());
    while i < segments.len()
        invariant
            i <= segments.len(),
            out@ == render(seg_views(segments@).take(i as int)),
        decreases segments.len() - i,
    {
        let ghost before = out@;
        match &segments[i] {
            Segment::Kanji { text, reading: Some(reading) } => {
                extend_chars(&mut out, &chars_of("<span class=\"furigana\"><span class=\"read\">"));
                push_html_escaped(&mut out, reading);
                extend_chars(&mut out, &chars_of("</span><span class=\"base\">"));
                push_html_escaped(&mut out, text);
                extend_chars(&mut out, &chars_of("</span></span>"));
            },
            Segment::Kanji { text, reading: None } => {
                push_html_escaped(&mut out, text);
            },
            Segment::Other(s) => {
                push_html_escaped(&mut out, s);
            },
        }
        assert(out@ == before + render_segment(segments@[i as int]@));
        assert(seg_views(segments@).take(i + 1).drop_last() == seg_views(segments@).take(
            i as int,
        ));
        i = i + 1;
    }
    assert(seg_views(segments@).take(segments.len() as int) == seg_views(segments@));
    string_of(&out)
}

/// Convenience wrapper: parse + render in one call.
///
/// Equivalent to `segments_to_html(&parse_furigana(input))`.
pub fn furigana_to_html(input: &str) -> (r: String)
    ensures
        r@ == render(parse_segments(input@)),
{
    let segments = parse_furigana(input);
    segments_to_html(segments.as_slice())
}


// ── Laws ───────────────────────────────────────────────────────────────────

/// A kanji segment as the parser makes them: with a reading, and with text
/// that begins with a CJK ideograph.
pub open spec fn is_annotated_kanji(seg: SegmentView) -> bool {
    match seg {
        SegmentView::Kanji { text, reading } => reading is Some && text.len() > 0 && is_cjk_char(
            text[0],
        ),
        SegmentView::Other(_) => true,
    }
}

/// Segments in normal form: every kanji segment annotated, no empty plain
/// text, and never two plain-text segments side by side.
pub open spec fn well_formed(segs: Seq<SegmentView>) -> bool {
    &&& forall|i: int| 0 <= i < segs.len() ==> is_annotated_kanji(#[trigger] segs[i])
    &&& forall|i: int| 0 <= i < segs.len() && #[trigger] segs[i] is Other ==> segs[i]->0.len() > 0
    &&& forall|i: int|
        0 <= i < segs.len() - 1 && #[trigger] segs[i] is Other ==> !(segs[i + 1] is Other)
}

/// The okurigana split off a kanji run never reaches its first character
/// when that character is CJK.
pub proof fn lemma_okurigana_len(text: Seq<char>, reading: Seq<char>)
    ensures
        okurigana_len(text, reading) <= text.len(),
        okurigana_len(text, reading) <= reading.len(),
        forall|k: int|
            text.len() - okurigana_len(text, reading) <= k < text.len() ==> !is_cjk_char(
                #[trigger] text[k],
            ),
    decreases text.len(),
{
    if text.len() > 0 && reading.len() > 0 && !is_cjk_char(text.last()) && text.last()
        == reading.last() {
        lemma_okurigana_len(text.drop_last(), reading.drop_last());
        assert forall|k: int|
            text.len() - okurigana_len(text, reading) <= k < text.len() implies !is_cjk_char(
            #[trigger] text[k],
        ) by {
            if k < text.len() - 1 {
                assert(text[k] == text.drop_last()[k]);
            }
        }
    }
}

/// Every piece the parser cuts is annotated kanji or plain text.
proof fn lemma_pieces_annotated(s: Seq<char>)
    ensures
        forall|i: int|
            0 <= i < furigana_pieces(s).len() ==> is_annotated_kanji(#[trigger] furigana_pieces(s)[i]),
    decreases s.len(),
{
    if s.len() > 0 {
        if !is_cjk_char(s[0]) {
            lemma_pieces_annotated(s.drop_first());
            let head = seq![SegmentView::Other(seq![s[0]])];
            assert forall|i: int| 0 <= i < furigana_pieces(s).len() implies is_annotated_kanji(
                #[trigger] furigana_pieces(s)[i],
            ) by {
                if i > 0 {
                    assert(furigana_pieces(s)[i] == furigana_pieces(s.drop_first())[i - 1]);
                }
            }
        } else {
            let j = first_index(s, '[');
            lemma_first_index_bounds(s, '[');
            if j < s.len() {
                let text = s.take(j as int);
                let rest = s.skip(j + 1 as int);
                let k = first_index(rest, ']');
                let reading = rest.take(k as int);
                let after = if k < rest.len() {
                    rest.skip(k + 1 as int)
                } else {
                    seq![]
                };
                lemma_first_index_bounds(rest, ']');
                lemma_pieces_annotated(after);
                lemma_okurigana_len(text, reading);
                let n = okurigana_len(text, reading);
                assert(s[0] != '[');
                assert(j > 0);
                assert(text[0] == s[0]);
                if n == text.len() {
                    assert(!is_cjk_char(text[0]));
                }
                assert(text.take(text.len() - n)[0] == s[0]);
                assert forall|i: int| 0 <= i < furigana_pieces(s).len() implies is_annotated_kanji(
                    #[trigger] furigana_pieces(s)[i],
                ) by {
                    if i > 1 {
                        assert(furigana_pieces(s)[i] == furigana_pieces(after)[i - 2]);
                    }
                }
            }
        }
    }
}

/// Coalescing annotated pieces gives segments in normal form.
proof fn lemma_coalesce_well_formed(ps: Seq<SegmentView>)
    requires
        forall|i: int| 0 <= i < ps.len() ==> is_annotated_kanji(#[trigger] ps[i]),
    ensures
        well_formed(coalesce(ps)),
    decreases ps.len(),
{
    if ps.len() > 0 {
        let p = ps.drop_last();
        assert forall|i: int| 0 <= i < p.len() implies is_annotated_kanji(#[trigger] p[i]) by {
            assert(p[i] == ps[i]);
        }
        lemma_coalesce_well_formed(p);
        let acc = coalesce(p);
        let last = ps.last();
        assert(is_annotated_kanji(ps[ps.len() - 1]));
        let r = coalesce(ps);
        assert(r == add_piece(acc, last));
        match last {
            SegmentView::Other(c) => {
                if c.len() == 0 {
                } else if acc.len() > 0 && acc.last() is Other {
                    let m = SegmentView::Other(acc.last()->0 + c);
                    assert(r == acc.drop_last().push(m));
                    assert forall|i: int| 0 <= i < r.len() implies is_annotated_kanji(
                        #[trigger] r[i],
                    ) by {
                        if i < r.len() - 1 {
                            assert(r[i] == acc[i]);
                        }
                    }
                    assert forall|i: int| 0 <= i < r.len() && #[trigger] r[i] is Other implies r[i]->0.len()
                        > 0 by {
                        if i < r.len() - 1 {
                            assert(r[i] == acc[i]);
                        }
                    }
                    assert forall|i: int| 0 <= i < r.len() - 1 && #[trigger] r[i] is Other implies !(r[i
                        + 1] is Other) by {
                        assert(r[i] == acc[i]);
                        if i + 1 < r.len() - 1 {
                            assert(r[i + 1] == acc[i + 1]);
                        } else {
                            assert(acc[i + 1] is Other);
                        }
                    }
                } else {
                    let m = SegmentView::Other(c);
                    assert(r == acc.push(m));
                    assert forall|i: int| 0 <= i < r.len() - 1 && #[trigger] r[i] is Other implies !(r[i
                        + 1] is Other) by {
                        assert(r[i] == acc[i]);
                        if i + 1 < r.len() - 1 {
                            assert(r[i + 1] == acc[i + 1]);
                        }
                    }
                }
            },
            _ => {
                assert(r == acc.push(last));
                assert forall|i: int| 0 <= i < r.len() - 1 && #[trigger] r[i] is Other implies !(r[i
                    + 1] is Other) by {
                    assert(r[i] == acc[i]);
                    if i + 1 < r.len() - 1 {
                        assert(r[i + 1] == acc[i + 1]);
                    }
                }
            },
        }
    }
}

/// Parsed segments are in normal form: plain text is coalesced and never
/// empty, and every kanji segment has a reading and begins with a CJK
/// ideograph.
pub proof fn lemma_parse_well_formed(s: Seq<char>)
    ensures
        well_formed(parse_segments(s)),
{
    lemma_pieces_annotated(s);
    lemma_coalesce_well_formed(furigana_pieces(s));
}


/// Adding plain text in two steps is adding it at once.
pub proof fn lemma_add_other_twice(acc: Seq<SegmentView>, x: Seq<char>, y: Seq<char>)
    ensures
        add_other(add_other(acc, x), y) == add_other(acc, x + y),
{
    if x.len() == 0 {
        assert(x + y == y);
    } else if y.len() == 0 {
        assert(x + y == x);
    } else {
        let a1 = add_other(acc, x);
        assert(a1.len() > 0 && a1.last() is Other);
        if acc.len() > 0 && acc.last() is Other {
            assert(a1.drop_last() == acc.drop_last());
            assert(acc.last()->0 + x + y == acc.last()->0 + (x + y));
        } else {
            assert(a1.drop_last() == acc);
        }
    }
}

/// Parsing text that holds no `[` after earlier pieces adds the text as
/// plain text.
proof fn lemma_coalesce_unbracketed(acc: Seq<SegmentView>, s: Seq<char>)
    requires
        (forall|i: int| 0 <= i < s.len() ==> s[i] != '[') || (forall|i: int|
            0 <= i < s.len() ==> !is_cjk_char(#[trigger] s[i])),
    ensures
        coalesce(acc + furigana_pieces(s)) == add_other(coalesce(acc), s),
    decreases s.len(),
{
    if s.len() == 0 {
        assert(acc + furigana_pieces(s) == acc);
    } else if !is_cjk_char(s[0]) {
        let p = SegmentView::Other(seq![s[0]]);
        let rest = s.drop_first();
        if forall|i: int| 0 <= i < s.len() ==> s[i] != '[' {
            assert forall|i: int| 0 <= i < rest.len() implies rest[i] != '[' by {
                assert(rest[i] == s[i + 1]);
            }
        } else {
            assert forall|i: int| 0 <= i < rest.len() implies !is_cjk_char(#[trigger] rest[i]) by {
                assert(rest[i] == s[i + 1]);
            }
        }
        lemma_coalesce_unbracketed(acc.push(p), rest);
        assert(acc + furigana_pieces(s) == acc.push(p) + furigana_pieces(rest));
        assert(acc.push(p).drop_last() == acc);
        lemma_add_other_twice(coalesce(acc), seq![s[0]], rest);
        assert(seq![s[0]] + rest == s);
    } else {
        lemma_first_index(s, '[', s.len() as int);
        let p = SegmentView::Other(s);
        assert(acc + furigana_pieces(s) == acc.push(p));
        assert(acc.push(p).drop_last() == acc);
    }
}

/// Text without any `[`, or without any CJK ideograph, is a single
/// plain-text segment (none when empty): kanji without brackets carry no
/// reading, a `[` after other text is literal, and nothing is split.
pub proof fn lemma_parse_unbracketed(s: Seq<char>)
    requires
        (forall|i: int| 0 <= i < s.len() ==> s[i] != '[') || (forall|i: int|
            0 <= i < s.len() ==> !is_cjk_char(#[trigger] s[i])),
    ensures
        parse_segments(s) == if s.len() == 0 {
            Seq::<SegmentView>::empty()
        } else {
            seq![SegmentView::Other(s)]
        },
{
    let e = Seq::<SegmentView>::empty();
    lemma_coalesce_unbracketed(e, s);
    assert(e + furigana_pieces(s) == furigana_pieces(s));
}


/// Escaped text holds no raw markup: no `<`, `>` or `"`.
pub open spec fn markup_free(s: Seq<char>) -> bool {
    forall|i: int| 0 <= i < s.len() ==> #[trigger] s[i] != '<' && s[i] != '>' && s[i] != '"'
}

/// HTML escaping leaves no `<`, `>` or `"` in the text.
pub proof fn lemma_escape_markup_free(s: Seq<char>)
    ensures
        markup_free(escape(s)),
    decreases s.len(),
{
    if s.len() > 0 {
        reveal_strlit("&amp;");
        reveal_strlit("&lt;");
        reveal_strlit("&gt;");
        reveal_strlit("&quot;");
        lemma_escape_markup_free(s.drop_last());
        let a = escape(s.drop_last());
        let b = escape_char(s.last());
        assert(markup_free(b));
        assert forall|i: int| 0 <= i < escape(s).len() implies #[trigger] escape(s)[i] != '<'
            && escape(s)[i] != '>' && escape(s)[i] != '"' by {
            if i < a.len() {
                assert(escape(s)[i] == a[i]);
            } else {
                assert(escape(s)[i] == b[i - a.len()]);
            }
        }
    }
}

/// A kanji segment without a reading renders exactly like plain text.
pub proof fn lemma_unread_kanji_renders_as_text(text: Seq<char>)
    ensures
        render_segment(SegmentView::Kanji { text, reading: None }) == render_segment(
            SegmentView::Other(text),
        ),
{
}

/// Segments without readings render as their escaped text, markup-free.
pub proof fn lemma_render_plain(segs: Seq<SegmentView>)
    requires
        forall|i: int| 0 <= i < segs.len() ==> !(#[trigger] segs[i] matches SegmentView::Kanji {
            reading: Some(_),
            ..
        }),
    ensures
        render(segs) == escape(plain_text(segs)),
        markup_free(render(segs)),
    decreases segs.len(),
{
    if segs.len() > 0 {
        let p = segs.drop_last();
        assert forall|i: int| 0 <= i < p.len() implies !(#[trigger] p[i] matches SegmentView::Kanji {
            reading: Some(_),
            ..
        }) by {
            assert(p[i] == segs[i]);
        }
        lemma_render_plain(p);
        let last = segs.last();
        assert(!(segs[segs.len() - 1] matches SegmentView::Kanji { reading: Some(_), .. }));
        lemma_escape_concat(plain_text(p), segment_text(last));
    }
    lemma_escape_markup_free(plain_text(segs));
}

/// Escaping distributes over concatenation.
pub proof fn lemma_escape_concat(a: Seq<char>, b: Seq<char>)
    ensures
        escape(a + b) == escape(a) + escape(b),
    decreases b.len(),
{
    if b.len() == 0 {
        assert(a + b == a);
    } else {
        lemma_escape_concat(a, b.drop_last());
        assert((a + b).drop_last() == a + b.drop_last());
        assert((a + b).last() == b.last());
    }
}

/// The text a segment shows, without its reading.
pub open spec fn segment_text(seg: SegmentView) -> Seq<char> {
    match seg {
        SegmentView::Kanji { text, .. } => text,
        SegmentView::Other(s) => s,
    }
}

/// The text segments show, without readings.
pub open spec fn plain_text(segs: Seq<SegmentView>) -> Seq<char>
    decreases segs.len(),
{
    if segs.len() == 0 {
        seq![]
    } else {
        plain_text(segs.drop_last()) + segment_text(segs.last())
    }
}


/// HTML entity decoding of the four entities `escape` writes, left to right.
pub open spec fn unescape(s: Seq<char>) -> Seq<char>
    decreases s.len(),
{
    if s.len() >= 5 && s.take(5) == seq!['&', 'a', 'm', 'p', ';'] {
        seq!['&'] + unescape(s.skip(5))
    } else if s.len() >= 4 && s.take(4) == seq!['&', 'l', 't', ';'] {
        seq!['<'] + unescape(s.skip(4))
    } else if s.len() >= 4 && s.take(4) == seq!['&', 'g', 't', ';'] {
        seq!['>'] + unescape(s.skip(4))
    } else if s.len() >= 6 && s.take(6) == seq!['&', 'q', 'u', 'o', 't', ';'] {
        seq!['"'] + unescape(s.skip(6))
    } else if s.len() == 0 {
        s
    } else {
        seq![s[0]] + unescape(s.drop_first())
    }
}

/// Decoding an escaped character in front of more text.
proof fn lemma_unescape_char(c: char, rest: Seq<char>)
    ensures
        unescape(escape_char(c) + rest) == seq![c] + unescape(rest),
{
    reveal_strlit("&amp;");
    reveal_strlit("&lt;");
    reveal_strlit("&gt;");
    reveal_strlit("&quot;");
    let e = escape_char(c);
    let t = e + rest;
    if c == '&' {
        assert(t.take(5) == seq!['&', 'a', 'm', 'p', ';']);
        assert(t.skip(5) == rest);
    } else if c == '<' {
        assert(t.take(4) == seq!['&', 'l', 't', ';']);
        assert(t.len() >= 5 ==> t.take(5) != seq!['&', 'a', 'm', 'p', ';']) by {
            if t.len() >= 5 {
                assert(t.take(5)[1] == 'l');
                assert(seq!['&', 'a', 'm', 'p', ';'][1] == 'a');
            }
        }
        assert(t.skip(4) == rest);
    } else if c == '>' {
        assert(t.take(4) == seq!['&', 'g', 't', ';']);
        assert(t.len() >= 5 ==> t.take(5) != seq!['&', 'a', 'm', 'p', ';']) by {
            if t.len() >= 5 {
                assert(t.take(5)[1] == 'g');
                assert(seq!['&', 'a', 'm', 'p', ';'][1] == 'a');
            }
        }
        assert(t.take(4) != seq!['&', 'l', 't', ';']) by {
            assert(t.take(4)[1] == 'g');
        }
        assert(t.skip(4) == rest);
    } else if c == '"' {
        assert(t.take(6) == seq!['&', 'q', 'u', 'o', 't', ';']);
        assert(t.take(5) != seq!['&', 'a', 'm', 'p', ';']) by {
            assert(t.take(5)[1] == 'q');
        }
        assert(t.take(4) != seq!['&', 'l', 't', ';']) by {
            assert(t.take(4)[1] == 'q');
        }
        assert(t.take(4) != seq!['&', 'g', 't', ';']) by {
            assert(t.take(4)[1] == 'q');
        }
        assert(t.skip(6) == rest);
    } else {
        assert(e == seq![c]);
        assert(t[0] == c);
        if t.len() >= 4 {
            assert(t.take(4)[0] == c);
        }
        if t.len() >= 5 {
            assert(t.take(5)[0] == c);
        }
        if t.len() >= 6 {
            assert(t.take(6)[0] == c);
        }
        assert(t.drop_first() == rest);
    }
}

/// HTML escaping loses nothing: decoding the entities gives back the text,
/// so a browser shows exactly the escaped text.
pub proof fn lemma_unescape_escape(s: Seq<char>)
    ensures
        unescape(escape(s)) == s,
    decreases s.len(),
{
    if s.len() > 0 {
        let rest = s.drop_first();
        lemma_unescape_escape(rest);
        lemma_escape_concat(seq![s[0]], rest);
        assert(seq![s[0]] + rest == s);
        assert(escape(seq![s[0]]) == escape_char(s[0])) by {
            assert(seq![s[0]].drop_last().len() == 0);
            assert(escape(seq![s[0]].drop_last()) == Seq::<char>::empty());
            assert(Seq::<char>::empty() + escape_char(s[0]) == escape_char(s[0]));
        }
        lemma_unescape_char(s[0], escape(rest));
    } else {
        assert(escape(s) == Seq::<char>::empty());
    }
}

/// Plain text of a concatenation of segment sequences.
pub proof fn lemma_plain_text_concat(a: Seq<SegmentView>, b: Seq<SegmentView>)
    ensures
        plain_text(a + b) == plain_text(a) + plain_text(b),
    decreases b.len(),
{
    if b.len() == 0 {
        assert(a + b == a);
    } else {
        lemma_plain_text_concat(a, b.drop_last());
        assert((a + b).drop_last() == a + b.drop_last());
        assert((a + b).last() == b.last());
    }
}

/// Coalescing keeps the text.
pub proof fn lemma_plain_text_coalesce(ps: Seq<SegmentView>)
    ensures
        plain_text(coalesce(ps)) == plain_text(ps),
    decreases ps.len(),
{
    if ps.len() > 0 {
        let p = ps.drop_last();
        lemma_plain_text_coalesce(p);
        let acc = coalesce(p);
        let last = ps.last();
        match last {
            SegmentView::Other(c) => {
                if c.len() == 0 {
                    assert(segment_text(last) == c);
                } else if acc.len() > 0 && acc.last() is Other {
                    let m = SegmentView::Other(acc.last()->0 + c);
                    let r = acc.drop_last().push(m);
                    assert(r.drop_last() == acc.drop_last());
                    assert(plain_text(acc) == plain_text(acc.drop_last()) + acc.last()->0);
                } else {
                    assert(acc.push(last).drop_last() == acc);
                }
            },
            _ => {
                assert(acc.push(last).drop_last() == acc);
            },
        }
    }
}

/// A kanji run, its reading, and the plain text after the closing bracket.
pub type BracketUnit = (Seq<char>, Seq<char>, Seq<char>);

/// The bracket text of units: `run[reading]after` for each, in order.
pub open spec fn units_text(us: Seq<BracketUnit>) -> Seq<char>
    decreases us.len(),
{
    if us.len() == 0 {
        seq![]
    } else {
        us[0].0 + seq!['['] + us[0].1 + seq![']'] + us[0].2 + units_text(us.drop_first())
    }
}

/// The text of units with their readings removed: `run after` for each.
pub open spec fn units_plain(us: Seq<BracketUnit>) -> Seq<char>
    decreases us.len(),
{
    if us.len() == 0 {
        seq![]
    } else {
        us[0].0 + us[0].2 + units_plain(us.drop_first())
    }
}

/// The annotated segment a unit becomes: run and reading with their shared
/// okurigana split off.
pub open spec fn unit_segment(u: BracketUnit) -> SegmentView {
    let n = okurigana_len(u.0, u.1);
    SegmentView::Kanji { text: u.0.take(u.0.len() - n), reading: Some(u.1.take(u.1.len() - n)) }
}

/// The kanji segments, in order.
pub open spec fn kanji_segments(segs: Seq<SegmentView>) -> Seq<SegmentView>
    decreases segs.len(),
{
    if segs.len() == 0 {
        seq![]
    } else if segs.last() is Kanji {
        kanji_segments(segs.drop_last()).push(segs.last())
    } else {
        kanji_segments(segs.drop_last())
    }
}

/// No CJK ideograph in the text.
pub open spec fn no_cjk(s: Seq<char>) -> bool {
    forall|i: int| 0 <= i < s.len() ==> !is_cjk_char(#[trigger] s[i])
}

/// A well-formed bracket string `w0 k1[r1] w1 … kn[rn] wn`: each run is
/// non-empty, opens with a CJK ideograph and holds no `[`; no reading holds
/// `]`; no plain text holds a CJK ideograph.
pub open spec fn well_bracketed(w0: Seq<char>, us: Seq<BracketUnit>) -> bool {
    &&& no_cjk(w0)
    &&& forall|i: int|
        0 <= i < us.len() ==> {
            let u = #[trigger] us[i];
            &&& u.0.len() > 0
            &&& is_cjk_char(u.0[0])
            &&& forall|k: int| 0 <= k < u.0.len() ==> u.0[k] != '['
            &&& forall|k: int| 0 <= k < u.1.len() ==> u.1[k] != ']'
            &&& no_cjk(u.2)
        }
}

/// One plain-text piece per character.
pub open spec fn char_pieces(x: Seq<char>) -> Seq<SegmentView> {
    x.map_values(|c: char| SegmentView::Other(seq![c]))
}

proof fn lemma_kanji_segments_concat(a: Seq<SegmentView>, b: Seq<SegmentView>)
    ensures
        kanji_segments(a + b) == kanji_segments(a) + kanji_segments(b),
    decreases b.len(),
{
    if b.len() == 0 {
        assert(a + b == a);
    } else {
        lemma_kanji_segments_concat(a, b.drop_last());
        assert((a + b).drop_last() == a + b.drop_last());
        assert((a + b).last() == b.last());
    }
}

proof fn lemma_char_pieces(x: Seq<char>)
    ensures
        kanji_segments(char_pieces(x)) == Seq::<SegmentView>::empty(),
        plain_text(char_pieces(x)) == x,
    decreases x.len(),
{
    if x.len() > 0 {
        lemma_char_pieces(x.drop_last());
        assert(char_pieces(x).drop_last() == char_pieces(x.drop_last()));
        assert(char_pieces(x).last() == SegmentView::Other(seq![x.last()]));
        assert(x.drop_last() + seq![x.last()] == x);
    } else {
        assert(char_pieces(x).len() == 0);
    }
}

/// Coalescing keeps the kanji segments.
proof fn lemma_kanji_segments_coalesce(ps: Seq<SegmentView>)
    ensures
        kanji_segments(coalesce(ps)) == kanji_segments(ps),
    decreases ps.len(),
{
    if ps.len() > 0 {
        let p = ps.drop_last();
        lemma_kanji_segments_coalesce(p);
        let acc = coalesce(p);
        let last = ps.last();
        match last {
            SegmentView::Other(c) => {
                if c.len() == 0 {
                } else if acc.len() > 0 && acc.last() is Other {
                    let m = SegmentView::Other(acc.last()->0 + c);
                    let r = acc.drop_last().push(m);
                    assert(r.drop_last() == acc.drop_last());
                } else {
                    assert(acc.push(last).drop_last() == acc);
                }
            },
            _ => {
                assert(acc.push(last).drop_last() == acc);
            },
        }
    }
}

/// Text without CJK ideographs is cut into one plain piece per character.
proof fn lemma_pieces_no_cjk(x: Seq<char>, r: Seq<char>)
    requires
        no_cjk(x),
    ensures
        furigana_pieces(x + r) == char_pieces(x) + furigana_pieces(r),
    decreases x.len(),
{
    if x.len() == 0 {
        assert(x + r == r);
        assert(char_pieces(x) + furigana_pieces(r) == furigana_pieces(r));
    } else {
        let rest = x.drop_first();
        assert forall|i: int| 0 <= i < rest.len() implies !is_cjk_char(#[trigger] rest[i]) by {
            assert(rest[i] == x[i + 1]);
        }
        lemma_pieces_no_cjk(rest, r);
        assert((x + r)[0] == x[0]);
        assert((x + r).drop_first() == rest + r);
        assert(char_pieces(x) == seq![SegmentView::Other(seq![x[0]])] + char_pieces(rest));
    }
}

/// A run followed by its bracketed reading is cut into its annotated
/// segment and its okurigana.
proof fn lemma_pieces_unit(u: BracketUnit, r: Seq<char>)
    requires
        u.0.len() > 0,
        is_cjk_char(u.0[0]),
        forall|k: int| 0 <= k < u.0.len() ==> u.0[k] != '[',
        forall|k: int| 0 <= k < u.1.len() ==> u.1[k] != ']',
    ensures
        furigana_pieces(u.0 + seq!['['] + u.1 + seq![']'] + r) == seq![
            unit_segment(u),
            SegmentView::Other(u.0.skip(u.0.len() - okurigana_len(u.0, u.1))),
        ] + furigana_pieces(r),
{
    let run = u.0;
    let reading = u.1;
    let s = run + seq!['['] + reading + seq![']'] + r;
    assert(s[0] == run[0]);
    lemma_first_index(s, '[', run.len() as int);
    let rest = s.skip(run.len() + 1 as int);
    assert(rest == reading + seq![']'] + r);
    lemma_first_index(rest, ']', reading.len() as int);
    assert(s.take(run.len() as int) == run);
    assert(rest.take(reading.len() as int) == reading);
    assert(rest.skip(reading.len() + 1 as int) == r);
}

/// The pieces of plain text followed by units.
proof fn lemma_pieces_units(w: Seq<char>, us: Seq<BracketUnit>)
    requires
        well_bracketed(w, us),
    ensures
        kanji_segments(furigana_pieces(w + units_text(us))) == us.map_values(
            |u: BracketUnit| unit_segment(u),
        ),
        plain_text(furigana_pieces(w + units_text(us))) == w + units_plain(us),
    decreases us.len(),
{
    let f = |u: BracketUnit| unit_segment(u);
    lemma_char_pieces(w);
    if us.len() == 0 {
        assert(w + units_text(us) == w + Seq::<char>::empty());
        assert(w + Seq::<char>::empty() == w);
        lemma_pieces_no_cjk(w, Seq::<char>::empty());
        assert(furigana_pieces(Seq::<char>::empty()).len() == 0);
        assert(char_pieces(w) + furigana_pieces(Seq::<char>::empty()) == char_pieces(w));
        assert(us.map_values(f).len() == 0);
        assert(w + units_plain(us) == w);
    } else {
        let u = us[0];
        let tail = us.drop_first();
        assert(well_bracketed(u.2, tail)) by {
            assert forall|i: int| 0 <= i < tail.len() implies {
                let v = #[trigger] tail[i];
                &&& v.0.len() > 0
                &&& is_cjk_char(v.0[0])
                &&& forall|k: int| 0 <= k < v.0.len() ==> v.0[k] != '['
                &&& forall|k: int| 0 <= k < v.1.len() ==> v.1[k] != ']'
                &&& no_cjk(v.2)
            } by {
                assert(tail[i] == us[i + 1]);
            }
        }
        lemma_pieces_units(u.2, tail);
        let next = u.2 + units_text(tail);
        let body = u.0 + seq!['['] + u.1 + seq![']'] + next;
        assert(w + units_text(us) == w + body);
        lemma_pieces_no_cjk(w, body);
        lemma_pieces_unit(u, next);
        let n = okurigana_len(u.0, u.1);
        lemma_okurigana_len(u.0, u.1);
        let two = seq![unit_segment(u), SegmentView::Other(u.0.skip(u.0.len() - n))];
        let ps = char_pieces(w) + (two + furigana_pieces(next));
        assert(furigana_pieces(w + units_text(us)) == ps);
        lemma_kanji_segments_concat(char_pieces(w), two + furigana_pieces(next));
        lemma_kanji_segments_concat(two, furigana_pieces(next));
        lemma_plain_text_concat(char_pieces(w), two + furigana_pieces(next));
        lemma_plain_text_concat(two, furigana_pieces(next));
        assert(two.drop_last() == seq![unit_segment(u)]);
        assert(seq![unit_segment(u)].drop_last().len() == 0);
        let one = seq![unit_segment(u)];
        assert(two.last() is Other);
        assert(kanji_segments(two) == kanji_segments(one));
        assert(kanji_segments(one.drop_last()) == Seq::<SegmentView>::empty());
        assert(Seq::<SegmentView>::empty().push(unit_segment(u)) == one);
        assert(kanji_segments(two) == seq![unit_segment(u)]);
        assert(plain_text(seq![unit_segment(u)].drop_last()) == Seq::<char>::empty());
        assert(segment_text(unit_segment(u)) == u.0.take(u.0.len() - n));
        assert(Seq::<char>::empty() + u.0.take(u.0.len() - n) == u.0.take(u.0.len() - n));
        assert(plain_text(one) == u.0.take(u.0.len() - n));
        assert(plain_text(two) == plain_text(one) + u.0.skip(u.0.len() - n));
        assert(plain_text(two) == u.0.take(u.0.len() - n) + u.0.skip(u.0.len() - n));
        assert(u.0.take(u.0.len() - n) + u.0.skip(u.0.len() - n) == u.0);
        assert(us.map_values(f) == seq![unit_segment(u)] + tail.map_values(f));
        assert(Seq::<SegmentView>::empty() + (seq![unit_segment(u)] + tail.map_values(f))
            == us.map_values(f));
        assert(units_plain(us) == u.0 + u.2 + units_plain(tail));
        assert(w + (u.0 + (u.2 + units_plain(tail))) == w + units_plain(us));
    }
}

/// A well-formed bracket string `w0 k1[r1] w1 … kn[rn] wn` parses into
/// exactly n kanji segments, the i-th being run `ki` with reading `ri`,
/// their shared okurigana split off; and the segments' texts, in order,
/// spell the input with the bracketed readings removed.
pub proof fn lemma_parse_bracketed(w0: Seq<char>, us: Seq<BracketUnit>)
    requires
        well_bracketed(w0, us),
    ensures
        kanji_segments(parse_segments(w0 + units_text(us))) == us.map_values(
            |u: BracketUnit| unit_segment(u),
        ),
        plain_text(parse_segments(w0 + units_text(us))) == w0 + units_plain(us),
{
    lemma_pieces_units(w0, us);
    lemma_kanji_segments_coalesce(furigana_pieces(w0 + units_text(us)));
    lemma_plain_text_coalesce(furigana_pieces(w0 + units_text(us)));
}


/// The okurigana split off a kanji run is the longest shared tail of run
/// and reading made of characters that are not CJK: the run's tail equals
/// the reading's tail, and one more character would not do (the run or the
/// reading is used up, or the next character back is CJK or differs).
pub proof fn lemma_okurigana_longest(text: Seq<char>, reading: Seq<char>)
    ensures
        ({
            let n = okurigana_len(text, reading);
            let tl = text.len() as int;
            let rl = reading.len() as int;
            &&& n <= tl && n <= rl
            &&& text.skip(tl - n) == reading.skip(rl - n)
            &&& forall|k: int| tl - n <= k < tl ==> !is_cjk_char(#[trigger] text[k])
            &&& (n == tl || n == rl || is_cjk_char(text[tl - n - 1]) || text[tl - n - 1]
                != reading[rl - n - 1])
        }),
    decreases text.len(),
{
    lemma_okurigana_len(text, reading);
    let n = okurigana_len(text, reading);
    if text.len() > 0 && reading.len() > 0 && !is_cjk_char(text.last()) && text.last()
        == reading.last() {
        let t = text.drop_last();
        let r = reading.drop_last();
        lemma_okurigana_longest(t, r);
        let m = okurigana_len(t, r);
        assert(n == m + 1);
        assert(text.skip(text.len() - n) == t.skip(t.len() - m).push(text.last()));
        assert(reading.skip(reading.len() - n) == r.skip(r.len() - m).push(reading.last()));
        if m < t.len() && m < r.len() {
            assert(text[text.len() - n - 1] == t[t.len() - m - 1]);
            assert(reading[reading.len() - n - 1] == r[r.len() - m - 1]);
        }
    } else {
        assert(n == 0);
        assert(text.skip(text.len() as int) == Seq::<char>::empty());
        assert(reading.skip(reading.len() as int) == Seq::<char>::empty());
        if text.len() > 0 && reading.len() > 0 {
            assert(text[text.len() - 1] == text.last());
            assert(reading[reading.len() - 1] == reading.last());
        }
    }
}

} // verus!
