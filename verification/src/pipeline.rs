//! How the two rendering targets agree: the bracket text produced from
//! MeCab output, parsed back into segments, shows the analysed text.
use vstd::prelude::*;
use crate::kana::{contains_kanji, is_kanji};
use crate::mecab::{furigana_piece, furigana_text, mecab_annotation, MorphemeView};
use crate::segment::{
    furigana_pieces, is_cjk_char, lemma_okurigana_len, lemma_plain_text_coalesce,
    lemma_plain_text_concat, okurigana_len, parse_segments, plain_text, segment_text, SegmentView,
};
use crate::text::{concat, first_index, lemma_concat_first, lemma_first_index};

verus! {

/// Index of the first CJK ideograph of `s`, or `s.len()`.
pub open spec fn first_cjk(s: Seq<char>) -> nat
    decreases s.len(),
{
    if s.len() == 0 {
        0
    } else if is_cjk_char(s[0]) {
        0
    } else {
        1 + first_cjk(s.drop_first())
    }
}

/// A morpheme whose bracket form parses back cleanly: when its surface holds
/// kanji, one of them is a CJK ideograph that opens a run, no `[` follows
/// that ideograph in the surface, and the reading holds no `]`.
pub open spec fn brackets_cleanly(m: MorphemeView) -> bool {
    contains_kanji(m.surface) ==> {
        &&& first_cjk(m.surface) < m.surface.len()
        &&& forall|i: int|
            first_cjk(m.surface) <= i < m.surface.len() ==> #[trigger] m.surface[i] != '['
        &&& forall|i: int| 0 <= i < m.reading.len() ==> #[trigger] m.reading[i] != ']'
    }
}

/// The surfaces of the morphemes, one after another: the analysed text.
pub open spec fn surface_text(ms: Seq<MorphemeView>) -> Seq<char> {
    concat(ms.map_values(|m: MorphemeView| m.surface))
}

proof fn lemma_first_cjk(s: Seq<char>)
    ensures
        first_cjk(s) <= s.len(),
        forall|k: int| 0 <= k < first_cjk(s) ==> !is_cjk_char(#[trigger] s[k]),
        first_cjk(s) < s.len() ==> is_cjk_char(s[first_cjk(s) as int]),
    decreases s.len(),
{
    if s.len() > 0 && !is_cjk_char(s[0]) {
        lemma_first_cjk(s.drop_first());
        assert forall|k: int| 0 <= k < first_cjk(s) implies !is_cjk_char(#[trigger] s[k]) by {
            if k > 0 {
                assert(s[k] == s.drop_first()[k - 1]);
            }
        }
    }
}

/// Text without CJK ideographs passes through the parser character by
/// character.
proof fn lemma_plain_pieces_no_cjk(x: Seq<char>, r: Seq<char>)
    requires
        forall|i: int| 0 <= i < x.len() ==> !is_cjk_char(#[trigger] x[i]),
    ensures
        plain_text(furigana_pieces(x + r)) == x + plain_text(furigana_pieces(r)),
    decreases x.len(),
{
    if x.len() == 0 {
        assert(x + r == r);
    } else {
        let rest = x.drop_first();
        assert forall|i: int| 0 <= i < rest.len() implies !is_cjk_char(#[trigger] rest[i]) by {
            assert(rest[i] == x[i + 1]);
        }
        lemma_plain_pieces_no_cjk(rest, r);
        assert((x + r)[0] == x[0]);
        assert((x + r).drop_first() == rest + r);
        let head = seq![SegmentView::Other(seq![x[0]])];
        assert(furigana_pieces(x + r) == head + furigana_pieces(rest + r));
        lemma_plain_text_concat(head, furigana_pieces(rest + r));
        assert(head.drop_last().len() == 0);
        assert(plain_text(head.drop_last()) == Seq::<char>::empty());
        assert(segment_text(head.last()) == seq![x[0]]);
        assert(Seq::<char>::empty() + seq![x[0]] == seq![x[0]]);
        assert(plain_text(head) == seq![x[0]]);
        assert(seq![x[0]] + (rest + plain_text(furigana_pieces(r))) == x + plain_text(
            furigana_pieces(r),
        ));
    }
}

/// A kanji run followed by its bracketed reading passes through the parser
/// as the run's text.
proof fn lemma_plain_pieces_run(u: Seq<char>, reading: Seq<char>, r: Seq<char>)
    requires
        u.len() > 0,
        is_cjk_char(u[0]),
        forall|i: int| 0 <= i < u.len() ==> #[trigger] u[i] != '[',
        forall|i: int| 0 <= i < reading.len() ==> #[trigger] reading[i] != ']',
    ensures
        plain_text(furigana_pieces(u + seq!['['] + reading + seq![']'] + r)) == u + plain_text(
            furigana_pieces(r),
        ),
{
    let s = u + seq!['['] + reading + seq![']'] + r;
    assert(s[0] == u[0]);
    lemma_first_index(s, '[', u.len() as int);
    let rest = s.skip(u.len() + 1 as int);
    assert(rest == reading + seq![']'] + r);
    lemma_first_index(rest, ']', reading.len() as int);
    assert(s.take(u.len() as int) == u);
    assert(rest.take(reading.len() as int) == reading);
    assert(rest.skip(reading.len() + 1 as int) == r);
    let n = okurigana_len(u, reading);
    lemma_okurigana_len(u, reading);
    let kp = SegmentView::Kanji { text: u.take(u.len() - n), reading: Some(reading.take(reading.len() - n)) };
    let op = SegmentView::Other(u.skip(u.len() - n));
    assert(furigana_pieces(s) == seq![kp, op] + furigana_pieces(r));
    lemma_plain_text_concat(seq![kp, op], furigana_pieces(r));
    assert(seq![kp, op].drop_last() == seq![kp]);
    assert(seq![kp].drop_last().len() == 0);
    assert(plain_text(seq![kp].drop_last()) == Seq::<char>::empty());
    assert(Seq::<char>::empty() + u.take(u.len() - n) == u.take(u.len() - n));
    assert(plain_text(seq![kp]) == u.take(u.len() - n));
    assert(plain_text(seq![kp, op]) == u.take(u.len() - n) + u.skip(u.len() - n));
    assert(u.take(u.len() - n) + u.skip(u.len() - n) == u);
}

/// One morpheme's bracket form passes through the parser as its surface.
proof fn lemma_plain_pieces_morpheme(m: MorphemeView, r: Seq<char>)
    requires
        brackets_cleanly(m),
    ensures
        plain_text(furigana_pieces(furigana_piece(m) + r)) == m.surface + plain_text(
            furigana_pieces(r),
        ),
{
    let u = m.surface;
    if contains_kanji(u) {
        lemma_first_cjk(u);
        let p = first_cjk(u);
        let pre = u.take(p as int);
        let run = u.skip(p as int);
        assert forall|i: int| 0 <= i < pre.len() implies !is_cjk_char(#[trigger] pre[i]) by {
            assert(pre[i] == u[i]);
        }
        assert forall|i: int| 0 <= i < run.len() implies #[trigger] run[i] != '[' by {
            assert(run[i] == u[p + i]);
        }
        let tail = run + seq!['['] + m.reading + seq![']'] + r;
        assert(furigana_piece(m) + r == pre + tail);
        lemma_plain_pieces_no_cjk(pre, tail);
        lemma_plain_pieces_run(run, m.reading, r);
        assert(pre + run == u);
    } else {
        assert forall|i: int| 0 <= i < u.len() implies !is_cjk_char(#[trigger] u[i]) by {
            if is_cjk_char(u[i]) {
                assert(is_kanji(u[i]));
            }
        }
        lemma_plain_pieces_no_cjk(u, r);
        assert(r == r + Seq::<char>::empty());
    }
}

/// The bracket text of morphemes passes through the parser as their
/// surfaces.
proof fn lemma_plain_pieces_text(ms: Seq<MorphemeView>)
    requires
        forall|i: int| 0 <= i < ms.len() ==> brackets_cleanly(#[trigger] ms[i]),
    ensures
        plain_text(furigana_pieces(furigana_text(ms))) == surface_text(ms),
    decreases ms.len(),
{
    let pf = |m: MorphemeView| furigana_piece(m);
    let sf = |m: MorphemeView| m.surface;
    if ms.len() == 0 {
        assert(ms.map_values(pf).len() == 0);
        assert(ms.map_values(sf).len() == 0);
        assert(furigana_pieces(Seq::<char>::empty()).len() == 0);
    } else {
        let rest = ms.drop_first();
        assert forall|i: int| 0 <= i < rest.len() implies brackets_cleanly(#[trigger] rest[i]) by {
            assert(rest[i] == ms[i + 1]);
        }
        lemma_plain_pieces_text(rest);
        assert(ms.map_values(pf).drop_first() == rest.map_values(pf));
        assert(ms.map_values(sf).drop_first() == rest.map_values(sf));
        lemma_concat_first(ms.map_values(pf));
        lemma_concat_first(ms.map_values(sf));
        assert(brackets_cleanly(ms[0]));
        lemma_plain_pieces_morpheme(ms[0], furigana_text(rest));
    }
}

/// The two rendering targets agree on the text: when MeCab output is
/// annotated, parsing the bracket text back into segments shows exactly the
/// analysed text (the morphemes' surfaces), provided every morpheme brackets
/// cleanly.
pub proof fn lemma_segments_show_surfaces(stdout: Seq<char>)
    requires
        mecab_annotation(stdout) matches Some((_, _, ms)) && forall|i: int|
            0 <= i < ms.len() ==> brackets_cleanly(#[trigger] ms[i]),
    ensures
        mecab_annotation(stdout) matches Some((f, _, ms)) && plain_text(parse_segments(f))
            == surface_text(ms),
{
    let (f, _, ms) = mecab_annotation(stdout).unwrap();
    lemma_plain_pieces_text(ms);
    lemma_plain_text_coalesce(furigana_pieces(f));
}

} // verus!
