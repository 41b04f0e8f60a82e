//! Character-level text model.
//!
//! Strings are viewed as `Seq<char>`.  This module defines, over that view,
//! the standard-library string operations the library relies on (`trim`,
//! `lines`, `split`, `starts_with`, `contains`, ASCII lowercasing) and gives
//! verified executable counterparts that work on `Vec<char>`.
use vstd::prelude::*;

verus! {

// ── Specifications ─────────────────────────────────────────────────────────

/// `char::is_whitespace`: the Unicode `White_Space` property.
pub open spec fn is_ws(c: char) -> bool {
    ||| ('\u{9}' <= c && c <= '\u{d}')
    ||| c == ' '
    ||| c == '\u{85}'
    ||| c == '\u{a0}'
    ||| c == '\u{1680}'
    ||| ('\u{2000}' <= c && c <= '\u{200a}')
    ||| c == '\u{2028}'
    ||| c == '\u{2029}'
    ||| c == '\u{202f}'
    ||| c == '\u{205f}'
    ||| c == '\u{3000}'
}

/// `str::trim_start`: drop leading whitespace.
pub open spec fn trim_start(s: Seq<char>) -> Seq<char>
    decreases s.len(),
{
    if s.len() > 0 && is_ws(s[0]) {
        trim_start(s.drop_first())
    } else {
        s
    }
}

/// `str::trim_end`: drop trailing whitespace.
pub open spec fn trim_end(s: Seq<char>) -> Seq<char>
    decreases s.len(),
{
    if s.len() > 0 && is_ws(s.last()) {
        trim_end(s.drop_last())
    } else {
        s
    }
}

/// `str::trim`: drop leading and trailing whitespace.
pub open spec fn trim(s: Seq<char>) -> Seq<char> {
    trim_end(trim_start(s))
}

/// Index of the first occurrence of `c` in `s`, or `s.len()` when absent.
pub open spec fn first_index(s: Seq<char>, c: char) -> nat
    decreases s.len(),
{
    if s.len() == 0 {
        0
    } else if s[0] == c {
        0
    } else {
        1 + first_index(s.drop_first(), c)
    }
}

/// `str::split` on a single character: the pieces between occurrences of
/// `sep`.  Always at least one piece; `""` splits into `[""]`.
pub open spec fn split(s: Seq<char>, sep: char) -> Seq<Seq<char>>
    decreases s.len(),
{
    let i = first_index(s, sep);
    if i >= s.len() {
        seq![s]
    } else {
        seq![s.take(i as int)] + split(s.skip(i + 1 as int), sep)
    }
}

/// One trailing `'\r'` removed, if present.
pub open spec fn strip_cr(s: Seq<char>) -> Seq<char> {
    if s.len() > 0 && s.last() == '\r' {
        s.drop_last()
    } else {
        s
    }
}

/// `str::lines`: pieces terminated by `'\n'` (a final unterminated piece
/// counts when non-empty); a `"\r\n"` terminator is removed whole.
pub open spec fn lines(s: Seq<char>) -> Seq<Seq<char>>
    decreases s.len(),
{
    if s.len() == 0 {
        seq![]
    } else {
        let i = first_index(s, '\n');
        if i >= s.len() {
            seq![s]
        } else {
            seq![strip_cr(s.take(i as int))] + lines(s.skip(i + 1 as int))
        }
    }
}

/// `s` begins with `p`.
pub open spec fn starts_with(s: Seq<char>, p: Seq<char>) -> bool {
    p.len() <= s.len() && s.take(p.len() as int) == p
}

/// `p` occurs in `s` at position `i`.
pub open spec fn occurs_at(s: Seq<char>, p: Seq<char>, i: int) -> bool {
    0 <= i && i + p.len() <= s.len() && s.subrange(i, i + p.len()) == p
}

/// `str::contains` for a string pattern.
pub open spec fn contains(s: Seq<char>, p: Seq<char>) -> bool {
    exists|i: int| occurs_at(s, p, i)
}

/// `char::to_ascii_lowercase`.
pub open spec fn ascii_lower(c: char) -> char {
    if 'A' <= c && c <= 'Z' {
        ((c as u32) + 32) as char
    } else {
        c
    }
}

/// `str::to_ascii_lowercase`.
pub open spec fn lower(s: Seq<char>) -> Seq<char> {
    s.map_values(|c: char| ascii_lower(c))
}

/// The pieces written one after another.
pub open spec fn concat(ss: Seq<Seq<char>>) -> Seq<char>
    decreases ss.len(),
{
    if ss.len() == 0 {
        seq![]
    } else {
        concat(ss.drop_last()) + ss.last()
    }
}

/// `[&str]::join`: the pieces with `sep` between neighbours.
pub open spec fn join(ss: Seq<Seq<char>>, sep: Seq<char>) -> Seq<char>
    decreases ss.len(),
{
    if ss.len() == 0 {
        seq![]
    } else if ss.len() == 1 {
        ss[0]
    } else {
        join(ss.drop_last(), sep) + sep + ss.last()
    }
}

/// The views of a vector of character vectors.
pub open spec fn views(vs: Seq<Vec<char>>) -> Seq<Seq<char>> {
    vs.map_values(|v: Vec<char>| v@)
}

// ── Lemmas ─────────────────────────────────────────────────────────────────

/// `first_index` is the position of the first `c`.
pub proof fn lemma_first_index(s: Seq<char>, c: char, i: int)
    requires
        0 <= i <= s.len(),
        forall|k: int| 0 <= k < i ==> s[k] != c,
        i == s.len() || s[i] == c,
    ensures
        first_index(s, c) == i,
    decreases i,
{
    if i > 0 {
        lemma_first_index(s.drop_first(), c, i - 1);
    }
}

/// `first_index` never exceeds the length, and nothing before it is `c`.
pub proof fn lemma_first_index_bounds(s: Seq<char>, c: char)
    ensures
        first_index(s, c) <= s.len(),
        forall|k: int| 0 <= k < first_index(s, c) ==> s[k] != c,
        first_index(s, c) < s.len() ==> s[first_index(s, c) as int] == c,
    decreases s.len(),
{
    if s.len() > 0 && s[0] != c {
        lemma_first_index_bounds(s.drop_first(), c);
        assert forall|k: int| 0 <= k < first_index(s, c) implies s[k] != c by {
            if k > 0 {
                assert(s[k] == s.drop_first()[k - 1]);
            }
        }
    }
}

/// Appending a piece extends the concatenation.
pub proof fn lemma_concat_push(ss: Seq<Seq<char>>, x: Seq<char>)
    ensures
        concat(ss.push(x)) == concat(ss) + x,
{
    assert(ss.push(x).drop_last() == ss);
}

/// Appending a piece extends the join.
pub proof fn lemma_join_push(ss: Seq<Seq<char>>, x: Seq<char>, sep: Seq<char>)
    ensures
        join(ss.push(x), sep) == if ss.len() == 0 {
            x
        } else {
            join(ss, sep) + sep + x
        },
{
    assert(ss.push(x).drop_last() == ss);
}

/// `trim_start` removes a prefix and leaves no leading whitespace.
pub proof fn lemma_trim_start_shape(s: Seq<char>)
    ensures
        trim_start(s).len() <= s.len(),
        trim_start(s) == s.skip(s.len() - trim_start(s).len()),
        trim_start(s).len() > 0 ==> !is_ws(trim_start(s)[0]),
    decreases s.len(),
{
    if s.len() > 0 && is_ws(s[0]) {
        lemma_trim_start_shape(s.drop_first());
        let t = trim_start(s.drop_first());
        assert(s.drop_first().skip(s.drop_first().len() - t.len()) == s.skip(s.len() - t.len()));
    } else {
        assert(s.skip(0) == s);
    }
}

/// `trim_end` removes a suffix and leaves no trailing whitespace.
pub proof fn lemma_trim_end_shape(s: Seq<char>)
    ensures
        trim_end(s).len() <= s.len(),
        trim_end(s) == s.take(trim_end(s).len() as int),
        trim_end(s).len() > 0 ==> !is_ws(trim_end(s).last()),
    decreases s.len(),
{
    if s.len() > 0 && is_ws(s.last()) {
        lemma_trim_end_shape(s.drop_last());
        let t = trim_end(s.drop_last());
        assert(s.drop_last().take(t.len() as int) == s.take(t.len() as int));
    } else {
        assert(s.take(s.len() as int) == s);
    }
}

/// `trim` is a contiguous part of the text: `s[a..a + trim(s).len()]`.
pub proof fn lemma_trim_part(s: Seq<char>)
    ensures
        exists|a: int|
            0 <= a && a + trim(s).len() <= s.len() && #[trigger] s.subrange(a, a + trim(s).len())
                == trim(s),
{
    lemma_trim_start_shape(s);
    let z = trim_start(s);
    lemma_trim_end_shape(z);
    let a = s.len() - z.len();
    let m = trim_end(z).len();
    assert(s.subrange(a, a + m) == z.take(m as int));
    assert(s.subrange(a, a + trim(s).len()) == trim(s));
}

/// Trimming twice is trimming once.
pub proof fn lemma_trim_idempotent(s: Seq<char>)
    ensures
        trim(trim(s)) == trim(s),
{
    lemma_trim_start_shape(s);
    let z = trim_start(s);
    lemma_trim_end_shape(z);
    let y = trim_end(z);
    if y.len() > 0 {
        assert(y[0] == z[0]);
        assert(trim_start(y) == y);
        assert(trim_end(y) == y);
    } else {
        assert(trim_start(y) == y);
    }
}

/// The pieces of a split never hold the separator.
pub proof fn lemma_split_pieces(s: Seq<char>, sep: char)
    ensures
        split(s, sep).len() > 0,
        forall|j: int, k: int|
            0 <= j < split(s, sep).len() && 0 <= k < split(s, sep)[j].len() ==> #[trigger] split(
                s,
                sep,
            )[j][k] != sep,
    decreases s.len(),
{
    lemma_first_index_bounds(s, sep);
    let i = first_index(s, sep);
    if i < s.len() {
        let rest = s.skip(i + 1 as int);
        lemma_split_pieces(rest, sep);
        let sp = split(s, sep);
        assert forall|j: int, k: int| 0 <= j < sp.len() && 0 <= k < sp[j].len() implies #[trigger] sp[j][k]
            != sep by {
            if j > 0 {
                assert(sp[j] == split(rest, sep)[j - 1]);
            } else {
                assert(sp[0] == s.take(i as int));
            }
        }
    }
}

/// The join taken apart at its first piece.
pub proof fn lemma_join_first(ss: Seq<Seq<char>>, sep: Seq<char>)
    requires
        ss.len() >= 2,
    ensures
        join(ss, sep) == ss[0] + sep + join(ss.drop_first(), sep),
    decreases ss.len(),
{
    let x = ss.drop_first().drop_last();
    assert(ss.drop_last().drop_first() == x);
    assert(ss.drop_first().last() == ss.last());
    if ss.len() > 2 {
        assert(ss.drop_first().len() >= 2);
        lemma_join_first(ss.drop_last(), sep);
        assert(ss.drop_last()[0] == ss[0]);
        assert(ss[0] + sep + join(x, sep) + sep + ss.last() == ss[0] + sep + (join(x, sep) + sep
            + ss.last()));
    } else {
        assert(ss.drop_last().len() == 1);
        assert(ss.drop_first().len() == 1);
        assert(ss.drop_first()[0] == ss[1]);
        assert(ss.drop_last()[0] == ss[0]);
        assert(join(ss.drop_last(), sep) == ss[0]);
        assert(join(ss.drop_first(), sep) == ss[1]);
    }
}

/// Splitting a join undoes it when no piece holds the separator.
pub proof fn lemma_split_join(ss: Seq<Seq<char>>, sep: char)
    requires
        ss.len() > 0,
        forall|j: int, k: int| 0 <= j < ss.len() && 0 <= k < ss[j].len() ==> #[trigger] ss[j][k] != sep,
    ensures
        split(join(ss, seq![sep]), sep) == ss,
    decreases ss.len(),
{
    let a = ss[0];
    if ss.len() == 1 {
        assert forall|k: int| 0 <= k < a.len() implies a[k] != sep by {
            assert(ss[0][k] != sep);
        }
        lemma_first_index(a, sep, a.len() as int);
        assert(split(a, sep) == seq![a]);
    } else {
        let rest = ss.drop_first();
        assert forall|j: int, k: int| 0 <= j < rest.len() && 0 <= k < rest[j].len() implies #[trigger] rest[j][k]
            != sep by {
            assert(rest[j] == ss[j + 1]);
        }
        lemma_split_join(rest, sep);
        lemma_join_first(ss, seq![sep]);
        let b = join(rest, seq![sep]);
        let s = a + seq![sep] + b;
        assert forall|k: int| 0 <= k < a.len() implies s[k] != sep by {
            assert(s[k] == a[k]);
            assert(ss[0][k] != sep);
        }
        lemma_first_index(s, sep, a.len() as int);
        assert(s.take(a.len() as int) == a);
        assert(s.skip(a.len() + 1 as int) == b);
        assert(split(s, sep) == seq![a] + split(b, sep));
        assert(seq![a] + rest == ss);
    }
}

/// Whitespace only.
pub open spec fn all_ws(p: Seq<char>) -> bool {
    forall|i: int| 0 <= i < p.len() ==> is_ws(#[trigger] p[i])
}

/// Leading whitespace is dropped by `trim_start`.
pub proof fn lemma_trim_start_ws_prefix(p: Seq<char>, y: Seq<char>)
    requires
        all_ws(p),
    ensures
        trim_start(p + y) == trim_start(y),
    decreases p.len(),
{
    if p.len() > 0 {
        let q = p.drop_first();
        assert forall|i: int| 0 <= i < q.len() implies is_ws(#[trigger] q[i]) by {
            assert(q[i] == p[i + 1]);
        }
        lemma_trim_start_ws_prefix(q, y);
        assert((p + y)[0] == p[0]);
        assert((p + y).drop_first() == q + y);
    } else {
        assert(p + y == y);
    }
}

/// Trailing whitespace is dropped by `trim_end`.
pub proof fn lemma_trim_end_ws_suffix(y: Seq<char>, p: Seq<char>)
    requires
        all_ws(p),
    ensures
        trim_end(y + p) == trim_end(y),
    decreases p.len(),
{
    if p.len() > 0 {
        let q = p.drop_last();
        assert forall|i: int| 0 <= i < q.len() implies is_ws(#[trigger] q[i]) by {
            assert(q[i] == p[i]);
        }
        lemma_trim_end_ws_suffix(y, q);
        assert((y + p).last() == p.last());
        assert(is_ws(p[p.len() - 1]));
        assert((y + p).drop_last() == y + q);
    } else {
        assert(y + p == y);
    }
}

/// Text that starts and ends with non-whitespace, padded with whitespace on
/// both sides, trims to itself.
pub proof fn lemma_trim_padded(p: Seq<char>, v: Seq<char>, q: Seq<char>)
    requires
        all_ws(p),
        all_ws(q),
        v.len() == 0 || (!is_ws(v[0]) && !is_ws(v.last())),
    ensures
        trim(p + v + q) == v,
{
    lemma_trim_start_ws_prefix(p, v + q);
    assert(p + v + q == p + (v + q));
    if v.len() > 0 {
        assert((v + q)[0] == v[0]);
        assert(trim_start(v + q) == v + q);
        lemma_trim_end_ws_suffix(v, q);
        assert(trim_end(v) == v);
    } else {
        assert(v + q == q);
        lemma_trim_start_ws_prefix(q, Seq::<char>::empty());
        assert(q + Seq::<char>::empty() == q);
        assert(trim_start(Seq::<char>::empty()) == Seq::<char>::empty());
        assert(trim_end(Seq::<char>::empty()) == Seq::<char>::empty());
    }
}

/// The concatenation taken apart at its first piece.
pub proof fn lemma_concat_first(ss: Seq<Seq<char>>)
    requires
        ss.len() > 0,
    ensures
        concat(ss) == ss[0] + concat(ss.drop_first()),
    decreases ss.len(),
{
    if ss.len() > 1 {
        lemma_concat_first(ss.drop_last());
        let x = ss.drop_first().drop_last();
        assert(ss.drop_last().drop_first() == x);
        assert(ss.drop_first().last() == ss.last());
        assert(ss.drop_last()[0] == ss[0]);
        assert(ss[0] + concat(x) + ss.last() == ss[0] + (concat(x) + ss.last()));
    } else {
        assert(ss.drop_last().len() == 0);
        assert(ss.drop_first().len() == 0);
        assert(concat(ss.drop_last()) == Seq::<char>::empty());
        assert(Seq::<char>::empty() + ss[0] == ss[0]);
        assert(ss[0] + Seq::<char>::empty() == ss[0]);
    }
}

/// No carriage return in the text.
pub open spec fn no_cr(s: Seq<char>) -> bool {
    forall|i: int| 0 <= i < s.len() ==> #[trigger] s[i] != '\r'
}

/// Each line with a newline after it.
pub open spec fn newline_terminated(ls: Seq<Seq<char>>) -> Seq<char> {
    concat(ls.map_values(|l: Seq<char>| l.push('\n')))
}

/// `lines` loses nothing but line terminators: the lines hold no newline,
/// and writing each back with a newline after it gives the text again (with
/// a newline added when its last line was unterminated).
pub proof fn lemma_lines_cover(s: Seq<char>)
    requires
        no_cr(s),
    ensures
        forall|i: int, k: int|
            0 <= i < lines(s).len() && 0 <= k < lines(s)[i].len() ==> #[trigger] lines(s)[i][k]
                != '\n',
        newline_terminated(lines(s)) == if s.len() == 0 || s.last() == '\n' {
            s
        } else {
            s.push('\n')
        },
    decreases s.len(),
{
    let f = |l: Seq<char>| l.push('\n');
    if s.len() == 0 {
        assert(lines(s).map_values(f).len() == 0);
    } else {
        lemma_first_index_bounds(s, '\n');
        let i = first_index(s, '\n');
        if i >= s.len() {
            assert(lines(s) == seq![s]);
            assert(lines(s).map_values(f) == seq![s.push('\n')]);
            lemma_concat_first(seq![s.push('\n')]);
            assert(seq![s.push('\n')].drop_first().len() == 0);
            assert(s.push('\n') + Seq::<char>::empty() == s.push('\n'));
            assert(s.last() == s[s.len() - 1]);
        } else {
            let head = s.take(i as int);
            let rest = s.skip(i + 1 as int);
            assert forall|k: int| 0 <= k < rest.len() implies #[trigger] rest[k] != '\r' by {
                assert(rest[k] == s[i + 1 + k]);
            }
            lemma_lines_cover(rest);
            if head.len() > 0 {
                assert(head.last() == s[i - 1]);
            }
            assert(strip_cr(head) == head);
            let ls = lines(s);
            assert(ls == seq![head] + lines(rest));
            assert forall|j: int, k: int| 0 <= j < ls.len() && 0 <= k < ls[j].len() implies #[trigger] ls[j][k]
                != '\n' by {
                if j == 0 {
                    assert(ls[0] == head);
                    assert(head[k] == s[k]);
                } else {
                    assert(ls[j] == lines(rest)[j - 1]);
                }
            }
            let m = ls.map_values(f);
            assert(m == seq![head.push('\n')] + lines(rest).map_values(f));
            lemma_concat_first(m);
            assert(m.drop_first() == lines(rest).map_values(f));
            assert(s == head.push('\n') + rest);
            if rest.len() > 0 {
                assert(s.last() == rest.last());
                assert(head.push('\n') + rest.push('\n') == s.push('\n'));
            } else {
                assert(s.last() == '\n');
            }
        }
    }
}

// ── Trusted primitives ─────────────────────────────────────────────────────

/// `String::push`: the string gains `c` at its end.
#[verifier::external_body]
pub(crate) fn push_char(s: &mut String, c: char)
    ensures
        final(s)@ == old(s)@.push(c),
{
    s.push(c);
}

/// `char::from_u32`: the character with code point `code`, which exists
/// exactly when `code` is at most `0x10FFFF` and not a surrogate.
#[verifier::external_body]
pub(crate) fn char_from_u32(code: u32) -> (r: Option<char>)
    ensures
        r is Some <==> (code <= 0x10FFFF && !(0xD800 <= code && code <= 0xDFFF)),
        r matches Some(c) ==> c as u32 == code,
{
    char::from_u32(code)
}

// ── Executable counterparts ────────────────────────────────────────────────

/// The characters of a string slice, in order.
pub(crate) fn chars_of(s: &str) -> (v: Vec<char>)
    ensures
        v@ == s@,
{
    let mut v: Vec<char> = Vec::new();
    for c in it: s.chars()
        invariant
            v@ == it.seq().take(it.index() as int),
    {
        v.push(c);
    }
    v
}

/// A `String` holding exactly the given characters.
pub(crate) fn string_of(v: &Vec<char>) -> (s: String)
    ensures
        s@ == v@,
{
    let mut s = String::new();
    let mut i: usize = 0;
    while i < v.len()
        invariant
            i <= v.len(),
            s@ == v@.take(i as int),
        decreases v.len() - i,
    {
        push_char(&mut s, v[i]);
        i = i + 1;
        assert(s@ == v@.take(i as int));
    }
    assert(v@.take(v.len() as int) == v@);
    s
}

/// Appends the characters of `src` to `dst`.
pub(crate) fn extend_chars(dst: &mut Vec<char>, src: &Vec<char>)
    ensures
        final(dst)@ == old(dst)@ + src@,
{
    let mut i: usize = 0;
    while i < src.len()
        invariant
            i <= src.len(),
            dst@ == old(dst)@ + src@.take(i as int),
        decreases src.len() - i,
    {
        dst.push(src[i]);
        i = i + 1;
        assert(dst@ == old(dst)@ + src@.take(i as int));
    }
    assert(src@.take(src.len() as int) == src@);
}

/// The characters `v[from..to]`.
pub(crate) fn slice_chars(v: &Vec<char>, from: usize, to: usize) -> (r: Vec<char>)
    requires
        from <= to <= v.len(),
    ensures
        r@ == v@.subrange(from as int, to as int),
{
    let mut r: Vec<char> = Vec::new();
    let mut i: usize = from;
    while i < to
        invariant
            from <= i <= to <= v.len(),
            r@ == v@.subrange(from as int, i as int),
        decreases to - i,
    {
        r.push(v[i]);
        i = i + 1;
        assert(r@ == v@.subrange(from as int, i as int));
    }
    r
}

/// Whitespace test, as `char::is_whitespace`.
pub(crate) fn is_whitespace(c: char) -> (r: bool)
    ensures
        r == is_ws(c),
{
    ('\u{9}' <= c && c <= '\u{d}') || c == ' ' || c == '\u{85}' || c == '\u{a0}' || c
        == '\u{1680}' || ('\u{2000}' <= c && c <= '\u{200a}') || c == '\u{2028}' || c
        == '\u{2029}' || c == '\u{202f}' || c == '\u{205f}' || c == '\u{3000}'
}

/// `trim` on a character vector.
pub(crate) fn trim_chars(v: &Vec<char>) -> (r: Vec<char>)
    ensures
        r@ == trim(v@),
{
    let ghost s = v@;
    let mut i: usize = 0;
    assert(s.skip(0) == s);
    while i < v.len() && is_whitespace(v[i])
        invariant
            s == v@,
            i <= v.len(),
            trim_start(s) == trim_start(s.skip(i as int)),
        decreases v.len() - i,
    {
        assert(s.skip(i as int).drop_first() == s.skip(i + 1));
        i = i + 1;
    }
    let ghost t = s.skip(i as int);
    assert(trim_start(t) == t);
    assert(t == s.subrange(i as int, v.len() as int));
    let mut j: usize = v.len();
    while j > i && is_whitespace(v[j - 1])
        invariant
            s == v@,
            t == s.skip(i as int),
            i <= j <= v.len(),
            trim_end(t) == trim_end(s.subrange(i as int, j as int)),
        decreases j,
    {
        assert(s.subrange(i as int, j as int).drop_last() == s.subrange(i as int, j - 1));
        j = j - 1;
    }
    assert(t == s.subrange(i as int, v.len() as int));
    slice_chars(v, i, j)
}

/// Position of the first `c` at or after `from`, or `v.len()`.
pub(crate) fn find_char(v: &Vec<char>, from: usize, c: char) -> (r: usize)
    requires
        from <= v.len(),
    ensures
        from <= r <= v.len(),
        r == from + first_index(v@.skip(from as int), c),
{
    let mut i: usize = from;
    while i < v.len() && v[i] != c
        invariant
            from <= i <= v.len(),
            forall|k: int| from <= k < i ==> v@[k] != c,
        decreases v.len() - i,
    {
        i = i + 1;
    }
    proof {
        lemma_first_index(v@.skip(from as int), c, i - from);
    }
    i
}

/// `split` on a character vector.
pub(crate) fn split_chars(v: &Vec<char>, sep: char) -> (r: Vec<Vec<char>>)
    ensures
        views(r@) == split(v@, sep),
{
    let mut out: Vec<Vec<char>> = Vec::new();
    let mut start: usize = 0;
    assert(v@.skip(0) == v@);
    assert(views(out@) == Seq::<Seq<char>>::empty());
    loop
        invariant
            start <= v.len(),
            views(out@) + split(v@.skip(start as int), sep) == split(v@, sep),
        decreases v.len() - start,
    {
        let i = find_char(v, start, sep);
        let piece = slice_chars(v, start, i);
        let ghost rest = v@.skip(start as int);
        assert(rest.take(i - start) == piece@);
        if i >= v.len() {
            assert(split(rest, sep) == seq![piece@]);
            let ghost before = views(out@);
            out.push(piece);
            assert(views(out@) == before + seq![piece@]);
            return out;
        }
        assert(rest.skip(i - start + 1) == v@.skip(i + 1));
        let ghost before = views(out@);
        out.push(piece);
        assert(views(out@) == before + seq![piece@]);
        start = i + 1;
    }
}


/// `lines` on a character vector.
pub(crate) fn lines_chars(v: &Vec<char>) -> (r: Vec<Vec<char>>)
    ensures
        views(r@) == lines(v@),
{
    let mut out: Vec<Vec<char>> = Vec::new();
    let mut start: usize = 0;
    assert(v@.skip(0) == v@);
    assert(views(out@) == Seq::<Seq<char>>::empty());
    loop
        invariant
            start <= v.len(),
            views(out@) + lines(v@.skip(start as int)) == lines(v@),
        decreases v.len() - start,
    {
        let ghost rest = v@.skip(start as int);
        if start == v.len() {
            assert(rest.len() == 0);
            assert(views(out@) + lines(rest) == views(out@));
            return out;
        }
        let i = find_char(v, start, '\n');
        let mut piece = slice_chars(v, start, i);
        assert(rest.take(i - start) == piece@);
        if i >= v.len() {
            assert(lines(rest) == seq![piece@]);
            let ghost before = views(out@);
            out.push(piece);
            assert(views(out@) == before + seq![piece@]);
            return out;
        }
        let n = piece.len();
        if n > 0 && piece[n - 1] == '\r' {
            piece.pop();
        }
        assert(piece@ == strip_cr(rest.take(i - start)));
        assert(rest.skip(i - start + 1) == v@.skip(i + 1));
        let ghost before = views(out@);
        out.push(piece);
        assert(views(out@) == before + seq![piece@]);
        start = i + 1;
    }
}

/// Whether `p` occurs in `v` at position `i`.
pub(crate) fn matches_at(v: &Vec<char>, p: &Vec<char>, i: usize) -> (r: bool)
    ensures
        r == occurs_at(v@, p@, i as int),
{
    if i > v.len() || p.len() > v.len() - i {
        return false;
    }
    let mut k: usize = 0;
    while k < p.len()
        invariant
            i + p.len() <= v.len(),
            k <= p.len(),
            forall|j: int| 0 <= j < k ==> v@[i + j] == p@[j],
        decreases p.len() - k,
    {
        if v[i + k] != p[k] {
            assert(v@.subrange(i as int, i + p.len())[k as int] != p@[k as int]);
            return false;
        }
        k = k + 1;
    }
    assert(v@.subrange(i as int, i + p.len()) == p@);
    true
}

/// `starts_with` on character vectors.
pub(crate) fn starts_with_chars(v: &Vec<char>, p: &Vec<char>) -> (r: bool)
    ensures
        r == starts_with(v@, p@),
{
    let r = matches_at(v, p, 0);
    assert(v@.subrange(0, p@.len() as int) == v@.take(p@.len() as int));
    r
}

/// `contains` on character vectors.
pub(crate) fn contains_chars(v: &Vec<char>, p: &Vec<char>) -> (r: bool)
    ensures
        r == contains(v@, p@),
{
    if p.len() > v.len() {
        assert forall|i: int| !occurs_at(v@, p@, i) by {}
        return false;
    }
    let last = v.len() - p.len();
    let mut i: usize = 0;
    loop
        invariant
            last == v.len() - p.len(),
            i <= last,
            forall|j: int| 0 <= j < i ==> !occurs_at(v@, p@, j),
        ensures
            forall|j: int| 0 <= j <= last ==> !occurs_at(v@, p@, j),
        decreases last - i,
    {
        if matches_at(v, p, i) {
            return true;
        }
        if i == last {
            break;
        }
        i = i + 1;
    }
    assert forall|j: int| !occurs_at(v@, p@, j) by {
        if 0 <= j && j <= last {
        }
    }
    false
}

/// ASCII lowercasing, as `char::to_ascii_lowercase`.
pub(crate) fn lower_char(c: char) -> (r: char)
    ensures
        r == ascii_lower(c),
{
    if 'A' <= c && c <= 'Z' {
        let code = (c as u32) + 32;
        match char_from_u32(code) {
            Some(l) => {
                proof {
                    vstd::utf8::char_u32_cast(l, code);
                }
                l
            },
            None => c,
        }
    } else {
        c
    }
}

/// ASCII lowercasing of every character.
pub(crate) fn lower_chars(v: &Vec<char>) -> (r: Vec<char>)
    ensures
        r@ == lower(v@),
{
    let mut r: Vec<char> = Vec::new();
    let mut i: usize = 0;
    while i < v.len()
        invariant
            i <= v.len(),
            r@ == lower(v@.take(i as int)),
        decreases v.len() - i,
    {
        r.push(lower_char(v[i]));
        i = i + 1;
        assert(r@ == lower(v@.take(i as int)));
    }
    assert(v@.take(v.len() as int) == v@);
    r
}

} // verus!
