//! Configuration text: dictionary `dicrc` charsets and `.env` files.
use vstd::prelude::*;
use crate::text::{
    all_ws, is_ws, lemma_first_index, lemma_trim_end_ws_suffix, lemma_trim_padded, trim_end,
    trim_start, chars_of, contains, contains_chars, first_index, find_char, lines, lines_chars, lower,
    lower_chars, slice_chars, split, split_chars, starts_with, starts_with_chars, string_of, trim,
    trim_chars, views,
};

verus! {

// ── dicrc charset filter ───────────────────────────────────────────────────

/// A lowercased `dicrc` line that sets a charset.
pub open spec fn is_charset_line(l: Seq<char>) -> bool {
    starts_with(l, "charset"@) || starts_with(l, "config-charset"@) || starts_with(
        l,
        "dictionary-charset"@,
    )
}

/// A charset value that is not UTF-8: it names EUC, Shift_JIS or CP932.
pub open spec fn is_non_utf8_value(v: Seq<char>) -> bool {
    contains(v, "euc"@) || contains(v, "shift_jis"@) || contains(v, "cp932"@)
}

/// A `dicrc` line declaring a non-UTF-8 charset: trimmed and lowercased, it
/// starts with a charset key, and its value (the text between the first and
/// second `=`, trimmed) is not UTF-8.
pub open spec fn declares_non_utf8(line: Seq<char>) -> bool {
    let l = lower(trim(line));
    let parts = split(l, '=');
    is_charset_line(l) && parts.len() > 1 && is_non_utf8_value(trim(parts[1]))
}

/// Some line of a `dicrc` declares a non-UTF-8 charset.
pub open spec fn dicrc_non_utf8(contents: Seq<char>) -> bool {
    exists|i: int| 0 <= i < lines(contents).len() && declares_non_utf8(#[trigger] lines(contents)[i])
}

/// `declares_non_utf8` on one line.
fn line_declares_non_utf8(line: &Vec<char>) -> (r: bool)
    ensures
        r == declares_non_utf8(line@),
{
    let trimmed = trim_chars(line);
    let l = lower_chars(&trimmed);
    if !(starts_with_chars(&l, &chars_of("charset")) || starts_with_chars(
        &l,
        &chars_of("config-charset"),
    ) || starts_with_chars(&l, &chars_of("dictionary-charset"))) {
        return false;
    }
    let parts = split_chars(&l, '=');
    if parts.len() < 2 {
        return false;
    }
    let val = trim_chars(&parts[1]);
    contains_chars(&val, &chars_of("euc")) || contains_chars(&val, &chars_of("shift_jis"))
        || contains_chars(&val, &chars_of("cp932"))
}

/// Return true if a `dicrc` body declares a non-UTF-8 charset (EUC-JP,
/// Shift_JIS, CP932).  If no charset line is present, treat as UTF-8 —
/// matches the Debian `juman-utf8` package which omits the declaration.
pub fn dicrc_declares_non_utf8(contents: &str) -> (r: bool)
    ensures
        r == dicrc_non_utf8(contents@),
{
    let text = chars_of(contents);
    let ls = lines_chars(&text);
    let ghost lv = views(ls@);
    let mut i: usize = 0;
    while i < ls.len()
        invariant
            i <= ls.len(),
            lv == views(ls@),
            lv == lines(contents@),
            forall|k: int| 0 <= k < i ==> !declares_non_utf8(#[trigger] lv[k]),
        decreases ls.len() - i,
    {
        if line_declares_non_utf8(&ls[i]) {
            assert(declares_non_utf8(lv[i as int]));
            return true;
        }
        i = i + 1;
    }
    false
}

// ── .env files ─────────────────────────────────────────────────────────────

/// A value with one matching pair of surrounding `"` or `'` quotes removed.
pub open spec fn unquote(v: Seq<char>) -> Seq<char> {
    if v.len() >= 2 && ((v[0] == '"' && v.last() == '"') || (v[0] == '\'' && v.last() == '\'')) {
        v.subrange(1, v.len() - 1)
    } else {
        v
    }
}

/// The `KEY=VALUE` entry a `.env` line sets, if any.  Blank lines and `#`
/// comments set nothing; a leading `export ` is ignored; key and value are
/// trimmed; a line without `=` or with an empty key sets nothing.
pub open spec fn dotenv_entry(line: Seq<char>) -> Option<(Seq<char>, Seq<char>)> {
    let l = trim(line);
    if l.len() == 0 || l[0] == '#' {
        None
    } else {
        let body = if starts_with(l, "export "@) {
            l.skip("export "@.len() as int)
        } else {
            l
        };
        let e = first_index(body, '=');
        if e >= body.len() {
            None
        } else {
            let key = trim(body.take(e as int));
            if key.len() == 0 {
                None
            } else {
                Some((key, unquote(trim(body.skip(e + 1 as int)))))
            }
        }
    }
}

/// The variables a sequence of `.env` lines sets; a later line overrides an
/// earlier one with the same key.
pub open spec fn dotenv_of(ls: Seq<Seq<char>>) -> Map<Seq<char>, Seq<char>>
    decreases ls.len(),
{
    if ls.len() == 0 {
        Map::empty()
    } else {
        let m = dotenv_of(ls.drop_last());
        match dotenv_entry(ls.last()) {
            Some((k, v)) => m.insert(k, v),
            None => m,
        }
    }
}

/// Key/value pairs collected in a map: later pairs override earlier ones.
pub open spec fn entries_map(es: Seq<(Seq<char>, Seq<char>)>) -> Map<Seq<char>, Seq<char>>
    decreases es.len(),
{
    if es.len() == 0 {
        Map::empty()
    } else {
        entries_map(es.drop_last()).insert(es.last().0, es.last().1)
    }
}

/// Keys occur at most once.
pub open spec fn distinct_keys(es: Seq<(Seq<char>, Seq<char>)>) -> bool {
    forall|i: int, j: int| 0 <= i < j < es.len() ==> es[i].0 != es[j].0
}

/// A string-to-string map of environment variables.
pub struct EnvMap {
    entries: Vec<(String, String)>,
}

impl EnvMap {
    /// The entries as values.
    pub closed spec fn entry_views(&self) -> Seq<(Seq<char>, Seq<char>)> {
        self.entries@.map_values(|e: (String, String)| (e.0@, e.1@))
    }

    #[verifier::type_invariant]
    closed spec fn keys_distinct(&self) -> bool {
        distinct_keys(self.entry_views())
    }
}

impl View for EnvMap {
    type V = Map<Seq<char>, Seq<char>>;

    closed spec fn view(&self) -> Map<Seq<char>, Seq<char>> {
        entries_map(self.entry_views())
    }
}

/// With distinct keys, a key is in the map exactly when some entry has it,
/// and maps to that entry's value; the map has one key per entry.
proof fn lemma_entries_map(es: Seq<(Seq<char>, Seq<char>)>)
    requires
        distinct_keys(es),
    ensures
        forall|i: int|
            0 <= i < es.len() ==> entries_map(es).contains_key(#[trigger] es[i].0)
                && entries_map(es)[es[i].0] == es[i].1,
        forall|k: Seq<char>|
            entries_map(es).contains_key(k) ==> exists|i: int| 0 <= i < es.len() && es[i].0 == k,
        entries_map(es).dom().finite(),
        entries_map(es).dom().len() == es.len(),
    decreases es.len(),
{
    if es.len() > 0 {
        let p = es.drop_last();
        assert(distinct_keys(p));
        lemma_entries_map(p);
        let last = es.last();
        assert forall|i: int| 0 <= i < es.len() implies entries_map(es).contains_key(
            #[trigger] es[i].0,
        ) && entries_map(es)[es[i].0] == es[i].1 by {
            if i < es.len() - 1 {
                assert(p[i] == es[i]);
                assert(es[i].0 != last.0);
            }
        }
        assert forall|k: Seq<char>| entries_map(es).contains_key(k) implies exists|i: int|
            0 <= i < es.len() && es[i].0 == k by {
            if k != last.0 {
                let i = choose|i: int| 0 <= i < p.len() && p[i].0 == k;
                assert(es[i] == p[i]);
            } else {
                assert(es[es.len() - 1].0 == k);
            }
        }
        assert(!entries_map(p).contains_key(last.0)) by {
            if entries_map(p).contains_key(last.0) {
                let i = choose|i: int| 0 <= i < p.len() && p[i].0 == last.0;
                assert(es[i] == p[i]);
            }
        }
    }
}

/// Replacing the value of an entry is inserting into the map.
proof fn lemma_entries_map_update(es: Seq<(Seq<char>, Seq<char>)>, i: int, v: Seq<char>)
    requires
        distinct_keys(es),
        0 <= i < es.len(),
    ensures
        entries_map(es.update(i, (es[i].0, v))) == entries_map(es).insert(es[i].0, v),
    decreases es.len(),
{
    let u = es.update(i, (es[i].0, v));
    let p = es.drop_last();
    if i == es.len() - 1 {
        assert(u.drop_last() == p);
        assert(entries_map(p).insert(es[i].0, es[i].1).insert(es[i].0, v) == entries_map(p).insert(
            es[i].0,
            v,
        ));
    } else {
        assert(distinct_keys(p));
        lemma_entries_map_update(p, i, v);
        assert(u.drop_last() == p.update(i, (p[i].0, v)));
        assert(u.last() == es.last());
        assert(es.last().0 != es[i].0);
        assert(entries_map(u) == entries_map(p).insert(es[i].0, v).insert(es.last().0, es.last().1));
        assert(entries_map(u) =~= entries_map(es).insert(es[i].0, v));
    }
}

/// Whether two character vectors are equal.
fn same_chars(a: &Vec<char>, b: &Vec<char>) -> (r: bool)
    ensures
        r == (a@ == b@),
{
    if a.len() != b.len() {
        return false;
    }
    let mut i: usize = 0;
    while i < a.len()
        invariant
            a.len() == b.len(),
            i <= a.len(),
            forall|k: int| 0 <= k < i ==> a@[k] == b@[k],
        decreases a.len() - i,
    {
        if a[i] != b[i] {
            return false;
        }
        i = i + 1;
    }
    assert(a@ =~= b@);
    true
}

impl EnvMap {
    /// An empty map.
    pub fn new() -> (m: EnvMap)
        ensures
            m@ == Map::<Seq<char>, Seq<char>>::empty(),
    {
        let m = EnvMap { entries: Vec::new() };
        assert(m.entry_views() =~= Seq::<(Seq<char>, Seq<char>)>::empty());
        m
    }

    /// Position of the entry whose key is `key`, or the number of entries.
    fn position(&self, key: &Vec<char>) -> (r: usize)
        ensures
            r <= self.entry_views().len(),
            r < self.entry_views().len() ==> self.entry_views()[r as int].0 == key@,
            r == self.entry_views().len() ==> forall|i: int|
                0 <= i < self.entry_views().len() ==> self.entry_views()[i].0 != key@,
    {
        let ghost ev = self.entry_views();
        let mut i: usize = 0;
        while i < self.entries.len()
            invariant
                ev == self.entry_views(),
                ev.len() == self.entries.len(),
                i <= self.entries.len(),
                forall|k: int| 0 <= k < i ==> ev[k].0 != key@,
            decreases self.entries.len() - i,
        {
            let k = chars_of(self.entries[i].0.as_str());
            if same_chars(&k, key) {
                return i;
            }
            i = i + 1;
        }
        i
    }

    /// The value of `key`, if set.
    pub fn get(&self, key: &str) -> (r: Option<&String>)
        ensures
            match r {
                Some(v) => self@.contains_key(key@) && self@[key@] == v@,
                None => !self@.contains_key(key@),
            },
    {
        proof {
            use_type_invariant(self);
            lemma_entries_map(self.entry_views());
        }
        let k = chars_of(key);
        let i = self.position(&k);
        if i < self.entries.len() {
            Some(&self.entries[i].1)
        } else {
            None
        }
    }

    /// Whether `key` is set.
    pub fn contains_key(&self, key: &str) -> (r: bool)
        ensures
            r == self@.contains_key(key@),
    {
        self.get(key).is_some()
    }

    /// The number of keys.
    pub fn len(&self) -> (r: usize)
        ensures
            self@.dom().finite(),
            r == self@.dom().len(),
    {
        proof {
            use_type_invariant(self);
            lemma_entries_map(self.entry_views());
        }
        self.entries.len()
    }

    /// Sets `key` to `value`, replacing an earlier value.
    pub fn insert(&mut self, key: String, value: String)
        ensures
            final(self)@ == old(self)@.insert(key@, value@),
    {
        proof {
            use_type_invariant(&*self);
        }
        let k = chars_of(key.as_str());
        let i = self.position(&k);
        let ghost ev = self.entry_views();
        let mut entries: Vec<(String, String)> = Vec::new();
        std::mem::swap(&mut entries, &mut self.entries);
        assert(entries@.map_values(|e: (String, String)| (e.0@, e.1@)) == ev);
        if i < entries.len() {
            let ghost kv = key@;
            let ghost vv = value@;
            entries.set(i, (key, value));
            proof {
                assert(entries@.map_values(|e: (String, String)| (e.0@, e.1@)) == ev.update(
                    i as int,
                    (ev[i as int].0, vv),
                ));
                lemma_entries_map_update(ev, i as int, vv);
                assert(distinct_keys(ev.update(i as int, (ev[i as int].0, vv))));
            }
            self.entries = entries;
        } else {
            let ghost kv = key@;
            let ghost vv = value@;
            entries.push((key, value));
            proof {
                let nv = entries@.map_values(|e: (String, String)| (e.0@, e.1@));
                assert(nv == ev.push((kv, vv)));
                assert(nv.drop_last() == ev);
                assert(distinct_keys(nv));
            }
            self.entries = entries;
        }
    }
}

/// `unquote` on a character vector.
fn unquote_chars(v: &Vec<char>) -> (r: Vec<char>)
    ensures
        r@ == unquote(v@),
{
    let n = v.len();
    if n >= 2 && ((v[0] == '"' && v[n - 1] == '"') || (v[0] == '\'' && v[n - 1] == '\'')) {
        slice_chars(v, 1, n - 1)
    } else {
        slice_chars(v, 0, n)
    }
}

/// `dotenv_entry` on one line.
fn dotenv_entry_chars(line: &Vec<char>) -> (r: Option<(Vec<char>, Vec<char>)>)
    ensures
        match r {
            Some((k, v)) => dotenv_entry(line@) == Some((k@, v@)),
            None => dotenv_entry(line@) is None,
        },
{
    let l = trim_chars(line);
    if l.len() == 0 || l[0] == '#' {
        return None;
    }
    let export = chars_of("export ");
    let body = if starts_with_chars(&l, &export) {
        slice_chars(&l, export.len(), l.len())
    } else {
        slice_chars(&l, 0, l.len())
    };
    assert(l@.subrange(export@.len() as int, l@.len() as int) == l@.skip(export@.len() as int));
    assert(l@.subrange(0, l@.len() as int) == l@);
    let e = find_char(&body, 0, '=');
    assert(body@.skip(0) == body@);
    if e >= body.len() {
        return None;
    }
    let key_raw = slice_chars(&body, 0, e);
    let key = trim_chars(&key_raw);
    if key.len() == 0 {
        return None;
    }
    let val_raw = slice_chars(&body, e + 1, body.len());
    let val_trimmed = trim_chars(&val_raw);
    let val = unquote_chars(&val_trimmed);
    assert(body@.subrange(0, e as int) == body@.take(e as int));
    assert(body@.subrange(e + 1, body@.len() as int) == body@.skip(e + 1));
    Some((key, val))
}

/// Parse `.env` file contents into a key→value map.
///
/// Recognises `KEY=VALUE` lines, an optional leading `export `, `#` comments,
/// blank lines, and a single matching pair of surrounding `"` or `'` quotes
/// on the value.  Unknown/malformed lines are skipped silently.
pub fn parse_dotenv(contents: &str) -> (r: EnvMap)
    ensures
        r@ == dotenv_of(lines(contents@)),
{
    let text = chars_of(contents);
    let ls = lines_chars(&text);
    let ghost lv = views(ls@);
    let mut map = EnvMap::new();
    let mut i: usize = 0;
    assert(lv.take(0) == Seq::<Seq<char>>::empty());
    while i < ls.len()
        invariant
            i <= ls.len(),
            lv == views(ls@),
            lv == lines(contents@),
            map@ == dotenv_of(lv.take(i as int)),
        decreases ls.len() - i,
    {
        assert(lv.take(i + 1).drop_last() == lv.take(i as int));
        assert(lv.take(i + 1).last() == ls@[i as int]@);
        match dotenv_entry_chars(&ls[i]) {
            Some((k, v)) => {
                map.insert(string_of(&k), string_of(&v));
            },
            None => {},
        }
        i = i + 1;
    }
    assert(lv.take(ls.len() as int) == lv);
    map
}

/// Look up a variable: the process environment's value first, then the
/// `.env` file's.
pub fn get_env(process_value: Option<String>, dotenv: &EnvMap, key: &str) -> (r: Option<String>)
    ensures
        match process_value {
            Some(v) => r == Some(v),
            None => match r {
                Some(v) => dotenv@.contains_key(key@) && v@ == dotenv@[key@],
                None => !dotenv@.contains_key(key@),
            },
        },
{
    match process_value {
        Some(v) => Some(v),
        None => match dotenv.get(key) {
            Some(v) => Some(v.clone()),
            None => None,
        },
    }
}


// ── Laws ───────────────────────────────────────────────────────────────────

/// A `.env` key as it is normally written: non-empty, without whitespace or
/// `=`, not a comment, and not the word `export` itself.
pub open spec fn plain_key(key: Seq<char>) -> bool {
    &&& key.len() > 0
    &&& key[0] != '#'
    &&& forall|i: int| 0 <= i < key.len() ==> !is_ws(#[trigger] key[i]) && key[i] != '='
    &&& key != "export"@
}

/// A line `key = value`, with any whitespace around the `=` and at the end,
/// sets `key` to the value with one pair of matching surrounding quotes
/// removed: whitespace is trimmed before the quotes are looked for, so
/// padding never hides them.
pub proof fn lemma_dotenv_entry_line(
    key: Seq<char>,
    p1: Seq<char>,
    p2: Seq<char>,
    v: Seq<char>,
    p3: Seq<char>,
)
    requires
        plain_key(key),
        all_ws(p1),
        all_ws(p2),
        all_ws(p3),
        v.len() == 0 || (!is_ws(v[0]) && !is_ws(v.last())),
    ensures
        dotenv_entry(key + p1 + seq!['='] + p2 + v + p3) == Some((key, unquote(v))),
        v.len() >= 2 && (v[0] == '"' || v[0] == '\'') && v.last() == v[0] ==> dotenv_entry(
            key + p1 + seq!['='] + p2 + v + p3,
        ) == Some((key, v.subrange(1, v.len() - 1))),
{
    let head = key + p1 + seq!['='];
    let line = key + p1 + seq!['='] + p2 + v + p3;
    assert(all_ws(Seq::<char>::empty()));
    // The trimmed line is the line without its trailing whitespace.
    let l = if v.len() > 0 {
        head + p2 + v
    } else {
        head
    };
    assert(trim(line) == l) by {
        assert(line[0] == key[0]);
        assert(trim_start(line) == line);
        if v.len() > 0 {
            assert(line == (head + p2 + v) + p3);
            lemma_trim_end_ws_suffix(head + p2 + v, p3);
            assert((head + p2 + v).last() == v.last());
        } else {
            assert(line == head + (p2 + p3));
            assert forall|i: int| 0 <= i < (p2 + p3).len() implies is_ws(#[trigger] (p2 + p3)[i]) by {
                if i < p2.len() {
                    assert((p2 + p3)[i] == p2[i]);
                } else {
                    assert((p2 + p3)[i] == p3[i - p2.len()]);
                }
            }
            lemma_trim_end_ws_suffix(head, p2 + p3);
            assert(head.last() == '=');
        }
    }
    assert(l.len() > 0 && l[0] == key[0]);
    // The line does not start with `export `.
    reveal_strlit("export ");
    reveal_strlit("export");
    let ex = "export "@;
    assert(!starts_with(l, ex)) by {
        if starts_with(l, ex) {
            let n: int = key.len() as int;
            assert(l.take(7) == ex);
            if n >= 7 {
                assert(l[6] == key[6]);
                assert(ex[6] == ' ');
                assert(l.take(7)[6] == l[6]);
            } else if n == 6 {
                assert forall|i: int| 0 <= i < 6 implies key[i] == "export"@[i] by {
                    assert(l[i] == key[i]);
                    assert(l.take(7)[i] == l[i]);
                }
                assert(key =~= "export"@);
            } else {
                assert(l[n] == head[n]);
                assert(l.take(7)[n] == l[n]);
                if p1.len() > 0 {
                    assert(head[n] == p1[0]);
                } else {
                    assert(head[n] == '=');
                }
            }
        }
    }
    // The first `=` is the one after the key.
    let e: int = (key.len() + p1.len()) as int;
    assert forall|i: int| 0 <= i < e implies l[i] != '=' by {
        if i < key.len() {
            assert(l[i] == key[i]);
        } else {
            assert(l[i] == p1[i - key.len()]);
            assert(is_ws(p1[i - key.len()]));
        }
    }
    assert(l[e] == '=');
    lemma_first_index(l, '=', e);
    // The key is the text before it, trimmed.
    assert(l.take(e) == key + p1);
    assert(trim(key + p1) == key) by {
        lemma_trim_padded(Seq::<char>::empty(), key, p1);
        assert(Seq::<char>::empty() + key + p1 == key + p1);
    }
    // The value is the text after it, trimmed.
    let after = l.skip(e + 1);
    if v.len() > 0 {
        assert(after == p2 + v);
        lemma_trim_padded(p2, v, Seq::<char>::empty());
        assert(p2 + v + Seq::<char>::empty() == p2 + v);
    } else {
        assert(after.len() == 0);
        assert(trim(after) == Seq::<char>::empty()) by {
            assert(after == Seq::<char>::empty());
        }
    }
}

} // verus!
