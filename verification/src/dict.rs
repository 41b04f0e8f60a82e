//! Where the MeCab dictionaries are looked for, which one is chosen, and
//! the arguments MeCab is run with.
use vstd::prelude::*;
use crate::text::{
    chars_of, extend_chars, join, lemma_join_push, lemma_split_join, lemma_split_pieces,
    lemma_trim_idempotent, lemma_trim_part, split, split_chars, string_of, trim, trim_chars, views,
};

verus! {

// ── User dictionaries ──────────────────────────────────────────────────────

/// The non-empty pieces, in order.
pub open spec fn nonempty_pieces(ps: Seq<Seq<char>>) -> Seq<Seq<char>>
    decreases ps.len(),
{
    if ps.len() == 0 {
        seq![]
    } else if ps.last().len() > 0 {
        nonempty_pieces(ps.drop_last()).push(ps.last())
    } else {
        nonempty_pieces(ps.drop_last())
    }
}

/// The user dictionary files a comma-separated list names: its pieces,
/// trimmed, without empty ones.
pub open spec fn user_dict_entries(raw: Seq<char>) -> Seq<Seq<char>> {
    nonempty_pieces(split(raw, ',').map_values(|p: Seq<char>| trim(p)))
}

/// The cleaned list: the entries joined by commas, or none when there are no
/// entries.
pub open spec fn user_dicts_of(raw: Seq<char>) -> Option<Seq<char>> {
    let j = join(user_dict_entries(raw), seq![',']);
    if j.len() == 0 {
        None
    } else {
        Some(j)
    }
}

/// User dictionary file(s) from the value of `MECAB_USER_DICT`.
///
/// Accepts a single path or a comma-separated list, matching MeCab's own
/// `-u a.dic,b.dic` syntax.  Returns the cleaned, comma-joined string ready
/// to pass to `mecab -u`, or `None` if the variable is unset/empty.
///
/// File existence is **not** validated here.
pub fn find_mecab_user_dicts(raw: Option<&str>) -> (r: Option<String>)
    ensures
        match raw {
            None => r is None,
            Some(s) => match r {
                Some(x) => user_dicts_of(s@) == Some(x@),
                None => user_dicts_of(s@) is None,
            },
        },
{
    let s = match raw {
        Some(s) => s,
        None => return None,
    };
    let v = chars_of(s);
    let pieces = split_chars(&v, ',');
    let ghost pv = views(pieces@);
    let ghost tv = pv.map_values(|p: Seq<char>| trim(p));
    let mut kept: Vec<Vec<char>> = Vec::new();
    let mut joined: Vec<char> = Vec::new();
    let mut i: usize = 0;
    assert(tv.take(0) == Seq::<Seq<char>>::empty());
    while i < pieces.len()
        invariant
            i <= pieces.len(),
            pv == views(pieces@),
            pv == split(v@, ','),
            tv == pv.map_values(|p: Seq<char>| trim(p)),
            views(kept@) == nonempty_pieces(tv.take(i as int)),
            joined@ == join(views(kept@), seq![',']),
        decreases pieces.len() - i,
    {
        let t = trim_chars(&pieces[i]);
        assert(tv.take(i + 1).drop_last() == tv.take(i as int));
        assert(tv.take(i + 1).last() == t@);
        if t.len() > 0 {
            let ghost before = views(kept@);
            if kept.len() > 0 {
                joined.push(',');
            }
            extend_chars(&mut joined, &t);
            kept.push(t);
            proof {
                assert(views(kept@) == before.push(t@));
                lemma_join_push(before, t@, seq![',']);
            }
        }
        i = i + 1;
    }
    assert(tv.take(pieces.len() as int) == tv);
    if joined.len() == 0 {
        None
    } else {
        Some(string_of(&joined))
    }
}

// ── System dictionaries ────────────────────────────────────────────────────

/// Standard installation roots where MeCab dictionaries live, in preference
/// order.
pub open spec fn dict_roots() -> Seq<Seq<char>> {
    seq![
        "/usr/share/mecab/dic"@,
        "/var/lib/mecab/dic"@,
        "/usr/lib/mecab/dic"@,
        "/usr/local/lib/mecab/dic"@,
        "/opt/homebrew/lib/mecab/dic"@,
        "/opt/local/lib/mecab/dic"@,
    ]
}

/// Known UTF-8 dictionary directory names, in preference order: the IPA POS
/// schema first, then UniDic, then JUMAN.
pub open spec fn dict_names() -> Seq<Seq<char>> {
    seq![
        "mecab-ipadic-neologd"@,
        "ipadic-neologd"@,
        "naist-jdic"@,
        "ipadic-utf8"@,
        "ipadic"@,
        "mecab-unidic-neologd"@,
        "unidic-neologd"@,
        "unidic-cwj"@,
        "unidic"@,
        "jumandic-utf8"@,
        "juman-utf8"@,
        "jumandic"@,
    ]
}

/// The views of string slices.
pub open spec fn str_views(v: Seq<&str>) -> Seq<Seq<char>> {
    v.map_values(|s: &str| s@)
}

/// Standard installation roots where MeCab dictionaries live, in preference
/// order (Debian/Ubuntu, other package managers, source installs, Homebrew,
/// MacPorts).
pub fn mecab_dict_roots() -> (r: Vec<&'static str>)
    ensures
        str_views(r@) == dict_roots(),
{
    let r = vec![
        "/usr/share/mecab/dic",
        "/var/lib/mecab/dic",
        "/usr/lib/mecab/dic",
        "/usr/local/lib/mecab/dic",
        "/opt/homebrew/lib/mecab/dic",
        "/opt/local/lib/mecab/dic",
    ];
    assert(str_views(r@) =~= dict_roots());
    r
}

/// Known UTF-8 dictionary directory names, in preference order.  Earlier
/// entries beat later ones when multiple dictionaries are installed.
pub fn mecab_dict_names() -> (r: Vec<&'static str>)
    ensures
        str_views(r@) == dict_names(),
{
    let r = vec![
        "mecab-ipadic-neologd",
        "ipadic-neologd",
        "naist-jdic",
        "ipadic-utf8",
        "ipadic",
        "mecab-unidic-neologd",
        "unidic-neologd",
        "unidic-cwj",
        "unidic",
        "jumandic-utf8",
        "juman-utf8",
        "jumandic",
    ];
    assert(str_views(r@) =~= dict_names());
    r
}

/// The directory `root/name`.
pub open spec fn dict_path(root: Seq<char>, name: Seq<char>) -> Seq<char> {
    root + seq!['/'] + name
}

/// Candidate directories for the given names, names first: every root for
/// the first name, then every root for the next, and so on.
pub open spec fn candidates_for(names: Seq<Seq<char>>) -> Seq<Seq<char>>
    decreases names.len(),
{
    if names.len() == 0 {
        seq![]
    } else {
        candidates_for(names.drop_last()) + dict_roots().map_values(
            |root: Seq<char>| dict_path(root, names.last()),
        )
    }
}

/// All candidate dictionary directories, in preference order.
pub open spec fn dict_candidates_spec() -> Seq<Seq<char>> {
    candidates_for(dict_names())
}

/// All candidate dictionary directories, in preference order: the cross
/// product of names and roots, names first, so that a preferred dictionary
/// anywhere beats a later one elsewhere.
pub fn dict_candidates() -> (r: Vec<String>)
    ensures
        r@.map_values(|s: String| s@) == dict_candidates_spec(),
{
    let roots = mecab_dict_roots();
    let names = mecab_dict_names();
    let ghost rv = str_views(roots@);
    let ghost nv = str_views(names@);
    let mut out: Vec<String> = Vec::new();
    let mut i: usize = 0;
    assert(nv.take(0) == Seq::<Seq<char>>::empty());
    while i < names.len()
        invariant
            i <= names.len(),
            rv == str_views(roots@),
            nv == str_views(names@),
            rv == dict_roots(),
            nv == dict_names(),
            out@.map_values(|s: String| s@) == candidates_for(nv.take(i as int)),
        decreases names.len() - i,
    {
        let name = chars_of(names[i]);
        let ghost base = out@.map_values(|s: String| s@);
        let mut j: usize = 0;
        while j < roots.len()
            invariant
                i < names.len(),
                j <= roots.len(),
                rv == str_views(roots@),
                nv == str_views(names@),
                name@ == nv[i as int],
                out@.map_values(|s: String| s@) == base + rv.take(j as int).map_values(
                    |root: Seq<char>| dict_path(root, nv[i as int]),
                ),
            decreases roots.len() - j,
        {
            let root = chars_of(roots[j]);
            let mut path = chars_of(roots[j]);
            path.push('/');
            extend_chars(&mut path, &name);
            assert(root@ == rv[j as int]);
            assert(path@ == dict_path(rv[j as int], nv[i as int]));
            let ghost before = out@.map_values(|s: String| s@);
            out.push(string_of(&path));
            proof {
                let f = |root: Seq<char>| dict_path(root, nv[i as int]);
                assert(rv.take(j + 1).map_values(f) == rv.take(j as int).map_values(f).push(
                    f(rv[j as int]),
                ));
                assert(out@.map_values(|s: String| s@) == before.push(path@));
                assert(base + rv.take(j + 1).map_values(f) == (base + rv.take(j as int).map_values(
                    f,
                )).push(f(rv[j as int])));
            }
            j = j + 1;
        }
        proof {
            assert(rv.take(roots.len() as int) == rv);
            assert(nv.take(i + 1).drop_last() == nv.take(i as int));
            assert(nv.take(i + 1).last() == nv[i as int]);
        }
        i = i + 1;
    }
    assert(nv.take(names.len() as int) == nv);
    out
}

/// Index of the first `true`, or the length when there is none.
pub open spec fn first_true(u: Seq<bool>) -> nat
    decreases u.len(),
{
    if u.len() == 0 {
        0
    } else if u[0] {
        0
    } else {
        1 + first_true(u.drop_first())
    }
}

/// The dictionary chosen: the override directory when it is non-empty and
/// holds a dictionary (an empty override counts as unset), else the first
/// usable candidate (`usable[i]` tells whether candidate `i` holds a UTF-8
/// dictionary), else none.
pub open spec fn chosen_dict(
    env_dir: Option<Seq<char>>,
    env_dir_is_dict: bool,
    usable: Seq<bool>,
) -> Option<Seq<char>> {
    if env_dir is Some && env_dir->0.len() > 0 && env_dir_is_dict {
        env_dir
    } else {
        let i = first_true(usable);
        if i < usable.len() && i < dict_candidates_spec().len() {
            Some(dict_candidates_spec()[i as int])
        } else {
            None
        }
    }
}

/// `first_true` is the position of the first `true`.
proof fn lemma_first_true(u: Seq<bool>, i: int)
    requires
        0 <= i <= u.len(),
        forall|k: int| 0 <= k < i ==> !u[k],
        i == u.len() || u[i],
    ensures
        first_true(u) == i,
    decreases i,
{
    if i > 0 {
        lemma_first_true(u.drop_first(), i - 1);
    }
}

/// The dictionary chosen is never an empty path.
pub proof fn lemma_chosen_dict_nonempty(
    env_dir: Option<Seq<char>>,
    env_dir_is_dict: bool,
    usable: Seq<bool>,
)
    ensures
        chosen_dict(env_dir, env_dir_is_dict, usable) matches Some(d) ==> d.len() > 0,
{
    lemma_candidate_order();
}

/// Find the MeCab UTF-8 dictionary directory to use, or `None`.
///
/// `env_dir` is the `MECAB_DICT_DIR` override and `env_dir_is_dict` whether
/// it holds a `sys.dic`; `usable[i]` tells whether candidate `i` of
/// [`dict_candidates`] holds a `sys.dic` and a UTF-8 `dicrc`.  A non-empty
/// override wins; otherwise the first usable candidate in preference order.
/// The directory chosen is never empty.
pub fn find_mecab_dict(env_dir: Option<&str>, env_dir_is_dict: bool, usable: &Vec<bool>) -> (r:
    Option<String>)
    ensures
        match r {
            Some(d) => chosen_dict(
                match env_dir {
                    Some(e) => Some(e@),
                    None => None,
                },
                env_dir_is_dict,
                usable@,
            ) == Some(d@),
            None => chosen_dict(
                match env_dir {
                    Some(e) => Some(e@),
                    None => None,
                },
                env_dir_is_dict,
                usable@,
            ) is None,
        },
        r matches Some(d) ==> d@.len() > 0,
{
    proof {
        lemma_chosen_dict_nonempty(
            match env_dir {
                Some(e) => Some(e@),
                None => None,
            },
            env_dir_is_dict,
            usable@,
        );
    }
    if let Some(e) = env_dir {
        let v = chars_of(e);
        if v.len() > 0 && env_dir_is_dict {
            return Some(string_of(&v));
        }
    }
    let candidates = dict_candidates();
    let ghost cv = candidates@.map_values(|s: String| s@);
    let mut i: usize = 0;
    while i < usable.len() && !usable[i]
        invariant
            i <= usable.len(),
            forall|k: int| 0 <= k < i ==> !usable@[k],
        decreases usable.len() - i,
    {
        i = i + 1;
    }
    proof {
        lemma_first_true(usable@, i as int);
    }
    if i < usable.len() && i < candidates.len() {
        let c = chars_of(candidates[i].as_str());
        assert(c@ == cv[i as int]);
        Some(string_of(&c))
    } else {
        None
    }
}

/// The arguments MeCab is run with for a dictionary and optional user
/// dictionaries.
pub open spec fn mecab_args_spec(dict: Seq<char>, user_dicts: Option<Seq<char>>) -> Seq<
    Seq<char>,
> {
    seq!["-r"@, "/dev/null"@, "-d"@, dict] + match user_dicts {
        Some(u) => seq!["-u"@, u],
        None => seq![],
    }
}

/// Command-line arguments for `mecab`: no resource file, the given system
/// dictionary, and the user dictionaries when there are any.
pub fn mecab_args(dict: &str, user_dicts: Option<&str>) -> (r: Vec<String>)
    ensures
        r@.map_values(|s: String| s@) == mecab_args_spec(
            dict@,
            match user_dicts {
                Some(u) => Some(u@),
                None => None,
            },
        ),
{
    let mut args: Vec<String> = Vec::new();
    args.push(string_of(&chars_of("-r")));
    args.push(string_of(&chars_of("/dev/null")));
    args.push(string_of(&chars_of("-d")));
    args.push(string_of(&chars_of(dict)));
    if let Some(u) = user_dicts {
        args.push(string_of(&chars_of("-u")));
        args.push(string_of(&chars_of(u)));
    }
    assert(args@.map_values(|s: String| s@) =~= mecab_args_spec(
        dict@,
        match user_dicts {
            Some(u) => Some(u@),
            None => None,
        },
    ));
    args
}


// ── Laws ───────────────────────────────────────────────────────────────────

/// Candidate `i` for the given names is root `i % 6` joined with name
/// `i / 6`.
proof fn lemma_candidates_for_index(names: Seq<Seq<char>>)
    ensures
        candidates_for(names).len() == names.len() * dict_roots().len(),
        forall|i: int|
            0 <= i < candidates_for(names).len() ==> #[trigger] candidates_for(names)[i]
                == dict_path(dict_roots()[i % 6], names[i / 6]),
    decreases names.len(),
{
    let roots = dict_roots();
    assert(roots.len() == 6);
    if names.len() > 0 {
        let p = names.drop_last();
        lemma_candidates_for_index(p);
        let pre = candidates_for(p);
        let block = roots.map_values(|root: Seq<char>| dict_path(root, names.last()));
        assert(candidates_for(names) == pre + block);
        assert(names.len() * 6 == p.len() * 6 + 6) by (nonlinear_arith)
            requires
                names.len() == p.len() + 1,
        ;
        assert forall|i: int| 0 <= i < candidates_for(names).len() implies #[trigger] candidates_for(
            names,
        )[i] == dict_path(roots[i % 6], names[i / 6]) by {
            let pl = p.len() as int;
            if i < pre.len() {
                assert(candidates_for(names)[i] == pre[i]);
                assert(i / 6 < pl) by (nonlinear_arith)
                    requires
                        0 <= i < pl * 6,
                ;
                assert(p[i / 6] == names[i / 6]);
            } else {
                let r = i - pl * 6;
                assert(0 <= r < 6);
                assert(candidates_for(names)[i] == block[r]);
                assert(i / 6 == pl && i % 6 == r) by (nonlinear_arith)
                    requires
                        r == i - pl * 6,
                        0 <= r < 6,
                ;
                assert(names[pl] == names.last());
            }
        }
    }
}

/// The candidates are the cross product of names and roots, names first:
/// candidate `i` is root `i % 6` under name `i / 6`, so every root is tried
/// for a preferred name before any root for a later one.
pub proof fn lemma_candidate_order()
    ensures
        dict_candidates_spec().len() == dict_names().len() * dict_roots().len(),
        forall|i: int|
            0 <= i < dict_candidates_spec().len() ==> #[trigger] dict_candidates_spec()[i]
                == dict_path(dict_roots()[i % 6], dict_names()[i / 6]),
{
    lemma_candidates_for_index(dict_names());
}


/// What `nonempty_pieces` keeps: non-empty pieces of the input.
proof fn lemma_nonempty_pieces(ps: Seq<Seq<char>>)
    ensures
        forall|i: int|
            0 <= i < nonempty_pieces(ps).len() ==> (#[trigger] nonempty_pieces(ps)[i]).len() > 0
                && exists|j: int| 0 <= j < ps.len() && ps[j] == nonempty_pieces(ps)[i],
        (forall|j: int| 0 <= j < ps.len() ==> (#[trigger] ps[j]).len() > 0) ==> nonempty_pieces(ps)
            == ps,
    decreases ps.len(),
{
    if ps.len() > 0 {
        let p = ps.drop_last();
        lemma_nonempty_pieces(p);
        let np = nonempty_pieces(ps);
        assert forall|i: int| 0 <= i < np.len() implies (#[trigger] np[i]).len() > 0 && exists|j: int|
            0 <= j < ps.len() && ps[j] == np[i] by {
            if i < nonempty_pieces(p).len() {
                assert(np[i] == nonempty_pieces(p)[i]);
                let j = choose|j: int| 0 <= j < p.len() && p[j] == nonempty_pieces(p)[i];
                assert(ps[j] == p[j]);
            } else {
                assert(np[i] == ps.last());
                assert(ps[ps.len() - 1] == np[i]);
            }
        }
        if forall|j: int| 0 <= j < ps.len() ==> (#[trigger] ps[j]).len() > 0 {
            assert forall|j: int| 0 <= j < p.len() implies (#[trigger] p[j]).len() > 0 by {
                assert(p[j] == ps[j]);
            }
            assert(ps[ps.len() - 1].len() > 0);
            assert(p.push(ps.last()) == ps);
        }
    }
}

/// Every user dictionary entry is non-empty, trimmed, and free of commas.
pub proof fn lemma_user_dict_entries(raw: Seq<char>)
    ensures
        forall|i: int|
            0 <= i < user_dict_entries(raw).len() ==> {
                let e = #[trigger] user_dict_entries(raw)[i];
                &&& e.len() > 0
                &&& trim(e) == e
                &&& forall|k: int| 0 <= k < e.len() ==> e[k] != ','
            },
{
    let sp = split(raw, ',');
    let tp = sp.map_values(|p: Seq<char>| trim(p));
    lemma_split_pieces(raw, ',');
    lemma_nonempty_pieces(tp);
    let es = user_dict_entries(raw);
    assert forall|i: int| 0 <= i < es.len() implies {
        let e = #[trigger] es[i];
        &&& e.len() > 0
        &&& trim(e) == e
        &&& forall|k: int| 0 <= k < e.len() ==> e[k] != ','
    } by {
        let e = es[i];
        let j = choose|j: int| 0 <= j < tp.len() && tp[j] == e;
        let piece = sp[j];
        lemma_trim_idempotent(piece);
        lemma_trim_part(piece);
        let a = choose|a: int|
            0 <= a && a + trim(piece).len() <= piece.len() && #[trigger] piece.subrange(
                a,
                a + trim(piece).len(),
            ) == trim(piece);
        assert forall|k: int| 0 <= k < e.len() implies e[k] != ',' by {
            assert(e[k] == piece.subrange(a, a + trim(piece).len())[k]);
            assert(piece[a + k] == sp[j][a + k]);
        }
    }
}

/// Cleaning is idempotent: a cleaned list comes back unchanged, so it is
/// ready to pass to `mecab -u` as it is.
pub proof fn lemma_user_dicts_idempotent(raw: Seq<char>)
    requires
        user_dicts_of(raw) is Some,
    ensures
        user_dicts_of(user_dicts_of(raw)->0) == user_dicts_of(raw),
{
    let es = user_dict_entries(raw);
    let j = join(es, seq![',']);
    lemma_user_dict_entries(raw);
    assert(es.len() > 0);
    assert forall|a: int, k: int| 0 <= a < es.len() && 0 <= k < es[a].len() implies #[trigger] es[a][k]
        != ',' by {
        let e = es[a];
        assert(forall|k2: int| 0 <= k2 < e.len() ==> e[k2] != ',');
    }
    lemma_split_join(es, ',');
    let tp = split(j, ',').map_values(|p: Seq<char>| trim(p));
    assert forall|i: int| 0 <= i < tp.len() implies tp[i] == es[i] by {
        assert(trim(es[i]) == es[i]);
    }
    assert(tp == es);
    lemma_nonempty_pieces(es);
    assert forall|i: int| 0 <= i < es.len() implies (#[trigger] es[i]).len() > 0 by {}
    assert(user_dict_entries(j) == es);
}


// ── Startup check ──────────────────────────────────────────────────────────

/// The message when the `mecab` binary does not run.
pub open spec fn no_binary_message() -> Seq<char> {
    "mecab binary not found — install with:\n  Debian/Ubuntu: sudo apt install mecab\n  Other: install mecab and ensure it is on $PATH"@
}

/// The message when no UTF-8 dictionary is found, listing where it was
/// searched.
pub open spec fn no_dict_message(roots: Seq<Seq<char>>, names: Seq<Seq<char>>) -> Seq<char> {
    "no MeCab UTF-8 dictionary found\n  Debian/Ubuntu: sudo apt install mecab-naist-jdic\n  Custom path:   export MECAB_DICT_DIR=/path/to/dic\n  searched roots: "@ + join(roots, ", "@) + "\n  searched names: "@ + join(names, ", "@)
}

/// The message when a listed user dictionary file is missing, with the
/// command that builds it against the dictionary in use.
pub open spec fn missing_user_dict_message(path: Seq<char>, dict: Seq<char>) -> Seq<char> {
    "MECAB_USER_DICT references missing file: "@ + path + "\n  Build with: mecab-dict-index -d "@ + dict + " -u "@ + path
        + " -f UTF-8 -t UTF-8 <source.csv>"@
}

/// String slices joined by `sep`.
fn join_strs(v: &Vec<&str>, sep: &str) -> (r: Vec<char>)
    ensures
        r@ == join(str_views(v@), sep@),
{
    let sepv = chars_of(sep);
    let mut out: Vec<char> = Vec::new();
    let mut i: usize = 0;
    assert(str_views(v@).take(0) == Seq::<Seq<char>>::empty());
    while i < v.len()
        invariant
            i <= v.len(),
            sepv@ == sep@,
            out@ == join(str_views(v@).take(i as int), sep@),
        decreases v.len() - i,
    {
        let piece = chars_of(v[i]);
        if i > 0 {
            extend_chars(&mut out, &sepv);
        }
        extend_chars(&mut out, &piece);
        proof {
            let sv = str_views(v@);
            assert(sv.take(i + 1) == sv.take(i as int).push(piece@));
            lemma_join_push(sv.take(i as int), piece@, sep@);
        }
        i = i + 1;
    }
    assert(str_views(v@).take(v.len() as int) == str_views(v@));
    out
}

/// The decision of the startup check, given whether the `mecab` binary runs,
/// the dictionary found, and the first listed user dictionary file that is
/// missing: the dictionary when all is in place, else the message for the
/// first thing that is not, in that order.  An empty dictionary path counts
/// as none found, so success always names a non-empty path.
pub fn mecab_readiness(mecab_ok: bool, dict: Option<&str>, missing_user_dict: Option<&str>) -> (r:
    Result<String, String>)
    ensures
        match r {
            Ok(x) => mecab_ok && dict is Some && dict->0@.len() > 0 && missing_user_dict is None
                && x@ == dict->0@ && x@.len() > 0,
            Err(m) => if !mecab_ok {
                m@ == no_binary_message()
            } else {
                match dict {
                    Some(d) if d@.len() > 0 => match missing_user_dict {
                        Some(p) => m@ == missing_user_dict_message(p@, d@),
                        None => false,
                    },
                    _ => m@ == no_dict_message(dict_roots(), dict_names()),
                }
            },
        },
{
    if !mecab_ok {
        return Err(string_of(&chars_of("mecab binary not found — install with:\n  Debian/Ubuntu: sudo apt install mecab\n  Other: install mecab and ensure it is on $PATH")));
    }
    let d = match dict {
        Some(d) if chars_of(d).len() > 0 => d,
        _ => {
            let mut m = chars_of("no MeCab UTF-8 dictionary found\n  Debian/Ubuntu: sudo apt install mecab-naist-jdic\n  Custom path:   export MECAB_DICT_DIR=/path/to/dic\n  searched roots: ");
            extend_chars(&mut m, &join_strs(&mecab_dict_roots(), ", "));
            extend_chars(&mut m, &chars_of("\n  searched names: "));
            extend_chars(&mut m, &join_strs(&mecab_dict_names(), ", "));
            return Err(string_of(&m));
        },
    };
    match missing_user_dict {
        Some(p) => {
            let pv = chars_of(p);
            let mut m = chars_of("MECAB_USER_DICT references missing file: ");
            extend_chars(&mut m, &pv);
            extend_chars(&mut m, &chars_of("\n  Build with: mecab-dict-index -d "));
            extend_chars(&mut m, &chars_of(d));
            extend_chars(&mut m, &chars_of(" -u "));
            extend_chars(&mut m, &pv);
            extend_chars(&mut m, &chars_of(" -f UTF-8 -t UTF-8 <source.csv>"));
            Err(string_of(&m))
        },
        None => Ok(string_of(&chars_of(d))),
    }
}

} // verus!
