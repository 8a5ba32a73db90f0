//! The normalization pipeline: extension splitting, the per-character
//! rewriting of the base name, hyphen collapsing, and reassembly.

use vstd::prelude::*;

use crate::chars::{
    char_fold, chars_to_string, fold_char, is_ws, is_ws_char, lower_str, str_to_chars, to_lower,
};
use crate::config::{default_rules, lookup, NormalizationConfig, Rules};

verus! {

// ---------------------------------------------------------------------------
// Trimming
// ---------------------------------------------------------------------------
/// `s` without its leading whitespace.
pub open spec fn trim_front_ws(s: Seq<char>) -> Seq<char>
    decreases s.len(),
{
    if s.len() > 0 && is_ws_char(s[0]) {
        trim_front_ws(s.drop_first())
    } else {
        s
    }
}

/// `s` without its trailing whitespace.
pub open spec fn trim_back_ws(s: Seq<char>) -> Seq<char>
    decreases s.len(),
{
    if s.len() > 0 && is_ws_char(s.last()) {
        trim_back_ws(s.drop_last())
    } else {
        s
    }
}

/// `s` without leading or trailing whitespace, as `str::trim` gives it.
pub open spec fn trim_ws(s: Seq<char>) -> Seq<char> {
    trim_back_ws(trim_front_ws(s))
}

/// `s` without its leading dots.
pub open spec fn trim_front_dot(s: Seq<char>) -> Seq<char>
    decreases s.len(),
{
    if s.len() > 0 && s[0] == '.' {
        trim_front_dot(s.drop_first())
    } else {
        s
    }
}

/// `s` without its trailing dots.
pub open spec fn trim_back_dot(s: Seq<char>) -> Seq<char>
    decreases s.len(),
{
    if s.len() > 0 && s.last() == '.' {
        trim_back_dot(s.drop_last())
    } else {
        s
    }
}

/// `s` without leading or trailing dots.
pub open spec fn trim_dots(s: Seq<char>) -> Seq<char> {
    trim_back_dot(trim_front_dot(s))
}

/// `s` without its leading hyphens. Trailing hyphens stay: the asymmetry
/// is deliberate and part of the output format.
pub open spec fn trim_front_hyphen(s: Seq<char>) -> Seq<char>
    decreases s.len(),
{
    if s.len() > 0 && s[0] == '-' {
        trim_front_hyphen(s.drop_first())
    } else {
        s
    }
}

// ---------------------------------------------------------------------------
// Extension splitting
// ---------------------------------------------------------------------------
/// Index of the last dot in `s`, or -1 if there is none.
pub open spec fn last_dot_idx(s: Seq<char>) -> int
    decreases s.len(),
{
    if s.len() == 0 {
        -1
    } else if s.last() == '.' {
        s.len() - 1
    } else {
        last_dot_idx(s.drop_last())
    }
}

/// What `last_dot_idx` points at.
pub proof fn lemma_last_dot_props(s: Seq<char>)
    ensures
        -1 <= last_dot_idx(s) < s.len(),
        last_dot_idx(s) >= 0 ==> s[last_dot_idx(s)] == '.',
        forall|k: int| last_dot_idx(s) < k < s.len() ==> s[k] != '.',
    decreases s.len(),
{
    if s.len() > 0 && s.last() != '.' {
        lemma_last_dot_props(s.drop_last());
        assert(forall|k: int| 0 <= k < s.len() - 1 ==> s.drop_last()[k] == s[k]);
    }
}

/// Split a name into base and extension. The extension is what follows
/// the last dot, except: a dot in first position makes the whole rest the
/// extension (hidden files), and a dot in last position yields none.
pub open spec fn split_ext(s: Seq<char>) -> (Seq<char>, Seq<char>) {
    let d = last_dot_idx(s);
    if d == -1 {
        (s, Seq::<char>::empty())
    } else if d == 0 {
        (Seq::<char>::empty(), s.skip(1))
    } else if d == s.len() - 1 {
        (s.take(d), Seq::<char>::empty())
    } else {
        (s.take(d), s.skip(d + 1))
    }
}

// ---------------------------------------------------------------------------
// Per-character rewriting
// ---------------------------------------------------------------------------
/// The fixed set of characters that always become a single hyphen: space,
/// en dash, em dash, and the four curly quotes.
pub open spec fn is_break_char(c: char) -> bool {
    c == ' ' || c == '\u{2013}' || c == '\u{2014}' || c == '\u{2018}' || c == '\u{2019}' || c
        == '\u{201c}' || c == '\u{201d}'
}

/// The characters a slug may contain verbatim: ASCII letters (lowercase
/// only when folding), digits, hyphen, underscore and dot.
pub open spec fn is_allowed_char(lowercase: bool, c: char) -> bool {
    ('a' <= c && c <= 'z') || (!lowercase && 'A' <= c && c <= 'Z') || ('0' <= c && c <= '9') || c
        == '-' || c == '_' || c == '.'
}

/// What one already-folded character contributes to the output: its
/// special-token replacement, else its transliteration, else a hyphen for
/// a break character, else itself if allowed, else a hyphen.
pub open spec fn classify_char(r: Rules, c: char) -> Seq<char> {
    match lookup(r.special, c) {
        Option::Some(v) => v,
        Option::None => match lookup(r.translit, c) {
            Option::Some(v) => v,
            Option::None => if is_break_char(c) {
                seq!['-']
            } else if is_allowed_char(r.lowercase, c) {
                seq![c]
            } else {
                seq!['-']
            },
        },
    }
}

/// `classify_char` applied to every character of `s`, concatenated.
pub open spec fn classify_seq(r: Rules, s: Seq<char>) -> Seq<char>
    decreases s.len(),
{
    if s.len() == 0 {
        Seq::<char>::empty()
    } else {
        classify_seq(r, s.drop_last()) + classify_char(r, s.last())
    }
}

/// The case fold applied to one input character, if folding is on.
pub open spec fn fold_for(r: Rules, c: char) -> Seq<char> {
    if r.lowercase {
        fold_char(c)
    } else {
        seq![c]
    }
}

/// What one input character contributes to the output.
pub open spec fn emit_one(r: Rules, c: char) -> Seq<char> {
    classify_seq(r, fold_for(r, c))
}

/// The whole rewritten stream for `s`.
pub open spec fn emit_seq(r: Rules, s: Seq<char>) -> Seq<char>
    decreases s.len(),
{
    if s.len() == 0 {
        Seq::<char>::empty()
    } else {
        emit_seq(r, s.drop_last()) + emit_one(r, s.last())
    }
}

// ---------------------------------------------------------------------------
// Hyphen collapsing
// ---------------------------------------------------------------------------
/// `s` with every run of hyphens shortened to a single hyphen: a hyphen
/// is dropped exactly when the character before it is also a hyphen.
pub open spec fn collapse(s: Seq<char>) -> Seq<char>
    decreases s.len(),
{
    if s.len() <= 1 {
        s
    } else if s.last() == '-' && s[s.len() - 2] == '-' {
        collapse(s.drop_last())
    } else {
        collapse(s.drop_last()).push(s.last())
    }
}

// ---------------------------------------------------------------------------
// The pipeline
// ---------------------------------------------------------------------------
/// The normalized base name: trim whitespace and dots, rewrite every
/// character, collapse hyphen runs, drop leading hyphens.
pub open spec fn normalize_base_spec(r: Rules, s: Seq<char>) -> Seq<char> {
    trim_front_hyphen(collapse(emit_seq(r, trim_dots(trim_ws(s)))))
}

/// The normalized extension: lowercased when the toggle asks for it,
/// otherwise passed through unchanged.
pub open spec fn lower_ext_spec(r: Rules, e: Seq<char>) -> Seq<char> {
    if r.lowercase_extension {
        lower_str(e)
    } else {
        e
    }
}

/// The normalized filename: empty input stays empty; otherwise the
/// trimmed name is split, the base normalized, the extension lowercased,
/// and the two reassembled around a dot when an extension exists.
pub open spec fn normalize_spec(r: Rules, s: Seq<char>) -> Seq<char> {
    if s.len() == 0 {
        Seq::<char>::empty()
    } else {
        let t = trim_ws(s);
        let b = split_ext(t).0;
        let e = split_ext(t).1;
        let nb = normalize_base_spec(r, b);
        let ne = lower_ext_spec(r, e);
        if ne.len() == 0 {
            nb
        } else {
            nb + seq!['.'] + ne
        }
    }
}

// ---------------------------------------------------------------------------
// Executable helpers
// ---------------------------------------------------------------------------
/// Copy of `v[a..b]`.
fn sub_vec(v: &Vec<char>, a: usize, b: usize) -> (r: Vec<char>)
    requires
        a <= b <= v@.len(),
    ensures
        r@ == v@.subrange(a as int, b as int),
{
    let mut r: Vec<char> = Vec::new();
    let mut i: usize = a;
    while i < b
        invariant
            a <= i <= b <= v@.len(),
            r@ == v@.subrange(a as int, i as int),
        decreases b - i,
    {
        r.push(v[i]);
        proof {
            assert(r@ =~= v@.subrange(a as int, i + 1 as int));
        }
        i = i + 1;
    }
    r
}

/// `v` without leading or trailing whitespace.
fn trim_ws_vec(v: &Vec<char>) -> (r: Vec<char>)
    ensures
        r@ == trim_ws(v@),
{
    let ghost s = v@;
    proof {
        assert(s.skip(0) =~= s);
    }
    let n = v.len();
    let mut i: usize = 0;
    while i < n && is_ws(v[i])
        invariant
            n == s.len(),
            i <= n,
            v@ == s,
            trim_front_ws(s) == trim_front_ws(s.skip(i as int)),
        decreases n - i,
    {
        proof {
            assert(s.skip(i as int)[0] == s[i as int]);
            assert(s.skip(i as int).drop_first() =~= s.skip(i + 1));
        }
        i = i + 1;
    }
    proof {
        if i < n {
            assert(s.skip(i as int)[0] == s[i as int]);
        } else {
            assert(s.skip(i as int) =~= Seq::<char>::empty());
        }
        assert(trim_front_ws(s) == s.skip(i as int));
    }
    let ghost t = s.skip(i as int);
    let mut j: usize = n;
    while j > i && is_ws(v[j - 1])
        invariant
            n == s.len(),
            i <= j <= n,
            v@ == s,
            t == s.skip(i as int),
            trim_back_ws(t) == trim_back_ws(s.subrange(i as int, j as int)),
        decreases j - i,
    {
        proof {
            let cur = s.subrange(i as int, j as int);
            assert(cur.last() == s[j - 1]);
            assert(cur.drop_last() =~= s.subrange(i as int, j - 1));
        }
        j = j - 1;
    }
    proof {
        let cur = s.subrange(i as int, j as int);
        if j > i {
            assert(cur.last() == s[j - 1]);
        }
        assert(trim_back_ws(cur) == cur);
        assert(t =~= s.subrange(i as int, n as int));
    }
    sub_vec(v, i, j)
}

/// `v` without leading or trailing dots.
fn trim_dots_vec(v: &Vec<char>) -> (r: Vec<char>)
    ensures
        r@ == trim_dots(v@),
{
    let ghost s = v@;
    proof {
        assert(s.skip(0) =~= s);
    }
    let n = v.len();
    let mut i: usize = 0;
    while i < n && v[i] == '.'
        invariant
            n == s.len(),
            i <= n,
            v@ == s,
            trim_front_dot(s) == trim_front_dot(s.skip(i as int)),
        decreases n - i,
    {
        proof {
            assert(s.skip(i as int)[0] == s[i as int]);
            assert(s.skip(i as int).drop_first() =~= s.skip(i + 1));
        }
        i = i + 1;
    }
    proof {
        if i < n {
            assert(s.skip(i as int)[0] == s[i as int]);
        } else {
            assert(s.skip(i as int) =~= Seq::<char>::empty());
        }
        assert(trim_front_dot(s) == s.skip(i as int));
    }
    let ghost t = s.skip(i as int);
    let mut j: usize = n;
    while j > i && v[j - 1] == '.'
        invariant
            n == s.len(),
            i <= j <= n,
            v@ == s,
            t == s.skip(i as int),
            trim_back_dot(t) == trim_back_dot(s.subrange(i as int, j as int)),
        decreases j - i,
    {
        proof {
            let cur = s.subrange(i as int, j as int);
            assert(cur.last() == s[j - 1]);
            assert(cur.drop_last() =~= s.subrange(i as int, j - 1));
        }
        j = j - 1;
    }
    proof {
        let cur = s.subrange(i as int, j as int);
        if j > i {
            assert(cur.last() == s[j - 1]);
        }
        assert(trim_back_dot(cur) == cur);
        assert(t =~= s.subrange(i as int, n as int));
        assert(trim_dots(s) == trim_back_dot(t));
    }
    sub_vec(v, i, j)
}

/// `v` without its leading hyphens.
fn trim_front_hyphen_vec(v: &Vec<char>) -> (r: Vec<char>)
    ensures
        r@ == trim_front_hyphen(v@),
{
    let ghost s = v@;
    proof {
        assert(s.skip(0) =~= s);
    }
    let n = v.len();
    let mut i: usize = 0;
    while i < n && v[i] == '-'
        invariant
            n == s.len(),
            i <= n,
            v@ == s,
            trim_front_hyphen(s) == trim_front_hyphen(s.skip(i as int)),
        decreases n - i,
    {
        proof {
            assert(s.skip(i as int)[0] == s[i as int]);
            assert(s.skip(i as int).drop_first() =~= s.skip(i + 1));
        }
        i = i + 1;
    }
    proof {
        if i < n {
            assert(s.skip(i as int)[0] == s[i as int]);
        } else {
            assert(s.skip(i as int) =~= Seq::<char>::empty());
        }
        assert(trim_front_hyphen(s) == s.skip(i as int));
        assert(s.skip(i as int) =~= s.subrange(i as int, n as int));
    }
    sub_vec(v, i, n)
}

/// Position of the last dot of `v`, if any.
fn find_last_dot(v: &Vec<char>) -> (r: Option<usize>)
    ensures
        match r {
            Option::Some(d) => d < v@.len() && last_dot_idx(v@) == d,
            Option::None => last_dot_idx(v@) == -1,
        },
{
    proof {
        lemma_last_dot_props(v@);
    }
    let n = v.len();
    let mut j: usize = n;
    while j > 0
        invariant
            n == v@.len(),
            j <= n,
            forall|k: int| j <= k < n ==> v@[k] != '.',
        decreases j,
    {
        if v[j - 1] == '.' {
            proof {
                lemma_last_dot_props(v@);
                let l = last_dot_idx(v@);
                if l > j - 1 {
                    assert(v@[l] != '.');
                }
                if l < j - 1 {
                    assert(v@[j - 1] != '.');
                }
            }
            return Some(j - 1);
        }
        j = j - 1;
    }
    None
}

proof fn lemma_collapse_snoc(s: Seq<char>, i: int)
    requires
        0 <= i < s.len(),
    ensures
        collapse(s.take(i + 1)) == if i > 0 && s[i] == '-' && s[i - 1] == '-' {
            collapse(s.take(i))
        } else {
            collapse(s.take(i)).push(s[i])
        },
{
    let u = s.take(i + 1);
    assert(u.drop_last() =~= s.take(i));
    assert(u.last() == s[i]);
    if i == 0 {
        assert(u.len() == 1);
        assert(collapse(u) == u);
        assert(s.take(0) =~= Seq::<char>::empty());
        assert(u =~= Seq::<char>::empty().push(s[0]));
    } else {
        assert(u[u.len() - 2] == s[i - 1]);
    }
}

/// Collapse hyphen runs in a character vector.
fn collapse_vec(v: &Vec<char>) -> (r: Vec<char>)
    ensures
        r@ == collapse(v@),
{
    let ghost s = v@;
    let n = v.len();
    let mut out: Vec<char> = Vec::new();
    let mut prev_hyphen = false;
    let mut i: usize = 0;
    while i < n
        invariant
            n == s.len(),
            i <= n,
            v@ == s,
            out@ == collapse(s.take(i as int)),
            prev_hyphen == (i > 0 && s[i - 1] == '-'),
        decreases n - i,
    {
        let c = v[i];
        proof {
            lemma_collapse_snoc(s, i as int);
        }
        if c == '-' {
            if !prev_hyphen {
                out.push(c);
            }
            prev_hyphen = true;
        } else {
            out.push(c);
            prev_hyphen = false;
        }
        i = i + 1;
    }
    proof {
        assert(s.take(n as int) =~= s);
    }
    out
}

proof fn lemma_classify_snoc(r: Rules, s: Seq<char>, j: int)
    requires
        0 <= j < s.len(),
    ensures
        classify_seq(r, s.take(j + 1)) == classify_seq(r, s.take(j)) + classify_char(r, s[j]),
{
    let u = s.take(j + 1);
    assert(u.drop_last() =~= s.take(j));
    assert(u.last() == s[j]);
}

proof fn lemma_emit_snoc(r: Rules, s: Seq<char>, i: int)
    requires
        0 <= i < s.len(),
    ensures
        emit_seq(r, s.take(i + 1)) == emit_seq(r, s.take(i)) + emit_one(r, s[i]),
{
    let u = s.take(i + 1);
    assert(u.drop_last() =~= s.take(i));
    assert(u.last() == s[i]);
}

/// Whether `c` always becomes a hyphen.
fn is_break(c: char) -> (r: bool)
    ensures
        r == is_break_char(c),
{
    c == ' ' || c == '\u{2013}' || c == '\u{2014}' || c == '\u{2018}' || c == '\u{2019}' || c
        == '\u{201c}' || c == '\u{201d}'
}

/// Whether `c` may stand in a slug verbatim.
fn is_allowed(lowercase: bool, c: char) -> (r: bool)
    ensures
        r == is_allowed_char(lowercase, c),
{
    ('a' <= c && c <= 'z') || (!lowercase && 'A' <= c && c <= 'Z') || ('0' <= c && c <= '9') || c
        == '-' || c == '_' || c == '.'
}

/// Append the characters of `s` to `dst`.
fn push_str_chars(dst: &mut Vec<char>, s: &str)
    ensures
        final(dst)@ == old(dst)@ + s@,
{
    let mut tmp = str_to_chars(s);
    dst.append(&mut tmp);
}

/// The rewritten stream for the already-trimmed base characters.
fn emit_vec(t: &Vec<char>, config: &NormalizationConfig) -> (r: Vec<char>)
    ensures
        r@ == emit_seq(config.rules(), t@),
{
    let ghost rules = config.rules();
    let n = t.len();
    let mut processed: Vec<char> = Vec::new();
    let mut i: usize = 0;
    while i < n
        invariant
            n == t@.len(),
            i <= n,
            rules == config.rules(),
            processed@ == emit_seq(rules, t@.take(i as int)),
        decreases n - i,
    {
        let folded: Vec<char> = if config.lowercase {
            char_fold(t[i])
        } else {
            let mut one: Vec<char> = Vec::new();
            one.push(t[i]);
            proof {
                assert(one@ =~= seq![t@[i as int]]);
            }
            one
        };
        assert(folded@ == fold_for(rules, t@[i as int]));
        let m = folded.len();
        let ghost base = processed@;
        let mut j: usize = 0;
        while j < m
            invariant
                m == folded@.len(),
                j <= m,
                rules == config.rules(),
                processed@ == base + classify_seq(rules, folded@.take(j as int)),
            decreases m - j,
        {
            let c = folded[j];
            proof {
                lemma_classify_snoc(rules, folded@, j as int);
            }
            match config.special_tokens.get(c) {
                Some(rep) => {
                    push_str_chars(&mut processed, rep.as_str());
                },
                None => {
                    match config.transliterations.get(c) {
                        Some(rep) => {
                            push_str_chars(&mut processed, rep.as_str());
                        },
                        None => {
                            if is_break(c) {
                                processed.push('-');
                                proof {
                                    assert(processed@ =~= base + classify_seq(
                                        rules,
                                        folded@.take(j + 1),
                                    ));
                                }
                            } else if is_allowed(config.lowercase, c) {
                                processed.push(c);
                                proof {
                                    assert(processed@ =~= base + classify_seq(
                                        rules,
                                        folded@.take(j + 1),
                                    ));
                                }
                            } else {
                                processed.push('-');
                                proof {
                                    assert(processed@ =~= base + classify_seq(
                                        rules,
                                        folded@.take(j + 1),
                                    ));
                                }
                            }
                        },
                    }
                },
            }
            j = j + 1;
        }
        proof {
            assert(folded@.take(m as int) =~= folded@);
            lemma_emit_snoc(rules, t@, i as int);
        }
        i = i + 1;
    }
    proof {
        assert(t@.take(n as int) =~= t@);
    }
    processed
}

/// The normalized base as characters.
fn normalize_base_chars(b: &Vec<char>, config: &NormalizationConfig) -> (r: Vec<char>)
    ensures
        r@ == normalize_base_spec(config.rules(), b@),
{
    let t1 = trim_ws_vec(b);
    let t = trim_dots_vec(&t1);
    let emitted = emit_vec(&t, config);
    let collapsed = collapse_vec(&emitted);
    trim_front_hyphen_vec(&collapsed)
}

// ---------------------------------------------------------------------------
// Public API
// ---------------------------------------------------------------------------
/// Split a filename into base name and extension; the extension does not
/// include the dot.
pub fn split_extension(filename: &str) -> (r: (&str, &str))
    ensures
        r.0@ == split_ext(filename@).0,
        r.1@ == split_ext(filename@).1,
{
    proof {
        lemma_last_dot_props(filename@);
    }
    let cs = str_to_chars(filename);
    let n = cs.len();
    match find_last_dot(&cs) {
        None => {
            let whole = filename.substring_char(0, n);
            let empty = filename.substring_char(n, n);
            proof {
                assert(whole@ =~= filename@);
                assert(empty@ =~= Seq::<char>::empty());
            }
            (whole, empty)
        },
        Some(d) => {
            if d == 0 {
                let base = filename.substring_char(0, 0);
                let ext = filename.substring_char(1, n);
                proof {
                    assert(base@ =~= Seq::<char>::empty());
                    assert(ext@ =~= filename@.skip(1));
                }
                (base, ext)
            } else if d == n - 1 {
                let base = filename.substring_char(0, d);
                let ext = filename.substring_char(n, n);
                proof {
                    assert(base@ =~= filename@.take(d as int));
                    assert(ext@ =~= Seq::<char>::empty());
                }
                (base, ext)
            } else {
                let base = filename.substring_char(0, d);
                let ext = filename.substring_char(d + 1, n);
                proof {
                    assert(base@ =~= filename@.take(d as int));
                    assert(ext@ =~= filename@.skip(d + 1));
                }
                (base, ext)
            }
        },
    }
}

/// Collapse every run of two or more hyphens into a single hyphen.
pub fn cleanup_hyphens(text: &str) -> (r: String)
    ensures
        r@ == collapse(text@),
{
    let cs = str_to_chars(text);
    let out = collapse_vec(&cs);
    chars_to_string(&out)
}

/// Normalize a base name (the part before the extension) under `config`.
pub fn normalize_base(base_name: &str, config: &NormalizationConfig) -> (r: String)
    ensures
        r@ == normalize_base_spec(config.rules(), base_name@),
{
    let cs = str_to_chars(base_name);
    let out = normalize_base_chars(&cs, config);
    chars_to_string(&out)
}

/// Normalize a filename using a provided configuration. Total: every
/// string input yields a string output, and no input is rejected.
pub fn normalize_with_config(filename: &str, config: &NormalizationConfig) -> (r: String)
    ensures
        r@ == normalize_spec(config.rules(), filename@),
{
    if filename.is_empty() {
        return String::new();
    }
    let cs = str_to_chars(filename);
    let t = trim_ws_vec(&cs);
    let n = t.len();
    let ghost ts = t@;
    proof {
        lemma_last_dot_props(ts);
    }
    let d = find_last_dot(&t);
    let b: Vec<char>;
    let e: Vec<char>;
    match d {
        None => {
            e = Vec::new();
            b = t;
            proof {
                assert(b@ =~= split_ext(ts).0);
                assert(e@ =~= split_ext(ts).1);
            }
        },
        Some(k) => {
            if k == 0 {
                b = Vec::new();
                e = sub_vec(&t, 1, n);
                proof {
                    assert(b@ =~= split_ext(ts).0);
                    assert(e@ =~= split_ext(ts).1);
                }
            } else if k == n - 1 {
                b = sub_vec(&t, 0, k);
                e = Vec::new();
                proof {
                    assert(b@ =~= split_ext(ts).0);
                    assert(e@ =~= split_ext(ts).1);
                }
            } else {
                b = sub_vec(&t, 0, k);
                e = sub_vec(&t, k + 1, n);
                proof {
                    assert(b@ =~= split_ext(ts).0);
                    assert(e@ =~= split_ext(ts).1);
                }
            }
        },
    }
    let nb = normalize_base_chars(&b, config);
    let es = chars_to_string(&e);
    let ne: String = if config.lowercase_extension {
        to_lower(es.as_str())
    } else {
        es
    };
    let mut out = chars_to_string(&nb);
    if ne.as_str().is_empty() {
        out
    } else {
        out.append(".");
        out.append(ne.as_str());
        proof {
            reveal_strlit(".");
            assert(out@ =~= normalize_spec(config.rules(), filename@));
        }
        out
    }
}

/// Normalize a filename with the default configuration. Never fails.
pub fn normalize(filename: &str) -> (r: String)
    ensures
        r@ == normalize_spec(default_rules(), filename@),
{
    let config = NormalizationConfig::default();
    normalize_with_config(filename, &config)
}

} // verus!
