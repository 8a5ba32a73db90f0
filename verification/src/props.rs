//! Properties of the normalization pipeline: the shape of its output and
//! its behaviour on a second pass.

use vstd::prelude::*;

use crate::chars::{ascii_lower_char, fold_char, is_ascii_char, is_ws_char};
use crate::config::{default_rules, default_special, default_translit, lookup, Rules};
use crate::normalize::{
    classify_char, classify_seq, collapse, emit_one, emit_seq, fold_for, is_allowed_char,
    is_break_char, last_dot_idx, lemma_last_dot_props, lower_ext_spec, normalize_base_spec,
    normalize_spec, split_ext, trim_back_dot, trim_back_ws, trim_dots, trim_front_dot,
    trim_front_hyphen, trim_front_ws, trim_ws,
};

verus! {

/// A slug character: lowercase ASCII letter, digit, hyphen, underscore or
/// dot.
pub open spec fn is_slug_char(c: char) -> bool {
    is_allowed_char(true, c)
}

/// No two consecutive hyphens anywhere in `s`.
pub open spec fn no_double_hyphen(s: Seq<char>) -> bool {
    forall|i: int| 0 <= i < s.len() - 1 ==> !(#[trigger] s[i] == '-' && s[i + 1] == '-')
}

// ---------------------------------------------------------------------------
// Trimming: prefix/suffix shape and end characters
// ---------------------------------------------------------------------------
proof fn lemma_tfw_shape(s: Seq<char>)
    ensures
        trim_front_ws(s).len() <= s.len(),
        trim_front_ws(s) == s.skip(s.len() - trim_front_ws(s).len()),
        trim_front_ws(s).len() > 0 ==> !is_ws_char(trim_front_ws(s)[0]),
    decreases s.len(),
{
    if s.len() > 0 && is_ws_char(s[0]) {
        lemma_tfw_shape(s.drop_first());
        assert(s.drop_first().skip(s.drop_first().len() - trim_front_ws(s).len()) =~= s.skip(
            s.len() - trim_front_ws(s).len(),
        ));
    } else {
        assert(s.skip(0) =~= s);
    }
}

proof fn lemma_tbw_shape(s: Seq<char>)
    ensures
        trim_back_ws(s).len() <= s.len(),
        trim_back_ws(s) == s.take(trim_back_ws(s).len() as int),
        trim_back_ws(s).len() > 0 ==> !is_ws_char(trim_back_ws(s).last()),
    decreases s.len(),
{
    if s.len() > 0 && is_ws_char(s.last()) {
        lemma_tbw_shape(s.drop_last());
        assert(s.drop_last().take(trim_back_ws(s).len() as int) =~= s.take(
            trim_back_ws(s).len() as int,
        ));
    } else {
        assert(s.take(s.len() as int) =~= s);
    }
}

proof fn lemma_tfd_shape(s: Seq<char>)
    ensures
        trim_front_dot(s).len() <= s.len(),
        trim_front_dot(s) == s.skip(s.len() - trim_front_dot(s).len()),
        trim_front_dot(s).len() > 0 ==> trim_front_dot(s)[0] != '.',
    decreases s.len(),
{
    if s.len() > 0 && s[0] == '.' {
        lemma_tfd_shape(s.drop_first());
        assert(s.drop_first().skip(s.drop_first().len() - trim_front_dot(s).len()) =~= s.skip(
            s.len() - trim_front_dot(s).len(),
        ));
    } else {
        assert(s.skip(0) =~= s);
    }
}

proof fn lemma_tbd_shape(s: Seq<char>)
    ensures
        trim_back_dot(s).len() <= s.len(),
        trim_back_dot(s) == s.take(trim_back_dot(s).len() as int),
        trim_back_dot(s).len() > 0 ==> trim_back_dot(s).last() != '.',
    decreases s.len(),
{
    if s.len() > 0 && s.last() == '.' {
        lemma_tbd_shape(s.drop_last());
        assert(s.drop_last().take(trim_back_dot(s).len() as int) =~= s.take(
            trim_back_dot(s).len() as int,
        ));
    } else {
        assert(s.take(s.len() as int) =~= s);
    }
}

proof fn lemma_tfh_shape(s: Seq<char>)
    ensures
        trim_front_hyphen(s).len() <= s.len(),
        trim_front_hyphen(s) == s.skip(s.len() - trim_front_hyphen(s).len()),
        trim_front_hyphen(s).len() > 0 ==> trim_front_hyphen(s)[0] != '-',
    decreases s.len(),
{
    if s.len() > 0 && s[0] == '-' {
        lemma_tfh_shape(s.drop_first());
        assert(s.drop_first().skip(s.drop_first().len() - trim_front_hyphen(s).len()) =~= s.skip(
            s.len() - trim_front_hyphen(s).len(),
        ));
    } else {
        assert(s.skip(0) =~= s);
    }
}

// ---------------------------------------------------------------------------
// Collapse: shape of its output
// ---------------------------------------------------------------------------
proof fn lemma_collapse_ends(s: Seq<char>)
    requires
        s.len() > 0,
    ensures
        collapse(s).len() > 0,
        collapse(s)[0] == s[0],
        s.last() != '-' ==> collapse(s).last() == s.last(),
        s.last() == '-' ==> collapse(s).last() == '-',
    decreases s.len(),
{
    if s.len() > 1 {
        lemma_collapse_ends(s.drop_last());
        assert(s.drop_last()[0] == s[0]);
        assert(s.drop_last().last() == s[s.len() - 2]);
    }
}

/// Every character of the collapsed stream satisfies any predicate that
/// every character of the input satisfies.
proof fn lemma_collapse_chars(s: Seq<char>, p: spec_fn(char) -> bool)
    requires
        forall|i: int| 0 <= i < s.len() ==> p(s[i]),
    ensures
        forall|i: int| 0 <= i < collapse(s).len() ==> p(collapse(s)[i]),
    decreases s.len(),
{
    if s.len() > 1 {
        assert(forall|i: int| 0 <= i < s.len() - 1 ==> s.drop_last()[i] == s[i]);
        lemma_collapse_chars(s.drop_last(), p);
        if !(s.last() == '-' && s[s.len() - 2] == '-') {
            assert(forall|i: int|
                0 <= i < collapse(s).len() ==> collapse(s)[i] == if i < collapse(
                    s.drop_last(),
                ).len() {
                    collapse(s.drop_last())[i]
                } else {
                    s.last()
                });
        }
    }
}

proof fn lemma_collapse_nd(s: Seq<char>)
    ensures
        no_double_hyphen(collapse(s)),
    decreases s.len(),
{
    if s.len() > 1 {
        lemma_collapse_nd(s.drop_last());
        if !(s.last() == '-' && s[s.len() - 2] == '-') {
            let c = collapse(s.drop_last());
            let w = collapse(s);
            assert(w == c.push(s.last()));
            lemma_collapse_ends(s.drop_last());
            assert forall|i: int| 0 <= i < w.len() - 1 implies !(#[trigger] w[i] == '-' && w[i + 1] == '-') by {
                if i + 1 < c.len() {
                    assert(w[i] == c[i] && w[i + 1] == c[i + 1]);
                } else {
                    assert(i + 1 == c.len() && w[i + 1] == s.last());
                    assert(w[i] == c.last());
                    if s.last() == '-' {
                        assert(s[s.len() - 2] != '-');
                        assert(s.drop_last().last() == s[s.len() - 2]);
                        assert(c.last() == s[s.len() - 2]);
                    }
                }
            }
        }
    }
}

proof fn lemma_collapse_id(s: Seq<char>)
    requires
        no_double_hyphen(s),
    ensures
        collapse(s) == s,
    decreases s.len(),
{
    if s.len() > 1 {
        assert(!(s[s.len() - 2] == '-' && s[s.len() - 1] == '-'));
        assert(forall|i: int| 0 <= i < s.len() - 1 ==> s.drop_last()[i] == s[i]);
        lemma_collapse_id(s.drop_last());
        assert(s.drop_last().push(s.last()) =~= s);
    }
}

// ---------------------------------------------------------------------------
// The emitted stream under the default tables
// ---------------------------------------------------------------------------
/// Every replacement value in the list consists of slug characters only,
/// is nonempty, and does not end in a dot.
spec fn values_slug(es: Seq<(char, Seq<char>)>) -> bool
    decreases es.len(),
{
    if es.len() == 0 {
        true
    } else {
        all_slug(es[0].1) && es[0].1.len() > 0 && es[0].1.last() != '.' && values_slug(
            es.drop_first(),
        )
    }
}

/// Every character of `v` is a slug character.
spec fn all_slug(v: Seq<char>) -> bool
    decreases v.len(),
{
    if v.len() == 0 {
        true
    } else {
        is_slug_char(v[0]) && all_slug(v.drop_first())
    }
}

/// No key in the list is itself a slug character.
spec fn no_slug_key(es: Seq<(char, Seq<char>)>) -> bool
    decreases es.len(),
{
    if es.len() == 0 {
        true
    } else {
        !is_slug_char(es[0].0) && no_slug_key(es.drop_first())
    }
}

proof fn lemma_all_slug_index(v: Seq<char>)
    requires
        all_slug(v),
    ensures
        forall|i: int| 0 <= i < v.len() ==> is_slug_char(v[i]),
    decreases v.len(),
{
    if v.len() > 0 {
        lemma_all_slug_index(v.drop_first());
        assert(forall|i: int| 1 <= i < v.len() ==> v.drop_first()[i - 1] == v[i]);
    }
}

proof fn lemma_lookup_values_slug(es: Seq<(char, Seq<char>)>, c: char)
    requires
        values_slug(es),
    ensures
        match lookup(es, c) {
            Option::Some(v) => all_slug(v) && v.len() > 0 && v.last() != '.',
            Option::None => true,
        },
    decreases es.len(),
{
    if es.len() > 0 && es[0].0 != c {
        lemma_lookup_values_slug(es.drop_first(), c);
    }
}

proof fn lemma_lookup_none_slug(es: Seq<(char, Seq<char>)>, c: char)
    requires
        no_slug_key(es),
        is_slug_char(c),
    ensures
        lookup(es, c) is None,
    decreases es.len(),
{
    if es.len() > 0 {
        lemma_lookup_none_slug(es.drop_first(), c);
    }
}

proof fn lemma_default_tables()
    ensures
        values_slug(default_special()),
        values_slug(default_translit()),
        no_slug_key(default_special()),
        no_slug_key(default_translit()),
{
    reveal_with_fuel(values_slug, 31);
    reveal_with_fuel(all_slug, 11);
    reveal_with_fuel(no_slug_key, 31);
    assert(values_slug(default_special()));
    assert(values_slug(default_translit()));
    assert(no_slug_key(default_special()));
    assert(no_slug_key(default_translit()));
}

/// Under rules whose replacement values are slug strings and which fold
/// case, every character the pipeline emits is a slug character.
proof fn lemma_classify_slug(r: Rules, c: char)
    requires
        values_slug(r.special),
        values_slug(r.translit),
        r.lowercase,
    ensures
        forall|i: int| 0 <= i < classify_char(r, c).len() ==> is_slug_char(classify_char(r, c)[i]),
{
    lemma_lookup_values_slug(r.special, c);
    lemma_lookup_values_slug(r.translit, c);
    match lookup(r.special, c) {
        Option::Some(v) => {
            lemma_all_slug_index(v);
        },
        Option::None => {
            match lookup(r.translit, c) {
                Option::Some(v) => {
                    lemma_all_slug_index(v);
                },
                Option::None => {},
            }
        },
    }
}

proof fn lemma_classify_seq_slug(r: Rules, s: Seq<char>)
    requires
        values_slug(r.special),
        values_slug(r.translit),
        r.lowercase,
    ensures
        forall|i: int| 0 <= i < classify_seq(r, s).len() ==> is_slug_char(classify_seq(r, s)[i]),
    decreases s.len(),
{
    if s.len() > 0 {
        lemma_classify_seq_slug(r, s.drop_last());
        lemma_classify_slug(r, s.last());
        let a = classify_seq(r, s.drop_last());
        let b = classify_char(r, s.last());
        assert(classify_seq(r, s) == a + b);
        assert forall|i: int| 0 <= i < classify_seq(r, s).len() implies is_slug_char(
            classify_seq(r, s)[i],
        ) by {
            if i < a.len() {
                assert((a + b)[i] == a[i]);
            } else {
                assert((a + b)[i] == b[i - a.len()]);
            }
        }
    }
}

proof fn lemma_emit_slug(r: Rules, s: Seq<char>)
    requires
        values_slug(r.special),
        values_slug(r.translit),
        r.lowercase,
    ensures
        forall|i: int| 0 <= i < emit_seq(r, s).len() ==> is_slug_char(emit_seq(r, s)[i]),
    decreases s.len(),
{
    if s.len() > 0 {
        lemma_emit_slug(r, s.drop_last());
        lemma_classify_seq_slug(r, fold_for(r, s.last()));
        let a = emit_seq(r, s.drop_last());
        let b = emit_one(r, s.last());
        assert(emit_seq(r, s) == a + b);
        assert forall|i: int| 0 <= i < emit_seq(r, s).len() implies is_slug_char(
            emit_seq(r, s)[i],
        ) by {
            if i < a.len() {
                assert((a + b)[i] == a[i]);
            } else {
                assert((a + b)[i] == b[i - a.len()]);
            }
        }
    }
}

// ---------------------------------------------------------------------------
// Public shape theorems
// ---------------------------------------------------------------------------
/// Under the default rules, every character of the normalized base is a
/// slug character — a lowercase ASCII letter, a digit, a hyphen, an
/// underscore or a dot — for every input, ASCII or not.
pub proof fn lemma_base_is_slug(r: Rules, s: Seq<char>)
    requires
        r == default_rules(),
    ensures
        forall|i: int|
            0 <= i < normalize_base_spec(r, s).len() ==> is_slug_char(
                #[trigger] normalize_base_spec(r, s)[i],
            ),
{
    lemma_default_tables();
    let em = emit_seq(r, trim_dots(trim_ws(s)));
    lemma_emit_slug(r, trim_dots(trim_ws(s)));
    lemma_collapse_chars(em, |c: char| is_slug_char(c));
    let co = collapse(em);
    lemma_tfh_shape(co);
    let nb = trim_front_hyphen(co);
    assert(forall|i: int| 0 <= i < nb.len() ==> #[trigger] nb[i] == co[i + (co.len() - nb.len())]);
}

/// The normalized base never contains two consecutive hyphens, whatever
/// the rules and the input.
pub proof fn lemma_base_no_double_hyphen(r: Rules, s: Seq<char>)
    ensures
        no_double_hyphen(normalize_base_spec(r, s)),
{
    let emitted = emit_seq(r, trim_dots(trim_ws(s)));
    lemma_collapse_nd(emitted);
    lemma_tfh_shape(collapse(emitted));
    let c = collapse(emitted);
    let t = trim_front_hyphen(c);
    assert(forall|i: int| 0 <= i < t.len() ==> t[i] == c[i + (c.len() - t.len())]);
}

/// The normalized filename never contains two consecutive hyphens, as
/// long as the (merely case-folded) extension contains none. The base
/// part is covered unconditionally by `lemma_base_no_double_hyphen`; an
/// input whose extension carries a hyphen run keeps it.
pub proof fn lemma_no_double_hyphen(r: Rules, s: Seq<char>)
    requires
        no_double_hyphen(lower_ext_spec(r, split_ext(trim_ws(s)).1)),
    ensures
        no_double_hyphen(normalize_spec(r, s)),
{
    if s.len() > 0 {
        let t = trim_ws(s);
        let b = split_ext(t).0;
        let e = split_ext(t).1;
        let nb = normalize_base_spec(r, b);
        let ne = lower_ext_spec(r, e);
        lemma_base_no_double_hyphen(r, b);
        if ne.len() > 0 {
            let out = nb + seq!['.'] + ne;
            assert forall|i: int| 0 <= i < out.len() - 1 implies !(#[trigger] out[i] == '-' && out[i + 1]
                == '-') by {
                if i + 1 < nb.len() {
                    assert(out[i] == nb[i] && out[i + 1] == nb[i + 1]);
                } else if i < nb.len() {
                    assert(out[i + 1] == '.');
                } else if i == nb.len() {
                    assert(out[i] == '.');
                } else {
                    assert(out[i] == ne[i - nb.len() - 1] && out[i + 1] == ne[i - nb.len()]);
                }
            }
        }
    }
}

/// The normalized filename never starts with a hyphen, whatever the rules
/// and the input. (It may end with one: that asymmetry is deliberate.)
pub proof fn lemma_no_leading_hyphen(r: Rules, s: Seq<char>)
    ensures
        normalize_spec(r, s).len() > 0 ==> normalize_spec(r, s)[0] != '-',
{
    if s.len() > 0 {
        let t = trim_ws(s);
        let b = split_ext(t).0;
        let e = split_ext(t).1;
        let nb = normalize_base_spec(r, b);
        let ne = lower_ext_spec(r, e);
        let emitted = emit_seq(r, trim_dots(trim_ws(b)));
        lemma_tfh_shape(collapse(emitted));
        if ne.len() > 0 {
            let out = nb + seq!['.'] + ne;
            if nb.len() > 0 {
                assert(out[0] == nb[0]);
            } else {
                assert(out[0] == '.');
            }
        }
    }
}

// ---------------------------------------------------------------------------
// Identity of the pipeline on already-normalized material
// ---------------------------------------------------------------------------
proof fn lemma_last_dot_unique(s: Seq<char>, d: int)
    requires
        0 <= d < s.len(),
        s[d] == '.',
        forall|k: int| d < k < s.len() ==> s[k] != '.',
    ensures
        last_dot_idx(s) == d,
{
    lemma_last_dot_props(s);
    let l = last_dot_idx(s);
    if l > d {
        assert(s[l] != '.');
    }
    if l < d {
        assert(s[d] != '.');
    }
}

/// Lowercasing is the identity on slug characters, and a second ASCII
/// fold never changes anything.
proof fn lemma_ascii_lower_facts(c: char)
    requires
        is_ascii_char(c),
    ensures
        ascii_lower_char(ascii_lower_char(c)) == ascii_lower_char(c),
        is_ascii_char(ascii_lower_char(c)),
        is_slug_char(c) ==> ascii_lower_char(c) == c,
        !is_ws_char(c) ==> !is_ws_char(ascii_lower_char(c)),
        c != '.' ==> ascii_lower_char(c) != '.',
        !is_slug_char('A') && !is_ws_char('.') && !is_ws_char('-'),
{
    if 'A' <= c && c <= 'Z' {
        let w = ascii_lower_char(c);
        assert('a' <= w && w <= 'z');
        assert(is_ascii_char(w));
    }
}

/// Under the default-shaped tables the pipeline leaves a slug string
/// made of already-folded characters untouched.
proof fn lemma_emit_id(r: Rules, s: Seq<char>)
    requires
        no_slug_key(r.special),
        no_slug_key(r.translit),
        r.lowercase,
        forall|i: int| 0 <= i < s.len() ==> is_slug_char(#[trigger] s[i]),
    ensures
        emit_seq(r, s) == s,
    decreases s.len(),
{
    if s.len() > 0 {
        assert(forall|i: int| 0 <= i < s.len() - 1 ==> s.drop_last()[i] == s[i]);
        lemma_emit_id(r, s.drop_last());
        let c = s.last();
        assert(is_slug_char(c));
        assert(is_ascii_char(c));
        lemma_ascii_lower_facts(c);
        assert(fold_for(r, c) == fold_char(c));
        assert(fold_char(c) == seq![c]);
        lemma_lookup_none_slug(r.special, c);
        lemma_lookup_none_slug(r.translit, c);
        assert(!is_break_char(c));
        assert(classify_char(r, c) == seq![c]);
        assert(seq![c].drop_last() =~= Seq::<char>::empty());
        assert(seq![c].last() == c);
        assert(classify_seq(r, seq![c]) == classify_seq(r, Seq::<char>::empty()) + seq![c]);
        assert(emit_one(r, c) =~= seq![c]);
        assert(emit_seq(r, s) == emit_seq(r, s.drop_last()) + emit_one(r, c));
        assert(emit_seq(r, s) =~= s);
    }
}

/// The last character the pipeline emits is never a dot, for ASCII input
/// that does not itself end in one.
proof fn lemma_emit_last(r: Rules, s: Seq<char>)
    requires
        values_slug(r.special),
        values_slug(r.translit),
        r.lowercase,
        forall|i: int| 0 <= i < s.len() ==> is_ascii_char(#[trigger] s[i]),
        s.len() > 0,
        s.last() != '.',
    ensures
        emit_seq(r, s).len() > 0,
        emit_seq(r, s).last() != '.',
{
    let c = s.last();
    lemma_ascii_lower_facts(c);
    let w = ascii_lower_char(c);
    assert(fold_for(r, c) == seq![w]);
    assert(seq![w].drop_last() =~= Seq::<char>::empty());
    assert(seq![w].last() == w);
    assert(classify_seq(r, seq![w]) == classify_seq(r, Seq::<char>::empty()) + classify_char(r, w));
    assert(emit_one(r, c) =~= classify_char(r, w));
    lemma_lookup_values_slug(r.special, w);
    lemma_lookup_values_slug(r.translit, w);
    let one = classify_char(r, w);
    assert(one.len() > 0 && one.last() != '.');
    let a = emit_seq(r, s.drop_last());
    assert(emit_seq(r, s) == a + emit_one(r, c));
    assert((a + one).last() == one.last());
}

/// `normalize_base_spec` leaves a clean slug untouched: slug characters,
/// no hyphen runs, no leading hyphen, no dots at the ends.
proof fn lemma_norm_base_id(r: Rules, x: Seq<char>)
    requires
        no_slug_key(r.special),
        no_slug_key(r.translit),
        r.lowercase,
        forall|i: int| 0 <= i < x.len() ==> is_slug_char(#[trigger] x[i]),
        no_double_hyphen(x),
        x.len() > 0 ==> x[0] != '-',
        trim_dots(x) == x,
    ensures
        normalize_base_spec(r, x) == x,
{
    if x.len() == 0 {
        assert(trim_front_ws(x) == x);
        assert(trim_back_ws(x) == x);
        assert(trim_front_dot(x) == x);
        assert(trim_back_dot(x) == x);
        assert(emit_seq(r, x) == Seq::<char>::empty());
        assert(collapse(x) == x);
        assert(trim_front_hyphen(x) == x);
    } else {
        lemma_ascii_lower_facts(x[0]);
        lemma_ascii_lower_facts(x.last());
        assert(!is_ws_char(x[0]));
        assert(!is_ws_char(x.last()));
        assert(trim_front_ws(x) == x);
        assert(trim_back_ws(x) == x);
        assert(trim_ws(x) == x);
        lemma_emit_id(r, x);
        lemma_collapse_id(x);
        assert(trim_front_hyphen(x) == x);
    }
}

/// The pieces that the first pass hands to reassembly: slug base with its
/// documented shape, and a lowercased ASCII extension.
proof fn lemma_norm_base_shape(r: Rules, b: Seq<char>)
    requires
        values_slug(r.special),
        values_slug(r.translit),
        r.lowercase,
        forall|i: int| 0 <= i < b.len() ==> is_ascii_char(#[trigger] b[i]),
    ensures
        forall|i: int|
            0 <= i < normalize_base_spec(r, b).len() ==> is_slug_char(
                #[trigger] normalize_base_spec(r, b)[i],
            ),
        no_double_hyphen(normalize_base_spec(r, b)),
        normalize_base_spec(r, b).len() > 0 ==> normalize_base_spec(r, b)[0] != '-',
        normalize_base_spec(r, b).len() > 0 ==> normalize_base_spec(r, b).last() != '.',
{
    let t1 = trim_ws(b);
    let tb = trim_dots(t1);
    let em = emit_seq(r, tb);
    let co = collapse(em);
    let nb = trim_front_hyphen(co);
    lemma_tfw_shape(b);
    lemma_tbw_shape(trim_front_ws(b));
    lemma_tfd_shape(t1);
    lemma_tbd_shape(trim_front_dot(t1));
    assert(forall|i: int| 0 <= i < t1.len() ==> t1[i] == b[i + (b.len() - trim_front_ws(b).len())]);
    assert(forall|i: int| 0 <= i < t1.len() ==> is_ascii_char(#[trigger] t1[i]));
    assert(forall|i: int|
        0 <= i < tb.len() ==> tb[i] == t1[i + (t1.len() - trim_front_dot(t1).len())]);
    assert(forall|i: int| 0 <= i < tb.len() ==> is_ascii_char(#[trigger] tb[i]));
    lemma_emit_slug(r, tb);
    lemma_collapse_nd(em);
    lemma_collapse_chars(em, |c: char| is_slug_char(c));
    lemma_tfh_shape(co);
    assert(forall|i: int| 0 <= i < nb.len() ==> nb[i] == co[i + (co.len() - nb.len())]);
    assert(forall|i: int| 0 <= i < nb.len() ==> is_slug_char(#[trigger] nb[i]));
    assert forall|i: int| 0 <= i < nb.len() - 1 implies !(#[trigger] nb[i] == '-' && nb[i + 1]
        == '-') by {
        let off = co.len() - nb.len();
        assert(nb[i] == co[i + off] && nb[i + 1] == co[i + off + 1]);
    }
    if nb.len() > 0 {
        assert(em.len() > 0) by {
            if em.len() == 0 {
                assert(co.len() == 0);
            }
        }
        assert(tb.len() > 0) by {
            if tb.len() == 0 {
                assert(emit_seq(r, tb) == Seq::<char>::empty());
            }
        }
        assert(tb.last() != '.');
        lemma_emit_last(r, tb);
        lemma_collapse_ends(em);
        assert(co.last() != '.');
        assert(nb.last() == co.last());
    }
}

/// Whether splitting the normalized name a second time yields a base
/// free of leading and trailing dots. Re-normalizing can only differ when
/// this fails: the second pass trims those dots away (for example
/// `-.x.txt` normalizes to `.x.txt`, which normalizes to `x.txt`).
pub open spec fn resplit_base_clean(r: Rules, s: Seq<char>) -> bool {
    trim_dots(split_ext(normalize_spec(r, s)).0) == split_ext(normalize_spec(r, s)).0
}

/// Idempotence: under the default rules, normalizing an ASCII name a
/// second time changes nothing, whenever re-splitting the result does not
/// expose dots at the edges of its base part.
pub proof fn lemma_normalize_idempotent(r: Rules, s: Seq<char>)
    requires
        r == default_rules(),
        vstd::utf8::is_ascii_chars(s),
        resplit_base_clean(r, s),
    ensures
        normalize_spec(r, normalize_spec(r, s)) == normalize_spec(r, s),
{
    lemma_default_tables();
    let out = normalize_spec(r, s);
    if s.len() == 0 {
        assert(out.len() == 0);
    } else {
        let t = trim_ws(s);
        lemma_tfw_shape(s);
        lemma_tbw_shape(trim_front_ws(s));
        assert(forall|i: int|
            0 <= i < t.len() ==> #[trigger] t[i] == s[i + (s.len() - trim_front_ws(s).len())]);
        assert(forall|i: int| 0 <= i < t.len() ==> is_ascii_char(#[trigger] t[i]));
        lemma_last_dot_props(t);
        let d1 = last_dot_idx(t);
        let b = split_ext(t).0;
        let e = split_ext(t).1;
        // The extension holds no dot, is ASCII, and ends where the trimmed name ends.
        assert(forall|i: int| 0 <= i < b.len() ==> is_ascii_char(#[trigger] b[i]));
        assert(forall|i: int| 0 <= i < e.len() ==> is_ascii_char(#[trigger] e[i]));
        assert(forall|i: int| 0 <= i < e.len() ==> #[trigger] e[i] != '.') by {
            if d1 == 0 {
                assert(forall|i: int| 0 <= i < e.len() ==> e[i] == t[i + 1]);
            } else if 0 < d1 < t.len() - 1 {
                assert(forall|i: int| 0 <= i < e.len() ==> e[i] == t[i + d1 + 1]);
            }
        }
        if e.len() > 0 {
            assert(e.last() == t.last());
            assert(!is_ws_char(t.last()));
        }
        let nb = normalize_base_spec(r, b);
        let ne = lower_ext_spec(r, e);
        lemma_norm_base_shape(r, b);
        // The lowered extension, pointwise.
        assert(vstd::utf8::is_ascii_chars(e));
        assert(ne == e.map_values(|c: char| ascii_lower_char(c)));
        assert(ne.len() == e.len());
        assert(forall|i: int| 0 <= i < ne.len() ==> #[trigger] ne[i] == ascii_lower_char(e[i]));
        assert forall|i: int| 0 <= i < ne.len() implies is_ascii_char(#[trigger] ne[i]) && ne[i]
            != '.' && ascii_lower_char(ne[i]) == ne[i] by {
            lemma_ascii_lower_facts(e[i]);
            lemma_ascii_lower_facts(ne[i]);
            if 'A' <= e[i] && e[i] <= 'Z' {
                assert('a' <= ne[i] && ne[i] <= 'z');
            }
        }
        if ne.len() > 0 {
            assert(!is_ws_char(ne.last())) by {
                lemma_ascii_lower_facts(e.last());
            }
        }
        // The two passes agree.
        if out.len() == 0 {
        } else {
            // out is already trimmed.
            assert(out[0] != '-' && !is_ws_char(out[0])) by {
                lemma_ascii_lower_facts('.');
                if ne.len() == 0 {
                    assert(out == nb);
                    lemma_ascii_lower_facts(nb[0]);
                } else if nb.len() > 0 {
                    assert(out[0] == nb[0]);
                    lemma_ascii_lower_facts(nb[0]);
                } else {
                    assert(out[0] == '.');
                }
            }
            assert(!is_ws_char(out.last())) by {
                if ne.len() == 0 {
                    assert(out == nb);
                    lemma_ascii_lower_facts(nb.last());
                } else {
                    assert(out.last() == ne.last());
                }
            }
            assert(trim_front_ws(out) == out);
            assert(trim_back_ws(out) == out);
            assert(trim_ws(out) == out);
            lemma_last_dot_props(out);
            let d2 = last_dot_idx(out);
            let b2 = split_ext(out).0;
            let e2 = split_ext(out).1;
            if ne.len() == 0 {
                assert(out == nb);
                if d2 == -1 {
                    assert(b2 == nb && e2 == Seq::<char>::empty());
                    lemma_norm_base_id(r, nb);
                    assert(lower_ext_spec(r, e2).len() == 0);
                    assert(normalize_spec(r, out) == nb);
                } else if d2 == 0 {
                    assert(nb[0] == '.');
                    assert(nb.last() != '.');
                    assert(nb.len() > 1);
                    assert(b2 == Seq::<char>::empty() && e2 == nb.skip(1));
                    assert(normalize_base_spec(r, b2) == Seq::<char>::empty()) by {
                        lemma_norm_base_id(r, Seq::<char>::empty());
                    }
                    assert(forall|i: int| 0 <= i < e2.len() ==> #[trigger] e2[i] == nb[i + 1]);
                    assert(vstd::utf8::is_ascii_chars(e2));
                    let ne2 = lower_ext_spec(r, e2);
                    assert(ne2 == e2.map_values(|c: char| ascii_lower_char(c)));
                    assert forall|i: int| 0 <= i < e2.len() implies #[trigger] ne2[i] == e2[i] by {
                        lemma_ascii_lower_facts(e2[i]);
                    }
                    assert(ne2 =~= e2);
                    assert(ne2.len() > 0);
                    assert(normalize_spec(r, out) == Seq::<char>::empty() + seq!['.'] + ne2);
                    assert(Seq::<char>::empty() + seq!['.'] + e2 =~= nb);
                } else if d2 == out.len() - 1 {
                    assert(out.last() == '.');
                    assert(false);
                } else {
                    assert(b2 == nb.take(d2) && e2 == nb.skip(d2 + 1));
                    assert(forall|i: int| 0 <= i < b2.len() ==> #[trigger] b2[i] == nb[i]);
                    assert(forall|i: int| 0 <= i < e2.len() ==> #[trigger] e2[i] == nb[i + d2 + 1]);
                    assert(no_double_hyphen(b2));
                    lemma_norm_base_id(r, b2);
                    assert(normalize_base_spec(r, b2) == b2);
                    let ne2 = lower_ext_spec(r, e2);
                    assert(vstd::utf8::is_ascii_chars(e2));
                    assert(ne2 == e2.map_values(|c: char| ascii_lower_char(c)));
                    assert forall|i: int| 0 <= i < e2.len() implies #[trigger] ne2[i] == e2[i] by {
                        lemma_ascii_lower_facts(e2[i]);
                    }
                    assert(ne2 =~= e2);
                    assert(ne2.len() > 0);
                    assert(normalize_spec(r, out) == b2 + seq!['.'] + ne2);
                    assert(b2 + seq!['.'] + e2 =~= nb);
                }
            } else {
                assert(out == nb + seq!['.'] + ne);
                assert(out[nb.len() as int] == '.');
                assert(forall|k: int|
                    nb.len() < k < out.len() ==> #[trigger] out[k] == ne[k - nb.len() - 1]);
                lemma_last_dot_unique(out, nb.len() as int);
                assert(d2 == nb.len());
                if nb.len() == 0 {
                    assert(d2 == 0);
                    assert(b2 == Seq::<char>::empty() && e2 == out.skip(1));
                    assert(e2 =~= ne);
                    lemma_norm_base_id(r, Seq::<char>::empty());
                    let ne2 = lower_ext_spec(r, ne);
                    assert(vstd::utf8::is_ascii_chars(ne));
                    assert(ne2 == ne.map_values(|c: char| ascii_lower_char(c)));
                    assert(forall|i: int| 0 <= i < ne.len() ==> #[trigger] ne2[i] == ne[i]);
                    assert(ne2 =~= ne);
                    assert(normalize_spec(r, out) == Seq::<char>::empty() + seq!['.'] + ne);
                    assert(Seq::<char>::empty() + seq!['.'] + ne =~= out);
                } else {
                    assert(0 < d2);
                    assert(d2 < out.len() - 1);
                    assert(b2 == out.take(d2) && e2 == out.skip(d2 + 1));
                    assert(b2 =~= nb);
                    assert(e2 =~= ne);
                    assert(trim_dots(nb) == nb);
                    lemma_norm_base_id(r, nb);
                    let ne2 = lower_ext_spec(r, ne);
                    assert(vstd::utf8::is_ascii_chars(ne));
                    assert(ne2 == ne.map_values(|c: char| ascii_lower_char(c)));
                    assert(forall|i: int| 0 <= i < ne.len() ==> #[trigger] ne2[i] == ne[i]);
                    assert(ne2 =~= ne);
                    assert(ne2.len() > 0);
                    assert(normalize_spec(r, out) == nb + seq!['.'] + ne2);
                }
            }
        }
    }
}

// ---------------------------------------------------------------------------
// Idempotence from a condition on the input alone
// ---------------------------------------------------------------------------
/// No dot anywhere in `s`.
pub open spec fn no_dots(s: Seq<char>) -> bool {
    forall|i: int| 0 <= i < s.len() ==> #[trigger] s[i] != '.'
}

/// Every character of every replacement value in the list is
/// dot-free.
spec fn values_not_dot(es: Seq<(char, Seq<char>)>) -> bool
    decreases es.len(),
{
    if es.len() == 0 {
        true
    } else {
        all_not_dot(es[0].1) && values_not_dot(es.drop_first())
    }
}

/// No character of `v` is a dot.
spec fn all_not_dot(v: Seq<char>) -> bool
    decreases v.len(),
{
    if v.len() == 0 {
        true
    } else {
        v[0] != '.' && all_not_dot(v.drop_first())
    }
}

proof fn lemma_all_not_dot_index(v: Seq<char>)
    requires
        all_not_dot(v),
    ensures
        no_dots(v),
    decreases v.len(),
{
    if v.len() > 0 {
        lemma_all_not_dot_index(v.drop_first());
        assert(forall|i: int| 1 <= i < v.len() ==> v.drop_first()[i - 1] == v[i]);
    }
}

proof fn lemma_lookup_values_not_dot(es: Seq<(char, Seq<char>)>, c: char)
    requires
        values_not_dot(es),
    ensures
        match lookup(es, c) {
            Option::Some(v) => all_not_dot(v),
            Option::None => true,
        },
    decreases es.len(),
{
    if es.len() > 0 && es[0].0 != c {
        lemma_lookup_values_not_dot(es.drop_first(), c);
    }
}

proof fn lemma_default_tables_not_dot()
    ensures
        values_not_dot(default_special()),
        values_not_dot(default_translit()),
{
    reveal_with_fuel(values_not_dot, 31);
    reveal_with_fuel(all_not_dot, 11);
    assert(values_not_dot(default_special()));
    assert(values_not_dot(default_translit()));
}

/// An ASCII, dot-free input yields a dot-free emitted stream under rules
/// whose replacement values are dot-free.
proof fn lemma_emit_not_dot(r: Rules, s: Seq<char>)
    requires
        values_not_dot(r.special),
        values_not_dot(r.translit),
        r.lowercase,
        forall|i: int| 0 <= i < s.len() ==> is_ascii_char(#[trigger] s[i]),
        no_dots(s),
    ensures
        no_dots(emit_seq(r, s)),
    decreases s.len(),
{
    if s.len() > 0 {
        assert(forall|i: int| 0 <= i < s.len() - 1 ==> s.drop_last()[i] == s[i]);
        lemma_emit_not_dot(r, s.drop_last());
        let c = s.last();
        lemma_ascii_lower_facts(c);
        let w = ascii_lower_char(c);
        assert(w != '.');
        assert(fold_for(r, c) == seq![w]);
        assert(seq![w].drop_last() =~= Seq::<char>::empty());
        assert(seq![w].last() == w);
        assert(classify_seq(r, seq![w]) == classify_seq(r, Seq::<char>::empty()) + classify_char(
            r,
            w,
        ));
        lemma_lookup_values_not_dot(r.special, w);
        lemma_lookup_values_not_dot(r.translit, w);
        let one = classify_char(r, w);
        assert(no_dots(one)) by {
            match lookup(r.special, w) {
                Option::Some(v) => {
                    lemma_all_not_dot_index(v);
                },
                Option::None => {
                    match lookup(r.translit, w) {
                        Option::Some(v) => {
                            lemma_all_not_dot_index(v);
                        },
                        Option::None => {},
                    }
                },
            }
        }
        let a = emit_seq(r, s.drop_last());
        assert(emit_one(r, c) =~= one);
        assert(emit_seq(r, s) == a + one);
        assert forall|i: int| 0 <= i < emit_seq(r, s).len() implies #[trigger] emit_seq(r, s)[i]
            != '.' by {
            if i < a.len() {
                assert((a + one)[i] == a[i]);
            } else {
                assert((a + one)[i] == one[i - a.len()]);
            }
        }
    }
}

/// Idempotence, with a condition on the input alone: under the default
/// rules, normalizing an ASCII name whose base part (what precedes the
/// extension) contains no dot a second time changes nothing. Names with
/// dots inside the base keep their guarantee through
/// `lemma_normalize_idempotent`.
pub proof fn lemma_normalize_idempotent_dotless_base(r: Rules, s: Seq<char>)
    requires
        r == default_rules(),
        vstd::utf8::is_ascii_chars(s),
        no_dots(split_ext(trim_ws(s)).0),
    ensures
        normalize_spec(r, normalize_spec(r, s)) == normalize_spec(r, s),
{
    lemma_default_tables();
    lemma_default_tables_not_dot();
    let out = normalize_spec(r, s);
    if s.len() == 0 {
        assert(out.len() == 0);
    } else {
        let t = trim_ws(s);
        lemma_tfw_shape(s);
        lemma_tbw_shape(trim_front_ws(s));
        assert(forall|i: int|
            0 <= i < t.len() ==> #[trigger] t[i] == s[i + (s.len() - trim_front_ws(s).len())]);
        assert(forall|i: int| 0 <= i < t.len() ==> is_ascii_char(#[trigger] t[i]));
        lemma_last_dot_props(t);
        let d1 = last_dot_idx(t);
        let b = split_ext(t).0;
        let e = split_ext(t).1;
        assert(forall|i: int| 0 <= i < b.len() ==> is_ascii_char(#[trigger] b[i]));
        assert(forall|i: int| 0 <= i < e.len() ==> is_ascii_char(#[trigger] e[i]));
        assert(forall|i: int| 0 <= i < e.len() ==> #[trigger] e[i] != '.') by {
            if d1 == 0 {
                assert(forall|i: int| 0 <= i < e.len() ==> e[i] == t[i + 1]);
            } else if 0 < d1 < t.len() - 1 {
                assert(forall|i: int| 0 <= i < e.len() ==> e[i] == t[i + d1 + 1]);
            }
        }
        let nb = normalize_base_spec(r, b);
        let ne = lower_ext_spec(r, e);
        // The base the pipeline works on is dot-free, so the normalized
        // base is dot-free.
        let t1 = trim_ws(b);
        let tb = trim_dots(t1);
        lemma_tfw_shape(b);
        lemma_tbw_shape(trim_front_ws(b));
        lemma_tfd_shape(t1);
        lemma_tbd_shape(trim_front_dot(t1));
        assert(forall|i: int|
            0 <= i < t1.len() ==> #[trigger] t1[i] == b[i + (b.len() - trim_front_ws(b).len())]);
        assert(forall|i: int|
            0 <= i < tb.len() ==> #[trigger] tb[i] == t1[i + (t1.len() - trim_front_dot(
                t1,
            ).len())]);
        assert(forall|i: int| 0 <= i < tb.len() ==> is_ascii_char(#[trigger] tb[i]));
        assert(no_dots(tb));
        lemma_emit_not_dot(r, tb);
        let em = emit_seq(r, tb);
        let co = collapse(em);
        lemma_collapse_chars(em, |c: char| c != '.');
        lemma_tfh_shape(co);
        assert(forall|i: int| 0 <= i < nb.len() ==> #[trigger] nb[i] == co[i + (co.len()
            - nb.len())]);
        assert(no_dots(nb));
        // The lowered extension is dot-free as well.
        assert(vstd::utf8::is_ascii_chars(e));
        assert(ne == e.map_values(|c: char| ascii_lower_char(c)));
        assert forall|i: int| 0 <= i < ne.len() implies #[trigger] ne[i] != '.' by {
            lemma_ascii_lower_facts(e[i]);
        }
        // Whichever way the output re-splits, its base is dot-free, so
        // re-splitting exposes no dots at its edges.
        lemma_last_dot_props(out);
        if out.len() > 0 {
            if ne.len() == 0 {
                assert(out == nb);
                let d2 = last_dot_idx(out);
                if d2 >= 0 {
                    assert(out[d2] == '.');
                    assert(false);
                }
                assert(split_ext(out).0 == nb);
                if nb.len() > 0 {
                    assert(nb[0] != '.');
                    assert(nb.last() != '.');
                }
                assert(trim_front_dot(nb) == nb);
                assert(trim_back_dot(nb) == nb);
            } else {
                assert(out == nb + seq!['.'] + ne);
                assert(out[nb.len() as int] == '.');
                assert(forall|k: int|
                    nb.len() < k < out.len() ==> #[trigger] out[k] == ne[k - nb.len() - 1]);
                assert(forall|k: int| 0 <= k < nb.len() ==> #[trigger] out[k] == nb[k]);
                lemma_last_dot_unique(out, nb.len() as int);
                if nb.len() == 0 {
                    assert(split_ext(out).0 == Seq::<char>::empty());
                    assert(trim_front_dot(Seq::<char>::empty()) == Seq::<char>::empty());
                    assert(trim_back_dot(Seq::<char>::empty()) == Seq::<char>::empty());
                } else {
                    let b2 = split_ext(out).0;
                    assert(b2 == out.take(nb.len() as int));
                    assert(b2 =~= nb);
                    assert(nb[0] != '.');
                    assert(nb.last() != '.');
                    assert(trim_front_dot(b2) == b2);
                    assert(trim_back_dot(b2) == b2);
                }
            }
        }
        assert(resplit_base_clean(r, s));
    }
    assert(resplit_base_clean(r, s)) by {
        if s.len() == 0 {
            assert(split_ext(out).0 == out);
        }
    }
    lemma_normalize_idempotent(r, s);
}

} // verus!
