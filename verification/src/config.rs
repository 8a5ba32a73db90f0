//! The configuration value that parameterizes normalization: two
//! single-character replacement tables and two case-folding toggles.

use vstd::prelude::*;

verus! {

/// The mathematical content of a configuration: association lists from a
/// character to its replacement, plus the two toggles. Contracts and the
/// normalization specification are stated over this.
pub struct Rules {
    pub special: Seq<(char, Seq<char>)>,
    pub translit: Seq<(char, Seq<char>)>,
    pub lowercase: bool,
    pub lowercase_extension: bool,
}

/// First match in an association list.
pub open spec fn lookup(entries: Seq<(char, Seq<char>)>, c: char) -> Option<Seq<char>>
    decreases entries.len(),
{
    if entries.len() == 0 {
        Option::None
    } else if entries[0].0 == c {
        Option::Some(entries[0].1)
    } else {
        lookup(entries.drop_first(), c)
    }
}

/// A mapping from single characters to replacement strings.
#[derive(Debug)]
pub struct CharMap {
    entries: Vec<(char, String)>,
}

impl View for CharMap {
    type V = Seq<(char, Seq<char>)>;

    closed spec fn view(&self) -> Seq<(char, Seq<char>)> {
        self.entries@.map_values(|e: (char, String)| (e.0, e.1@))
    }
}

proof fn lemma_lookup_skip(entries: Seq<(char, Seq<char>)>, c: char, i: int)
    requires
        0 <= i <= entries.len(),
        forall|k: int| 0 <= k < i ==> entries[k].0 != c,
    ensures
        lookup(entries, c) == lookup(entries.skip(i), c),
    decreases i,
{
    if i > 0 {
        assert(entries.skip(i - 1).drop_first() =~= entries.skip(i));
        assert(entries.skip(i - 1)[0] == entries[i - 1]);
        lemma_lookup_skip(entries, c, i - 1);
    } else {
        assert(entries.skip(0) =~= entries);
    }
}

impl CharMap {
    /// The map with no entries.
    pub fn new() -> (r: CharMap)
        ensures
            r@ == Seq::<(char, Seq<char>)>::empty(),
    {
        let r = CharMap { entries: Vec::new() };
        assert(r@ =~= Seq::<(char, Seq<char>)>::empty());
        r
    }

    /// The replacement for `c`, if the map holds one.
    pub fn get(&self, c: char) -> (r: Option<&String>)
        ensures
            match lookup(self@, c) {
                Option::Some(v) => r is Some && r->0@ == v,
                Option::None => r is None,
            },
    {
        let n = self.entries.len();
        let mut i: usize = 0;
        while i < n
            invariant
                n == self.entries.len(),
                i <= n,
                self@.len() == n,
                forall|k: int| 0 <= k < i ==> self@[k].0 != c,
            decreases n - i,
        {
            if self.entries[i].0 == c {
                proof {
                    lemma_lookup_skip(self@, c, i as int);
                    assert(self@.skip(i as int)[0] == self@[i as int]);
                }
                return Some(&self.entries[i].1);
            }
            i = i + 1;
        }
        proof {
            lemma_lookup_skip(self@, c, n as int);
            assert(self@.skip(n as int) =~= Seq::<(char, Seq<char>)>::empty());
        }
        None
    }

    /// Install `v` as the replacement for `c`, overriding any earlier one.
    pub fn set(&mut self, c: char, v: String)
        ensures
            forall|x: char|
                lookup(final(self)@, x) == if x == c {
                    Option::Some(v@)
                } else {
                    lookup(old(self)@, x)
                },
    {
        let ghost orig = self@;
        let n = self.entries.len();
        let mut i: usize = 0;
        let mut hit = n;
        while i < n && hit == n
            invariant
                n == self.entries.len(),
                i <= n,
                self@ == orig,
                orig.len() == n,
                hit == n || (hit < n && orig[hit as int].0 == c),
                hit == n ==> forall|k: int| 0 <= k < i ==> orig[k].0 != c,
                hit < n ==> forall|k: int| 0 <= k < hit ==> orig[k].0 != c,
            decreases n - i,
        {
            if self.entries[i].0 == c {
                hit = i;
            }
            i = i + 1;
        }
        if hit < n {
            self.entries.set(hit, (c, v));
            proof {
                assert(self@ =~= orig.update(hit as int, (c, v@)));
                lemma_lookup_update_hit(orig, c, v@, hit as int);
            }
        } else {
            self.entries.push((c, v));
            proof {
                assert(self@ =~= orig.push((c, v@)));
                lemma_lookup_push_new(orig, c, v@);
            }
        }
    }
}

proof fn lemma_lookup_update_hit(entries: Seq<(char, Seq<char>)>, c: char, v: Seq<char>, i: int)
    requires
        0 <= i < entries.len(),
        entries[i].0 == c,
        forall|k: int| 0 <= k < i ==> entries[k].0 != c,
    ensures
        forall|x: char|
            lookup(entries.update(i, (c, v)), x) == if x == c {
                Option::Some(v)
            } else {
                lookup(entries, x)
            },
    decreases i,
{
    if i == 0 {
        assert forall|x: char|
            lookup(entries.update(0, (c, v)), x) == if x == c {
                Option::Some(v)
            } else {
                lookup(entries, x)
            } by {
            if x != c {
                assert(entries.update(0, (c, v)).drop_first() =~= entries.drop_first());
            }
        }
    } else {
        lemma_lookup_update_hit(entries.drop_first(), c, v, i - 1);
        assert forall|x: char|
            lookup(entries.update(i, (c, v)), x) == if x == c {
                Option::Some(v)
            } else {
                lookup(entries, x)
            } by {
            let u = entries.update(i, (c, v));
            assert(u.drop_first() =~= entries.drop_first().update(i - 1, (c, v)));
            assert(u[0] == entries[0]);
            if u[0].0 == x {
                assert(lookup(u, x) == Option::Some(u[0].1));
                assert(lookup(entries, x) == Option::Some(entries[0].1));
            } else {
                assert(lookup(u, x) == lookup(u.drop_first(), x));
                assert(lookup(entries, x) == lookup(entries.drop_first(), x));
                assert(lookup(u.drop_first(), x) == if x == c {
                    Option::Some(v)
                } else {
                    lookup(entries.drop_first(), x)
                });
            }
        }
    }
}

proof fn lemma_lookup_push_new(entries: Seq<(char, Seq<char>)>, c: char, v: Seq<char>)
    requires
        forall|k: int| 0 <= k < entries.len() ==> entries[k].0 != c,
    ensures
        forall|x: char|
            lookup(entries.push((c, v)), x) == if x == c {
                Option::Some(v)
            } else {
                lookup(entries, x)
            },
    decreases entries.len(),
{
    if entries.len() == 0 {
        assert forall|x: char|
            lookup(entries.push((c, v)), x) == if x == c {
                Option::Some(v)
            } else {
                lookup(entries, x)
            } by {
            assert(entries.push((c, v))[0] == (c, v));
            if x != c {
                assert(entries.push((c, v)).drop_first() =~= entries);
            }
        }
    } else {
        lemma_lookup_push_new(entries.drop_first(), c, v);
        assert forall|x: char|
            lookup(entries.push((c, v)), x) == if x == c {
                Option::Some(v)
            } else {
                lookup(entries, x)
            } by {
            let u = entries.push((c, v));
            assert(u.drop_first() =~= entries.drop_first().push((c, v)));
            assert(u[0] == entries[0]);
            if u[0].0 == x {
                assert(lookup(u, x) == Option::Some(u[0].1));
                assert(lookup(entries, x) == Option::Some(entries[0].1));
            } else {
                assert(lookup(u, x) == lookup(u.drop_first(), x));
                assert(lookup(entries, x) == lookup(entries.drop_first(), x));
                assert(lookup(u.drop_first(), x) == if x == c {
                    Option::Some(v)
                } else {
                    lookup(entries.drop_first(), x)
                });
            }
        }
    }
}

/// User-facing configuration for the normalization pipeline.
#[derive(Debug)]
pub struct NormalizationConfig {
    pub special_tokens: CharMap,
    pub transliterations: CharMap,
    pub lowercase: bool,
    pub lowercase_extension: bool,
}

impl NormalizationConfig {
    /// The mathematical content of this configuration.
    pub open spec fn rules(&self) -> Rules {
        Rules {
            special: self.special_tokens@,
            translit: self.transliterations@,
            lowercase: self.lowercase,
            lowercase_extension: self.lowercase_extension,
        }
    }
}

/// The built-in special-token table: `/`, `&`, `@` and `%` become word
/// tokens.
pub open spec fn default_special() -> Seq<(char, Seq<char>)> {
    seq![
        ('/', seq!['-', 'o', 'r', '-']),
        ('&', seq!['-', 'a', 'n', 'd', '-']),
        ('@', seq!['-', 'a', 't', '-']),
        ('%', seq!['-', 'p', 'e', 'r', 'c', 'e', 'n', 't', '-']),
    ]
}

/// The built-in transliteration table: accented Latin letters and
/// ligatures to their ASCII approximations.
pub open spec fn default_translit() -> Seq<(char, Seq<char>)> {
    seq![
        ('\u{e1}', seq!['a']),
        ('\u{e0}', seq!['a']),
        ('\u{e2}', seq!['a']),
        ('\u{e4}', seq!['a']),
        ('\u{e3}', seq!['a']),
        ('\u{e5}', seq!['a']),
        ('\u{e9}', seq!['e']),
        ('\u{e8}', seq!['e']),
        ('\u{ea}', seq!['e']),
        ('\u{eb}', seq!['e']),
        ('\u{ed}', seq!['i']),
        ('\u{ec}', seq!['i']),
        ('\u{ee}', seq!['i']),
        ('\u{ef}', seq!['i']),
        ('\u{f3}', seq!['o']),
        ('\u{f2}', seq!['o']),
        ('\u{f4}', seq!['o']),
        ('\u{f6}', seq!['o']),
        ('\u{f5}', seq!['o']),
        ('\u{f8}', seq!['o']),
        ('\u{fa}', seq!['u']),
        ('\u{f9}', seq!['u']),
        ('\u{fb}', seq!['u']),
        ('\u{fc}', seq!['u']),
        ('\u{f1}', seq!['n']),
        ('\u{e7}', seq!['c']),
        ('\u{e6}', seq!['a', 'e']),
        ('\u{153}', seq!['o', 'e']),
        ('\u{df}', seq!['s', 's']),
    ]
}

/// The rules that a freshly built default configuration carries.
pub open spec fn default_rules() -> Rules {
    Rules {
        special: default_special(),
        translit: default_translit(),
        lowercase: true,
        lowercase_extension: true,
    }
}

impl Default for NormalizationConfig {
    /// The built-in tables with both case folds enabled.
    fn default() -> (r: NormalizationConfig)
        ensures
            r.rules() == default_rules(),
    {
        let mut sp: Vec<(char, String)> = Vec::new();
        sp.push(('/', "-or-".to_owned()));
        sp.push(('&', "-and-".to_owned()));
        sp.push(('@', "-at-".to_owned()));
        sp.push(('%', "-percent-".to_owned()));
        let mut tr: Vec<(char, String)> = Vec::new();
        tr.push(('\u{e1}', "a".to_owned()));
        tr.push(('\u{e0}', "a".to_owned()));
        tr.push(('\u{e2}', "a".to_owned()));
        tr.push(('\u{e4}', "a".to_owned()));
        tr.push(('\u{e3}', "a".to_owned()));
        tr.push(('\u{e5}', "a".to_owned()));
        tr.push(('\u{e9}', "e".to_owned()));
        tr.push(('\u{e8}', "e".to_owned()));
        tr.push(('\u{ea}', "e".to_owned()));
        tr.push(('\u{eb}', "e".to_owned()));
        tr.push(('\u{ed}', "i".to_owned()));
        tr.push(('\u{ec}', "i".to_owned()));
        tr.push(('\u{ee}', "i".to_owned()));
        tr.push(('\u{ef}', "i".to_owned()));
        tr.push(('\u{f3}', "o".to_owned()));
        tr.push(('\u{f2}', "o".to_owned()));
        tr.push(('\u{f4}', "o".to_owned()));
        tr.push(('\u{f6}', "o".to_owned()));
        tr.push(('\u{f5}', "o".to_owned()));
        tr.push(('\u{f8}', "o".to_owned()));
        tr.push(('\u{fa}', "u".to_owned()));
        tr.push(('\u{f9}', "u".to_owned()));
        tr.push(('\u{fb}', "u".to_owned()));
        tr.push(('\u{fc}', "u".to_owned()));
        tr.push(('\u{f1}', "n".to_owned()));
        tr.push(('\u{e7}', "c".to_owned()));
        tr.push(('\u{e6}', "ae".to_owned()));
        tr.push(('\u{153}', "oe".to_owned()));
        tr.push(('\u{df}', "ss".to_owned()));
        let r = NormalizationConfig {
            special_tokens: CharMap { entries: sp },
            transliterations: CharMap { entries: tr },
            lowercase: true,
            lowercase_extension: true,
        };
        proof {
            reveal_strlit("-or-");
            reveal_strlit("-and-");
            reveal_strlit("-at-");
            reveal_strlit("-percent-");
            reveal_strlit("a");
            reveal_strlit("e");
            reveal_strlit("i");
            reveal_strlit("o");
            reveal_strlit("u");
            reveal_strlit("n");
            reveal_strlit("c");
            reveal_strlit("ae");
            reveal_strlit("oe");
            reveal_strlit("ss");
            assert(r.special_tokens@ =~~= default_special());
            assert(r.transliterations@ =~~= default_translit());
        }
        r
    }
}

// ---------------------------------------------------------------------------
// Loading overrides from a TOML document
// ---------------------------------------------------------------------------
/// A configuration-loading failure.
#[derive(Debug)]
pub enum ConfigError {
    /// The text is not a well-formed TOML document, or one of the known
    /// fields has the wrong type.
    Parse,
    /// A replacement key in the named section is not exactly one
    /// character.
    InvalidKey { section: String, key: String },
}

/// The overrides a configuration file may carry, reduced to plain
/// values: the two replacement tables as string pairs, and the two
/// optional toggles.
pub struct NormalizationFileConfig {
    pub special_tokens: Vec<(String, String)>,
    pub transliterations: Vec<(String, String)>,
    pub lowercase: Option<bool>,
    pub lowercase_extension: Option<bool>,
}

/// The character content of a list of string pairs.
pub open spec fn pairs_view(v: Seq<(String, String)>) -> Seq<(Seq<char>, Seq<char>)> {
    v.map_values(|p: (String, String)| (p.0@, p.1@))
}

/// Whether `s` parses as a TOML document.
pub uninterp spec fn toml_doc_wf(s: Seq<char>) -> bool;

/// What the named section of the document holds, a function of the text
/// alone: `None` when the document does not parse; `Some(None)` when
/// the section exists but is not a table of strings; otherwise
/// `Some(Some(pairs))`, an absent section giving the empty list.
pub uninterp spec fn toml_section_pairs(doc: Seq<char>, section: Seq<char>) -> Option<
    Option<Seq<(Seq<char>, Seq<char>)>>,
>;

/// What the named boolean key of the named section holds, a function of
/// the text alone: `None` when the document does not parse; `Some(None)`
/// when the section is not a table or the key not a boolean; otherwise
/// `Some(Some(b))`, where `b` is absent for a missing section or key.
pub uninterp spec fn toml_option_bool(doc: Seq<char>, section: Seq<char>, key: Seq<char>) -> Option<
    Option<Option<bool>>,
>;

/// Relies on toml::from_str, Map::get, Value::as_table, Map::iter and
/// Value::as_str: the named section's string pairs, in the order the
/// parsed table yields them, deterministic in the text.
#[verifier::external_body]
fn section_pairs(contents: &str, section: &str) -> (r: Option<Option<Vec<(String, String)>>>)
    ensures
        r is Some <==> toml_doc_wf(contents@),
        match r {
            Option::None => toml_section_pairs(contents@, section@) is None,
            Option::Some(opt) => match opt {
                Option::None => toml_section_pairs(contents@, section@) == Option::Some(
                    Option::None::<Seq<(Seq<char>, Seq<char>)>>,
                ),
                Option::Some(pairs) => toml_section_pairs(contents@, section@) == Option::Some(
                    Option::Some(pairs_view(pairs@)),
                ),
            },
        },
{
    let table: toml::Table = match toml::from_str(contents) {
        Ok(t) => t,
        Err(_) => return None,
    };
    let r = match table.get(section) {
        None => Some(Vec::new()),
        Some(v) => match v.as_table() {
            None => None,
            Some(sec) => sec.iter().map(
                |(k, v)| v.as_str().map(|x| (k.clone(), x.to_owned())),
            ).collect(),
        },
    };
    Some(r)
}

/// Relies on toml::from_str, Map::get, Value::as_table and
/// Value::as_bool: the named boolean key of the named section,
/// deterministic in the text.
#[verifier::external_body]
fn section_bool(contents: &str, section: &str, key: &str) -> (r: Option<Option<Option<bool>>>)
    ensures
        r is Some <==> toml_doc_wf(contents@),
        r == toml_option_bool(contents@, section@, key@),
{
    let table: toml::Table = match toml::from_str(contents) {
        Ok(t) => t,
        Err(_) => return None,
    };
    let r = match table.get(section) {
        None => Some(None),
        Some(v) => match v.as_table() {
            None => None,
            Some(sec) => match sec.get(key) {
                None => Some(None),
                Some(b) => b.as_bool().map(Some),
            },
        },
    };
    Some(r)
}

/// Every key in the override list is exactly one character.
pub open spec fn single_char_keys(ovr: Seq<(Seq<char>, Seq<char>)>) -> bool {
    forall|k: int| 0 <= k < ovr.len() ==> (#[trigger] ovr[k]).0.len() == 1
}

/// The table that results from laying `ovr` over `base`: the last
/// override of a character wins, and characters no override names keep
/// their `base` entry.
pub open spec fn override_lookup(
    base: Seq<(char, Seq<char>)>,
    ovr: Seq<(Seq<char>, Seq<char>)>,
    x: char,
) -> Option<Seq<char>>
    decreases ovr.len(),
{
    if ovr.len() == 0 {
        lookup(base, x)
    } else if ovr.last().0.len() == 1 && ovr.last().0[0] == x {
        Option::Some(ovr.last().1)
    } else {
        override_lookup(base, ovr.drop_last(), x)
    }
}

impl NormalizationConfig {
    /// Lay file overrides over the default configuration. Succeeds
    /// exactly when every override key is a single character; the error
    /// names the offending section and key.
    pub fn apply_overrides(overrides: NormalizationFileConfig) -> (r: Result<
        NormalizationConfig,
        ConfigError,
    >)
        ensures
            r is Ok <==> (single_char_keys(pairs_view(overrides.special_tokens@))
                && single_char_keys(pairs_view(overrides.transliterations@))),
            r matches Ok(c) ==> {
                &&& forall|x: char|
                    lookup(c.special_tokens@, x) == override_lookup(
                        default_special(),
                        pairs_view(overrides.special_tokens@),
                        x,
                    )
                &&& forall|x: char|
                    lookup(c.transliterations@, x) == override_lookup(
                        default_translit(),
                        pairs_view(overrides.transliterations@),
                        x,
                    )
                &&& c.lowercase == (match overrides.lowercase {
                    Option::Some(b) => b,
                    Option::None => true,
                })
                &&& c.lowercase_extension == (match overrides.lowercase_extension {
                    Option::Some(b) => b,
                    Option::None => true,
                })
            },
            r matches Err(e) ==> (e matches ConfigError::InvalidKey { section, key } && key@.len()
                != 1 && ((section@ == "special_tokens"@ && exists|k: int|
                0 <= k < overrides.special_tokens@.len() && (#[trigger] pairs_view(
                    overrides.special_tokens@,
                )[k]).0 == key@) || (section@ == "transliterations"@ && exists|k: int|
                0 <= k < overrides.transliterations@.len() && (#[trigger] pairs_view(
                    overrides.transliterations@,
                )[k]).0 == key@))),
    {
        let mut config = NormalizationConfig::default();
        let ghost sp = pairs_view(overrides.special_tokens@);
        let n = overrides.special_tokens.len();
        let mut i: usize = 0;
        while i < n
            invariant
                n == sp.len(),
                i <= n,
                pairs_view(overrides.special_tokens@) == sp,
                forall|x: char|
                    lookup(config.special_tokens@, x) == override_lookup(
                        default_special(),
                        sp.take(i as int),
                        x,
                    ),
                config.transliterations@ == default_translit(),
                config.lowercase == true,
                config.lowercase_extension == true,
                forall|k: int| 0 <= k < i ==> (#[trigger] sp[k]).0.len() == 1,
            decreases n - i,
        {
            let key_len = overrides.special_tokens[i].0.as_str().unicode_len();
            proof {
                assert(sp[i as int] == (
                    overrides.special_tokens@[i as int].0@,
                    overrides.special_tokens@[i as int].1@,
                ));
            }
            if key_len != 1 {
                return Err(
                    ConfigError::InvalidKey {
                        section: "special_tokens".to_owned(),
                        key: overrides.special_tokens[i].0.clone(),
                    },
                );
            }
            let ch = overrides.special_tokens[i].0.as_str().get_char(0);
            config.special_tokens.set(ch, overrides.special_tokens[i].1.clone());
            proof {
                assert(sp.take(i + 1).drop_last() =~= sp.take(i as int));
                assert(sp.take(i + 1).last() == sp[i as int]);
            }
            i = i + 1;
        }
        proof {
            assert(sp.take(n as int) =~= sp);
        }
        let ghost tr = pairs_view(overrides.transliterations@);
        let m = overrides.transliterations.len();
        let mut j: usize = 0;
        while j < m
            invariant
                m == tr.len(),
                j <= m,
                pairs_view(overrides.transliterations@) == tr,
                forall|x: char|
                    lookup(config.transliterations@, x) == override_lookup(
                        default_translit(),
                        tr.take(j as int),
                        x,
                    ),
                forall|x: char|
                    lookup(config.special_tokens@, x) == override_lookup(
                        default_special(),
                        sp,
                        x,
                    ),
                single_char_keys(sp),
                config.lowercase == true,
                config.lowercase_extension == true,
                forall|k: int| 0 <= k < j ==> (#[trigger] tr[k]).0.len() == 1,
            decreases m - j,
        {
            let key_len = overrides.transliterations[j].0.as_str().unicode_len();
            proof {
                assert(tr[j as int] == (
                    overrides.transliterations@[j as int].0@,
                    overrides.transliterations@[j as int].1@,
                ));
            }
            if key_len != 1 {
                return Err(
                    ConfigError::InvalidKey {
                        section: "transliterations".to_owned(),
                        key: overrides.transliterations[j].0.clone(),
                    },
                );
            }
            let ch = overrides.transliterations[j].0.as_str().get_char(0);
            config.transliterations.set(ch, overrides.transliterations[j].1.clone());
            proof {
                assert(tr.take(j + 1).drop_last() =~= tr.take(j as int));
                assert(tr.take(j + 1).last() == tr[j as int]);
            }
            j = j + 1;
        }
        proof {
            assert(tr.take(m as int) =~= tr);
        }
        match overrides.lowercase {
            Some(b) => {
                config.lowercase = b;
            },
            None => {},
        }
        match overrides.lowercase_extension {
            Some(b) => {
                config.lowercase_extension = b;
            },
            None => {},
        }
        Ok(config)
    }

    /// Build a configuration from TOML text: the defaults, overridden
    /// by the document's `special_tokens`, `transliterations` and
    /// `options` sections. Text that does not parse, or that types a
    /// known field wrongly, is a `Parse` error; a key that is not a
    /// single character is an `InvalidKey` error naming its section;
    /// otherwise the result is owed, and carries exactly the defaults
    /// overridden by the document's entries.
    pub fn from_toml_str(contents: &str) -> (r: Result<NormalizationConfig, ConfigError>)
        ensures
            ({
                let sp = toml_section_pairs(contents@, "special_tokens"@);
                let tr = toml_section_pairs(contents@, "transliterations"@);
                let lc = toml_option_bool(contents@, "options"@, "lowercase"@);
                let le = toml_option_bool(contents@, "options"@, "lowercase_extension"@);
                &&& (r is Ok <==> ({
                    &&& toml_doc_wf(contents@)
                    &&& sp matches Option::Some(Option::Some(spp)) && single_char_keys(spp)
                    &&& tr matches Option::Some(Option::Some(trp)) && single_char_keys(trp)
                    &&& lc matches Option::Some(Option::Some(lcv))
                    &&& le matches Option::Some(Option::Some(lev))
                }))
                &&& (r matches Ok(c) ==> ({
                    &&& sp matches Option::Some(Option::Some(spp)) && (forall|x: char|
                        lookup(c.special_tokens@, x) == override_lookup(
                            default_special(),
                            spp,
                            x,
                        ))
                    &&& tr matches Option::Some(Option::Some(trp)) && (forall|x: char|
                        lookup(c.transliterations@, x) == override_lookup(
                            default_translit(),
                            trp,
                            x,
                        ))
                    &&& lc matches Option::Some(Option::Some(lcv)) && c.lowercase == (match lcv {
                        Option::Some(b) => b,
                        Option::None => true,
                    })
                    &&& le matches Option::Some(Option::Some(lev)) && c.lowercase_extension == (
                    match lev {
                        Option::Some(b) => b,
                        Option::None => true,
                    })
                }))
                &&& ((r matches Err(e) && e is Parse) <==> !({
                    &&& toml_doc_wf(contents@)
                    &&& sp matches Option::Some(Option::Some(spp))
                    &&& tr matches Option::Some(Option::Some(trp))
                    &&& lc matches Option::Some(Option::Some(lcv))
                    &&& le matches Option::Some(Option::Some(lev))
                }))
                &&& (r matches Err(e) ==> match e {
                    ConfigError::Parse => true,
                    ConfigError::InvalidKey { section, key } => {
                        &&& key@.len() != 1
                        &&& ((section@ == "special_tokens"@ && (sp matches Option::Some(
                            Option::Some(spp),
                        ) && exists|k: int|
                            0 <= k < spp.len() && (#[trigger] spp[k]).0 == key@)) || (section@
                            == "transliterations"@ && (tr matches Option::Some(Option::Some(trp))
                            && exists|k: int|
                            0 <= k < trp.len() && (#[trigger] trp[k]).0 == key@)))
                    },
                })
            }),
    {
        let special = match section_pairs(contents, "special_tokens") {
            Some(Some(p)) => p,
            _ => {
                return Err(ConfigError::Parse);
            },
        };
        let translit = match section_pairs(contents, "transliterations") {
            Some(Some(p)) => p,
            _ => {
                return Err(ConfigError::Parse);
            },
        };
        let lowercase = match section_bool(contents, "options", "lowercase") {
            Some(Some(b)) => b,
            _ => {
                return Err(ConfigError::Parse);
            },
        };
        let lowercase_extension = match section_bool(contents, "options", "lowercase_extension") {
            Some(Some(b)) => b,
            _ => {
                return Err(ConfigError::Parse);
            },
        };
        NormalizationConfig::apply_overrides(
            NormalizationFileConfig {
                special_tokens: special,
                transliterations: translit,
                lowercase,
                lowercase_extension,
            },
        )
    }
}

impl ConfigError {
    /// A display string for the failure.
    pub fn message(&self) -> (r: String)
        ensures
            match self {
                ConfigError::Parse => r@ == "failed to parse config"@,
                ConfigError::InvalidKey { section, key } => r@ == "invalid key \""@ + key@
                    + "\" in "@ + section@ + "; use single-character keys"@,
            },
    {
        match self {
            ConfigError::Parse => "failed to parse config".to_owned(),
            ConfigError::InvalidKey { section, key } => {
                let mut m = "invalid key \"".to_owned();
                m.append(key.as_str());
                m.append("\" in ");
                m.append(section.as_str());
                m.append("; use single-character keys");
                m
            },
        }
    }
}

} // verus!
