use vstd::prelude::*;
use crate::strutil::{str_eq, subvec, to_chars, string_from_chars};
use crate::vault::ObsidianTheme;

verus! {

/// Index of the first two-character key separator at or after `from`.
pub open spec fn find_sep(s: Seq<char>, from: int) -> Option<int>
    decreases s.len() - from,
{
    if from < 0 || from + 1 >= s.len() {
        None
    } else if s[from] == '@' && s[from + 1] == '@' {
        Some(from)
    } else {
        find_sep(s, from + 1)
    }
}

pub proof fn lemma_find_sep_in_range(s: Seq<char>, from: int, i: int)
    requires
        find_sep(s, from) == Some(i),
    ensures
        from <= i && i + 1 < s.len(),
    decreases s.len() - from,
{
    if from < 0 || from + 1 >= s.len() {
    } else if s[from] == '@' && s[from + 1] == '@' {
    } else {
        lemma_find_sep_in_range(s, from + 1, i);
    }
}

fn find_sep_vec(v: &Vec<char>, from: usize) -> (r: Option<usize>)
    ensures
        match r {
            Some(i) => find_sep(v@, from as int) == Some(i as int),
            None => find_sep(v@, from as int) is None,
        },
{
    let mut i: usize = from;
    while i < v.len()
        invariant
            from <= i,
            find_sep(v@, from as int) == find_sep(v@, i as int),
        decreases v.len() - i,
    {
        if i + 1 >= v.len() {
            return None;
        }
        if v[i] == '@' && v[i + 1] == '@' {
            return Some(i);
        }
        i += 1;
    }
    None
}

/// Splits a stored key into its category id, setting id and optional theme
/// suffix: the text before the first separator, between the first and the
/// second, and between the second and the third or the end. A key without a
/// separator yields nothing.
pub open spec fn split_store_key(s: Seq<char>) -> Option<(Seq<char>, Seq<char>, Option<Seq<char>>)> {
    match find_sep(s, 0) {
        None => None,
        Some(i1) => {
            let cat = s.subrange(0, i1);
            match find_sep(s, i1 + 2) {
                None => Some((cat, s.skip(i1 + 2), None)),
                Some(i2) => {
                    let set = s.subrange(i1 + 2, i2);
                    match find_sep(s, i2 + 2) {
                        None => Some((cat, set, Some(s.skip(i2 + 2)))),
                        Some(i3) => Some((cat, set, Some(s.subrange(i2 + 2, i3)))),
                    }
                },
            }
        },
    }
}

pub fn split_store_key_exec(key: &String) -> (r: Option<(String, String, Option<String>)>)
    ensures
        match r {
            Some(p) => split_store_key(key@) == Some(
                (
                    p.0@,
                    p.1@,
                    match p.2 {
                        Some(t) => Some(t@),
                        None => None,
                    },
                ),
            ),
            None => split_store_key(key@) is None,
        },
{
    let v = to_chars(key.as_str());
    let i1 = match find_sep_vec(&v, 0) {
        Some(i) => i,
        None => {
            return None;
        },
    };
    proof {
        lemma_find_sep_in_range(v@, 0, i1 as int);
    }
    let cat = string_from_chars(&subvec(&v, 0, i1));
    let i2 = match find_sep_vec(&v, i1 + 2) {
        Some(i) => i,
        None => {
            let set = string_from_chars(&subvec(&v, if i1 + 2 < v.len() {
                i1 + 2
            } else {
                v.len()
            }, v.len()));
            proof {
                if i1 + 2 <= v@.len() {
                    assert(v@.skip(i1 + 2) =~= v@.subrange(i1 + 2, v@.len() as int));
                } else {
                    assert(v@.skip(i1 + 2) =~= v@.subrange(v@.len() as int, v@.len() as int));
                }
            }
            return Some((cat, set, None));
        },
    };
    proof {
        lemma_find_sep_in_range(v@, i1 + 2, i2 as int);
    }
    let set = string_from_chars(&subvec(&v, i1 + 2, i2));
    match find_sep_vec(&v, i2 + 2) {
        None => {
            let suf = string_from_chars(&subvec(&v, if i2 + 2 < v.len() {
                i2 + 2
            } else {
                v.len()
            }, v.len()));
            proof {
                if i2 + 2 <= v@.len() {
                    assert(v@.skip(i2 + 2) =~= v@.subrange(i2 + 2, v@.len() as int));
                } else {
                    assert(v@.skip(i2 + 2) =~= v@.subrange(v@.len() as int, v@.len() as int));
                }
            }
            Some((cat, set, Some(suf)))
        },
        Some(i3) => {
            proof {
                lemma_find_sep_in_range(v@, i2 + 2, i3 as int);
            }
            let suf = string_from_chars(&subvec(&v, i2 + 2, i3));
            Some((cat, set, Some(suf)))
        },
    }
}

/// The theme an entry belongs to: an explicit `light` or `dark` suffix names
/// it, anything else falls back to the requested variant.
pub open spec fn resolved_theme(suffix: Option<Seq<char>>, requested: ObsidianTheme) -> ObsidianTheme {
    match suffix {
        Some(t) => if t == "light"@ {
            ObsidianTheme::Light
        } else if t == "dark"@ {
            ObsidianTheme::Dark
        } else {
            requested
        },
        None => requested,
    }
}

pub open spec fn category_matches(filter: Option<Seq<char>>, cat: Seq<char>) -> bool {
    match filter {
        Some(c) => c == cat,
        None => true,
    }
}

/// The mapping that a list of raw key/value entries resolves to, for one
/// theme variant and an optional category filter: keys split into category,
/// setting and suffix; entries of another theme or category are dropped;
/// later entries overwrite earlier ones.
pub open spec fn store_map_of(
    entries: Seq<(Seq<char>, Seq<char>)>,
    theme: ObsidianTheme,
    filter: Option<Seq<char>>,
) -> Map<(Seq<char>, Seq<char>), Seq<char>>
    decreases entries.len(),
{
    if entries.len() == 0 {
        Map::empty()
    } else {
        let m = store_map_of(entries.drop_last(), theme, filter);
        let e = entries.last();
        match split_store_key(e.0) {
            Some(parts) => {
                if resolved_theme(parts.2, theme) == theme && category_matches(filter, parts.0) {
                    m.insert((parts.0, parts.1), e.1)
                } else {
                    m
                }
            },
            None => m,
        }
    }
}

/// The filtered (category, setting) to value mapping of one theme variant.
pub struct ValueStore {
    entries: Vec<(String, String, String)>,
}

pub open spec fn entries_map(s: Seq<(String, String, String)>) -> Map<
    (Seq<char>, Seq<char>),
    Seq<char>,
>
    decreases s.len(),
{
    if s.len() == 0 {
        Map::empty()
    } else {
        entries_map(s.drop_last()).insert((s.last().0@, s.last().1@), s.last().2@)
    }
}

impl View for ValueStore {
    type V = Map<(Seq<char>, Seq<char>), Seq<char>>;

    closed spec fn view(&self) -> Map<(Seq<char>, Seq<char>), Seq<char>> {
        entries_map(self.entries@)
    }
}

impl ValueStore {
    pub fn new() -> (r: ValueStore)
        ensures
            r@ == Map::<(Seq<char>, Seq<char>), Seq<char>>::empty(),
    {
        ValueStore { entries: Vec::new() }
    }

    /// Sets the value of one (category, setting) key, replacing any earlier one.
    pub fn set(&mut self, cat: String, setting: String, value: String)
        ensures
            final(self)@ == old(self)@.insert((cat@, setting@), value@),
    {
        let ghost oldseq = self.entries@;
        let ghost e = (cat, setting, value);
        self.entries.push((cat, setting, value));
        proof {
            assert(self.entries@.drop_last() =~= oldseq);
        }
    }

    /// Looks a (category, setting) key up.
    #[verifier::loop_isolation(false)]
    pub fn get(&self, cat: &String, setting: &String) -> (r: Option<String>)
        ensures
            match r {
                Some(v) => self@.contains_key((cat@, setting@)) && v@ == self@[(cat@, setting@)],
                None => !self@.contains_key((cat@, setting@)),
            },
    {
        let mut j: usize = self.entries.len();
        proof {
            assert(self.entries@.subrange(0, self.entries@.len() as int) =~= self.entries@);
        }
        while j > 0
            invariant
                j <= self.entries@.len(),
                entries_map(self.entries@).contains_key((cat@, setting@)) == entries_map(
                    self.entries@.subrange(0, j as int),
                ).contains_key((cat@, setting@)),
                entries_map(self.entries@).contains_key((cat@, setting@)) ==> entries_map(
                    self.entries@,
                )[(cat@, setting@)] == entries_map(
                    self.entries@.subrange(0, j as int),
                )[(cat@, setting@)],
            decreases j,
        {
            j -= 1;
            let e = &self.entries[j];
            proof {
                assert(self.entries@.subrange(0, j + 1).drop_last() =~= self.entries@.subrange(
                    0,
                    j as int,
                ));
                assert(self.entries@.subrange(0, j + 1).last() == self.entries@[j as int]);
            }
            if str_eq(e.0.as_str(), cat.as_str()) && str_eq(e.1.as_str(), setting.as_str()) {
                return Some(e.2.clone());
            }
        }
        proof {
            assert(self.entries@.subrange(0, 0) =~= Seq::<(String, String, String)>::empty());
        }
        None
    }
}

/// What the persisted value-store blob parses to: the keys and coerced
/// text values of its top-level object, ordered by key, or nothing when
/// the blob is not such an object. The result is a function of the text
/// alone.
pub uninterp spec fn store_entries_of(blob: Seq<char>) -> Option<Seq<(Seq<char>, Seq<char>)>>;

pub open spec fn pairs_view(s: Seq<(String, String)>) -> Seq<(Seq<char>, Seq<char>)> {
    s.map_values(|p: (String, String)| (p.0@, p.1@))
}

/// Relies on serde_json::from_str::<serde_json::Value>: the blob either is a
/// JSON object, whose entries come back ordered by key with values coerced
/// to text (null to empty, booleans, numbers and other structures to their
/// textual form, strings as they are), or it is not, and nothing comes back.
#[verifier::external_body]
pub(crate) fn parse_store_entries(blob: &String) -> (r: Option<Vec<(String, String)>>)
    ensures
        match r {
            Some(v) => store_entries_of(blob@) == Some(pairs_view(v@)),
            None => store_entries_of(blob@) is None,
        },
{
    match serde_json::from_str::<serde_json::Value>(blob) {
        Ok(serde_json::Value::Object(m)) => Some(
            m.into_iter().map(|(k, v)| (k, match v {
                serde_json::Value::Null => String::new(),
                serde_json::Value::Bool(b) => b.to_string(),
                serde_json::Value::Number(n) => n.to_string(),
                serde_json::Value::String(s) => s,
                other => other.to_string(),
            })).collect(),
        ),
        _ => None,
    }
}

/// Loads the value store for one theme variant from the persisted blob, if
/// there is one and it parses; entries of other variants or categories are
/// left out.
#[verifier::loop_isolation(false)]
pub fn style_settings_map(
    blob: Option<&String>,
    category: Option<&String>,
    theme: &ObsidianTheme,
) -> (r: Option<ValueStore>)
    ensures
        match blob {
            None => r is None,
            Some(b) => match store_entries_of(b@) {
                None => r is None,
                Some(es) => match r {
                    Some(st) => st@ == store_map_of(
                        es,
                        *theme,
                        match category {
                            Some(c) => Some(c@),
                            None => None,
                        },
                    ),
                    None => false,
                },
            },
        },
{
    let b = match blob {
        Some(b) => b,
        None => {
            return None;
        },
    };
    let entries = match parse_store_entries(b) {
        Some(e) => e,
        None => {
            return None;
        },
    };
    let ghost es = pairs_view(entries@);
    let ghost filt: Option<Seq<char>> = match category {
        Some(c) => Some(c@),
        None => None,
    };
    let mut store = ValueStore::new();
    let mut i: usize = 0;
    while i < entries.len()
        invariant
            i <= entries@.len(),
            es.len() == entries@.len(),
            store@ == store_map_of(es.subrange(0, i as int), *theme, filt),
        decreases entries@.len() - i,
    {
        let key = &entries[i].0;
        let value = &entries[i].1;
        proof {
            assert(es[i as int] == (key@, value@));
            assert(es.subrange(0, i + 1).drop_last() =~= es.subrange(0, i as int));
            assert(es.subrange(0, i + 1).last() == es[i as int]);
        }
        match split_store_key_exec(key) {
            Some(parts) => {
                let (cat, setting, suffix) = parts;
                let et: ObsidianTheme = match &suffix {
                    Some(sfx) => {
                        if str_eq(sfx.as_str(), "light") {
                            ObsidianTheme::Light
                        } else if str_eq(sfx.as_str(), "dark") {
                            ObsidianTheme::Dark
                        } else {
                            *theme
                        }
                    },
                    None => *theme,
                };
                let cat_ok: bool = match category {
                    Some(c) => str_eq(c.as_str(), cat.as_str()),
                    None => true,
                };
                if et == *theme && cat_ok {
                    store.set(cat, setting, value.clone());
                }
            },
            None => {},
        }
        i += 1;
    }
    proof {
        assert(es.subrange(0, es.len() as int) == es);
    }
    Some(store)
}

} // verus!
