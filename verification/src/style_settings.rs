use vstd::prelude::*;
use crate::color::{ColorFormsV, resolved_forms, resolve_color, pct_shift, pct_string};
use crate::strutil::{str_eq, subvec, to_chars, string_from_chars, dec_digits, u32_string};
use crate::meta::{MetaValue, MetaView, view_meta, view_metas, view_meta_pairs,
    lemma_view_metas_len, lemma_view_metas_index, lemma_view_meta_pairs_len,
    lemma_view_meta_pairs_index, parse_meta, parsed_meta};
use crate::escape::has_prefix;
use crate::store::{ValueStore, style_settings_map, store_entries_of, store_map_of};
use crate::vault::{ObsidianTheme, theme_classname};
use crate::render::opt_or_empty;

verus! {

/// The synthesized stylesheet parts: the theme stylesheet handed through,
/// the rule holding the synthesized declarations, and the body class list.
pub struct StyleSettingsCss {
    pub theme_css: String,
    pub style_overrides: String,
    pub body_classes: String,
}

impl Default for StyleSettingsCss {
    fn default() -> (r: StyleSettingsCss)
        ensures
            r.theme_css@ == Seq::<char>::empty(),
            r.style_overrides@ == Seq::<char>::empty(),
            r.body_classes@ == Seq::<char>::empty(),
    {
        StyleSettingsCss {
            theme_css: String::new(),
            style_overrides: String::new(),
            body_classes: String::new(),
        }
    }
}

/// One synthesized custom-property declaration.
pub open spec fn var_decl(id: Seq<char>, value: Seq<char>) -> Seq<char> {
    "--"@ + id + ":"@ + value + ";"@
}

/// Appends one custom-property declaration.
pub fn add_variable_with_value(root_css: String, id: &String, value: String) -> (r: String)
    ensures
        r@ == root_css@ + var_decl(id@, value@),
{
    let mut r = root_css;
    r.append("--");
    r.append(id.as_str());
    r.append(":");
    r.append(value.as_str());
    r.append(";");
    proof {
        assert(r@ =~= root_css@ + var_decl(id@, value@));
    }
    r
}


/// The declarations one color setting produces, by its format: one
/// declaration for `hex` and `rgb`; the three rounded color channels
/// space-joined for `rgb-values`; hue, percent saturation and lightness and alpha for
/// `hsl-values`; four suffixed declarations carrying the rounded channels
/// for `rgb-split` and the hue/saturation/lightness/alpha components for
/// `hsl-split`; a missing or unknown format falls back to hex.
pub open spec fn color_decls(id: Seq<char>, format: Option<Seq<char>>, f: ColorFormsV) -> Seq<
    char,
> {
    if format == Some("hex"@) {
        var_decl(id, f.hex)
    } else if format == Some("rgb"@) {
        var_decl(id, f.rgb)
    } else if format == Some("rgb-values"@) {
        var_decl(
            id,
            dec_digits(f.rgba8.0 as nat) + " "@ + dec_digits(f.rgba8.1 as nat) + " "@ + dec_digits(
                f.rgba8.2 as nat,
            ),
        )
    } else if format == Some("hsl-values"@) {
        var_decl(
            id,
            f.hsla.0 + " "@ + pct_shift(f.hsla.1) + "% "@ + pct_shift(f.hsla.2) + "% "@ + f.hsla.3,
        )
    } else if format == Some("rgb-split"@) {
        var_decl(id + "-r"@, dec_digits(f.rgba8.0 as nat)) + var_decl(
            id + "-g"@,
            dec_digits(f.rgba8.1 as nat),
        ) + var_decl(id + "-b"@, dec_digits(f.rgba8.2 as nat)) + var_decl(
            id + "-a"@,
            dec_digits(f.rgba8.3 as nat),
        )
    } else if format == Some("hsl-split"@) {
        var_decl(id + "-h"@, f.hsla.0) + var_decl(id + "-s"@, pct_shift(f.hsla.1) + "%"@)
            + var_decl(id + "-l"@, pct_shift(f.hsla.2) + "%"@) + var_decl(id + "-a"@, f.hsla.3)
    } else {
        var_decl(id, f.hex)
    }
}

fn with_suffix(id: &String, suffix: &str) -> (r: String)
    ensures
        r@ == id@ + suffix@,
{
    let mut r = id.clone();
    r.append(suffix);
    r
}

/// Appends the declarations of one color setting, parsing the value with
/// the transparent-black fallback.
#[verifier::rlimit(60)]
pub fn add_color_format(
    root_css: String,
    id: &String,
    format: &Option<String>,
    value: &String,
) -> (r: String)
    ensures
        r@ == root_css@ + color_decls(
            id@,
            match format {
                Some(ff) => Some(ff@),
                None => None,
            },
            resolved_forms(value@),
        ),
{
    let forms = resolve_color(value);
    let ghost fv = resolved_forms(value@);
    match format {
        Some(ff) => {
            if str_eq(ff.as_str(), "hex") {
                add_variable_with_value(root_css, id, forms.hex)
            } else if str_eq(ff.as_str(), "rgb") {
                add_variable_with_value(root_css, id, forms.rgb)
            } else if str_eq(ff.as_str(), "rgb-values") {
                let mut v = u32_string(forms.rgba8.0 as u32);
                v.append(" ");
                let d1 = u32_string(forms.rgba8.1 as u32);
                v.append(d1.as_str());
                v.append(" ");
                let d2 = u32_string(forms.rgba8.2 as u32);
                v.append(d2.as_str());
                let r = add_variable_with_value(root_css, id, v);
                proof {
                    assert(r@ =~= root_css@ + color_decls(id@, Some(ff@), fv));
                }
                r
            } else if str_eq(ff.as_str(), "hsl-values") {
                let mut v = forms.hsla.0.clone();
                v.append(" ");
                let p1 = pct_string(&forms.hsla.1);
                v.append(p1.as_str());
                v.append("% ");
                let p2 = pct_string(&forms.hsla.2);
                v.append(p2.as_str());
                v.append("% ");
                v.append(forms.hsla.3.as_str());
                let r = add_variable_with_value(root_css, id, v);
                proof {
                    assert(r@ =~= root_css@ + color_decls(id@, Some(ff@), fv));
                }
                r
            } else if str_eq(ff.as_str(), "rgb-split") {
                let mut r = root_css;
                r = add_variable_with_value(r, &with_suffix(id, "-r"), u32_string(
                    forms.rgba8.0 as u32,
                ));
                r = add_variable_with_value(r, &with_suffix(id, "-g"), u32_string(
                    forms.rgba8.1 as u32,
                ));
                r = add_variable_with_value(r, &with_suffix(id, "-b"), u32_string(
                    forms.rgba8.2 as u32,
                ));
                r = add_variable_with_value(r, &with_suffix(id, "-a"), u32_string(
                    forms.rgba8.3 as u32,
                ));
                proof {
                    assert(r@ =~= root_css@ + color_decls(id@, Some(ff@), fv));
                }
                r
            } else if str_eq(ff.as_str(), "hsl-split") {
                let mut r = root_css;
                r = add_variable_with_value(r, &with_suffix(id, "-h"), forms.hsla.0.clone());
                let mut p1 = pct_string(&forms.hsla.1);
                p1.append("%");
                r = add_variable_with_value(r, &with_suffix(id, "-s"), p1);
                let mut p2 = pct_string(&forms.hsla.2);
                p2.append("%");
                r = add_variable_with_value(r, &with_suffix(id, "-l"), p2);
                r = add_variable_with_value(r, &with_suffix(id, "-a"), forms.hsla.3.clone());
                proof {
                    assert(r@ =~= root_css@ + color_decls(id@, Some(ff@), fv));
                }
                r
            } else {
                add_variable_with_value(root_css, id, forms.hex)
            }
        },
        None => add_variable_with_value(root_css, id, forms.hex),
    }
}

/// Whether a scanner buffer has just reached a comment terminator.
pub open spec fn ends_with_close(b: Seq<char>) -> bool {
    b.len() >= 2 && b[b.len() - 2] == '*' && b[b.len() - 1] == '/'
}

/// The comment-shaped chunks a stylesheet scanner emits: buffering starts
/// at each slash seen outside a buffer, every following character is
/// buffered, and a buffer ending in the comment terminator is emitted.
pub open spec fn comments_from(s: Seq<char>, buf: Option<Seq<char>>) -> Seq<Seq<char>>
    decreases s.len(),
{
    if s.len() == 0 {
        Seq::empty()
    } else {
        match buf {
            None => if s[0] == '/' {
                comments_from(s.drop_first(), Some(seq!['/']))
            } else {
                comments_from(s.drop_first(), None)
            },
            Some(b) => {
                let b2 = b.push(s[0]);
                if ends_with_close(b2) {
                    seq![b2] + comments_from(s.drop_first(), None)
                } else {
                    comments_from(s.drop_first(), Some(b2))
                }
            },
        }
    }
}

pub open spec fn strs_view(s: Seq<String>) -> Seq<Seq<char>> {
    s.map_values(|x: String| x@)
}

/// Collects the comment-shaped chunks of a stylesheet, in order.
#[verifier::loop_isolation(false)]
pub fn css_settings_comments(theme_css: &String) -> (r: Vec<String>)
    ensures
        strs_view(r@) == comments_from(theme_css@, None),
{
    let chars = to_chars(theme_css.as_str());
    let ghost s0 = theme_css@;
    let mut out: Vec<String> = Vec::new();
    let mut buf: Vec<char> = Vec::new();
    let mut buffering: bool = false;
    let mut i: usize = 0;
    proof {
        assert(s0.skip(0) =~= s0);
        assert(strs_view(out@) =~= Seq::<Seq<char>>::empty());
    }
    while i < chars.len()
        invariant
            i <= s0.len(),
            comments_from(s0, None) == strs_view(out@) + comments_from(
                s0.skip(i as int),
                if buffering {
                    Some(buf@)
                } else {
                    None
                },
            ),
        decreases chars@.len() - i,
    {
        let c = chars[i];
        let ghost prev: Option<Seq<char>> = if buffering {
            Some(buf@)
        } else {
            None
        };
        proof {
            assert(s0.skip(i as int)[0] == s0[i as int]);
            assert(s0.skip(i as int).drop_first() =~= s0.skip(i + 1));
        }
        if !buffering {
            if c == '/' {
                buffering = true;
                buf = Vec::new();
                buf.push('/');
                proof {
                    assert(buf@ =~= seq!['/']);
                }
            }
        } else {
            buf.push(c);
            let n = buf.len();
            if n >= 2 && buf[n - 2] == '*' && buf[n - 1] == '/' {
                let emitted = string_from_chars(&buf);
                out.push(emitted);
                buffering = false;
                buf = Vec::new();
                proof {
                    assert(strs_view(out@) =~= strs_view(out@.drop_last()) + seq![
                        out@.last()@,
                    ]);
                }
            }
        }
        i += 1;
        proof {
            assert(comments_from(s0, None) == strs_view(out@) + comments_from(
                s0.skip(i as int),
                if buffering {
                    Some(buf@)
                } else {
                    None
                },
            ));
        }
    }
    proof {
        assert(s0.skip(s0.len() as int).len() == 0);
        assert(strs_view(out@) =~= strs_view(out@) + comments_from(
            s0.skip(s0.len() as int),
            if buffering {
                Some(buf@)
            } else {
                None
            },
        ));
    }
    out
}

/// The whitespace characters trimming strips: the whole White_Space set.
pub open spec fn is_ws(c: char) -> bool {
    c == ' ' || c == '\t' || c == '\n' || c == '\r' || c == '\u{b}' || c == '\u{c}' || c
        == '\u{85}' || c == '\u{a0}' || c == '\u{1680}' || ('\u{2000}' <= c && c <= '\u{200a}')
        || c == '\u{2028}' || c == '\u{2029}' || c == '\u{202f}' || c == '\u{205f}' || c
        == '\u{3000}'
}

pub open spec fn trim_start_ws(s: Seq<char>) -> Seq<char>
    decreases s.len(),
{
    if s.len() > 0 && is_ws(s[0]) {
        trim_start_ws(s.drop_first())
    } else {
        s
    }
}

pub open spec fn trim_end_ws(s: Seq<char>) -> Seq<char>
    decreases s.len(),
{
    if s.len() > 0 && is_ws(s.last()) {
        trim_end_ws(s.drop_last())
    } else {
        s
    }
}

/// Leading and trailing whitespace removed.
pub open spec fn trim_ws(s: Seq<char>) -> Seq<char> {
    trim_end_ws(trim_start_ws(s))
}

fn is_ws_exec(c: char) -> (r: bool)
    ensures
        r == is_ws(c),
{
    c == ' ' || c == '\t' || c == '\n' || c == '\r' || c == '\u{b}' || c == '\u{c}' || c
        == '\u{85}' || c == '\u{a0}' || c == '\u{1680}' || ('\u{2000}' <= c && c <= '\u{200a}')
        || c == '\u{2028}' || c == '\u{2029}' || c == '\u{202f}' || c == '\u{205f}' || c
        == '\u{3000}'
}

#[verifier::loop_isolation(false)]
fn trim_ws_exec(v: &Vec<char>) -> (r: Vec<char>)
    ensures
        r@ == trim_ws(v@),
{
    let mut i: usize = 0;
    proof {
        assert(v@.skip(0) =~= v@);
    }
    while i < v.len() && is_ws_exec(v[i])
        invariant
            i <= v@.len(),
            trim_start_ws(v@) == trim_start_ws(v@.skip(i as int)),
        decreases v.len() - i,
    {
        i += 1;
        proof {
            assert(v@.skip(i - 1).drop_first() =~= v@.skip(i as int));
            assert(v@.skip(i - 1)[0] == v@[i - 1]);
        }
    }
    let ghost a = v@.skip(i as int);
    proof {
        assert(trim_start_ws(a) == a);
        assert(trim_start_ws(v@) == a);
    }
    let mut j: usize = v.len();
    proof {
        assert(a.take(a.len() as int) =~= a);
    }
    while j > i && is_ws_exec(v[j - 1])
        invariant
            i <= j <= v@.len(),
            trim_end_ws(a) == trim_end_ws(a.take(j - i)),
        decreases j,
    {
        j -= 1;
        proof {
            assert(a.take(j - i + 1).drop_last() =~= a.take(j - i));
            assert(a.take(j - i + 1).last() == v@[j as int]);
        }
    }
    let r = subvec(v, i, j);
    proof {
        assert(r@ =~= a.take(j - i));
        if j > i {
            assert(a.take(j - i).last() == v@[j - 1]);
            assert(!is_ws(a.take(j - i).last()));
        }
        assert(trim_end_ws(a.take(j - i)) == a.take(j - i));
    }
    r
}

/// Every tab replaced with four spaces.
pub open spec fn detab(s: Seq<char>) -> Seq<char>
    decreases s.len(),
{
    if s.len() == 0 {
        Seq::empty()
    } else {
        (if s[0] == '\t' {
            seq![' ', ' ', ' ', ' ']
        } else {
            seq![s[0]]
        }) + detab(s.drop_first())
    }
}

proof fn lemma_detab_snoc(s: Seq<char>)
    requires
        s.len() > 0,
    ensures
        detab(s) == detab(s.drop_last()) + (if s.last() == '\t' {
            seq![' ', ' ', ' ', ' ']
        } else {
            seq![s.last()]
        }),
    decreases s.len(),
{
    let tail: Seq<char> = if s.last() == '\t' {
        seq![' ', ' ', ' ', ' ']
    } else {
        seq![s.last()]
    };
    if s.len() == 1 {
        assert(s.drop_first().len() == 0);
        assert(s.drop_last().len() == 0);
        assert(s.last() == s[0]);
        assert(detab(s.drop_first()) == Seq::<char>::empty());
        assert(detab(s.drop_last()) == Seq::<char>::empty());
        assert(detab(s) == tail + detab(s.drop_first()));
        assert(detab(s) =~= detab(s.drop_last()) + tail);
    } else {
        lemma_detab_snoc(s.drop_first());
        assert(s.drop_first().drop_last() == s.drop_last().drop_first());
        assert(s.drop_first().last() == s.last());
        assert(s.drop_last().len() > 0);
        assert(s.drop_last()[0] == s[0]);
        assert(detab(s) =~= detab(s.drop_last()) + tail);
    }
}

#[verifier::loop_isolation(false)]
fn detab_exec(v: &Vec<char>) -> (r: Vec<char>)
    ensures
        r@ == detab(v@),
{
    let mut out: Vec<char> = Vec::new();
    let mut i: usize = 0;
    proof {
        assert(v@.subrange(0, 0) =~= Seq::<char>::empty());
    }
    while i < v.len()
        invariant
            i <= v@.len(),
            out@ == detab(v@.subrange(0, i as int)),
        decreases v.len() - i,
    {
        if v[i] == '\t' {
            out.push(' ');
            out.push(' ');
            out.push(' ');
            out.push(' ');
        } else {
            out.push(v[i]);
        }
        i += 1;
        proof {
            let pre = v@.subrange(0, i as int);
            assert(pre.drop_last() == v@.subrange(0, i - 1));
            assert(pre.last() == v@[i - 1]);
            lemma_detab_snoc(pre);
            assert(out@ =~= detab(pre));
        }
    }
    proof {
        assert(v@.subrange(0, v@.len() as int) == v@);
    }
    out
}


/// One configurable setting in a schema: its id, its kind, and an optional
/// format suffix or color format.
pub struct SettingConfig {
    pub id: String,
    pub kind: String,
    pub format: Option<String>,
}

/// One settings schema mined from a stylesheet comment.
pub struct SettingsSchema {
    pub id: String,
    pub settings: Vec<SettingConfig>,
}

pub struct SettingV {
    pub id: Seq<char>,
    pub kind: Seq<char>,
    pub format: Option<Seq<char>>,
}

pub struct SchemaV {
    pub id: Seq<char>,
    pub settings: Seq<SettingV>,
}

pub open spec fn opt_str_view(o: Option<String>) -> Option<Seq<char>> {
    match o {
        Some(x) => Some(x@),
        None => None,
    }
}

pub open spec fn view_setting(c: SettingConfig) -> SettingV {
    SettingV { id: c.id@, kind: c.kind@, format: opt_str_view(c.format) }
}

pub open spec fn view_settings(s: Seq<SettingConfig>) -> Seq<SettingV> {
    s.map_values(|c: SettingConfig| view_setting(c))
}

pub open spec fn view_schema(s: SettingsSchema) -> SchemaV {
    SchemaV { id: s.id@, settings: view_settings(s.settings@) }
}

/// The value of the first mapping entry whose key is the given text.
pub open spec fn meta_lookup(pairs: Seq<(MetaView, MetaView)>, key: Seq<char>) -> Option<MetaView>
    decreases pairs.len(),
{
    if pairs.len() == 0 {
        None
    } else if pairs[0].0 == MetaView::Text(key) {
        Some(pairs[0].1)
    } else {
        meta_lookup(pairs.drop_first(), key)
    }
}

#[verifier::loop_isolation(false)]
fn meta_lookup_exec<'a>(pairs: &'a Vec<(MetaValue, MetaValue)>, key: &str) -> (r: Option<
    &'a MetaValue,
>)
    ensures
        match r {
            Some(v) => meta_lookup(view_meta_pairs(pairs@), key@) == Some(view_meta(*v)),
            None => meta_lookup(view_meta_pairs(pairs@), key@) is None,
        },
{
    let ghost vs = view_meta_pairs(pairs@);
    let mut i: usize = 0;
    proof {
        lemma_view_meta_pairs_len(pairs@);
        assert(vs.skip(0) =~= vs);
    }
    while i < pairs.len()
        invariant
            i <= pairs@.len(),
            meta_lookup(vs, key@) == meta_lookup(vs.skip(i as int), key@),
        decreases pairs@.len() - i,
    {
        proof {
            lemma_view_meta_pairs_index(pairs@, i as int);
            assert(vs.skip(i as int)[0] == vs[i as int]);
            assert(vs.skip(i as int).drop_first() =~= vs.skip(i + 1));
        }
        let hit: bool = match &pairs[i].0 {
            MetaValue::Text(t) => str_eq(t.as_str(), key),
            _ => false,
        };
        if hit {
            return Some(&pairs[i].1);
        }
        i += 1;
    }
    None
}

pub open spec fn setting_of_meta(m: MetaView) -> Option<SettingV> {
    match m {
        MetaView::Mapping(pairs) => match (meta_lookup(pairs, "id"@), meta_lookup(
            pairs,
            "type"@,
        )) {
            (Some(MetaView::Text(idv)), Some(MetaView::Text(ty))) => match meta_lookup(
                pairs,
                "format"@,
            ) {
                None => Some(SettingV { id: idv, kind: ty, format: None }),
                Some(MetaView::Text(f)) => Some(SettingV { id: idv, kind: ty, format: Some(f) }),
                Some(MetaView::Null) => Some(SettingV { id: idv, kind: ty, format: None }),
                Some(_) => None,
            },
            _ => None,
        },
        _ => None,
    }
}

fn setting_of(m: &MetaValue) -> (r: Option<SettingConfig>)
    ensures
        match r {
            Some(c) => setting_of_meta(view_meta(*m)) == Some(view_setting(c)),
            None => setting_of_meta(view_meta(*m)) is None,
        },
{
    match m {
        MetaValue::Mapping(pairs) => {
            let idv: String = match meta_lookup_exec(pairs, "id") {
                Some(MetaValue::Text(t)) => t.clone(),
                Some(_) => {
                    return None;
                },
                None => {
                    return None;
                },
            };
            let ty: String = match meta_lookup_exec(pairs, "type") {
                Some(MetaValue::Text(t)) => t.clone(),
                Some(_) => {
                    return None;
                },
                None => {
                    return None;
                },
            };
            let format: Option<String> = match meta_lookup_exec(pairs, "format") {
                None => None,
                Some(MetaValue::Text(f)) => Some(f.clone()),
                Some(MetaValue::Null) => None,
                Some(_) => {
                    return None;
                },
            };
            Some(SettingConfig { id: idv, kind: ty, format })
        },
        _ => None,
    }
}

pub open spec fn settings_of_meta(items: Seq<MetaView>) -> Option<Seq<SettingV>>
    decreases items.len(),
{
    if items.len() == 0 {
        Some(Seq::empty())
    } else {
        match (setting_of_meta(items[0]), settings_of_meta(items.drop_first())) {
            (Some(x), Some(rest)) => Some(seq![x] + rest),
            _ => None,
        }
    }
}

#[verifier::loop_isolation(false)]
fn settings_of(items: &Vec<MetaValue>) -> (r: Option<Vec<SettingConfig>>)
    ensures
        match r {
            Some(v) => settings_of_meta(view_metas(items@)) == Some(view_settings(v@)),
            None => settings_of_meta(view_metas(items@)) is None,
        },
{
    let ghost vs = view_metas(items@);
    let mut out: Vec<SettingConfig> = Vec::new();
    let mut i: usize = 0;
    proof {
        lemma_view_metas_len(items@);
        assert(vs.skip(0) =~= vs);
        assert(view_settings(out@) =~= Seq::<SettingV>::empty());
    }
    while i < items.len()
        invariant
            i <= items@.len(),
            match settings_of_meta(vs.skip(i as int)) {
                Some(rest) => settings_of_meta(vs) == Some(view_settings(out@) + rest),
                None => settings_of_meta(vs) is None,
            },
        decreases items@.len() - i,
    {
        proof {
            lemma_view_metas_index(items@, i as int);
            assert(vs.skip(i as int)[0] == vs[i as int]);
            assert(vs.skip(i as int).drop_first() =~= vs.skip(i + 1));
        }
        match setting_of(&items[i]) {
            Some(c) => {
                let ghost old_out = out@;
                out.push(c);
                proof {
                    assert(view_settings(out@) =~= view_settings(old_out).push(view_setting(c)));
                    assert(view_settings(old_out).push(view_setting(c)) + (match settings_of_meta(
                        vs.skip(i + 1),
                    ) {
                        Some(rest2) => rest2,
                        None => Seq::<SettingV>::empty(),
                    }) =~= view_settings(old_out) + (seq![view_setting(c)] + (
                    match settings_of_meta(vs.skip(i + 1)) {
                        Some(rest2) => rest2,
                        None => Seq::<SettingV>::empty(),
                    })));
                }
            },
            None => {
                return None;
            },
        }
        i += 1;
    }
    proof {
        assert(vs.skip(vs.len() as int).len() == 0);
        assert(view_settings(out@) + Seq::<SettingV>::empty() =~= view_settings(out@));
    }
    Some(out)
}

/// The schema a structured comment value describes, if it is one: a mapping
/// with a text `id` and a `settings` list of settings, each a mapping with
/// a text `id` and `type` and an optional text `format`.
pub open spec fn schema_of_meta(m: MetaView) -> Option<SchemaV> {
    match m {
        MetaView::Mapping(pairs) => match (meta_lookup(pairs, "id"@), meta_lookup(
            pairs,
            "settings"@,
        )) {
            (Some(MetaView::Text(idv)), Some(MetaView::Sequence(items))) => match settings_of_meta(
                items,
            ) {
                Some(ss) => Some(SchemaV { id: idv, settings: ss }),
                None => None,
            },
            _ => None,
        },
        _ => None,
    }
}

fn schema_of(m: &MetaValue) -> (r: Option<SettingsSchema>)
    ensures
        match r {
            Some(sc) => schema_of_meta(view_meta(*m)) == Some(view_schema(sc)),
            None => schema_of_meta(view_meta(*m)) is None,
        },
{
    match m {
        MetaValue::Mapping(pairs) => {
            let idv: String = match meta_lookup_exec(pairs, "id") {
                Some(MetaValue::Text(t)) => t.clone(),
                Some(_) => {
                    return None;
                },
                None => {
                    return None;
                },
            };
            match meta_lookup_exec(pairs, "settings") {
                Some(MetaValue::Sequence(items)) => match settings_of(items) {
                    Some(ss) => Some(SettingsSchema { id: idv, settings: ss }),
                    None => None,
                },
                Some(_) => None,
                None => None,
            }
        },
        _ => None,
    }
}


/// What one setting contributes, given the value store: classes for the
/// class kinds, declarations for the variable kinds, nothing when the
/// store has no value for it or its kind is unknown.
pub open spec fn setting_output(
    schema_id: Seq<char>,
    s: SettingV,
    store: Map<(Seq<char>, Seq<char>), Seq<char>>,
) -> (Seq<char>, Seq<Seq<char>>) {
    if !store.contains_key((schema_id, s.id)) {
        (Seq::empty(), Seq::empty())
    } else {
        let value = store[(schema_id, s.id)];
        if s.kind == "class-toggle"@ {
            if value == "true"@ {
                (Seq::empty(), seq![s.id])
            } else {
                (Seq::empty(), Seq::empty())
            }
        } else if s.kind == "class-select"@ {
            (Seq::empty(), seq![value])
        } else if s.kind == "variable-select"@ || s.kind == "variable-text"@ || s.kind
            == "variable-number-slider"@ || s.kind == "variable-number"@ {
            (var_decl(s.id, value + opt_or_empty(s.format)), Seq::empty())
        } else if s.kind == "variable-color"@ || s.kind == "variable-themed-color"@ {
            (color_decls(s.id, s.format, resolved_forms(value)), Seq::empty())
        } else {
            (Seq::empty(), Seq::empty())
        }
    }
}

pub open spec fn settings_outputs(
    schema_id: Seq<char>,
    ss: Seq<SettingV>,
    store: Map<(Seq<char>, Seq<char>), Seq<char>>,
) -> (Seq<char>, Seq<Seq<char>>)
    decreases ss.len(),
{
    if ss.len() == 0 {
        (Seq::empty(), Seq::empty())
    } else {
        let head = setting_output(schema_id, ss[0], store);
        let rest = settings_outputs(schema_id, ss.drop_first(), store);
        (head.0 + rest.0, head.1 + rest.1)
    }
}

proof fn lemma_settings_outputs_snoc(
    schema_id: Seq<char>,
    ss: Seq<SettingV>,
    store: Map<(Seq<char>, Seq<char>), Seq<char>>,
)
    requires
        ss.len() > 0,
    ensures
        settings_outputs(schema_id, ss, store).0 == settings_outputs(
            schema_id,
            ss.drop_last(),
            store,
        ).0 + setting_output(schema_id, ss.last(), store).0,
        settings_outputs(schema_id, ss, store).1 == settings_outputs(
            schema_id,
            ss.drop_last(),
            store,
        ).1 + setting_output(schema_id, ss.last(), store).1,
    decreases ss.len(),
{
    if ss.len() == 1 {
        assert(ss.drop_first().len() == 0);
        assert(ss.drop_last().len() == 0);
        assert(ss.last() == ss[0]);
        assert(settings_outputs(schema_id, ss, store).0 == setting_output(
            schema_id,
            ss[0],
            store,
        ).0 + settings_outputs(schema_id, ss.drop_first(), store).0);
        assert(settings_outputs(schema_id, ss, store).1 == setting_output(
            schema_id,
            ss[0],
            store,
        ).1 + settings_outputs(schema_id, ss.drop_first(), store).1);
        assert(settings_outputs(schema_id, ss.drop_first(), store).0 == Seq::<char>::empty());
        assert(settings_outputs(schema_id, ss.drop_last(), store).0 == Seq::<char>::empty());
        assert(settings_outputs(schema_id, ss.drop_first(), store).1 == Seq::<
            Seq<char>,
        >::empty());
        assert(settings_outputs(schema_id, ss.drop_last(), store).1 == Seq::<Seq<char>>::empty());
        assert(settings_outputs(schema_id, ss, store).0 =~= settings_outputs(
            schema_id,
            ss.drop_last(),
            store,
        ).0 + setting_output(schema_id, ss.last(), store).0);
        assert(settings_outputs(schema_id, ss, store).1 =~= settings_outputs(
            schema_id,
            ss.drop_last(),
            store,
        ).1 + setting_output(schema_id, ss.last(), store).1);
    } else {
        lemma_settings_outputs_snoc(schema_id, ss.drop_first(), store);
        assert(ss.drop_first().drop_last() == ss.drop_last().drop_first());
        assert(ss.drop_first().last() == ss.last());
        assert(ss.drop_last().len() > 0);
        assert(ss.drop_last()[0] == ss[0]);
        assert(settings_outputs(schema_id, ss, store).0 == setting_output(
            schema_id,
            ss[0],
            store,
        ).0 + settings_outputs(schema_id, ss.drop_first(), store).0);
        assert(settings_outputs(schema_id, ss, store).1 == setting_output(
            schema_id,
            ss[0],
            store,
        ).1 + settings_outputs(schema_id, ss.drop_first(), store).1);
        assert(settings_outputs(schema_id, ss.drop_last(), store).0 == setting_output(
            schema_id,
            ss[0],
            store,
        ).0 + settings_outputs(schema_id, ss.drop_last().drop_first(), store).0);
        assert(settings_outputs(schema_id, ss.drop_last(), store).1 == setting_output(
            schema_id,
            ss[0],
            store,
        ).1 + settings_outputs(schema_id, ss.drop_last().drop_first(), store).1);
        assert(settings_outputs(schema_id, ss, store).0 =~= settings_outputs(
            schema_id,
            ss.drop_last(),
            store,
        ).0 + setting_output(schema_id, ss.last(), store).0);
        assert(settings_outputs(schema_id, ss, store).1 =~= settings_outputs(
            schema_id,
            ss.drop_last(),
            store,
        ).1 + setting_output(schema_id, ss.last(), store).1);
    }
}

/// Applies one setting: looks its value up and appends what it contributes.
fn apply_setting(
    schema_id: &String,
    sc: &SettingConfig,
    store: &ValueStore,
    root_css: String,
    classes: &mut Vec<String>,
) -> (r: String)
    ensures
        r@ == root_css@ + setting_output(schema_id@, view_setting(*sc), store@).0,
        strs_view(final(classes)@) == strs_view(old(classes)@) + setting_output(
            schema_id@,
            view_setting(*sc),
            store@,
        ).1,
{
    let ghost so = setting_output(schema_id@, view_setting(*sc), store@);
    match store.get(schema_id, &sc.id) {
        None => {
            proof {
                assert(strs_view(classes@) =~= strs_view(classes@) + so.1);
            }
            root_css
        },
        Some(value) => {
            if str_eq(sc.kind.as_str(), "class-toggle") {
                if str_eq(value.as_str(), "true") {
                    let ghost oldc = classes@;
                    classes.push(sc.id.clone());
                    proof {
                        assert(strs_view(classes@) =~= strs_view(oldc) + so.1);
                    }
                } else {
                    proof {
                        assert(strs_view(classes@) =~= strs_view(classes@) + so.1);
                    }
                }
                root_css
            } else if str_eq(sc.kind.as_str(), "class-select") {
                let ghost oldc = classes@;
                classes.push(value);
                proof {
                    assert(strs_view(classes@) =~= strs_view(oldc) + so.1);
                }
                root_css
            } else if str_eq(sc.kind.as_str(), "variable-select") || str_eq(
                sc.kind.as_str(),
                "variable-text",
            ) || str_eq(sc.kind.as_str(), "variable-number-slider") || str_eq(
                sc.kind.as_str(),
                "variable-number",
            ) {
                let mut v = value;
                match &sc.format {
                    Some(f) => {
                        v.append(f.as_str());
                    },
                    None => {},
                }
                let r = add_variable_with_value(root_css, &sc.id, v);
                proof {
                    assert(r@ =~= root_css@ + so.0);
                    assert(strs_view(classes@) =~= strs_view(classes@) + so.1);
                }
                r
            } else if str_eq(sc.kind.as_str(), "variable-color") || str_eq(
                sc.kind.as_str(),
                "variable-themed-color",
            ) {
                let r = add_color_format(root_css, &sc.id, &sc.format, &value);
                proof {
                    assert(r@ =~= root_css@ + so.0);
                    assert(strs_view(classes@) =~= strs_view(classes@) + so.1);
                }
                r
            } else {
                proof {
                    assert(strs_view(classes@) =~= strs_view(classes@) + so.1);
                }
                root_css
            }
        },
    }
}

/// What one comment-shaped chunk contributes: the declarations and classes
/// of its settings, when it is a settings comment whose content parses to
/// a schema; nothing otherwise.
pub open spec fn comment_output(c: Seq<char>, store: Map<(Seq<char>, Seq<char>), Seq<char>>) -> (
    Seq<char>,
    Seq<Seq<char>>,
) {
    if c.len() >= 14 && has_prefix(c, "/* @settings"@) && ends_with_close(c) {
        let content = detab(trim_ws(c.subrange(12, c.len() - 2)));
        match parsed_meta(content) {
            Some(m) => match schema_of_meta(m) {
                Some(schema) => settings_outputs(schema.id, schema.settings, store),
                None => (Seq::empty(), Seq::empty()),
            },
            None => (Seq::empty(), Seq::empty()),
        }
    } else {
        (Seq::empty(), Seq::empty())
    }
}

pub open spec fn comments_output(
    cs: Seq<Seq<char>>,
    store: Map<(Seq<char>, Seq<char>), Seq<char>>,
) -> (Seq<char>, Seq<Seq<char>>)
    decreases cs.len(),
{
    if cs.len() == 0 {
        (Seq::empty(), Seq::empty())
    } else {
        let head = comment_output(cs[0], store);
        let rest = comments_output(cs.drop_first(), store);
        (head.0 + rest.0, head.1 + rest.1)
    }
}

proof fn lemma_comments_output_snoc(cs: Seq<Seq<char>>, store: Map<(Seq<char>, Seq<char>), Seq<char>>)
    requires
        cs.len() > 0,
    ensures
        comments_output(cs, store).0 == comments_output(cs.drop_last(), store).0 + comment_output(
            cs.last(),
            store,
        ).0,
        comments_output(cs, store).1 == comments_output(cs.drop_last(), store).1 + comment_output(
            cs.last(),
            store,
        ).1,
    decreases cs.len(),
{
    if cs.len() == 1 {
        assert(cs.drop_first().len() == 0);
        assert(cs.drop_last().len() == 0);
        assert(cs.last() == cs[0]);
        assert(comments_output(cs, store).0 == comment_output(cs[0], store).0 + comments_output(
            cs.drop_first(),
            store,
        ).0);
        assert(comments_output(cs, store).1 == comment_output(cs[0], store).1 + comments_output(
            cs.drop_first(),
            store,
        ).1);
        assert(comments_output(cs.drop_first(), store).0 == Seq::<char>::empty());
        assert(comments_output(cs.drop_last(), store).0 == Seq::<char>::empty());
        assert(comments_output(cs.drop_first(), store).1 == Seq::<Seq<char>>::empty());
        assert(comments_output(cs.drop_last(), store).1 == Seq::<Seq<char>>::empty());
        assert(comments_output(cs, store).0 =~= comments_output(cs.drop_last(), store).0
            + comment_output(cs.last(), store).0);
        assert(comments_output(cs, store).1 =~= comments_output(cs.drop_last(), store).1
            + comment_output(cs.last(), store).1);
    } else {
        lemma_comments_output_snoc(cs.drop_first(), store);
        assert(cs.drop_first().drop_last() == cs.drop_last().drop_first());
        assert(cs.drop_first().last() == cs.last());
        assert(cs.drop_last().len() > 0);
        assert(cs.drop_last()[0] == cs[0]);
        assert(comments_output(cs, store).0 == comment_output(cs[0], store).0 + comments_output(
            cs.drop_first(),
            store,
        ).0);
        assert(comments_output(cs, store).1 == comment_output(cs[0], store).1 + comments_output(
            cs.drop_first(),
            store,
        ).1);
        assert(comments_output(cs.drop_last(), store).0 == comment_output(cs[0], store).0
            + comments_output(cs.drop_last().drop_first(), store).0);
        assert(comments_output(cs.drop_last(), store).1 == comment_output(cs[0], store).1
            + comments_output(cs.drop_last().drop_first(), store).1);
        assert(comments_output(cs, store).0 =~= comments_output(cs.drop_last(), store).0
            + comment_output(cs.last(), store).0);
        assert(comments_output(cs, store).1 =~= comments_output(cs.drop_last(), store).1
            + comment_output(cs.last(), store).1);
    }
}

/// Applies one comment-shaped chunk.
#[verifier::loop_isolation(false)]
fn apply_comment(
    c: &String,
    store: &ValueStore,
    root_css: String,
    classes: &mut Vec<String>,
) -> (r: String)
    ensures
        r@ == root_css@ + comment_output(c@, store@).0,
        strs_view(final(classes)@) == strs_view(old(classes)@) + comment_output(c@, store@).1,
{
    let ghost co = comment_output(c@, store@);
    proof {
        reveal_strlit("/* @settings");
    }
    let cv = to_chars(c.as_str());
    let is_settings: bool = if cv.len() >= 14 {
        let head = string_from_chars(&subvec(&cv, 0, 12));
        let n = cv.len();
        str_eq(head.as_str(), "/* @settings") && cv[n - 2] == '*' && cv[n - 1] == '/'
    } else {
        false
    };
    if !is_settings {
        proof {
            assert(strs_view(classes@) =~= strs_view(classes@) + co.1);
        }
        return root_css;
    }
    let content_raw = subvec(&cv, 12, cv.len() - 2);
    let trimmed = trim_ws_exec(&content_raw);
    let detabbed = detab_exec(&trimmed);
    let content = string_from_chars(&detabbed);
    proof {
        assert(content@ == detab(trim_ws(c@.subrange(12, c@.len() - 2))));
    }
    let m = match parse_meta(&content) {
        Some(m) => m,
        None => {
            proof {
                assert(strs_view(classes@) =~= strs_view(classes@) + co.1);
            }
            return root_css;
        },
    };
    let schema = match schema_of(&m) {
        Some(sc) => sc,
        None => {
            proof {
                assert(strs_view(classes@) =~= strs_view(classes@) + co.1);
            }
            return root_css;
        },
    };
    let ghost svs = view_settings(schema.settings@);
    let ghost base_classes = classes@;
    let mut r = root_css;
    let ghost base_css = r@;
    let mut j: usize = 0;
    proof {
        assert(svs.subrange(0, 0) =~= Seq::<SettingV>::empty());
        assert(r@ =~= base_css + settings_outputs(view_schema(schema).id, svs.subrange(0, 0), store@).0);
        assert(strs_view(classes@) =~= strs_view(base_classes) + settings_outputs(
            view_schema(schema).id,
            svs.subrange(0, 0),
            store@,
        ).1);
    }
    while j < schema.settings.len()
        invariant
            j <= schema.settings@.len(),
            svs.len() == schema.settings@.len(),
            r@ == base_css + settings_outputs(schema.id@, svs.subrange(0, j as int), store@).0,
            strs_view(classes@) == strs_view(base_classes) + settings_outputs(
                schema.id@,
                svs.subrange(0, j as int),
                store@,
            ).1,
        decreases schema.settings@.len() - j,
    {
        proof {
            assert(svs[j as int] == view_setting(schema.settings@[j as int]));
        }
        r = apply_setting(&schema.id, &schema.settings[j], store, r, classes);
        j += 1;
        proof {
            assert(svs.subrange(0, j as int).drop_last() =~= svs.subrange(0, j - 1));
            assert(svs.subrange(0, j as int).last() == svs[j - 1]);
            lemma_settings_outputs_snoc(schema.id@, svs.subrange(0, j as int), store@);
            assert(r@ =~= base_css + settings_outputs(schema.id@, svs.subrange(0, j as int), store@).0);
            assert(strs_view(classes@) =~= strs_view(base_classes) + settings_outputs(
                schema.id@,
                svs.subrange(0, j as int),
                store@,
            ).1);
        }
    }
    proof {
        assert(svs.subrange(0, svs.len() as int) == svs);
        assert(r@ =~= root_css@ + co.0);
        assert(strs_view(classes@) =~= strs_view(base_classes) + co.1);
    }
    r
}

/// The classes joined with single spaces.
pub open spec fn join_classes(xs: Seq<Seq<char>>) -> Seq<char>
    decreases xs.len(),
{
    if xs.len() == 0 {
        Seq::empty()
    } else if xs.len() == 1 {
        xs[0]
    } else {
        xs[0] + " "@ + join_classes(xs.drop_first())
    }
}

proof fn lemma_join_classes_snoc(xs: Seq<Seq<char>>)
    requires
        xs.len() >= 2,
    ensures
        join_classes(xs) == join_classes(xs.drop_last()) + " "@ + xs.last(),
    decreases xs.len(),
{
    if xs.len() == 2 {
        assert(xs.drop_first().len() == 1);
        assert(xs.drop_first()[0] == xs[1]);
        assert(xs.drop_last().len() == 1);
        assert(xs.drop_last()[0] == xs[0]);
        assert(xs.last() == xs[1]);
        assert(join_classes(xs) == xs[0] + " "@ + join_classes(xs.drop_first()));
        assert(join_classes(xs.drop_first()) == xs[1]);
        assert(join_classes(xs.drop_last()) == xs[0]);
        assert(join_classes(xs) =~= join_classes(xs.drop_last()) + " "@ + xs.last());
    } else {
        lemma_join_classes_snoc(xs.drop_first());
        assert(xs.drop_first().drop_last() == xs.drop_last().drop_first());
        assert(xs.drop_first().last() == xs.last());
        assert(xs.drop_last().len() >= 2);
        assert(xs.drop_last()[0] == xs[0]);
        assert(join_classes(xs) == xs[0] + " "@ + join_classes(xs.drop_first()));
        assert(join_classes(xs.drop_last()) == xs[0] + " "@ + join_classes(
            xs.drop_last().drop_first(),
        ));
        assert(join_classes(xs) =~= join_classes(xs.drop_last()) + " "@ + xs.last());
    }
}

/// The store loaded from an optional persisted blob: empty when the blob
/// is missing or does not parse as an object.
pub open spec fn loaded_store(blob: Option<Seq<char>>, theme: ObsidianTheme) -> Map<
    (Seq<char>, Seq<char>),
    Seq<char>,
> {
    match blob {
        None => Map::empty(),
        Some(b) => match store_entries_of(b) {
            Some(es) => store_map_of(es, theme, None),
            None => Map::empty(),
        },
    }
}

/// Mines the stylesheet's settings comments, resolves each setting against
/// the value store of the requested variant, and synthesizes the override
/// rule and the body class list.
#[verifier::loop_isolation(false)]
#[verifier::rlimit(60)]
pub fn get_style_settings_css(
    theme_css: String,
    store_blob: Option<&String>,
    theme_variant: &ObsidianTheme,
) -> (r: StyleSettingsCss)
    ensures
        r.theme_css@ == theme_css@,
        r.style_overrides@ == "body."@ + theme_classname(*theme_variant) + " { "@ + comments_output(
            comments_from(theme_css@, None),
            loaded_store(
                match store_blob {
                    Some(b) => Some(b@),
                    None => None,
                },
                *theme_variant,
            ),
        ).0 + " }"@,
        r.body_classes@ == join_classes(
            seq!["theme-light"@] + comments_output(
                comments_from(theme_css@, None),
                loaded_store(
                    match store_blob {
                        Some(b) => Some(b@),
                        None => None,
                    },
                    *theme_variant,
                ),
            ).1,
        ),
{
    let ghost smap = loaded_store(
        match store_blob {
            Some(b) => Some(b@),
            None => None,
        },
        *theme_variant,
    );
    let store = match style_settings_map(store_blob, None, theme_variant) {
        Some(st) => st,
        None => ValueStore::new(),
    };
    proof {
        assert(store@ == smap);
    }
    let comments = css_settings_comments(&theme_css);
    let ghost cvs = strs_view(comments@);
    let mut root_css = String::new();
    let mut classes: Vec<String> = Vec::new();
    classes.push(String::from_str("theme-light"));
    let ghost base_classes = classes@;
    proof {
        assert(strs_view(base_classes) =~= seq!["theme-light"@]);
        assert(cvs.subrange(0, 0) =~= Seq::<Seq<char>>::empty());
        assert(root_css@ =~= Seq::<char>::empty() + comments_output(cvs.subrange(0, 0), smap).0);
        assert(strs_view(classes@) =~= strs_view(base_classes) + comments_output(
            cvs.subrange(0, 0),
            smap,
        ).1);
    }
    let mut k: usize = 0;
    while k < comments.len()
        invariant
            k <= comments@.len(),
            cvs.len() == comments@.len(),
            root_css@ == Seq::<char>::empty() + comments_output(cvs.subrange(0, k as int), smap).0,
            strs_view(classes@) == strs_view(base_classes) + comments_output(
                cvs.subrange(0, k as int),
                smap,
            ).1,
        decreases comments@.len() - k,
    {
        proof {
            assert(cvs[k as int] == comments@[k as int]@);
        }
        root_css = apply_comment(&comments[k], &store, root_css, &mut classes);
        k += 1;
        proof {
            assert(cvs.subrange(0, k as int).drop_last() =~= cvs.subrange(0, k - 1));
            assert(cvs.subrange(0, k as int).last() == cvs[k - 1]);
            lemma_comments_output_snoc(cvs.subrange(0, k as int), smap);
            assert(root_css@ =~= Seq::<char>::empty() + comments_output(
                cvs.subrange(0, k as int),
                smap,
            ).0);
            assert(strs_view(classes@) =~= strs_view(base_classes) + comments_output(
                cvs.subrange(0, k as int),
                smap,
            ).1);
        }
    }
    proof {
        assert(cvs.subrange(0, cvs.len() as int) == cvs);
    }
    let mut style_overrides = String::new();
    style_overrides.append("body.");
    style_overrides.append(theme_variant.classname());
    style_overrides.append(" { ");
    style_overrides.append(root_css.as_str());
    style_overrides.append(" }");
    let ghost all_classes = strs_view(classes@);
    let mut body_classes = String::new();
    body_classes.append(classes[0].as_str());
    proof {
        assert(all_classes.subrange(0, 1) =~= seq![all_classes[0]]);
        assert(join_classes(all_classes.subrange(0, 1)) == all_classes[0]);
        assert(all_classes[0] == classes@[0]@);
    }
    let mut q: usize = 1;
    while q < classes.len()
        invariant
            1 <= q <= classes@.len(),
            all_classes.len() == classes@.len(),
            all_classes.len() >= 1,
            body_classes@ == join_classes(all_classes.subrange(0, q as int)),
        decreases classes@.len() - q,
    {
        body_classes.append(" ");
        body_classes.append(classes[q].as_str());
        q += 1;
        proof {
            assert(all_classes.subrange(0, q as int).drop_last() =~= all_classes.subrange(
                0,
                q - 1,
            ));
            assert(all_classes.subrange(0, q as int).last() == all_classes[q - 1]);
            assert(all_classes[q - 1] == classes@[q - 1]@);
            lemma_join_classes_snoc(all_classes.subrange(0, q as int));
            assert(body_classes@ =~= join_classes(all_classes.subrange(0, q as int)));
        }
    }
    proof {
        assert(all_classes.subrange(0, all_classes.len() as int) == all_classes);
        assert(style_overrides@ =~= "body."@ + theme_classname(*theme_variant) + " { "@
            + comments_output(cvs, smap).0 + " }"@);
        assert(all_classes =~= seq!["theme-light"@] + comments_output(cvs, smap).1);
    }
    StyleSettingsCss { theme_css, style_overrides, body_classes }
}

} // verus!
