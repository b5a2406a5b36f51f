use vstd::prelude::*;
use crate::escape::{escape_seq, escape_html_str};

verus! {

/// A structured metadata value parsed from a front-matter block.
pub enum MetaValue {
    Null,
    Bool(bool),
    Number(String),
    Text(String),
    Sequence(Vec<MetaValue>),
    Mapping(Vec<(MetaValue, MetaValue)>),
    Tagged(String, Box<MetaValue>),
}

/// The mathematical model of a metadata value.
pub enum MetaView {
    Null,
    Bool(bool),
    Number(Seq<char>),
    Text(Seq<char>),
    Sequence(Seq<MetaView>),
    Mapping(Seq<(MetaView, MetaView)>),
    Tagged(Seq<char>, Box<MetaView>),
}

pub open spec fn view_meta(m: MetaValue) -> MetaView
    decreases m,
{
    match m {
        MetaValue::Null => MetaView::Null,
        MetaValue::Bool(b) => MetaView::Bool(b),
        MetaValue::Number(n) => MetaView::Number(n@),
        MetaValue::Text(s) => MetaView::Text(s@),
        MetaValue::Sequence(items) => MetaView::Sequence(view_metas(items@)),
        MetaValue::Mapping(pairs) => MetaView::Mapping(view_meta_pairs(pairs@)),
        MetaValue::Tagged(tag, v) => MetaView::Tagged(tag@, Box::new(view_meta(*v))),
    }
}

pub open spec fn view_metas(s: Seq<MetaValue>) -> Seq<MetaView>
    decreases s,
{
    if s.len() == 0 {
        Seq::empty()
    } else {
        seq![view_meta(s[0])] + view_metas(s.drop_first())
    }
}

pub open spec fn view_meta_pairs(s: Seq<(MetaValue, MetaValue)>) -> Seq<(MetaView, MetaView)>
    decreases s,
{
    if s.len() == 0 {
        Seq::empty()
    } else {
        seq![(view_meta(s[0].0), view_meta(s[0].1))] + view_meta_pairs(s.drop_first())
    }
}

pub proof fn lemma_view_metas_index(s: Seq<MetaValue>, i: int)
    requires
        0 <= i < s.len(),
    ensures
        view_metas(s).len() == s.len(),
        view_metas(s)[i] == view_meta(s[i]),
    decreases s,
{
    lemma_view_metas_len(s);
    if i > 0 {
        lemma_view_metas_index(s.drop_first(), i - 1);
    }
}

pub proof fn lemma_view_metas_len(s: Seq<MetaValue>)
    ensures
        view_metas(s).len() == s.len(),
    decreases s,
{
    if s.len() > 0 {
        lemma_view_metas_len(s.drop_first());
    }
}

pub proof fn lemma_view_meta_pairs_index(s: Seq<(MetaValue, MetaValue)>, i: int)
    requires
        0 <= i < s.len(),
    ensures
        view_meta_pairs(s).len() == s.len(),
        view_meta_pairs(s)[i] == (view_meta(s[i].0), view_meta(s[i].1)),
    decreases s,
{
    lemma_view_meta_pairs_len(s);
    if i > 0 {
        lemma_view_meta_pairs_index(s.drop_first(), i - 1);
    }
}

pub proof fn lemma_view_meta_pairs_len(s: Seq<(MetaValue, MetaValue)>)
    ensures
        view_meta_pairs(s).len() == s.len(),
    decreases s,
{
    if s.len() > 0 {
        lemma_view_meta_pairs_len(s.drop_first());
    }
}

/// What one metadata value renders to: nothing for null, a checkbox for a
/// boolean, a code span for a number, escaped text for a string, an
/// unordered list for a sequence, a definition list for a mapping, and a
/// bold tag name followed by the wrapped value for a tagged value.
pub open spec fn meta_html(m: MetaView) -> Seq<char>
    decreases m,
{
    match m {
        MetaView::Null => Seq::empty(),
        MetaView::Bool(b) => if b {
            "<input type=\"checkbox\" checked>"@
        } else {
            "<input type=\"checkbox\">"@
        },
        MetaView::Number(n) => "<code>"@ + n + "</code>"@,
        MetaView::Text(s) => escape_seq(s),
        MetaView::Sequence(items) => "<ul>"@ + metas_html(items) + "</ul>"@,
        MetaView::Mapping(pairs) => "<dl>"@ + meta_pairs_html(pairs) + "</dl>"@,
        MetaView::Tagged(tag, v) => "<strong>"@ + tag + "</strong>"@ + meta_html(*v),
    }
}

pub open spec fn metas_html(s: Seq<MetaView>) -> Seq<char>
    decreases s,
{
    if s.len() == 0 {
        Seq::empty()
    } else {
        "<li>"@ + meta_html(s[0]) + "</li>"@ + metas_html(s.drop_first())
    }
}

pub open spec fn meta_pairs_html(s: Seq<(MetaView, MetaView)>) -> Seq<char>
    decreases s,
{
    if s.len() == 0 {
        Seq::empty()
    } else {
        "<dt>"@ + meta_html(s[0].0) + "</dt><dd>"@ + meta_html(s[0].1) + "</dd>"@ + meta_pairs_html(
            s.drop_first(),
        )
    }
}

proof fn lemma_metas_html_snoc(s: Seq<MetaView>)
    requires
        s.len() > 0,
    ensures
        metas_html(s) == metas_html(s.drop_last()) + ("<li>"@ + meta_html(s.last()) + "</li>"@),
    decreases s,
{
    if s.len() == 1 {
        assert(s.drop_first().len() == 0);
        assert(s.drop_last().len() == 0);
        assert(s.last() == s[0]);
        assert(metas_html(s) == "<li>"@ + meta_html(s[0]) + "</li>"@ + metas_html(s.drop_first()));
        assert(metas_html(s.drop_first()) == Seq::<char>::empty());
        assert(metas_html(s.drop_last()) == Seq::<char>::empty());
        assert(metas_html(s) =~= metas_html(s.drop_last()) + ("<li>"@ + meta_html(s.last())
            + "</li>"@));
    } else {
        lemma_metas_html_snoc(s.drop_first());
        assert(s.drop_first().drop_last() == s.drop_last().drop_first());
        assert(s.drop_first().last() == s.last());
        assert(s.drop_last().len() > 0);
        assert(s.drop_last()[0] == s[0]);
        assert(metas_html(s.drop_last()) == "<li>"@ + meta_html(s[0]) + "</li>"@ + metas_html(
            s.drop_last().drop_first(),
        ));
        assert(metas_html(s) =~= metas_html(s.drop_last()) + ("<li>"@ + meta_html(s.last())
            + "</li>"@));
    }
}

proof fn lemma_meta_pairs_html_snoc(s: Seq<(MetaView, MetaView)>)
    requires
        s.len() > 0,
    ensures
        meta_pairs_html(s) == meta_pairs_html(s.drop_last()) + ("<dt>"@ + meta_html(s.last().0)
            + "</dt><dd>"@ + meta_html(s.last().1) + "</dd>"@),
    decreases s,
{
    if s.len() == 1 {
        assert(s.drop_first().len() == 0);
        assert(s.drop_last().len() == 0);
        assert(s.last() == s[0]);
        assert(meta_pairs_html(s) == "<dt>"@ + meta_html(s[0].0) + "</dt><dd>"@ + meta_html(s[0].1)
            + "</dd>"@ + meta_pairs_html(s.drop_first()));
        assert(meta_pairs_html(s.drop_first()) == Seq::<char>::empty());
        assert(meta_pairs_html(s.drop_last()) == Seq::<char>::empty());
        assert(meta_pairs_html(s) =~= meta_pairs_html(s.drop_last()) + ("<dt>"@ + meta_html(
            s.last().0,
        ) + "</dt><dd>"@ + meta_html(s.last().1) + "</dd>"@));
    } else {
        lemma_meta_pairs_html_snoc(s.drop_first());
        assert(s.drop_first().drop_last() == s.drop_last().drop_first());
        assert(s.drop_first().last() == s.last());
        assert(s.drop_last().len() > 0);
        assert(s.drop_last()[0] == s[0]);
        assert(meta_pairs_html(s.drop_last()) == "<dt>"@ + meta_html(s[0].0) + "</dt><dd>"@
            + meta_html(s[0].1) + "</dd>"@ + meta_pairs_html(s.drop_last().drop_first()));
        assert(meta_pairs_html(s) =~= meta_pairs_html(s.drop_last()) + ("<dt>"@ + meta_html(
            s.last().0,
        ) + "</dt><dd>"@ + meta_html(s.last().1) + "</dd>"@));
    }
}

/// Renders one structured metadata value, appending to the buffer.
#[verifier::loop_isolation(false)]
pub fn add_pretty_yaml_parsed(value: &MetaValue, string: &mut String)
    ensures
        final(string)@ == old(string)@ + meta_html(view_meta(*value)),
    decreases *value,
{
    match value {
        MetaValue::Null => {
            proof {
                assert(string@ =~= old(string)@ + meta_html(view_meta(*value)));
            }
        },
        MetaValue::Bool(b) => {
            if *b {
                string.append("<input type=\"checkbox\" checked>");
            } else {
                string.append("<input type=\"checkbox\">");
            }
            proof {
                assert(string@ =~= old(string)@ + meta_html(view_meta(*value)));
            }
        },
        MetaValue::Number(n) => {
            string.append("<code>");
            string.append(n.as_str());
            string.append("</code>");
            proof {
                assert(string@ =~= old(string)@ + meta_html(view_meta(*value)));
            }
        },
        MetaValue::Text(s) => {
            let e = escape_html_str(s.clone());
            string.append(e.as_str());
            proof {
                assert(string@ =~= old(string)@ + meta_html(view_meta(*value)));
            }
        },
        MetaValue::Sequence(items) => {
            string.append("<ul>");
            let ghost vs = view_metas(items@);
            let ghost base = string@;
            proof {
                lemma_view_metas_len(items@);
                assert(vs.subrange(0, 0) =~= Seq::<MetaView>::empty());
                assert(string@ =~= base + metas_html(vs.subrange(0, 0)));
            }
            let mut i: usize = 0;
            while i < items.len()
                invariant
                    i <= items@.len(),
                    vs.len() == items@.len(),
                    string@ == base + metas_html(vs.subrange(0, i as int)),
                decreases items@.len() - i,
            {
                proof {
                    lemma_view_metas_index(items@, i as int);
                    assert(decreases_to!(*items => items@[i as int]));
                    assert(decreases_to!(*value => *items));
                }
                string.append("<li>");
                add_pretty_yaml_parsed(&items[i], string);
                string.append("</li>");
                i += 1;
                proof {
                    assert(vs.subrange(0, i as int).drop_last() == vs.subrange(0, i - 1));
                    assert(vs.subrange(0, i as int).last() == vs[i - 1]);
                    lemma_metas_html_snoc(vs.subrange(0, i as int));
                }
            }
            proof {
                assert(vs.subrange(0, vs.len() as int) == vs);
            }
            string.append("</ul>");
            proof {
                assert(string@ =~= old(string)@ + meta_html(view_meta(*value)));
            }
        },
        MetaValue::Mapping(pairs) => {
            string.append("<dl>");
            let ghost vs = view_meta_pairs(pairs@);
            let ghost base = string@;
            proof {
                lemma_view_meta_pairs_len(pairs@);
                assert(vs.subrange(0, 0) =~= Seq::<(MetaView, MetaView)>::empty());
                assert(string@ =~= base + meta_pairs_html(vs.subrange(0, 0)));
            }
            let mut i: usize = 0;
            while i < pairs.len()
                invariant
                    i <= pairs@.len(),
                    vs.len() == pairs@.len(),
                    string@ == base + meta_pairs_html(vs.subrange(0, i as int)),
                decreases pairs@.len() - i,
            {
                proof {
                    lemma_view_meta_pairs_index(pairs@, i as int);
                    assert(decreases_to!(*pairs => pairs@[i as int]));
                    assert(decreases_to!(*value => *pairs));
                }
                string.append("<dt>");
                add_pretty_yaml_parsed(&pairs[i].0, string);
                string.append("</dt><dd>");
                add_pretty_yaml_parsed(&pairs[i].1, string);
                string.append("</dd>");
                i += 1;
                proof {
                    assert(vs.subrange(0, i as int).drop_last() == vs.subrange(0, i - 1));
                    assert(vs.subrange(0, i as int).last() == vs[i - 1]);
                    lemma_meta_pairs_html_snoc(vs.subrange(0, i as int));
                }
            }
            proof {
                assert(vs.subrange(0, vs.len() as int) == vs);
            }
            string.append("</dl>");
            proof {
                assert(string@ =~= old(string)@ + meta_html(view_meta(*value)));
            }
        },
        MetaValue::Tagged(tag, v) => {
            string.append("<strong>");
            string.append(tag.as_str());
            string.append("</strong>");
            add_pretty_yaml_parsed(&**v, string);
            proof {
                assert(string@ =~= old(string)@ + meta_html(view_meta(*value)));
            }
        },
    }
}

/// What a front-matter parse yields for given raw text, if it parses.
/// The result is a function of the text alone.
pub uninterp spec fn parsed_meta(s: Seq<char>) -> Option<MetaView>;

#[verifier::external_type_specification]
#[verifier::external_body]
pub struct ExYamlValue(serde_yaml::Value);

/// Relies on serde_yaml::Value: carries a parsed structured value into the
/// library variant by variant; numbers and tags keep their display text.
#[verifier::external_body]
fn meta_of_yaml(v: serde_yaml::Value) -> MetaValue {
    match v {
        serde_yaml::Value::Null => MetaValue::Null,
        serde_yaml::Value::Bool(b) => MetaValue::Bool(b),
        serde_yaml::Value::Number(n) => MetaValue::Number(n.to_string()),
        serde_yaml::Value::String(s) => MetaValue::Text(s),
        serde_yaml::Value::Sequence(xs) => MetaValue::Sequence(xs.into_iter().map(meta_of_yaml).collect()),
        serde_yaml::Value::Mapping(m) => MetaValue::Mapping(m.into_iter().map(|(k, w)| (meta_of_yaml(k), meta_of_yaml(w))).collect()),
        serde_yaml::Value::Tagged(t) => MetaValue::Tagged(t.tag.to_string(), Box::new(meta_of_yaml(t.value))),
    }
}

/// Relies on serde_yaml::from_str::<serde_yaml::Value>: parsing either fails
/// or yields a structured value determined by the text alone, carried over
/// by `meta_of_yaml`.
#[verifier::external_body]
pub(crate) fn parse_meta(raw: &String) -> (r: Option<MetaValue>)
    ensures
        match r {
            Some(m) => parsed_meta(raw@) == Some(view_meta(m)),
            None => parsed_meta(raw@) is None,
        },
{
    serde_yaml::from_str::<serde_yaml::Value>(raw).ok().map(meta_of_yaml)
}

/// The markup a front-matter block produces: a property list on a
/// successful parse, otherwise the escaped raw text shown verbatim.
pub open spec fn yaml_meta_html_spec(raw: Seq<char>) -> Seq<char> {
    match parsed_meta(raw) {
        Some(m) => "<div class=\"properties\">"@ + meta_html(m) + "</div>"@,
        None => "<pre>"@ + escape_seq(raw) + "</pre>"@,
    }
}

/// Renders a front-matter block, appending to the buffer: a property list
/// when the raw text parses, the escaped text verbatim when it does not.
pub fn add_pretty_yaml(value: String, string: &mut String)
    ensures
        final(string)@ == old(string)@ + yaml_meta_html_spec(value@),
{
    match parse_meta(&value) {
        Some(m) => {
            string.append("<div class=\"properties\">");
            add_pretty_yaml_parsed(&m, string);
            string.append("</div>");
            proof {
                assert(string@ =~= old(string)@ + yaml_meta_html_spec(value@));
            }
        },
        None => {
            string.append("<pre>");
            let e = escape_html_str(value);
            string.append(e.as_str());
            string.append("</pre>");
            proof {
                assert(string@ =~= old(string)@ + yaml_meta_html_spec(value@));
            }
        },
    }
}

} // verus!
