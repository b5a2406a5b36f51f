use vstd::prelude::*;
use crate::ast::{
    Node, NodeV, view_node, view_nodes, children_of, sizev, sizev_seq, supported, supported_seq,
    is_unsupported, opt_view, lemma_view_nodes_len, lemma_view_nodes_index,
    lemma_view_nodes_drop_first, lemma_sizev_pos,
};
use crate::callout::{
    find_callout, capitalize, capitalize_spec, find_callout_icon_classname, icon_of, lower_seq,
    extract_callout, lemma_find_callout_size, lemma_find_callout_supported,
};
use crate::escape::{escape_seq, escape_html_str};
use crate::meta::{yaml_meta_html_spec, add_pretty_yaml};
use crate::strutil::{dec_digits, u32_string};

verus! {

/// What a subtree renders to: the main body markup, the footnote items
/// collected on the side, and the front-matter markup collected on the side.
pub struct RenderOut {
    pub body: Seq<char>,
    pub foot: Seq<char>,
    pub meta: Seq<char>,
}

pub open spec fn out_empty() -> RenderOut {
    RenderOut { body: Seq::empty(), foot: Seq::empty(), meta: Seq::empty() }
}

pub open spec fn out_body(b: Seq<char>) -> RenderOut {
    RenderOut { body: b, foot: Seq::empty(), meta: Seq::empty() }
}

pub open spec fn out_cat(x: RenderOut, y: RenderOut) -> RenderOut {
    RenderOut { body: x.body + y.body, foot: x.foot + y.foot, meta: x.meta + y.meta }
}

/// Body markup wrapped in an opening and closing tag; side buffers pass through.
pub open spec fn wrap_body(open: Seq<char>, inner: RenderOut, close: Seq<char>) -> RenderOut {
    RenderOut { body: open + inner.body + close, foot: inner.foot, meta: inner.meta }
}

pub open spec fn checkbox_html(checked: Option<bool>) -> Seq<char> {
    match checked {
        Some(true) => "<input type=\"checkbox\" checked>"@,
        Some(false) => "<input type=\"checkbox\">"@,
        None => Seq::empty(),
    }
}

pub open spec fn opt_or_empty(t: Option<Seq<char>>) -> Seq<char> {
    match t {
        Some(s) => s,
        None => Seq::empty(),
    }
}

pub open spec fn lang_class(lang: Option<Seq<char>>) -> Seq<char> {
    match lang {
        Some(l) => "language-"@ + l,
        None => Seq::empty(),
    }
}

/// The opening markup of a titled callout, up to and including the opening
/// of the content wrapper.
pub open spec fn callout_open(ty: Seq<char>, title: Seq<char>) -> Seq<char> {
    "<div class=\"callout\" data-callout=\""@ + ty + "\">"@
        + "<div class=\"callout-title\">\n                    <div class=\"callout-icon\"><i class=\"callout-icon-inner "@
        + icon_of(lower_seq(ty))
        + "\"></i></div> \n                    <div class=\"callout-title-inner\">"@ + title
        + "</div>\n                </div>"@ + "<div class=\"callout-content\">"@
}

pub open spec fn foot_li_open(id: Seq<char>) -> Seq<char> {
    "<li id=\"fn-link--"@ + id + "\" value=\""@ + id + "\">"@
}

pub open spec fn foot_backlink(id: Seq<char>) -> Seq<char> {
    "<a href=\"#fn-ref--"@ + id + "\">\u{21a9}</a>"@ + "</li>"@
}

pub open spec fn foot_reference(id: Seq<char>, label: Option<Seq<char>>) -> Seq<char> {
    "<sup><a id=\"fn-ref--"@ + id + "\" href=\"#fn-link--"@ + id + "\">["@ + (match label {
        Some(l) => l,
        None => id,
    }) + "]</a></sup>"@
}

/// The markup a single node produces, in the depth-first, parent-before-
/// children order; closing markup follows the children.
pub open spec fn render_node(n: NodeV) -> RenderOut
    decreases sizev(n), 0int,
    via render_node_dec
{
    match n {
        NodeV::Root { children } => render_nodes(children),
        NodeV::Paragraph { children } => wrap_body("<p>"@, render_nodes(children), "</p>"@),
        NodeV::Heading { depth, children } => wrap_body(
            "<h"@ + dec_digits(depth as nat) + ">"@,
            render_nodes(children),
            "</h"@ + dec_digits(depth as nat) + ">"@,
        ),
        NodeV::Text { value } => out_body(escape_seq(value)),
        NodeV::Emphasis { children } => wrap_body("<em>"@, render_nodes(children), "</em>"@),
        NodeV::Strong { children } => wrap_body(
            "<strong>"@,
            render_nodes(children),
            "</strong>"@,
        ),
        NodeV::Delete { children } => wrap_body("<del>"@, render_nodes(children), "</del>"@),
        NodeV::InlineCode { value } => out_body("<code>"@ + escape_seq(value) + "</code>"@),
        NodeV::Code { lang, value } => out_body(
            "<pre><code class=\""@ + lang_class(lang) + "\">"@ + escape_seq(value)
                + "</code></pre>"@,
        ),
        NodeV::InlineMath { value } => out_body(
            "<span>"@ + escape_seq(value)
                + "</span><script>var target = document.currentScript.previousElementSibling;\n\n            katex.render(target.textContent, target, {\n                throwOnError: false,\n                displayMode: false\n            });</script>"@,
        ),
        NodeV::Math { value } => out_body(
            "<div>"@ + escape_seq(value)
                + "</div><script>var target = document.currentScript.previousElementSibling;\n\n            katex.render(target.textContent, target, {\n                throwOnError: false,\n                displayMode: true\n            });</script>"@,
        ),
        NodeV::Link { url, title, children } => wrap_body(
            "<a href=\""@ + url + "\" title=\""@ + opt_or_empty(title) + "\">"@,
            render_nodes(children),
            "</a>"@,
        ),
        NodeV::Image { url, alt, title } => out_body(
            "<img src=\""@ + url + "\" alt=\""@ + alt + "\" title=\""@ + opt_or_empty(title)
                + "\"/>"@,
        ),
        NodeV::List { ordered, start, children } => wrap_body(
            (if ordered {
                "<ol start=\""@
            } else {
                "<ul start=\""@
            }) + dec_digits(
                match start {
                    Some(k) => k as nat,
                    None => 1,
                },
            ) + "\">"@,
            render_nodes(children),
            if ordered {
                "</ol>"@
            } else {
                "</ul>"@
            },
        ),
        NodeV::ListItem { checked, children } => wrap_body(
            "<li>"@ + checkbox_html(checked),
            render_nodes(children),
            "</li>"@,
        ),
        NodeV::Table { children } => wrap_body("<table>"@, render_nodes(children), "</table>"@),
        NodeV::TableRow { children } => wrap_body("<tr>"@, render_nodes(children), "</tr>"@),
        NodeV::TableCell { children } => wrap_body("<td>"@, render_nodes(children), "</td>"@),
        NodeV::Blockquote { children } => match find_callout(children) {
            Some(res) => {
                let ty = res.0;
                let title = match res.1 {
                    Some(t) => t,
                    None => capitalize_spec(ty),
                };
                let inner = render_nodes(res.2);
                RenderOut {
                    body: callout_open(ty, title) + inner.body + "</div></div>"@,
                    foot: inner.foot,
                    meta: inner.meta,
                }
            },
            None => wrap_body("<blockquote>"@, render_nodes(children), "</blockquote>"@),
        },
        NodeV::ThematicBreak => out_body("<hr>"@),
        NodeV::Break => out_body("<br>"@),
        NodeV::Html { value } => out_body(value),
        NodeV::FootnoteDefinition { identifier, children } => {
            let inner = render_nodes(children);
            RenderOut {
                body: Seq::empty(),
                foot: foot_li_open(identifier) + inner.body + foot_backlink(identifier),
                meta: Seq::empty(),
            }
        },
        NodeV::FootnoteReference { identifier, label } => out_body(
            foot_reference(identifier, label),
        ),
        NodeV::Yaml { value } => RenderOut {
            body: Seq::empty(),
            foot: Seq::empty(),
            meta: yaml_meta_html_spec(value),
        },
        NodeV::Toml { value } => out_body(
            "<pre><code class=\"language-toml\">"@ + escape_seq(value) + "</code></pre>"@,
        ),
        _ => out_empty(),
    }
}

#[via_fn]
proof fn render_node_dec(n: NodeV) {
    lemma_sizev_pos(n);
    match n {
        NodeV::Blockquote { children } => {
            lemma_find_callout_size(children);
        },
        _ => {},
    }
}

pub open spec fn render_nodes(s: Seq<NodeV>) -> RenderOut
    decreases sizev_seq(s), 1int,
    via render_nodes_dec
{
    if s.len() == 0 {
        out_empty()
    } else {
        out_cat(render_node(s[0]), render_nodes(s.drop_first()))
    }
}

#[via_fn]
proof fn render_nodes_dec(s: Seq<NodeV>) {
    if s.len() > 0 {
        lemma_sizev_pos(s[0]);
        assert(sizev_seq(s) == sizev(s[0]) + sizev_seq(s.drop_first()));
    }
}

proof fn lemma_render_nodes_snoc(s: Seq<NodeV>)
    requires
        s.len() > 0,
    ensures
        render_nodes(s).body == render_nodes(s.drop_last()).body + render_node(s.last()).body,
        render_nodes(s).foot == render_nodes(s.drop_last()).foot + render_node(s.last()).foot,
        render_nodes(s).meta == render_nodes(s.drop_last()).meta + render_node(s.last()).meta,
    decreases s,
{
    if s.len() == 1 {
        assert(s.drop_first().len() == 0);
        assert(s.drop_last().len() == 0);
        assert(s.last() == s[0]);
        assert(render_nodes(s) == out_cat(render_node(s[0]), render_nodes(s.drop_first())));
        assert(render_nodes(s).body =~= render_nodes(s.drop_last()).body + render_node(
            s.last(),
        ).body);
        assert(render_nodes(s).foot =~= render_nodes(s.drop_last()).foot + render_node(
            s.last(),
        ).foot);
        assert(render_nodes(s).meta =~= render_nodes(s.drop_last()).meta + render_node(
            s.last(),
        ).meta);
    } else {
        lemma_render_nodes_snoc(s.drop_first());
        assert(s.drop_first().drop_last() == s.drop_last().drop_first());
        assert(s.drop_first().last() == s.last());
        assert(s.drop_last().len() > 0);
        assert(s.drop_last()[0] == s[0]);
        assert(render_nodes(s.drop_last()) == out_cat(
            render_node(s[0]),
            render_nodes(s.drop_last().drop_first()),
        ));
        assert(render_nodes(s) == out_cat(render_node(s[0]), render_nodes(s.drop_first())));
        assert(render_nodes(s).body =~= render_nodes(s.drop_last()).body + render_node(
            s.last(),
        ).body);
        assert(render_nodes(s).foot =~= render_nodes(s.drop_last()).foot + render_node(
            s.last(),
        ).foot);
        assert(render_nodes(s).meta =~= render_nodes(s.drop_last()).meta + render_node(
            s.last(),
        ).meta);
    }
}

proof fn lemma_supported_seq_snoc(s: Seq<NodeV>)
    requires
        s.len() > 0,
    ensures
        supported_seq(s) == (supported_seq(s.drop_last()) && supported(s.last())),
    decreases s,
{
    if s.len() == 1 {
        assert(s.last() == s[0]);
        assert(s.drop_last().len() == 0);
        assert(s.drop_first().len() == 0);
        assert(supported_seq(s) == (supported(s[0]) && supported_seq(s.drop_first())));
    } else {
        lemma_supported_seq_snoc(s.drop_first());
        assert(s.drop_first().drop_last() == s.drop_last().drop_first());
        assert(s.drop_first().last() == s.last());
        assert(s.drop_last().len() > 0);
        assert(s.drop_last()[0] == s[0]);
        assert(supported_seq(s.drop_last()) == (supported(s[0]) && supported_seq(
            s.drop_last().drop_first(),
        )));
        assert(supported_seq(s) == (supported(s[0]) && supported_seq(s.drop_first())));
    }
}

/// The failure a render of this tree reports: the kind of the first
/// unsupported node met in traversal order, if any.
pub open spec fn err_of(n: NodeV) -> Option<RenderError>
    decreases sizev(n), 0int,
    via err_of_dec
{
    match n {
        NodeV::Root { children } => err_of_seq(children),
        NodeV::Paragraph { children } => err_of_seq(children),
        NodeV::Heading { children, .. } => err_of_seq(children),
        NodeV::Emphasis { children } => err_of_seq(children),
        NodeV::Strong { children } => err_of_seq(children),
        NodeV::Delete { children } => err_of_seq(children),
        NodeV::Link { children, .. } => err_of_seq(children),
        NodeV::List { children, .. } => err_of_seq(children),
        NodeV::ListItem { children, .. } => err_of_seq(children),
        NodeV::Table { children } => err_of_seq(children),
        NodeV::TableRow { children } => err_of_seq(children),
        NodeV::TableCell { children } => err_of_seq(children),
        NodeV::FootnoteDefinition { children, .. } => err_of_seq(children),
        NodeV::Blockquote { children } => match find_callout(children) {
            Some(res) => err_of_seq(res.2),
            None => err_of_seq(children),
        },
        NodeV::Definition => Some(RenderError::References),
        NodeV::ImageReference => Some(RenderError::References),
        NodeV::LinkReference => Some(RenderError::References),
        NodeV::Mdx => Some(RenderError::Mdx),
        _ => None,
    }
}

#[via_fn]
proof fn err_of_dec(n: NodeV) {
    lemma_sizev_pos(n);
    match n {
        NodeV::Blockquote { children } => {
            lemma_find_callout_size(children);
        },
        _ => {},
    }
}

pub open spec fn err_of_seq(s: Seq<NodeV>) -> Option<RenderError>
    decreases sizev_seq(s), 1int,
    via err_of_seq_dec
{
    if s.len() == 0 {
        None
    } else {
        match err_of(s[0]) {
            Some(e) => Some(e),
            None => err_of_seq(s.drop_first()),
        }
    }
}

#[via_fn]
proof fn err_of_seq_dec(s: Seq<NodeV>) {
    if s.len() > 0 {
        lemma_sizev_pos(s[0]);
        assert(sizev_seq(s) == sizev(s[0]) + sizev_seq(s.drop_first()));
    }
}

/// A tree reports no failure exactly when it is supported.
pub proof fn lemma_err_of_supported(n: NodeV)
    ensures
        (err_of(n) is None) == supported(n),
    decreases sizev(n), 0int,
{
    lemma_sizev_pos(n);
    match n {
        NodeV::Blockquote { children } => {
            lemma_find_callout_size(children);
            lemma_find_callout_supported(children);
            match find_callout(children) {
                Some(res) => {
                    lemma_err_of_seq_supported(res.2);
                },
                None => {
                    lemma_err_of_seq_supported(children);
                },
            }
        },
        _ => {
            lemma_err_of_seq_supported(children_of(n));
            assert(err_of(n) == (if is_unsupported(n) {
                err_of(n)
            } else {
                err_of_seq(children_of(n))
            }));
        },
    }
}

pub proof fn lemma_err_of_seq_supported(s: Seq<NodeV>)
    ensures
        (err_of_seq(s) is None) == supported_seq(s),
    decreases sizev_seq(s), 1int,
{
    if s.len() > 0 {
        lemma_sizev_pos(s[0]);
        assert(sizev_seq(s) == sizev(s[0]) + sizev_seq(s.drop_first()));
        lemma_err_of_supported(s[0]);
        lemma_err_of_seq_supported(s.drop_first());
    }
}

/// The side buffers gathered during a render: footnote items in document
/// order, and front-matter markup.
pub struct Definitions {
    pub footnotes: String,
    pub yaml_meta: String,
}

impl Definitions {
    pub fn new() -> (d: Definitions)
        ensures
            d.footnotes@ == Seq::<char>::empty(),
            d.yaml_meta@ == Seq::<char>::empty(),
    {
        Definitions { footnotes: String::new(), yaml_meta: String::new() }
    }

    /// The front-matter markup gathered so far.
    pub fn yaml_meta_html(&self) -> (r: &String)
        ensures
            r@ == self.yaml_meta@,
    {
        &self.yaml_meta
    }

    /// The footnote section: a rule and an ordered list of the gathered items.
    pub fn footnote_html(&self) -> (r: String)
        ensures
            r@ == footnote_section(self.footnotes@),
    {
        let mut r = String::new();
        r.append("<section class=\"footnotes\"><hr><ol>");
        r.append(self.footnotes.as_str());
        r.append("</ol></section>");
        proof {
            assert(r@ =~= footnote_section(self.footnotes@));
        }
        r
    }
}

pub open spec fn footnote_section(foot: Seq<char>) -> Seq<char> {
    "<section class=\"footnotes\"><hr><ol>"@ + foot + "</ol></section>"@
}

/// Why a render was aborted: the tree holds a construct the renderer does
/// not accept.
#[derive(Debug, PartialEq, Eq, Structural)]
pub enum RenderError {
    /// A reference-style link, image or definition.
    References,
    /// An embedded-scripting node.
    Mdx,
}

proof fn lemma_prefix_trans(a: Seq<char>, b: Seq<char>, c: Seq<char>)
    requires
        a.is_prefix_of(b),
        b.is_prefix_of(c),
    ensures
        a.is_prefix_of(c),
{
    assert(c.subrange(0, b.len() as int).subrange(0, a.len() as int) =~= c.subrange(
        0,
        a.len() as int,
    ));
    assert(c.subrange(0, a.len() as int) =~= a);
}

/// Renders the children of a node in order, appending to the buffers.
#[verifier::loop_isolation(false)]
fn render_children(cs: Vec<Node>, string: &mut String, definitions: &mut Definitions) -> (r:
    Result<(), RenderError>)
    ensures
        match r {
            Ok(_) => supported_seq(view_nodes(cs@)) && final(string)@ == old(string)@
                + render_nodes(view_nodes(cs@)).body && final(definitions).footnotes@ == old(
                definitions,
            ).footnotes@ + render_nodes(view_nodes(cs@)).foot && final(definitions).yaml_meta@
                == old(definitions).yaml_meta@ + render_nodes(view_nodes(cs@)).meta,
            Err(e) => !supported_seq(view_nodes(cs@)) && err_of_seq(view_nodes(cs@)) == Some(e)
                && old(string)@.is_prefix_of(final(string)@) && old(
                definitions,
            ).footnotes@.is_prefix_of(final(definitions).footnotes@) && old(
                definitions,
            ).yaml_meta@.is_prefix_of(final(definitions).yaml_meta@),
        },
    decreases sizev_seq(view_nodes(cs@)), 4int,
{
    let ghost s0 = view_nodes(cs@);
    let ghost base_s = string@;
    let ghost base_f = definitions.footnotes@;
    let ghost base_m = definitions.yaml_meta@;
    let mut rest = cs;
    let ghost mut i: int = 0;
    proof {
        lemma_view_nodes_len(cs@);
        assert(s0.subrange(0, 0) =~= Seq::<NodeV>::empty());
        assert(view_nodes(rest@) =~= s0.skip(0));
    }
    while rest.len() > 0
        invariant
            0 <= i <= s0.len(),
            view_nodes(rest@) == s0.skip(i),
            rest@.len() == s0.len() - i,
            supported_seq(s0.subrange(0, i)),
            err_of_seq(s0) == err_of_seq(s0.skip(i)),
            string@ == base_s + render_nodes(s0.subrange(0, i)).body,
            definitions.footnotes@ == base_f + render_nodes(s0.subrange(0, i)).foot,
            definitions.yaml_meta@ == base_m + render_nodes(s0.subrange(0, i)).meta,
        decreases rest@.len(),
    {
        let ghost r0 = rest@;
        let c = rest.remove(0);
        proof {
            lemma_view_nodes_len(r0);
            lemma_view_nodes_index(r0, 0);
            lemma_view_nodes_drop_first(r0);
            assert(rest@ =~= r0.drop_first());
            assert(view_node(c) == s0.skip(i)[0]);
            assert(s0.skip(i)[0] == s0[i]);
            assert(view_nodes(rest@) == s0.skip(i).drop_first());
            assert(s0.skip(i).drop_first() =~= s0.skip(i + 1));
            lemma_sizev_seq_element(s0, i);
            lemma_sizev_seq_skip_le(s0, i);
        }
        match ast_to_html_gather_definitions(c, string, definitions) {
            Ok(_) => {},
            Err(e) => {
                proof {
                    lemma_supported_seq_element(s0, i);
                    assert(err_of(s0[i]) == Some(e));
                    assert(err_of_seq(s0.skip(i)) == Some(e));
                }
                return Err(e);
            },
        }
        proof {
            lemma_err_of_supported(s0[i]);
            assert(err_of_seq(s0.skip(i)) == err_of_seq(s0.skip(i + 1)));
            i = i + 1;
            assert(s0.subrange(0, i).drop_last() =~= s0.subrange(0, i - 1));
            assert(s0.subrange(0, i).last() == s0[i - 1]);
            lemma_render_nodes_snoc(s0.subrange(0, i));
            lemma_supported_seq_snoc(s0.subrange(0, i));
            assert(string@ =~= base_s + render_nodes(s0.subrange(0, i)).body);
            assert(definitions.footnotes@ =~= base_f + render_nodes(s0.subrange(0, i)).foot);
            assert(definitions.yaml_meta@ =~= base_m + render_nodes(s0.subrange(0, i)).meta);
        }
    }
    proof {
        assert(i == s0.len());
        assert(s0.subrange(0, s0.len() as int) == s0);
    }
    Ok(())
}

/// A sequence with an unsupported element is itself unsupported.
proof fn lemma_supported_seq_element(s: Seq<NodeV>, i: int)
    requires
        0 <= i < s.len(),
        !supported(s[i]),
    ensures
        !supported_seq(s),
    decreases s,
{
    if i > 0 {
        lemma_supported_seq_element(s.drop_first(), i - 1);
    }
}

/// No element outweighs the whole sequence.
proof fn lemma_sizev_seq_element(s: Seq<NodeV>, i: int)
    requires
        0 <= i < s.len(),
    ensures
        sizev(s[i]) <= sizev_seq(s),
    decreases s,
{
    if i > 0 {
        lemma_sizev_seq_element(s.drop_first(), i - 1);
    }
}

proof fn lemma_sizev_seq_skip_le(s: Seq<NodeV>, i: int)
    requires
        0 <= i <= s.len(),
    ensures
        sizev_seq(s.skip(i)) <= sizev_seq(s),
    decreases i,
{
    if i == 0 {
        assert(s.skip(0) =~= s);
    } else {
        lemma_sizev_seq_skip_le(s, i - 1);
        let t = s.skip(i - 1);
        if t.len() > 0 {
            assert(t.drop_first() =~= s.skip(i));
            assert(sizev_seq(t) == sizev(t[0]) + sizev_seq(t.drop_first()));
        } else {
            assert(s.skip(i) =~= t);
        }
    }
}



pub open spec fn is_wrap_kind(n: Node) -> bool {
    match n {
        Node::Root { .. } => true,
        Node::Paragraph { .. } => true,
        Node::Heading { .. } => true,
        Node::Text { .. } => true,
        Node::Emphasis { .. } => true,
        Node::Strong { .. } => true,
        Node::Delete { .. } => true,
        Node::InlineCode { .. } => true,
        Node::Code { .. } => true,
        _ => false,
    }
}

pub open spec fn is_inline_kind(n: Node) -> bool {
    match n {
        Node::InlineMath { .. } => true,
        Node::Math { .. } => true,
        Node::Link { .. } => true,
        Node::Image { .. } => true,
        Node::List { .. } => true,
        Node::ListItem { .. } => true,
        Node::Table { .. } => true,
        Node::TableRow { .. } => true,
        Node::TableCell { .. } => true,
        _ => false,
    }
}

pub open spec fn is_block_kind(n: Node) -> bool {
    match n {
        Node::Blockquote { .. } => true,
        Node::ThematicBreak => true,
        Node::Break => true,
        Node::Html { .. } => true,
        _ => false,
    }
}

/// Renders one node of the document tree, appending its body markup to
/// `string` and its footnote and front-matter markup to `definitions`.
/// Fails, leaving partial output behind, exactly when the tree holds a
/// reference-style or embedded-scripting node.
#[verifier::rlimit(60)]
#[verifier::spinoff_prover]
pub fn ast_to_html_gather_definitions(
    ast: Node,
    string: &mut String,
    definitions: &mut Definitions,
) -> (r: Result<(), RenderError>)
    ensures
        match r {
            Ok(_) => supported(view_node(ast)) && final(string)@ == old(string)@ + render_node(
                view_node(ast),
            ).body && final(definitions).footnotes@ == old(definitions).footnotes@ + render_node(
                view_node(ast),
            ).foot && final(definitions).yaml_meta@ == old(definitions).yaml_meta@ + render_node(
                view_node(ast),
            ).meta,
            Err(e) => {
                &&& !supported(view_node(ast))
                &&& err_of(view_node(ast)) == Some(e)
                &&& old(string)@.is_prefix_of(final(string)@)
                &&& old(definitions).footnotes@.is_prefix_of(final(definitions).footnotes@)
                &&& old(definitions).yaml_meta@.is_prefix_of(final(definitions).yaml_meta@)
                &&& is_unsupported(view_node(ast)) ==> {
                    &&& final(string)@ == old(string)@
                    &&& final(definitions).footnotes@ == old(definitions).footnotes@
                    &&& final(definitions).yaml_meta@ == old(definitions).yaml_meta@
                }
            },
        },
    decreases sizev(view_node(ast)), 3int,
{
    let ghost nv = view_node(ast);
    proof {
        lemma_sizev_pos(nv);
    }
    match ast {

        Node::Root { children } => {
            proof {
                assert(nv == NodeV::Root { children: view_nodes(children@) });
            }
            let ghost ps = string@;
            let ghost pf = definitions.footnotes@;
            let ghost pm = definitions.yaml_meta@;
            match render_children(children, string, definitions) {
                Ok(_) => {},
                Err(e) => {
                    proof {
                        assert(old(string)@.is_prefix_of(ps)) by {
                            assert(ps.subrange(0, old(string)@.len() as int) =~= old(string)@);
                        };
                        assert(old(definitions).footnotes@.is_prefix_of(pf)) by {
                            assert(pf.subrange(0, old(definitions).footnotes@.len() as int) =~= old(
                                definitions,
                            ).footnotes@);
                        };
                        assert(old(definitions).yaml_meta@.is_prefix_of(pm)) by {
                            assert(pm.subrange(0, old(definitions).yaml_meta@.len() as int) =~= old(
                                definitions,
                            ).yaml_meta@);
                        };
                        lemma_prefix_trans(old(string)@, ps, string@);
                        lemma_prefix_trans(old(definitions).footnotes@, pf, definitions.footnotes@);
                        lemma_prefix_trans(old(definitions).yaml_meta@, pm, definitions.yaml_meta@);
                    }
                    return Err(e);
                },
            }
            Ok(())
        },
        Node::Paragraph { children } => {
            proof {
                assert(nv == NodeV::Paragraph { children: view_nodes(children@) });
            }
            string.append("<p>");
            let ghost ps = string@;
            let ghost pf = definitions.footnotes@;
            let ghost pm = definitions.yaml_meta@;
            match render_children(children, string, definitions) {
                Ok(_) => {},
                Err(e) => {
                    proof {
                        assert(old(string)@.is_prefix_of(ps)) by {
                            assert(ps.subrange(0, old(string)@.len() as int) =~= old(string)@);
                        };
                        assert(old(definitions).footnotes@.is_prefix_of(pf)) by {
                            assert(pf.subrange(0, old(definitions).footnotes@.len() as int) =~= old(
                                definitions,
                            ).footnotes@);
                        };
                        assert(old(definitions).yaml_meta@.is_prefix_of(pm)) by {
                            assert(pm.subrange(0, old(definitions).yaml_meta@.len() as int) =~= old(
                                definitions,
                            ).yaml_meta@);
                        };
                        lemma_prefix_trans(old(string)@, ps, string@);
                        lemma_prefix_trans(old(definitions).footnotes@, pf, definitions.footnotes@);
                        lemma_prefix_trans(old(definitions).yaml_meta@, pm, definitions.yaml_meta@);
                    }
                    return Err(e);
                },
            }
            string.append("</p>");
            proof {
                assert(string@ =~= old(string)@ + render_node(nv).body);
            }
            Ok(())
        },
        Node::Heading { depth, children } => {
            proof {
                assert(nv == NodeV::Heading { depth, children: view_nodes(children@) });
            }
            let tag = u32_string(depth as u32);
            string.append("<h");
            string.append(tag.as_str());
            string.append(">");
            let ghost ps = string@;
            let ghost pf = definitions.footnotes@;
            let ghost pm = definitions.yaml_meta@;
            match render_children(children, string, definitions) {
                Ok(_) => {},
                Err(e) => {
                    proof {
                        assert(old(string)@.is_prefix_of(ps)) by {
                            assert(ps.subrange(0, old(string)@.len() as int) =~= old(string)@);
                        };
                        assert(old(definitions).footnotes@.is_prefix_of(pf)) by {
                            assert(pf.subrange(0, old(definitions).footnotes@.len() as int) =~= old(
                                definitions,
                            ).footnotes@);
                        };
                        assert(old(definitions).yaml_meta@.is_prefix_of(pm)) by {
                            assert(pm.subrange(0, old(definitions).yaml_meta@.len() as int) =~= old(
                                definitions,
                            ).yaml_meta@);
                        };
                        lemma_prefix_trans(old(string)@, ps, string@);
                        lemma_prefix_trans(old(definitions).footnotes@, pf, definitions.footnotes@);
                        lemma_prefix_trans(old(definitions).yaml_meta@, pm, definitions.yaml_meta@);
                    }
                    return Err(e);
                },
            }
            string.append("</h");
            string.append(tag.as_str());
            string.append(">");
            proof {
                assert(string@ =~= old(string)@ + render_node(nv).body);
            }
            Ok(())
        },
        Node::Text { value } => {
            let e = escape_html_str(value);
            string.append(e.as_str());
            proof {
                assert(string@ =~= old(string)@ + render_node(nv).body);
            }
            Ok(())
        },
        Node::Emphasis { children } => {
            proof {
                assert(nv == NodeV::Emphasis { children: view_nodes(children@) });
            }
            string.append("<em>");
            let ghost ps = string@;
            let ghost pf = definitions.footnotes@;
            let ghost pm = definitions.yaml_meta@;
            match render_children(children, string, definitions) {
                Ok(_) => {},
                Err(e) => {
                    proof {
                        assert(old(string)@.is_prefix_of(ps)) by {
                            assert(ps.subrange(0, old(string)@.len() as int) =~= old(string)@);
                        };
                        assert(old(definitions).footnotes@.is_prefix_of(pf)) by {
                            assert(pf.subrange(0, old(definitions).footnotes@.len() as int) =~= old(
                                definitions,
                            ).footnotes@);
                        };
                        assert(old(definitions).yaml_meta@.is_prefix_of(pm)) by {
                            assert(pm.subrange(0, old(definitions).yaml_meta@.len() as int) =~= old(
                                definitions,
                            ).yaml_meta@);
                        };
                        lemma_prefix_trans(old(string)@, ps, string@);
                        lemma_prefix_trans(old(definitions).footnotes@, pf, definitions.footnotes@);
                        lemma_prefix_trans(old(definitions).yaml_meta@, pm, definitions.yaml_meta@);
                    }
                    return Err(e);
                },
            }
            string.append("</em>");
            proof {
                assert(string@ =~= old(string)@ + render_node(nv).body);
            }
            Ok(())
        },
        Node::Strong { children } => {
            proof {
                assert(nv == NodeV::Strong { children: view_nodes(children@) });
            }
            string.append("<strong>");
            let ghost ps = string@;
            let ghost pf = definitions.footnotes@;
            let ghost pm = definitions.yaml_meta@;
            match render_children(children, string, definitions) {
                Ok(_) => {},
                Err(e) => {
                    proof {
                        assert(old(string)@.is_prefix_of(ps)) by {
                            assert(ps.subrange(0, old(string)@.len() as int) =~= old(string)@);
                        };
                        assert(old(definitions).footnotes@.is_prefix_of(pf)) by {
                            assert(pf.subrange(0, old(definitions).footnotes@.len() as int) =~= old(
                                definitions,
                            ).footnotes@);
                        };
                        assert(old(definitions).yaml_meta@.is_prefix_of(pm)) by {
                            assert(pm.subrange(0, old(definitions).yaml_meta@.len() as int) =~= old(
                                definitions,
                            ).yaml_meta@);
                        };
                        lemma_prefix_trans(old(string)@, ps, string@);
                        lemma_prefix_trans(old(definitions).footnotes@, pf, definitions.footnotes@);
                        lemma_prefix_trans(old(definitions).yaml_meta@, pm, definitions.yaml_meta@);
                    }
                    return Err(e);
                },
            }
            string.append("</strong>");
            proof {
                assert(string@ =~= old(string)@ + render_node(nv).body);
            }
            Ok(())
        },
        Node::Delete { children } => {
            proof {
                assert(nv == NodeV::Delete { children: view_nodes(children@) });
            }
            string.append("<del>");
            let ghost ps = string@;
            let ghost pf = definitions.footnotes@;
            let ghost pm = definitions.yaml_meta@;
            match render_children(children, string, definitions) {
                Ok(_) => {},
                Err(e) => {
                    proof {
                        assert(old(string)@.is_prefix_of(ps)) by {
                            assert(ps.subrange(0, old(string)@.len() as int) =~= old(string)@);
                        };
                        assert(old(definitions).footnotes@.is_prefix_of(pf)) by {
                            assert(pf.subrange(0, old(definitions).footnotes@.len() as int) =~= old(
                                definitions,
                            ).footnotes@);
                        };
                        assert(old(definitions).yaml_meta@.is_prefix_of(pm)) by {
                            assert(pm.subrange(0, old(definitions).yaml_meta@.len() as int) =~= old(
                                definitions,
                            ).yaml_meta@);
                        };
                        lemma_prefix_trans(old(string)@, ps, string@);
                        lemma_prefix_trans(old(definitions).footnotes@, pf, definitions.footnotes@);
                        lemma_prefix_trans(old(definitions).yaml_meta@, pm, definitions.yaml_meta@);
                    }
                    return Err(e);
                },
            }
            string.append("</del>");
            proof {
                assert(string@ =~= old(string)@ + render_node(nv).body);
            }
            Ok(())
        },
        Node::InlineCode { value } => {
            string.append("<code>");
            let e = escape_html_str(value);
            string.append(e.as_str());
            string.append("</code>");
            proof {
                assert(string@ =~= old(string)@ + render_node(nv).body);
            }
            Ok(())
        },
        Node::Code { lang, value } => {
            string.append("<pre><code class=\"");
            match lang {
                Some(l) => {
                    string.append("language-");
                    string.append(l.as_str());
                },
                None => {},
            }
            string.append("\">");
            let e = escape_html_str(value);
            string.append(e.as_str());
            string.append("</code></pre>");
            proof {
                assert(string@ =~= old(string)@ + render_node(nv).body);
            }
            Ok(())
        },
        other => {
            return gather_inline(other, string, definitions);
        },
    }
}

/// The renderer's arms for inline content, images, lists and tables.
#[verifier::rlimit(100)]
#[verifier::spinoff_prover]
fn gather_inline(
    ast: Node,
    string: &mut String,
    definitions: &mut Definitions,
) -> (r: Result<(), RenderError>)
    requires
        !is_wrap_kind(ast),
    ensures
        match r {
            Ok(_) => supported(view_node(ast)) && final(string)@ == old(string)@ + render_node(
                view_node(ast),
            ).body && final(definitions).footnotes@ == old(definitions).footnotes@ + render_node(
                view_node(ast),
            ).foot && final(definitions).yaml_meta@ == old(definitions).yaml_meta@ + render_node(
                view_node(ast),
            ).meta,
            Err(e) => {
                &&& !supported(view_node(ast))
                &&& err_of(view_node(ast)) == Some(e)
                &&& old(string)@.is_prefix_of(final(string)@)
                &&& old(definitions).footnotes@.is_prefix_of(final(definitions).footnotes@)
                &&& old(definitions).yaml_meta@.is_prefix_of(final(definitions).yaml_meta@)
                &&& is_unsupported(view_node(ast)) ==> {
                    &&& final(string)@ == old(string)@
                    &&& final(definitions).footnotes@ == old(definitions).footnotes@
                    &&& final(definitions).yaml_meta@ == old(definitions).yaml_meta@
                }
            },
        },
    decreases sizev(view_node(ast)), 2int,
{
    let ghost nv = view_node(ast);
    proof {
        lemma_sizev_pos(nv);
    }
    match ast {
        Node::InlineMath { value } => {
            string.append("<span>");
            let e = escape_html_str(value);
            string.append(e.as_str());
            string.append(
                "</span><script>var target = document.currentScript.previousElementSibling;\n\n            katex.render(target.textContent, target, {\n                throwOnError: false,\n                displayMode: false\n            });</script>",
            );
            proof {
                assert(string@ =~= old(string)@ + render_node(nv).body);
            }
            Ok(())
        },
        Node::Math { value } => {
            string.append("<div>");
            let e = escape_html_str(value);
            string.append(e.as_str());
            string.append(
                "</div><script>var target = document.currentScript.previousElementSibling;\n\n            katex.render(target.textContent, target, {\n                throwOnError: false,\n                displayMode: true\n            });</script>",
            );
            proof {
                assert(string@ =~= old(string)@ + render_node(nv).body);
            }
            Ok(())
        },
        Node::Link { url, title, children } => {
            proof {
                assert(nv == NodeV::Link {
                    url: url@,
                    title: opt_view(title),
                    children: view_nodes(children@),
                });
            }
            string.append("<a href=\"");
            string.append(url.as_str());
            string.append("\" title=\"");
            match title {
                Some(t) => {
                    string.append(t.as_str());
                },
                None => {},
            }
            string.append("\">");
            let ghost ps = string@;
            let ghost pf = definitions.footnotes@;
            let ghost pm = definitions.yaml_meta@;
            match render_children(children, string, definitions) {
                Ok(_) => {},
                Err(e) => {
                    proof {
                        assert(old(string)@.is_prefix_of(ps)) by {
                            assert(ps.subrange(0, old(string)@.len() as int) =~= old(string)@);
                        };
                        assert(old(definitions).footnotes@.is_prefix_of(pf)) by {
                            assert(pf.subrange(0, old(definitions).footnotes@.len() as int) =~= old(
                                definitions,
                            ).footnotes@);
                        };
                        assert(old(definitions).yaml_meta@.is_prefix_of(pm)) by {
                            assert(pm.subrange(0, old(definitions).yaml_meta@.len() as int) =~= old(
                                definitions,
                            ).yaml_meta@);
                        };
                        lemma_prefix_trans(old(string)@, ps, string@);
                        lemma_prefix_trans(old(definitions).footnotes@, pf, definitions.footnotes@);
                        lemma_prefix_trans(old(definitions).yaml_meta@, pm, definitions.yaml_meta@);
                    }
                    return Err(e);
                },
            }
            string.append("</a>");
            proof {
                assert(string@ =~= old(string)@ + render_node(nv).body);
            }
            Ok(())
        },
        Node::Image { url, alt, title } => {
            string.append("<img src=\"");
            string.append(url.as_str());
            string.append("\" alt=\"");
            string.append(alt.as_str());
            string.append("\" title=\"");
            match title {
                Some(t) => {
                    string.append(t.as_str());
                },
                None => {},
            }
            string.append("\"/>");
            proof {
                assert(string@ =~= old(string)@ + render_node(nv).body);
            }
            Ok(())
        },
        Node::List { ordered, start, children } => {
            proof {
                assert(nv == NodeV::List { ordered, start, children: view_nodes(children@) });
            }
            let startv: u32 = match start {
                Some(k) => k,
                None => 1,
            };
            if ordered {
                string.append("<ol start=\"");
            } else {
                string.append("<ul start=\"");
            }
            let d = u32_string(startv);
            string.append(d.as_str());
            string.append("\">");
            let ghost ps = string@;
            let ghost pf = definitions.footnotes@;
            let ghost pm = definitions.yaml_meta@;
            match render_children(children, string, definitions) {
                Ok(_) => {},
                Err(e) => {
                    proof {
                        assert(old(string)@.is_prefix_of(ps)) by {
                            assert(ps.subrange(0, old(string)@.len() as int) =~= old(string)@);
                        };
                        assert(old(definitions).footnotes@.is_prefix_of(pf)) by {
                            assert(pf.subrange(0, old(definitions).footnotes@.len() as int) =~= old(
                                definitions,
                            ).footnotes@);
                        };
                        assert(old(definitions).yaml_meta@.is_prefix_of(pm)) by {
                            assert(pm.subrange(0, old(definitions).yaml_meta@.len() as int) =~= old(
                                definitions,
                            ).yaml_meta@);
                        };
                        lemma_prefix_trans(old(string)@, ps, string@);
                        lemma_prefix_trans(old(definitions).footnotes@, pf, definitions.footnotes@);
                        lemma_prefix_trans(old(definitions).yaml_meta@, pm, definitions.yaml_meta@);
                    }
                    return Err(e);
                },
            }
            if ordered {
                string.append("</ol>");
            } else {
                string.append("</ul>");
            }
            proof {
                assert(string@ =~= old(string)@ + render_node(nv).body);
            }
            Ok(())
        },
        Node::ListItem { checked, children } => {
            proof {
                assert(nv == NodeV::ListItem { checked, children: view_nodes(children@) });
            }
            string.append("<li>");
            match checked {
                Some(true) => {
                    string.append("<input type=\"checkbox\" checked>");
                },
                Some(false) => {
                    string.append("<input type=\"checkbox\">");
                },
                None => {},
            }
            let ghost ps = string@;
            let ghost pf = definitions.footnotes@;
            let ghost pm = definitions.yaml_meta@;
            match render_children(children, string, definitions) {
                Ok(_) => {},
                Err(e) => {
                    proof {
                        assert(old(string)@.is_prefix_of(ps)) by {
                            assert(ps.subrange(0, old(string)@.len() as int) =~= old(string)@);
                        };
                        assert(old(definitions).footnotes@.is_prefix_of(pf)) by {
                            assert(pf.subrange(0, old(definitions).footnotes@.len() as int) =~= old(
                                definitions,
                            ).footnotes@);
                        };
                        assert(old(definitions).yaml_meta@.is_prefix_of(pm)) by {
                            assert(pm.subrange(0, old(definitions).yaml_meta@.len() as int) =~= old(
                                definitions,
                            ).yaml_meta@);
                        };
                        lemma_prefix_trans(old(string)@, ps, string@);
                        lemma_prefix_trans(old(definitions).footnotes@, pf, definitions.footnotes@);
                        lemma_prefix_trans(old(definitions).yaml_meta@, pm, definitions.yaml_meta@);
                    }
                    return Err(e);
                },
            }
            string.append("</li>");
            proof {
                assert(string@ =~= old(string)@ + render_node(nv).body);
            }
            Ok(())
        },
        Node::Table { children } => {
            proof {
                assert(nv == NodeV::Table { children: view_nodes(children@) });
            }
            string.append("<table>");
            let ghost ps = string@;
            let ghost pf = definitions.footnotes@;
            let ghost pm = definitions.yaml_meta@;
            match render_children(children, string, definitions) {
                Ok(_) => {},
                Err(e) => {
                    proof {
                        assert(old(string)@.is_prefix_of(ps)) by {
                            assert(ps.subrange(0, old(string)@.len() as int) =~= old(string)@);
                        };
                        assert(old(definitions).footnotes@.is_prefix_of(pf)) by {
                            assert(pf.subrange(0, old(definitions).footnotes@.len() as int) =~= old(
                                definitions,
                            ).footnotes@);
                        };
                        assert(old(definitions).yaml_meta@.is_prefix_of(pm)) by {
                            assert(pm.subrange(0, old(definitions).yaml_meta@.len() as int) =~= old(
                                definitions,
                            ).yaml_meta@);
                        };
                        lemma_prefix_trans(old(string)@, ps, string@);
                        lemma_prefix_trans(old(definitions).footnotes@, pf, definitions.footnotes@);
                        lemma_prefix_trans(old(definitions).yaml_meta@, pm, definitions.yaml_meta@);
                    }
                    return Err(e);
                },
            }
            string.append("</table>");
            proof {
                assert(string@ =~= old(string)@ + render_node(nv).body);
            }
            Ok(())
        },
        Node::TableRow { children } => {
            proof {
                assert(nv == NodeV::TableRow { children: view_nodes(children@) });
            }
            string.append("<tr>");
            let ghost ps = string@;
            let ghost pf = definitions.footnotes@;
            let ghost pm = definitions.yaml_meta@;
            match render_children(children, string, definitions) {
                Ok(_) => {},
                Err(e) => {
                    proof {
                        assert(old(string)@.is_prefix_of(ps)) by {
                            assert(ps.subrange(0, old(string)@.len() as int) =~= old(string)@);
                        };
                        assert(old(definitions).footnotes@.is_prefix_of(pf)) by {
                            assert(pf.subrange(0, old(definitions).footnotes@.len() as int) =~= old(
                                definitions,
                            ).footnotes@);
                        };
                        assert(old(definitions).yaml_meta@.is_prefix_of(pm)) by {
                            assert(pm.subrange(0, old(definitions).yaml_meta@.len() as int) =~= old(
                                definitions,
                            ).yaml_meta@);
                        };
                        lemma_prefix_trans(old(string)@, ps, string@);
                        lemma_prefix_trans(old(definitions).footnotes@, pf, definitions.footnotes@);
                        lemma_prefix_trans(old(definitions).yaml_meta@, pm, definitions.yaml_meta@);
                    }
                    return Err(e);
                },
            }
            string.append("</tr>");
            proof {
                assert(string@ =~= old(string)@ + render_node(nv).body);
            }
            Ok(())
        },
        Node::TableCell { children } => {
            proof {
                assert(nv == NodeV::TableCell { children: view_nodes(children@) });
            }
            string.append("<td>");
            let ghost ps = string@;
            let ghost pf = definitions.footnotes@;
            let ghost pm = definitions.yaml_meta@;
            match render_children(children, string, definitions) {
                Ok(_) => {},
                Err(e) => {
                    proof {
                        assert(old(string)@.is_prefix_of(ps)) by {
                            assert(ps.subrange(0, old(string)@.len() as int) =~= old(string)@);
                        };
                        assert(old(definitions).footnotes@.is_prefix_of(pf)) by {
                            assert(pf.subrange(0, old(definitions).footnotes@.len() as int) =~= old(
                                definitions,
                            ).footnotes@);
                        };
                        assert(old(definitions).yaml_meta@.is_prefix_of(pm)) by {
                            assert(pm.subrange(0, old(definitions).yaml_meta@.len() as int) =~= old(
                                definitions,
                            ).yaml_meta@);
                        };
                        lemma_prefix_trans(old(string)@, ps, string@);
                        lemma_prefix_trans(old(definitions).footnotes@, pf, definitions.footnotes@);
                        lemma_prefix_trans(old(definitions).yaml_meta@, pm, definitions.yaml_meta@);
                    }
                    return Err(e);
                },
            }
            string.append("</td>");
            proof {
                assert(string@ =~= old(string)@ + render_node(nv).body);
            }
            Ok(())
        },
        other => {
            return gather_block(other, string, definitions);
        },
    }
}

/// The renderer's arms for blockquotes and callouts, rules, breaks and raw markup.
#[verifier::rlimit(60)]
#[verifier::spinoff_prover]
fn gather_block(
    ast: Node,
    string: &mut String,
    definitions: &mut Definitions,
) -> (r: Result<(), RenderError>)
    requires
        !is_wrap_kind(ast),
        !is_inline_kind(ast),
    ensures
        match r {
            Ok(_) => supported(view_node(ast)) && final(string)@ == old(string)@ + render_node(
                view_node(ast),
            ).body && final(definitions).footnotes@ == old(definitions).footnotes@ + render_node(
                view_node(ast),
            ).foot && final(definitions).yaml_meta@ == old(definitions).yaml_meta@ + render_node(
                view_node(ast),
            ).meta,
            Err(e) => {
                &&& !supported(view_node(ast))
                &&& err_of(view_node(ast)) == Some(e)
                &&& old(string)@.is_prefix_of(final(string)@)
                &&& old(definitions).footnotes@.is_prefix_of(final(definitions).footnotes@)
                &&& old(definitions).yaml_meta@.is_prefix_of(final(definitions).yaml_meta@)
                &&& is_unsupported(view_node(ast)) ==> {
                    &&& final(string)@ == old(string)@
                    &&& final(definitions).footnotes@ == old(definitions).footnotes@
                    &&& final(definitions).yaml_meta@ == old(definitions).yaml_meta@
                }
            },
        },
    decreases sizev(view_node(ast)), 1int,
{
    let ghost nv = view_node(ast);
    proof {
        lemma_sizev_pos(nv);
    }
    match ast {
        Node::Blockquote { children } => {
            proof {
                assert(nv == NodeV::Blockquote { children: view_nodes(children@) });
                lemma_find_callout_size(view_nodes(children@));
                lemma_find_callout_supported(view_nodes(children@));
            }
            let (co, cs2) = extract_callout(children);
            match co {
                Some(tt) => {
                    let ty = tt.0;
                    let title = match tt.1 {
                        Some(t) => t,
                        None => capitalize(&ty),
                    };
                    let icon = find_callout_icon_classname(&ty);
                    string.append("<div class=\"callout\" data-callout=\"");
                    string.append(ty.as_str());
                    string.append("\">");
                    string.append(
                        "<div class=\"callout-title\">\n                    <div class=\"callout-icon\"><i class=\"callout-icon-inner ",
                    );
                    string.append(icon);
                    string.append(
                        "\"></i></div> \n                    <div class=\"callout-title-inner\">",
                    );
                    string.append(title.as_str());
                    string.append("</div>\n                </div>");
                    string.append("<div class=\"callout-content\">");
                    let ghost ps = string@;
                    let ghost pf = definitions.footnotes@;
                    let ghost pm = definitions.yaml_meta@;
                    match render_children(cs2, string, definitions) {
                        Ok(_) => {},
                        Err(e) => {
                            proof {
                                assert(old(string)@.is_prefix_of(ps)) by {
                                    assert(ps.subrange(0, old(string)@.len() as int) =~= old(string)@);
                                };
                                assert(old(definitions).footnotes@.is_prefix_of(pf)) by {
                                    assert(pf.subrange(0, old(definitions).footnotes@.len() as int) =~= old(
                                        definitions,
                                    ).footnotes@);
                                };
                                assert(old(definitions).yaml_meta@.is_prefix_of(pm)) by {
                                    assert(pm.subrange(0, old(definitions).yaml_meta@.len() as int) =~= old(
                                        definitions,
                                    ).yaml_meta@);
                                };
                                lemma_prefix_trans(old(string)@, ps, string@);
                                lemma_prefix_trans(old(definitions).footnotes@, pf, definitions.footnotes@);
                                lemma_prefix_trans(old(definitions).yaml_meta@, pm, definitions.yaml_meta@);
                            }
                            return Err(e);
                        },
                    }
                    string.append("</div></div>");
                    proof {
                        assert(string@ =~= old(string)@ + render_node(nv).body);
                    }
                    Ok(())
                },
                None => {
                    string.append("<blockquote>");
                    let ghost ps = string@;
                    let ghost pf = definitions.footnotes@;
                    let ghost pm = definitions.yaml_meta@;
                    match render_children(cs2, string, definitions) {
                        Ok(_) => {},
                        Err(e) => {
                            proof {
                                assert(old(string)@.is_prefix_of(ps)) by {
                                    assert(ps.subrange(0, old(string)@.len() as int) =~= old(string)@);
                                };
                                assert(old(definitions).footnotes@.is_prefix_of(pf)) by {
                                    assert(pf.subrange(0, old(definitions).footnotes@.len() as int) =~= old(
                                        definitions,
                                    ).footnotes@);
                                };
                                assert(old(definitions).yaml_meta@.is_prefix_of(pm)) by {
                                    assert(pm.subrange(0, old(definitions).yaml_meta@.len() as int) =~= old(
                                        definitions,
                                    ).yaml_meta@);
                                };
                                lemma_prefix_trans(old(string)@, ps, string@);
                                lemma_prefix_trans(old(definitions).footnotes@, pf, definitions.footnotes@);
                                lemma_prefix_trans(old(definitions).yaml_meta@, pm, definitions.yaml_meta@);
                            }
                            return Err(e);
                        },
                    }
                    string.append("</blockquote>");
                    proof {
                        assert(string@ =~= old(string)@ + render_node(nv).body);
                    }
                    Ok(())
                },
            }
        },
        Node::ThematicBreak => {
            string.append("<hr>");
            proof {
                assert(string@ =~= old(string)@ + render_node(nv).body);
            }
            Ok(())
        },
        Node::Break => {
            string.append("<br>");
            proof {
                assert(string@ =~= old(string)@ + render_node(nv).body);
            }
            Ok(())
        },
        Node::Html { value } => {
            string.append(value.as_str());
            proof {
                assert(string@ =~= old(string)@ + render_node(nv).body);
            }
            Ok(())
        },
        other => {
            return gather_rest(other, string, definitions);
        },
    }
}

/// The renderer's arms for footnotes, metadata blocks and the unsupported kinds.
#[verifier::rlimit(60)]
#[verifier::spinoff_prover]
fn gather_rest(
    ast: Node,
    string: &mut String,
    definitions: &mut Definitions,
) -> (r: Result<(), RenderError>)
    requires
        !is_wrap_kind(ast),
        !is_inline_kind(ast),
        !is_block_kind(ast),
    ensures
        match r {
            Ok(_) => supported(view_node(ast)) && final(string)@ == old(string)@ + render_node(
                view_node(ast),
            ).body && final(definitions).footnotes@ == old(definitions).footnotes@ + render_node(
                view_node(ast),
            ).foot && final(definitions).yaml_meta@ == old(definitions).yaml_meta@ + render_node(
                view_node(ast),
            ).meta,
            Err(e) => {
                &&& !supported(view_node(ast))
                &&& err_of(view_node(ast)) == Some(e)
                &&& old(string)@.is_prefix_of(final(string)@)
                &&& old(definitions).footnotes@.is_prefix_of(final(definitions).footnotes@)
                &&& old(definitions).yaml_meta@.is_prefix_of(final(definitions).yaml_meta@)
                &&& is_unsupported(view_node(ast)) ==> {
                    &&& final(string)@ == old(string)@
                    &&& final(definitions).footnotes@ == old(definitions).footnotes@
                    &&& final(definitions).yaml_meta@ == old(definitions).yaml_meta@
                }
            },
        },
    decreases sizev(view_node(ast)), 0int,
{
    let ghost nv = view_node(ast);
    proof {
        lemma_sizev_pos(nv);
    }
    match ast {
        Node::FootnoteDefinition { identifier, children } => {
            proof {
                assert(nv == NodeV::FootnoteDefinition {
                    identifier: identifier@,
                    children: view_nodes(children@),
                });
            }
            definitions.footnotes.append("<li id=\"fn-link--");
            definitions.footnotes.append(identifier.as_str());
            definitions.footnotes.append("\" value=\"");
            definitions.footnotes.append(identifier.as_str());
            definitions.footnotes.append("\">");
            let mut fresh = Definitions::new();
            let ghost pfd = definitions.footnotes@;
            match render_children(children, &mut definitions.footnotes, &mut fresh) {
                Ok(_) => {},
                Err(e) => {
                    proof {
                        assert(old(definitions).footnotes@.is_prefix_of(pfd)) by {
                            assert(pfd.subrange(0, old(definitions).footnotes@.len() as int)
                                =~= old(definitions).footnotes@);
                        };
                        lemma_prefix_trans(
                            old(definitions).footnotes@,
                            pfd,
                            definitions.footnotes@,
                        );
                        assert(old(string)@.is_prefix_of(string@)) by {
                            assert(string@.subrange(0, old(string)@.len() as int) =~= old(
                                string,
                            )@);
                        };
                        assert(old(definitions).yaml_meta@.is_prefix_of(
                            definitions.yaml_meta@,
                        )) by {
                            assert(definitions.yaml_meta@.subrange(
                                0,
                                old(definitions).yaml_meta@.len() as int,
                            ) =~= old(definitions).yaml_meta@);
                        };
                    }
                    return Err(e);
                },
            }
            definitions.footnotes.append("<a href=\"#fn-ref--");
            definitions.footnotes.append(identifier.as_str());
            definitions.footnotes.append("\">\u{21a9}</a>");
            definitions.footnotes.append("</li>");
            proof {
                assert(definitions.footnotes@ =~= old(definitions).footnotes@ + render_node(
                    nv,
                ).foot);
            }
            Ok(())
        },
        Node::FootnoteReference { identifier, label } => {
            string.append("<sup><a id=\"fn-ref--");
            string.append(identifier.as_str());
            string.append("\" href=\"#fn-link--");
            string.append(identifier.as_str());
            string.append("\">[");
            match label {
                Some(l) => {
                    string.append(l.as_str());
                },
                None => {
                    string.append(identifier.as_str());
                },
            }
            string.append("]</a></sup>");
            proof {
                assert(string@ =~= old(string)@ + render_node(nv).body);
            }
            Ok(())
        },
        Node::Yaml { value } => {
            add_pretty_yaml(value, &mut definitions.yaml_meta);
            proof {
                assert(definitions.yaml_meta@ =~= old(definitions).yaml_meta@ + render_node(
                    nv,
                ).meta);
            }
            Ok(())
        },
        Node::Toml { value } => {
            string.append("<pre><code class=\"language-toml\">");
            let e = escape_html_str(value);
            string.append(e.as_str());
            string.append("</code></pre>");
            proof {
                assert(string@ =~= old(string)@ + render_node(nv).body);
            }
            Ok(())
        },
        Node::Definition => {
            proof {
                assert(old(string)@.is_prefix_of(string@)) by {
                    assert(string@.subrange(0, old(string)@.len() as int) =~= old(string)@);
                };
                assert(old(definitions).footnotes@.is_prefix_of(definitions.footnotes@)) by {
                    assert(definitions.footnotes@.subrange(
                        0,
                        old(definitions).footnotes@.len() as int,
                    ) =~= old(definitions).footnotes@);
                };
                assert(old(definitions).yaml_meta@.is_prefix_of(definitions.yaml_meta@)) by {
                    assert(definitions.yaml_meta@.subrange(
                        0,
                        old(definitions).yaml_meta@.len() as int,
                    ) =~= old(definitions).yaml_meta@);
                };
            }
            Err(RenderError::References)
        },
        Node::ImageReference => {
            proof {
                assert(old(string)@.is_prefix_of(string@)) by {
                    assert(string@.subrange(0, old(string)@.len() as int) =~= old(string)@);
                };
                assert(old(definitions).footnotes@.is_prefix_of(definitions.footnotes@)) by {
                    assert(definitions.footnotes@.subrange(
                        0,
                        old(definitions).footnotes@.len() as int,
                    ) =~= old(definitions).footnotes@);
                };
                assert(old(definitions).yaml_meta@.is_prefix_of(definitions.yaml_meta@)) by {
                    assert(definitions.yaml_meta@.subrange(
                        0,
                        old(definitions).yaml_meta@.len() as int,
                    ) =~= old(definitions).yaml_meta@);
                };
            }
            Err(RenderError::References)
        },
        Node::LinkReference => {
            proof {
                assert(old(string)@.is_prefix_of(string@)) by {
                    assert(string@.subrange(0, old(string)@.len() as int) =~= old(string)@);
                };
                assert(old(definitions).footnotes@.is_prefix_of(definitions.footnotes@)) by {
                    assert(definitions.footnotes@.subrange(
                        0,
                        old(definitions).footnotes@.len() as int,
                    ) =~= old(definitions).footnotes@);
                };
                assert(old(definitions).yaml_meta@.is_prefix_of(definitions.yaml_meta@)) by {
                    assert(definitions.yaml_meta@.subrange(
                        0,
                        old(definitions).yaml_meta@.len() as int,
                    ) =~= old(definitions).yaml_meta@);
                };
            }
            Err(RenderError::References)
        },
        Node::Mdx => {
            proof {
                assert(old(string)@.is_prefix_of(string@)) by {
                    assert(string@.subrange(0, old(string)@.len() as int) =~= old(string)@);
                };
                assert(old(definitions).footnotes@.is_prefix_of(definitions.footnotes@)) by {
                    assert(definitions.footnotes@.subrange(
                        0,
                        old(definitions).footnotes@.len() as int,
                    ) =~= old(definitions).footnotes@);
                };
                assert(old(definitions).yaml_meta@.is_prefix_of(definitions.yaml_meta@)) by {
                    assert(definitions.yaml_meta@.subrange(
                        0,
                        old(definitions).yaml_meta@.len() as int,
                    ) =~= old(definitions).yaml_meta@);
                };
            }
            Err(RenderError::Mdx)
        },
        _ => {
            proof {
                assert(false);
            }
            Err(RenderError::Mdx)
        },
    }
}

/// The complete document markup: the front-matter block, then the body and
/// the footnote section inside the main content wrapper.
pub open spec fn document_html(n: NodeV) -> Seq<char> {
    render_node(n).meta + "<div class=\"non-meta-content\">"@ + render_node(n).body
        + footnote_section(render_node(n).foot) + "</div>"@
}

/// Renders a whole document tree to markup. Fails exactly when the tree
/// holds a reference-style or embedded-scripting node.
pub fn ast_to_html(ast: Node) -> (r: Result<String, RenderError>)
    ensures
        match r {
            Ok(s) => supported(view_node(ast)) && s@ == document_html(view_node(ast)),
            Err(e) => !supported(view_node(ast)) && err_of(view_node(ast)) == Some(e),
        },
{
    let ghost nv = view_node(ast);
    let mut s = String::new();
    let mut definitions = Definitions::new();
    match ast_to_html_gather_definitions(ast, &mut s, &mut definitions) {
        Ok(_) => {},
        Err(e) => {
            return Err(e);
        },
    }
    let mut out = String::new();
    out.append(definitions.yaml_meta_html().as_str());
    out.append("<div class=\"non-meta-content\">");
    out.append(s.as_str());
    let f = definitions.footnote_html();
    out.append(f.as_str());
    out.append("</div>");
    proof {
        assert(out@ =~= document_html(nv));
    }
    Ok(out)
}

} // verus!
