use vstd::prelude::*;

verus! {

/// One node of the parsed document tree. Children are owned and ordered;
/// every node has exactly one owner.
pub enum Node {
    Root { children: Vec<Node> },
    Paragraph { children: Vec<Node> },
    Heading { depth: u8, children: Vec<Node> },
    Text { value: String },
    Emphasis { children: Vec<Node> },
    Strong { children: Vec<Node> },
    Delete { children: Vec<Node> },
    InlineCode { value: String },
    Code { lang: Option<String>, value: String },
    InlineMath { value: String },
    Math { value: String },
    Link { url: String, title: Option<String>, children: Vec<Node> },
    Image { url: String, alt: String, title: Option<String> },
    List { ordered: bool, start: Option<u32>, children: Vec<Node> },
    ListItem { checked: Option<bool>, children: Vec<Node> },
    Table { children: Vec<Node> },
    TableRow { children: Vec<Node> },
    TableCell { children: Vec<Node> },
    Blockquote { children: Vec<Node> },
    ThematicBreak,
    Break,
    Html { value: String },
    FootnoteDefinition { identifier: String, children: Vec<Node> },
    FootnoteReference { identifier: String, label: Option<String> },
    Yaml { value: String },
    Toml { value: String },
    Definition,
    ImageReference,
    LinkReference,
    Mdx,
}

/// The mathematical model of a tree node: the same shape as `Node`, with
/// character sequences for strings and sequences for child vectors.
pub enum NodeV {
    Root { children: Seq<NodeV> },
    Paragraph { children: Seq<NodeV> },
    Heading { depth: u8, children: Seq<NodeV> },
    Text { value: Seq<char> },
    Emphasis { children: Seq<NodeV> },
    Strong { children: Seq<NodeV> },
    Delete { children: Seq<NodeV> },
    InlineCode { value: Seq<char> },
    Code { lang: Option<Seq<char>>, value: Seq<char> },
    InlineMath { value: Seq<char> },
    Math { value: Seq<char> },
    Link { url: Seq<char>, title: Option<Seq<char>>, children: Seq<NodeV> },
    Image { url: Seq<char>, alt: Seq<char>, title: Option<Seq<char>> },
    List { ordered: bool, start: Option<u32>, children: Seq<NodeV> },
    ListItem { checked: Option<bool>, children: Seq<NodeV> },
    Table { children: Seq<NodeV> },
    TableRow { children: Seq<NodeV> },
    TableCell { children: Seq<NodeV> },
    Blockquote { children: Seq<NodeV> },
    ThematicBreak,
    Break,
    Html { value: Seq<char> },
    FootnoteDefinition { identifier: Seq<char>, children: Seq<NodeV> },
    FootnoteReference { identifier: Seq<char>, label: Option<Seq<char>> },
    Yaml { value: Seq<char> },
    Toml { value: Seq<char> },
    Definition,
    ImageReference,
    LinkReference,
    Mdx,
}

pub open spec fn opt_view(o: Option<String>) -> Option<Seq<char>> {
    match o {
        Some(s) => Some(s@),
        None => None,
    }
}

pub open spec fn view_node(n: Node) -> NodeV
    decreases n,
{
    match n {
        Node::Root { children } => NodeV::Root { children: view_nodes(children@) },
        Node::Paragraph { children } => NodeV::Paragraph { children: view_nodes(children@) },
        Node::Heading { depth, children } => NodeV::Heading {
            depth,
            children: view_nodes(children@),
        },
        Node::Text { value } => NodeV::Text { value: value@ },
        Node::Emphasis { children } => NodeV::Emphasis { children: view_nodes(children@) },
        Node::Strong { children } => NodeV::Strong { children: view_nodes(children@) },
        Node::Delete { children } => NodeV::Delete { children: view_nodes(children@) },
        Node::InlineCode { value } => NodeV::InlineCode { value: value@ },
        Node::Code { lang, value } => NodeV::Code { lang: opt_view(lang), value: value@ },
        Node::InlineMath { value } => NodeV::InlineMath { value: value@ },
        Node::Math { value } => NodeV::Math { value: value@ },
        Node::Link { url, title, children } => NodeV::Link {
            url: url@,
            title: opt_view(title),
            children: view_nodes(children@),
        },
        Node::Image { url, alt, title } => NodeV::Image {
            url: url@,
            alt: alt@,
            title: opt_view(title),
        },
        Node::List { ordered, start, children } => NodeV::List {
            ordered,
            start,
            children: view_nodes(children@),
        },
        Node::ListItem { checked, children } => NodeV::ListItem {
            checked,
            children: view_nodes(children@),
        },
        Node::Table { children } => NodeV::Table { children: view_nodes(children@) },
        Node::TableRow { children } => NodeV::TableRow { children: view_nodes(children@) },
        Node::TableCell { children } => NodeV::TableCell { children: view_nodes(children@) },
        Node::Blockquote { children } => NodeV::Blockquote { children: view_nodes(children@) },
        Node::ThematicBreak => NodeV::ThematicBreak,
        Node::Break => NodeV::Break,
        Node::Html { value } => NodeV::Html { value: value@ },
        Node::FootnoteDefinition { identifier, children } => NodeV::FootnoteDefinition {
            identifier: identifier@,
            children: view_nodes(children@),
        },
        Node::FootnoteReference { identifier, label } => NodeV::FootnoteReference {
            identifier: identifier@,
            label: opt_view(label),
        },
        Node::Yaml { value } => NodeV::Yaml { value: value@ },
        Node::Toml { value } => NodeV::Toml { value: value@ },
        Node::Definition => NodeV::Definition,
        Node::ImageReference => NodeV::ImageReference,
        Node::LinkReference => NodeV::LinkReference,
        Node::Mdx => NodeV::Mdx,
    }
}

pub open spec fn view_nodes(s: Seq<Node>) -> Seq<NodeV>
    decreases s,
{
    if s.len() == 0 {
        Seq::empty()
    } else {
        seq![view_node(s[0])] + view_nodes(s.drop_first())
    }
}

impl View for Node {
    type V = NodeV;

    open spec fn view(&self) -> NodeV {
        view_node(*self)
    }
}

pub proof fn lemma_view_nodes_len(s: Seq<Node>)
    ensures
        view_nodes(s).len() == s.len(),
    decreases s,
{
    if s.len() > 0 {
        lemma_view_nodes_len(s.drop_first());
    }
}

pub proof fn lemma_view_nodes_index(s: Seq<Node>, i: int)
    requires
        0 <= i < s.len(),
    ensures
        view_nodes(s).len() == s.len(),
        view_nodes(s)[i] == view_node(s[i]),
    decreases s,
{
    lemma_view_nodes_len(s);
    if i > 0 {
        lemma_view_nodes_index(s.drop_first(), i - 1);
    }
}

pub proof fn lemma_view_nodes_drop_first(s: Seq<Node>)
    requires
        s.len() > 0,
    ensures
        view_nodes(s.drop_first()) == view_nodes(s).drop_first(),
{
    lemma_view_nodes_len(s);
    assert(view_nodes(s).drop_first() =~= view_nodes(s.drop_first()));
}

pub proof fn lemma_view_nodes_cons(x: Node, t: Seq<Node>)
    ensures
        view_nodes(seq![x] + t) == seq![view_node(x)] + view_nodes(t),
{
    let u = seq![x] + t;
    assert(u.len() > 0);
    assert(u[0] == x);
    assert(u.drop_first() =~= t);
}

/// Children of a model node; empty for leaf kinds.
pub open spec fn children_of(n: NodeV) -> Seq<NodeV> {
    match n {
        NodeV::Root { children } => children,
        NodeV::Paragraph { children } => children,
        NodeV::Heading { children, .. } => children,
        NodeV::Emphasis { children } => children,
        NodeV::Strong { children } => children,
        NodeV::Delete { children } => children,
        NodeV::Link { children, .. } => children,
        NodeV::List { children, .. } => children,
        NodeV::ListItem { children, .. } => children,
        NodeV::Table { children } => children,
        NodeV::TableRow { children } => children,
        NodeV::TableCell { children } => children,
        NodeV::Blockquote { children } => children,
        NodeV::FootnoteDefinition { children, .. } => children,
        _ => Seq::empty(),
    }
}

/// Number of nodes in the tree rooted here; at least one.
pub open spec fn sizev(n: NodeV) -> nat
    decreases n,
{
    match n {
        NodeV::Root { children } => 1 + sizev_seq(children),
        NodeV::Paragraph { children } => 1 + sizev_seq(children),
        NodeV::Heading { children, .. } => 1 + sizev_seq(children),
        NodeV::Emphasis { children } => 1 + sizev_seq(children),
        NodeV::Strong { children } => 1 + sizev_seq(children),
        NodeV::Delete { children } => 1 + sizev_seq(children),
        NodeV::Link { children, .. } => 1 + sizev_seq(children),
        NodeV::List { children, .. } => 1 + sizev_seq(children),
        NodeV::ListItem { children, .. } => 1 + sizev_seq(children),
        NodeV::Table { children } => 1 + sizev_seq(children),
        NodeV::TableRow { children } => 1 + sizev_seq(children),
        NodeV::TableCell { children } => 1 + sizev_seq(children),
        NodeV::Blockquote { children } => 1 + sizev_seq(children),
        NodeV::FootnoteDefinition { children, .. } => 1 + sizev_seq(children),
        _ => 1,
    }
}

pub open spec fn sizev_seq(s: Seq<NodeV>) -> nat
    decreases s,
{
    if s.len() == 0 {
        0
    } else {
        sizev(s[0]) + sizev_seq(s.drop_first())
    }
}

pub proof fn lemma_sizev_pos(n: NodeV)
    ensures
        sizev(n) == 1 + sizev_seq(children_of(n)),
{
}

pub proof fn lemma_sizev_seq_update(s: Seq<NodeV>, x: NodeV)
    requires
        s.len() > 0,
    ensures
        sizev_seq(s.update(0, x)) == sizev(x) + sizev_seq(s.drop_first()),
{
    let u = s.update(0, x);
    assert(u[0] == x);
    assert(u.drop_first() =~= s.drop_first());
    assert(sizev_seq(u) == sizev(u[0]) + sizev_seq(u.drop_first()));
}

/// The unsupported kinds: reference-style links, images and definitions,
/// and embedded-scripting nodes. Meeting one aborts the whole render.
pub open spec fn is_unsupported(n: NodeV) -> bool {
    match n {
        NodeV::Definition => true,
        NodeV::ImageReference => true,
        NodeV::LinkReference => true,
        NodeV::Mdx => true,
        _ => false,
    }
}

/// A tree is supported when no node in it is of an unsupported kind.
pub open spec fn supported(n: NodeV) -> bool
    decreases n,
{
    match n {
        NodeV::Root { children } => supported_seq(children),
        NodeV::Paragraph { children } => supported_seq(children),
        NodeV::Heading { children, .. } => supported_seq(children),
        NodeV::Emphasis { children } => supported_seq(children),
        NodeV::Strong { children } => supported_seq(children),
        NodeV::Delete { children } => supported_seq(children),
        NodeV::Link { children, .. } => supported_seq(children),
        NodeV::List { children, .. } => supported_seq(children),
        NodeV::ListItem { children, .. } => supported_seq(children),
        NodeV::Table { children } => supported_seq(children),
        NodeV::TableRow { children } => supported_seq(children),
        NodeV::TableCell { children } => supported_seq(children),
        NodeV::Blockquote { children } => supported_seq(children),
        NodeV::FootnoteDefinition { children, .. } => supported_seq(children),
        _ => !is_unsupported(n),
    }
}

pub open spec fn supported_seq(s: Seq<NodeV>) -> bool
    decreases s,
{
    if s.len() == 0 {
        true
    } else {
        supported(s[0]) && supported_seq(s.drop_first())
    }
}

} // verus!
