use vstd::prelude::*;
use crate::ast::{
    Node, NodeV, view_node, view_nodes, children_of, sizev, sizev_seq, supported, supported_seq,
    opt_view, lemma_view_nodes_len, lemma_view_nodes_index, lemma_view_nodes_drop_first,
    lemma_view_nodes_cons, lemma_sizev_pos, lemma_sizev_seq_update,
};
use crate::strutil::{
    to_chars, string_from_chars, str_eq, find_char, find_char_vec, subvec, lower_char, upper_char,
    lower_of, upper_of,
};

verus! {

/// Characters allowed in a callout type identifier.
pub open spec fn is_ident_char(c: char) -> bool {
    ('a' <= c && c <= 'z') || ('A' <= c && c <= 'Z') || c == '_' || c == '-'
}

/// The callout marker grammar on the leading text of a blockquote:
/// `[!` then one or more identifier characters, then `]`, then the rest of
/// the line, then a newline. On a match, yields the bracketed type, the raw
/// title text between `]` and the newline, and the text after the newline.
pub open spec fn marker_parts(s: Seq<char>) -> Option<(Seq<char>, Seq<char>, Seq<char>)> {
    if s.len() >= 2 && s[0] == '[' && s[1] == '!' {
        match find_char(s, ']', 2) {
            Some(cb) => match find_char(s, '\n', 0) {
                Some(nl) => if 3 <= cb && cb < nl && (forall|i: int|
                    2 <= i < cb ==> is_ident_char(s[i])) {
                    Some((s.subrange(2, cb), s.subrange(cb + 1, nl), s.skip(nl + 1)))
                } else {
                    None
                },
                None => None,
            },
            None => None,
        }
    } else {
        None
    }
}

#[verifier::loop_isolation(false)]
pub fn parse_marker(v: &Vec<char>) -> (r: Option<(Vec<char>, Vec<char>, Vec<char>)>)
    ensures
        match r {
            Some(p) => marker_parts(v@) == Some((p.0@, p.1@, p.2@)),
            None => marker_parts(v@) is None,
        },
{
    if v.len() < 2 {
        return None;
    }
    if !(v[0] == '[' && v[1] == '!') {
        return None;
    }
    let cb = match find_char_vec(v, ']', 2) {
        Some(cb) => cb,
        None => {
            return None;
        },
    };
    let nl = match find_char_vec(v, '\n', 0) {
        Some(nl) => nl,
        None => {
            return None;
        },
    };
    if !(3 <= cb && cb < nl) {
        return None;
    }
    proof {
        lemma_find_char_in_range(v@, ']', 2, cb as int);
        lemma_find_char_in_range(v@, '\n', 0, nl as int);
    }
    let mut i: usize = 2;
    while i < cb
        invariant
            2 <= i <= cb,
            cb < v@.len(),
            forall|j: int| 2 <= j < i ==> is_ident_char(v@[j]),
        decreases cb - i,
    {
        let c = v[i];
        if !(('a' <= c && c <= 'z') || ('A' <= c && c <= 'Z') || c == '_' || c == '-') {
            proof {
                assert(!is_ident_char(v@[i as int]));
            }
            return None;
        }
        i += 1;
    }
    let ty = subvec(v, 2, cb);
    let rawt = subvec(v, cb + 1, nl);
    let rem = subvec(v, nl + 1, v.len());
    proof {
        assert(v@.skip(nl + 1) =~= v@.subrange(nl + 1, v@.len() as int));
    }
    Some((ty, rawt, rem))
}

/// A found index is in range and the character there is the sought one.
pub proof fn lemma_find_char_in_range(s: Seq<char>, c: char, from: int, i: int)
    requires
        find_char(s, c, from) == Some(i),
    ensures
        from <= i < s.len(),
        s[i] == c,
    decreases s.len() - from,
{
    if from < 0 || from >= s.len() {
    } else if s[from] == c {
    } else {
        lemma_find_char_in_range(s, c, from + 1, i);
    }
}

/// Drops leading spaces.
pub open spec fn trim_spaces(s: Seq<char>) -> Seq<char>
    decreases s.len(),
{
    if s.len() > 0 && s[0] == ' ' {
        trim_spaces(s.drop_first())
    } else {
        s
    }
}

pub fn trim_leading(v: &Vec<char>) -> (r: Vec<char>)
    ensures
        r@ == trim_spaces(v@),
{
    let mut i: usize = 0;
    proof {
        assert(v@.skip(0) =~= v@);
    }
    while i < v.len() && v[i] == ' '
        invariant
            i <= v@.len(),
            trim_spaces(v@) == trim_spaces(v@.skip(i as int)),
        decreases v.len() - i,
    {
        i += 1;
        proof {
            assert(v@.skip(i - 1).drop_first() =~= v@.skip(i as int));
            assert(v@.skip(i - 1)[0] == v@[i - 1]);
        }
    }
    let r = subvec(v, i, v.len());
    proof {
        assert(v@.skip(i as int) =~= v@.subrange(i as int, v@.len() as int));
        if i < v@.len() {
            assert(v@.skip(i as int)[0] == v@[i as int]);
        }
        assert(trim_spaces(v@.skip(i as int)) == v@.skip(i as int));
    }
    r
}

/// First character uppercased, the rest lowercased; empty text stays empty.
pub open spec fn capitalize_spec(s: Seq<char>) -> Seq<char> {
    if s.len() == 0 {
        s
    } else {
        seq![upper_char(s[0])] + s.drop_first().map_values(|c: char| lower_char(c))
    }
}

pub fn capitalize(s: &String) -> (r: String)
    ensures
        r@ == capitalize_spec(s@),
{
    let chars = to_chars(s.as_str());
    if chars.len() == 0 {
        let r = String::new();
        proof {
            assert(r@ =~= capitalize_spec(s@));
        }
        return r;
    }
    let mut out: Vec<char> = Vec::new();
    out.push(upper_of(chars[0]));
    let mut i: usize = 1;
    while i < chars.len()
        invariant
            1 <= i <= chars@.len(),
            chars@ == s@,
            chars@.len() > 0,
            out@ == seq![upper_char(s@[0])] + s@.subrange(1, i as int).map_values(
                |c: char| lower_char(c),
            ),
        decreases chars.len() - i,
    {
        out.push(lower_of(chars[i]));
        i += 1;
        proof {
            assert(s@.subrange(1, i as int).map_values(|c: char| lower_char(c)) =~= s@.subrange(
                1,
                i - 1,
            ).map_values(|c: char| lower_char(c)).push(lower_char(s@[i - 1])));
            assert(out@ =~= seq![upper_char(s@[0])] + s@.subrange(1, i as int).map_values(
                |c: char| lower_char(c),
            ));
        }
    }
    proof {
        assert(s@.subrange(1, s@.len() as int) =~= s@.drop_first());
    }
    string_from_chars(&out)
}

/// Lowercased characters of a sequence.
pub open spec fn lower_seq(s: Seq<char>) -> Seq<char> {
    s.map_values(|c: char| lower_char(c))
}

/// The fixed mapping from a lowercased callout type to its icon class.
pub open spec fn icon_of(ty: Seq<char>) -> Seq<char> {
    if ty == "abstract"@ || ty == "summary"@ || ty == "tldr"@ {
        "icon-clipboard-list"@
    } else if ty == "info"@ {
        "icon-info"@
    } else if ty == "todo"@ {
        "icon-check-circle-2"@
    } else if ty == "important"@ || ty == "tip"@ || ty == "hint"@ {
        "icon-flame"@
    } else if ty == "success"@ || ty == "check"@ || ty == "done"@ {
        "icon-check"@
    } else if ty == "question"@ || ty == "help"@ || ty == "faq"@ {
        "icon-help-circle"@
    } else if ty == "warning"@ || ty == "caution"@ || ty == "attention"@ {
        "icon-alert-triangle"@
    } else if ty == "failure"@ || ty == "fail"@ || ty == "missing"@ {
        "icon-x"@
    } else if ty == "danger"@ || ty == "error"@ {
        "icon-zap"@
    } else if ty == "bug"@ {
        "icon-bug"@
    } else if ty == "example"@ {
        "icon-list"@
    } else if ty == "quote"@ || ty == "cite"@ {
        "icon-quote"@
    } else {
        "lucide-pencil"@
    }
}

/// The icon class for a callout type, compared case-insensitively.
pub fn find_callout_icon_classname(callout_type: &String) -> (r: &'static str)
    ensures
        r@ == icon_of(lower_seq(callout_type@)),
{
    let chars = to_chars(callout_type.as_str());
    let mut low: Vec<char> = Vec::new();
    let mut i: usize = 0;
    while i < chars.len()
        invariant
            i <= chars@.len(),
            chars@ == callout_type@,
            low@ == callout_type@.subrange(0, i as int).map_values(|c: char| lower_char(c)),
        decreases chars.len() - i,
    {
        low.push(lower_of(chars[i]));
        i += 1;
        proof {
            assert(low@ =~= callout_type@.subrange(0, i as int).map_values(
                |c: char| lower_char(c),
            ));
        }
    }
    proof {
        assert(callout_type@.subrange(0, callout_type@.len() as int) =~= callout_type@);
        assert(low@ == lower_seq(callout_type@));
    }
    let t = string_from_chars(&low);
    let ts = t.as_str();
    if str_eq(ts, "abstract") || str_eq(ts, "summary") || str_eq(ts, "tldr") {
        "icon-clipboard-list"
    } else if str_eq(ts, "info") {
        "icon-info"
    } else if str_eq(ts, "todo") {
        "icon-check-circle-2"
    } else if str_eq(ts, "important") || str_eq(ts, "tip") || str_eq(ts, "hint") {
        "icon-flame"
    } else if str_eq(ts, "success") || str_eq(ts, "check") || str_eq(ts, "done") {
        "icon-check"
    } else if str_eq(ts, "question") || str_eq(ts, "help") || str_eq(ts, "faq") {
        "icon-help-circle"
    } else if str_eq(ts, "warning") || str_eq(ts, "caution") || str_eq(ts, "attention") {
        "icon-alert-triangle"
    } else if str_eq(ts, "failure") || str_eq(ts, "fail") || str_eq(ts, "missing") {
        "icon-x"
    } else if str_eq(ts, "danger") || str_eq(ts, "error") {
        "icon-zap"
    } else if str_eq(ts, "bug") {
        "icon-bug"
    } else if str_eq(ts, "example") {
        "icon-list"
    } else if str_eq(ts, "quote") || str_eq(ts, "cite") {
        "icon-quote"
    } else {
        "lucide-pencil"
    }
}


/// Whether the model node kind carries children.
pub open spec fn is_containerv(n: NodeV) -> bool {
    match n {
        NodeV::Root { .. } => true,
        NodeV::Paragraph { .. } => true,
        NodeV::Heading { .. } => true,
        NodeV::Emphasis { .. } => true,
        NodeV::Strong { .. } => true,
        NodeV::Delete { .. } => true,
        NodeV::Link { .. } => true,
        NodeV::List { .. } => true,
        NodeV::ListItem { .. } => true,
        NodeV::Table { .. } => true,
        NodeV::TableRow { .. } => true,
        NodeV::TableCell { .. } => true,
        NodeV::Blockquote { .. } => true,
        NodeV::FootnoteDefinition { .. } => true,
        _ => false,
    }
}

/// The same container with its child sequence replaced.
pub open spec fn with_children(n: NodeV, cs: Seq<NodeV>) -> NodeV {
    match n {
        NodeV::Root { .. } => NodeV::Root { children: cs },
        NodeV::Paragraph { .. } => NodeV::Paragraph { children: cs },
        NodeV::Heading { depth, .. } => NodeV::Heading { depth, children: cs },
        NodeV::Emphasis { .. } => NodeV::Emphasis { children: cs },
        NodeV::Strong { .. } => NodeV::Strong { children: cs },
        NodeV::Delete { .. } => NodeV::Delete { children: cs },
        NodeV::Link { url, title, .. } => NodeV::Link { url, title, children: cs },
        NodeV::List { ordered, start, .. } => NodeV::List { ordered, start, children: cs },
        NodeV::ListItem { checked, .. } => NodeV::ListItem { checked, children: cs },
        NodeV::Table { .. } => NodeV::Table { children: cs },
        NodeV::TableRow { .. } => NodeV::TableRow { children: cs },
        NodeV::TableCell { .. } => NodeV::TableCell { children: cs },
        NodeV::Blockquote { .. } => NodeV::Blockquote { children: cs },
        NodeV::FootnoteDefinition { identifier, .. } => NodeV::FootnoteDefinition {
            identifier,
            children: cs,
        },
        _ => n,
    }
}

/// Looks for the callout marker on the leading text of a child sequence,
/// descending through first children while they are containers. On a match,
/// yields the callout type, the optional explicit title, and the children
/// with the marker line stripped from that text node.
pub open spec fn find_callout(s: Seq<NodeV>) -> Option<(Seq<char>, Option<Seq<char>>, Seq<NodeV>)>
    decreases sizev_seq(s),
    via find_callout_dec
{
    if s.len() == 0 {
        None
    } else {
        match s[0] {
            NodeV::Text { value } => match marker_parts(value) {
                Some(parts) => Some(
                    (
                        parts.0,
                        if trim_spaces(parts.1).len() == 0 {
                            None
                        } else {
                            Some(trim_spaces(parts.1))
                        },
                        s.update(0, NodeV::Text { value: parts.2 }),
                    ),
                ),
                None => None,
            },
            _ => if is_containerv(s[0]) {
                match find_callout(children_of(s[0])) {
                    Some(res) => Some((res.0, res.1, s.update(0, with_children(s[0], res.2)))),
                    None => None,
                }
            } else {
                None
            },
        }
    }
}

#[via_fn]
proof fn find_callout_dec(s: Seq<NodeV>) {
    if s.len() > 0 {
        lemma_sizev_pos(s[0]);
        assert(sizev_seq(s) == sizev(s[0]) + sizev_seq(s.drop_first()));
    }
}

/// Stripping the marker does not change the number of nodes.
pub proof fn lemma_find_callout_size(s: Seq<NodeV>)
    ensures
        match find_callout(s) {
            Some(r) => sizev_seq(r.2) == sizev_seq(s),
            None => true,
        },
    decreases sizev_seq(s),
{
    if s.len() > 0 {
        lemma_sizev_pos(s[0]);
        assert(sizev_seq(s) == sizev(s[0]) + sizev_seq(s.drop_first()));
        match s[0] {
            NodeV::Text { value } => {
                if marker_parts(value) is Some {
                    let parts = marker_parts(value)->Some_0;
                    lemma_sizev_seq_update(s, NodeV::Text { value: parts.2 });
                }
            },
            _ => {
                if is_containerv(s[0]) {
                    lemma_find_callout_size(children_of(s[0]));
                    match find_callout(children_of(s[0])) {
                        Some(res) => {
                            let n2 = with_children(s[0], res.2);
                            lemma_sizev_pos(n2);
                            assert(children_of(n2) == res.2);
                            lemma_sizev_seq_update(s, n2);
                        },
                        None => {},
                    }
                }
            },
        }
    }
}

/// Stripping the marker does not add or remove unsupported nodes.
pub proof fn lemma_find_callout_supported(s: Seq<NodeV>)
    ensures
        match find_callout(s) {
            Some(r) => supported_seq(r.2) == supported_seq(s),
            None => true,
        },
    decreases sizev_seq(s),
{
    if s.len() > 0 {
        lemma_sizev_pos(s[0]);
        assert(sizev_seq(s) == sizev(s[0]) + sizev_seq(s.drop_first()));
        match s[0] {
            NodeV::Text { value } => {
                if marker_parts(value) is Some {
                    let parts = marker_parts(value)->Some_0;
                    let u = s.update(0, NodeV::Text { value: parts.2 });
                    assert(u.drop_first() =~= s.drop_first());
                    assert(supported_seq(u) == (supported(u[0]) && supported_seq(u.drop_first())));
                    assert(supported_seq(s) == (supported(s[0]) && supported_seq(s.drop_first())));
                }
            },
            _ => {
                if is_containerv(s[0]) {
                    lemma_find_callout_supported(children_of(s[0]));
                    match find_callout(children_of(s[0])) {
                        Some(res) => {
                            let n2 = with_children(s[0], res.2);
                            assert(children_of(n2) == res.2);
                            assert(supported(n2) == supported_seq(res.2));
                            assert(supported(s[0]) == supported_seq(children_of(s[0])));
                            let u = s.update(0, n2);
                            assert(u.drop_first() =~= s.drop_first());
                            assert(supported_seq(u) == (supported(u[0]) && supported_seq(
                                u.drop_first(),
                            )));
                            assert(supported_seq(s) == (supported(s[0]) && supported_seq(
                                s.drop_first(),
                            )));
                        },
                        None => {},
                    }
                }
            },
        }
    }
}

proof fn lemma_extract_glue(s0: Seq<Node>, tail: Seq<Node>, x: Node, dv: Seq<NodeV>)
    requires
        s0.len() > 0,
        tail == s0.drop_first(),
        is_containerv(view_node(s0[0])),
        !(view_node(s0[0]) is Text),
        view_node(x) == with_children(view_node(s0[0]), dv),
        match find_callout(children_of(view_node(s0[0]))) {
            Some(rr) => dv == rr.2,
            None => dv == children_of(view_node(s0[0])),
        },
    ensures
        match find_callout(children_of(view_node(s0[0]))) {
            Some(rr) => find_callout(view_nodes(s0)) == Some(
                (rr.0, rr.1, view_nodes(tail.insert(0, x))),
            ),
            None => find_callout(view_nodes(s0)) is None && view_nodes(tail.insert(0, x))
                == view_nodes(s0),
        },
{
    lemma_view_nodes_len(s0);
    lemma_view_nodes_index(s0, 0);
    lemma_view_nodes_drop_first(s0);
    let v0 = view_node(s0[0]);
    assert(tail.insert(0, x) =~= seq![x] + tail);
    lemma_view_nodes_cons(x, tail);
    match find_callout(children_of(v0)) {
        Some(rr) => {
            assert(view_node(x) == with_children(v0, rr.2));
            assert(find_callout(view_nodes(s0)) == Some(
                (rr.0, rr.1, view_nodes(s0).update(0, with_children(v0, rr.2))),
            ));
            assert(view_nodes(s0).update(0, view_node(x)) =~= seq![view_node(x)] + view_nodes(
                s0,
            ).drop_first());
        },
        None => {
            assert(find_callout(view_nodes(s0)) is None);
            assert(view_node(x) == with_children(v0, children_of(v0)));
            assert(with_children(v0, children_of(v0)) == v0);
            assert(view_nodes(seq![x] + tail) =~= view_nodes(s0));
        },
    }
}

/// Removes the callout marker from a child sequence, if its leading text
/// carries one, and yields the callout type and optional explicit title.
pub fn extract_callout(cs: Vec<Node>) -> (res: (Option<(String, Option<String>)>, Vec<Node>))
    ensures
        match (res.0, find_callout(view_nodes(cs@))) {
            (Some(tt), Some(rr)) => tt.0@ == rr.0 && opt_view(tt.1) == rr.1 && view_nodes(res.1@)
                == rr.2,
            (None, None) => view_nodes(res.1@) == view_nodes(cs@),
            _ => false,
        },
    decreases sizev_seq(view_nodes(cs@)),
{
    let ghost s0 = cs@;
    let mut rest = cs;
    if rest.len() == 0 {
        return (None, rest);
    }
    let first = rest.remove(0);
    proof {
        lemma_view_nodes_len(s0);
        lemma_view_nodes_index(s0, 0);
        lemma_view_nodes_drop_first(s0);
        assert(rest@ =~= s0.drop_first());
    }
    match first {
        Node::Text { value } => {
            let vchars = to_chars(value.as_str());
            match parse_marker(&vchars) {
                Some(parts) => {
                    let tt = trim_leading(&parts.1);
                    let title = if tt.len() == 0 {
                        None
                    } else {
                        Some(string_from_chars(&tt))
                    };
                    let tystr = string_from_chars(&parts.0);
                    let remstr = string_from_chars(&parts.2);
                    let node = Node::Text { value: remstr };
                    proof {
                        assert(view_node(s0[0]) == NodeV::Text { value: value@ });
                        assert(rest@.insert(0, node) =~= seq![node] + rest@);
                        lemma_view_nodes_cons(node, rest@);
                        assert(view_nodes(s0).update(0, view_node(node)) =~= seq![view_node(node)]
                            + view_nodes(s0).drop_first());
                    }
                    rest.insert(0, node);
                    (Some((tystr, title)), rest)
                },
                None => {
                    let node = Node::Text { value };
                    proof {
                        assert(node == s0[0]);
                        assert(rest@.insert(0, node) =~= s0);
                    }
                    rest.insert(0, node);
                    (None, rest)
                },
            }
        },
        Node::Root { children } => {
            proof {
                assert(view_node(s0[0]) == NodeV::Root { children: view_nodes(children@) });
                assert(sizev_seq(view_nodes(children@)) < sizev_seq(view_nodes(s0))) by {
                    lemma_sizev_pos(view_nodes(s0)[0]);
                    assert(sizev_seq(view_nodes(s0)) == sizev(view_nodes(s0)[0]) + sizev_seq(
                        view_nodes(s0).drop_first(),
                    ));
                };
            }
            let (r, d) = extract_callout(children);
            let node = Node::Root { children: d };
            proof {
                assert(view_node(node) == NodeV::Root { children: view_nodes(d@) });
                lemma_extract_glue(s0, rest@, node, view_nodes(d@));
            }
            rest.insert(0, node);
            (r, rest)
        },
        Node::Paragraph { children } => {
            proof {
                assert(view_node(s0[0]) == NodeV::Paragraph { children: view_nodes(children@) });
                assert(sizev_seq(view_nodes(children@)) < sizev_seq(view_nodes(s0))) by {
                    lemma_sizev_pos(view_nodes(s0)[0]);
                    assert(sizev_seq(view_nodes(s0)) == sizev(view_nodes(s0)[0]) + sizev_seq(
                        view_nodes(s0).drop_first(),
                    ));
                };
            }
            let (r, d) = extract_callout(children);
            let node = Node::Paragraph { children: d };
            proof {
                assert(view_node(node) == NodeV::Paragraph { children: view_nodes(d@) });
                lemma_extract_glue(s0, rest@, node, view_nodes(d@));
            }
            rest.insert(0, node);
            (r, rest)
        },
        Node::Heading { depth, children } => {
            proof {
                assert(view_node(s0[0]) == NodeV::Heading { depth, children: view_nodes(children@) });
                assert(sizev_seq(view_nodes(children@)) < sizev_seq(view_nodes(s0))) by {
                    lemma_sizev_pos(view_nodes(s0)[0]);
                    assert(sizev_seq(view_nodes(s0)) == sizev(view_nodes(s0)[0]) + sizev_seq(
                        view_nodes(s0).drop_first(),
                    ));
                };
            }
            let (r, d) = extract_callout(children);
            let node = Node::Heading { depth, children: d };
            proof {
                assert(view_node(node) == NodeV::Heading { depth, children: view_nodes(d@) });
                lemma_extract_glue(s0, rest@, node, view_nodes(d@));
            }
            rest.insert(0, node);
            (r, rest)
        },
        Node::Emphasis { children } => {
            proof {
                assert(view_node(s0[0]) == NodeV::Emphasis { children: view_nodes(children@) });
                assert(sizev_seq(view_nodes(children@)) < sizev_seq(view_nodes(s0))) by {
                    lemma_sizev_pos(view_nodes(s0)[0]);
                    assert(sizev_seq(view_nodes(s0)) == sizev(view_nodes(s0)[0]) + sizev_seq(
                        view_nodes(s0).drop_first(),
                    ));
                };
            }
            let (r, d) = extract_callout(children);
            let node = Node::Emphasis { children: d };
            proof {
                assert(view_node(node) == NodeV::Emphasis { children: view_nodes(d@) });
                lemma_extract_glue(s0, rest@, node, view_nodes(d@));
            }
            rest.insert(0, node);
            (r, rest)
        },
        Node::Strong { children } => {
            proof {
                assert(view_node(s0[0]) == NodeV::Strong { children: view_nodes(children@) });
                assert(sizev_seq(view_nodes(children@)) < sizev_seq(view_nodes(s0))) by {
                    lemma_sizev_pos(view_nodes(s0)[0]);
                    assert(sizev_seq(view_nodes(s0)) == sizev(view_nodes(s0)[0]) + sizev_seq(
                        view_nodes(s0).drop_first(),
                    ));
                };
            }
            let (r, d) = extract_callout(children);
            let node = Node::Strong { children: d };
            proof {
                assert(view_node(node) == NodeV::Strong { children: view_nodes(d@) });
                lemma_extract_glue(s0, rest@, node, view_nodes(d@));
            }
            rest.insert(0, node);
            (r, rest)
        },
        Node::Delete { children } => {
            proof {
                assert(view_node(s0[0]) == NodeV::Delete { children: view_nodes(children@) });
                assert(sizev_seq(view_nodes(children@)) < sizev_seq(view_nodes(s0))) by {
                    lemma_sizev_pos(view_nodes(s0)[0]);
                    assert(sizev_seq(view_nodes(s0)) == sizev(view_nodes(s0)[0]) + sizev_seq(
                        view_nodes(s0).drop_first(),
                    ));
                };
            }
            let (r, d) = extract_callout(children);
            let node = Node::Delete { children: d };
            proof {
                assert(view_node(node) == NodeV::Delete { children: view_nodes(d@) });
                lemma_extract_glue(s0, rest@, node, view_nodes(d@));
            }
            rest.insert(0, node);
            (r, rest)
        },
        Node::Link { url, title, children } => {
            proof {
                assert(view_node(s0[0]) == NodeV::Link { url: url@, title: opt_view(title), children: view_nodes(children@) });
                assert(sizev_seq(view_nodes(children@)) < sizev_seq(view_nodes(s0))) by {
                    lemma_sizev_pos(view_nodes(s0)[0]);
                    assert(sizev_seq(view_nodes(s0)) == sizev(view_nodes(s0)[0]) + sizev_seq(
                        view_nodes(s0).drop_first(),
                    ));
                };
            }
            let (r, d) = extract_callout(children);
            let node = Node::Link { url, title, children: d };
            proof {
                assert(view_node(node) == NodeV::Link { url: url@, title: opt_view(title), children: view_nodes(d@) });
                lemma_extract_glue(s0, rest@, node, view_nodes(d@));
            }
            rest.insert(0, node);
            (r, rest)
        },
        Node::List { ordered, start, children } => {
            proof {
                assert(view_node(s0[0]) == NodeV::List { ordered, start, children: view_nodes(children@) });
                assert(sizev_seq(view_nodes(children@)) < sizev_seq(view_nodes(s0))) by {
                    lemma_sizev_pos(view_nodes(s0)[0]);
                    assert(sizev_seq(view_nodes(s0)) == sizev(view_nodes(s0)[0]) + sizev_seq(
                        view_nodes(s0).drop_first(),
                    ));
                };
            }
            let (r, d) = extract_callout(children);
            let node = Node::List { ordered, start, children: d };
            proof {
                assert(view_node(node) == NodeV::List { ordered, start, children: view_nodes(d@) });
                lemma_extract_glue(s0, rest@, node, view_nodes(d@));
            }
            rest.insert(0, node);
            (r, rest)
        },
        Node::ListItem { checked, children } => {
            proof {
                assert(view_node(s0[0]) == NodeV::ListItem { checked, children: view_nodes(children@) });
                assert(sizev_seq(view_nodes(children@)) < sizev_seq(view_nodes(s0))) by {
                    lemma_sizev_pos(view_nodes(s0)[0]);
                    assert(sizev_seq(view_nodes(s0)) == sizev(view_nodes(s0)[0]) + sizev_seq(
                        view_nodes(s0).drop_first(),
                    ));
                };
            }
            let (r, d) = extract_callout(children);
            let node = Node::ListItem { checked, children: d };
            proof {
                assert(view_node(node) == NodeV::ListItem { checked, children: view_nodes(d@) });
                lemma_extract_glue(s0, rest@, node, view_nodes(d@));
            }
            rest.insert(0, node);
            (r, rest)
        },
        Node::Table { children } => {
            proof {
                assert(view_node(s0[0]) == NodeV::Table { children: view_nodes(children@) });
                assert(sizev_seq(view_nodes(children@)) < sizev_seq(view_nodes(s0))) by {
                    lemma_sizev_pos(view_nodes(s0)[0]);
                    assert(sizev_seq(view_nodes(s0)) == sizev(view_nodes(s0)[0]) + sizev_seq(
                        view_nodes(s0).drop_first(),
                    ));
                };
            }
            let (r, d) = extract_callout(children);
            let node = Node::Table { children: d };
            proof {
                assert(view_node(node) == NodeV::Table { children: view_nodes(d@) });
                lemma_extract_glue(s0, rest@, node, view_nodes(d@));
            }
            rest.insert(0, node);
            (r, rest)
        },
        Node::TableRow { children } => {
            proof {
                assert(view_node(s0[0]) == NodeV::TableRow { children: view_nodes(children@) });
                assert(sizev_seq(view_nodes(children@)) < sizev_seq(view_nodes(s0))) by {
                    lemma_sizev_pos(view_nodes(s0)[0]);
                    assert(sizev_seq(view_nodes(s0)) == sizev(view_nodes(s0)[0]) + sizev_seq(
                        view_nodes(s0).drop_first(),
                    ));
                };
            }
            let (r, d) = extract_callout(children);
            let node = Node::TableRow { children: d };
            proof {
                assert(view_node(node) == NodeV::TableRow { children: view_nodes(d@) });
                lemma_extract_glue(s0, rest@, node, view_nodes(d@));
            }
            rest.insert(0, node);
            (r, rest)
        },
        Node::TableCell { children } => {
            proof {
                assert(view_node(s0[0]) == NodeV::TableCell { children: view_nodes(children@) });
                assert(sizev_seq(view_nodes(children@)) < sizev_seq(view_nodes(s0))) by {
                    lemma_sizev_pos(view_nodes(s0)[0]);
                    assert(sizev_seq(view_nodes(s0)) == sizev(view_nodes(s0)[0]) + sizev_seq(
                        view_nodes(s0).drop_first(),
                    ));
                };
            }
            let (r, d) = extract_callout(children);
            let node = Node::TableCell { children: d };
            proof {
                assert(view_node(node) == NodeV::TableCell { children: view_nodes(d@) });
                lemma_extract_glue(s0, rest@, node, view_nodes(d@));
            }
            rest.insert(0, node);
            (r, rest)
        },
        Node::Blockquote { children } => {
            proof {
                assert(view_node(s0[0]) == NodeV::Blockquote { children: view_nodes(children@) });
                assert(sizev_seq(view_nodes(children@)) < sizev_seq(view_nodes(s0))) by {
                    lemma_sizev_pos(view_nodes(s0)[0]);
                    assert(sizev_seq(view_nodes(s0)) == sizev(view_nodes(s0)[0]) + sizev_seq(
                        view_nodes(s0).drop_first(),
                    ));
                };
            }
            let (r, d) = extract_callout(children);
            let node = Node::Blockquote { children: d };
            proof {
                assert(view_node(node) == NodeV::Blockquote { children: view_nodes(d@) });
                lemma_extract_glue(s0, rest@, node, view_nodes(d@));
            }
            rest.insert(0, node);
            (r, rest)
        },
        Node::FootnoteDefinition { identifier, children } => {
            proof {
                assert(view_node(s0[0]) == NodeV::FootnoteDefinition { identifier: identifier@, children: view_nodes(children@) });
                assert(sizev_seq(view_nodes(children@)) < sizev_seq(view_nodes(s0))) by {
                    lemma_sizev_pos(view_nodes(s0)[0]);
                    assert(sizev_seq(view_nodes(s0)) == sizev(view_nodes(s0)[0]) + sizev_seq(
                        view_nodes(s0).drop_first(),
                    ));
                };
            }
            let (r, d) = extract_callout(children);
            let node = Node::FootnoteDefinition { identifier, children: d };
            proof {
                assert(view_node(node) == NodeV::FootnoteDefinition { identifier: identifier@, children: view_nodes(d@) });
                lemma_extract_glue(s0, rest@, node, view_nodes(d@));
            }
            rest.insert(0, node);
            (r, rest)
        },
        other => {
            proof {
                assert(other == s0[0]);
                assert(!is_containerv(view_node(s0[0])));
                assert(!(view_node(s0[0]) is Text));
                assert(find_callout(view_nodes(s0)) is None);
                assert(rest@.insert(0, other) =~= s0);
            }
            rest.insert(0, other);
            (None, rest)
        },
    }
}

} // verus!
