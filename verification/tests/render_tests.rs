use render_html::ast::Node;
use render_html::callout::{capitalize, find_callout_icon_classname};
use render_html::escape::escape_html_str;
use render_html::render::{ast_to_html, Definitions, RenderError};

fn para(text: &str) -> Node {
    Node::Paragraph {
        children: vec![Node::Text { value: String::from(text) }],
    }
}

#[test]
fn escape_replaces_only_reserved_chars() {
    let out = escape_html_str(String::from("a<b>c\"d&e"));
    assert_eq!(out, "a&lt;b&gt;c&quot;d&amp;e");
}

#[test]
fn escape_keeps_plain_text() {
    assert_eq!(escape_html_str(String::from("plain text 123")), "plain text 123");
    assert_eq!(escape_html_str(String::new()), "");
}

#[test]
fn capitalize_empty_is_empty() {
    assert_eq!(capitalize(&String::new()), "");
}

#[test]
fn capitalize_note() {
    assert_eq!(capitalize(&String::from("note")), "Note");
    assert_eq!(capitalize(&String::from("nOTE")), "Note");
}

#[test]
fn icon_classnames() {
    assert_eq!(find_callout_icon_classname(&String::from("warning")), "icon-alert-triangle");
    assert_eq!(find_callout_icon_classname(&String::from("WARNING")), "icon-alert-triangle");
    assert_eq!(find_callout_icon_classname(&String::from("bug")), "icon-bug");
    assert_eq!(find_callout_icon_classname(&String::from("whatever")), "lucide-pencil");
}

#[test]
fn callout_blockquote_renders_titled_callout() {
    let bq = Node::Blockquote {
        children: vec![para("[!warning] Be careful\nStuff")],
    };
    let root = Node::Root { children: vec![bq] };
    let html = ast_to_html(root).unwrap();
    assert!(html.contains("<div class=\"callout\" data-callout=\"warning\">"));
    assert!(html.contains("icon-alert-triangle"));
    assert!(html.contains("<div class=\"callout-title-inner\">Be careful</div>"));
    assert!(html.contains("<div class=\"callout-content\"><p>Stuff</p></div></div>"));
    assert!(!html.contains("[!warning]"));
}

#[test]
fn callout_without_title_capitalizes_type() {
    let bq = Node::Blockquote {
        children: vec![para("[!note]\nBody here")],
    };
    let root = Node::Root { children: vec![bq] };
    let html = ast_to_html(root).unwrap();
    assert!(html.contains("data-callout=\"note\""));
    assert!(html.contains("<div class=\"callout-title-inner\">Note</div>"));
}

#[test]
fn plain_blockquote_stays_plain() {
    let bq = Node::Blockquote {
        children: vec![para("Just a quote")],
    };
    let root = Node::Root { children: vec![bq] };
    let html = ast_to_html(root).unwrap();
    assert_eq!(
        html,
        "<div class=\"non-meta-content\"><blockquote><p>Just a quote</p></blockquote><section class=\"footnotes\"><hr><ol></ol></section></div>"
    );
}

#[test]
fn marker_without_newline_is_no_callout() {
    let bq = Node::Blockquote {
        children: vec![para("[!warning] no newline here")],
    };
    let root = Node::Root { children: vec![bq] };
    let html = ast_to_html(root).unwrap();
    assert!(html.contains("<blockquote>"));
    assert!(!html.contains("data-callout"));
}

#[test]
fn footnotes_listed_in_document_order() {
    let fd1 = Node::FootnoteDefinition {
        identifier: String::from("1"),
        children: vec![para("first")],
    };
    let fd2 = Node::FootnoteDefinition {
        identifier: String::from("2"),
        children: vec![para("second")],
    };
    let refs = Node::Paragraph {
        children: vec![
            Node::FootnoteReference { identifier: String::from("1"), label: None },
            Node::FootnoteReference { identifier: String::from("2"), label: None },
        ],
    };
    let root = Node::Root { children: vec![fd1, fd2, refs] };
    let html = ast_to_html(root).unwrap();
    let li1 = html.find("<li id=\"fn-link--1\" value=\"1\">").unwrap();
    let li2 = html.find("<li id=\"fn-link--2\" value=\"2\">").unwrap();
    assert!(li1 < li2);
    assert!(html.contains("<a href=\"#fn-ref--1\">\u{21a9}</a>"));
    assert!(html.contains("<sup><a id=\"fn-ref--1\" href=\"#fn-link--1\">[1]</a></sup>"));
    assert!(html.contains("<sup><a id=\"fn-ref--2\" href=\"#fn-link--2\">[2]</a></sup>"));
}

#[test]
fn footnote_reference_uses_label_when_present() {
    let root = Node::Root {
        children: vec![Node::FootnoteReference {
            identifier: String::from("x"),
            label: Some(String::from("seven")),
        }],
    };
    let html = ast_to_html(root).unwrap();
    assert!(html.contains(">[seven]</a></sup>"));
}

#[test]
fn frontmatter_renders_property_list() {
    let root = Node::Root {
        children: vec![Node::Yaml { value: String::from("a: 1") }],
    };
    let html = ast_to_html(root).unwrap();
    assert_eq!(
        html,
        "<div class=\"properties\"><dl><dt>a</dt><dd><code>1</code></dd></dl></div><div class=\"non-meta-content\"><section class=\"footnotes\"><hr><ol></ol></section></div>"
    );
}

#[test]
fn frontmatter_fallback_shows_raw_text() {
    let root = Node::Root {
        children: vec![Node::Yaml { value: String::from(": ::: not yaml <") }],
    };
    let html = ast_to_html(root).unwrap();
    assert!(html.starts_with("<pre>"));
    assert!(html.contains("&lt;"));
}

#[test]
fn frontmatter_lists_and_booleans() {
    let root = Node::Root {
        children: vec![Node::Yaml { value: String::from("tags:\n  - a\n  - b\ndone: true") }],
    };
    let html = ast_to_html(root).unwrap();
    assert!(html.contains("<dt>tags</dt><dd><ul><li>a</li><li>b</li></ul></dd>"));
    assert!(html.contains("<dt>done</dt><dd><input type=\"checkbox\" checked></dd>"));
}

#[test]
fn legacy_metadata_falls_back_verbatim() {
    let root = Node::Root {
        children: vec![Node::Toml { value: String::from("x = \"1\"") }],
    };
    let html = ast_to_html(root).unwrap();
    assert!(html.contains("<pre><code class=\"language-toml\">x = &quot;1&quot;</code></pre>"));
}

#[test]
fn reference_nodes_abort_the_render() {
    let root = Node::Root { children: vec![para("ok"), Node::LinkReference] };
    assert!(matches!(ast_to_html(root), Err(RenderError::References)));
    let root2 = Node::Root { children: vec![Node::ImageReference] };
    assert!(matches!(ast_to_html(root2), Err(RenderError::References)));
    let root3 = Node::Root { children: vec![Node::Definition] };
    assert!(matches!(ast_to_html(root3), Err(RenderError::References)));
}

#[test]
fn scripting_nodes_abort_the_render() {
    let root = Node::Root { children: vec![Node::Mdx] };
    assert!(matches!(ast_to_html(root), Err(RenderError::Mdx)));
}

#[test]
fn list_and_items_render_with_start_and_checkboxes() {
    let list = Node::List {
        ordered: true,
        start: Some(5),
        children: vec![
            Node::ListItem { checked: Some(true), children: vec![para("a")] },
            Node::ListItem { checked: Some(false), children: vec![para("b")] },
            Node::ListItem { checked: None, children: vec![para("c")] },
        ],
    };
    let root = Node::Root { children: vec![list] };
    let html = ast_to_html(root).unwrap();
    assert!(html.contains("<ol start=\"5\">"));
    assert!(html.contains("<li><input type=\"checkbox\" checked><p>a</p></li>"));
    assert!(html.contains("<li><input type=\"checkbox\"><p>b</p></li>"));
    assert!(html.contains("<li><p>c</p></li>"));
    assert!(html.contains("</ol>"));
}

#[test]
fn unordered_list_defaults_start_to_one() {
    let list = Node::List { ordered: false, start: None, children: vec![] };
    let root = Node::Root { children: vec![list] };
    let html = ast_to_html(root).unwrap();
    assert!(html.contains("<ul start=\"1\"></ul>"));
}

#[test]
fn heading_code_and_inline_markup() {
    let root = Node::Root {
        children: vec![
            Node::Heading { depth: 3, children: vec![Node::Text { value: String::from("T") }] },
            Node::Code { lang: Some(String::from("rust")), value: String::from("a<b") },
            Node::Code { lang: None, value: String::from("x") },
            Node::InlineCode { value: String::from("y<z") },
            Node::Emphasis { children: vec![Node::Text { value: String::from("e") }] },
            Node::Strong { children: vec![Node::Text { value: String::from("s") }] },
            Node::Delete { children: vec![Node::Text { value: String::from("d") }] },
            Node::ThematicBreak,
            Node::Break,
        ],
    };
    let html = ast_to_html(root).unwrap();
    assert!(html.contains("<h3>T</h3>"));
    assert!(html.contains("<pre><code class=\"language-rust\">a&lt;b</code></pre>"));
    assert!(html.contains("<pre><code class=\"\">x</code></pre>"));
    assert!(html.contains("<code>y&lt;z</code>"));
    assert!(html.contains("<em>e</em>"));
    assert!(html.contains("<strong>s</strong>"));
    assert!(html.contains("<del>d</del>"));
    assert!(html.contains("<hr>"));
    assert!(html.contains("<br>"));
}

#[test]
fn links_and_images_emit_attributes_untouched() {
    let root = Node::Root {
        children: vec![
            Node::Link {
                url: String::from("https://example.test/x"),
                title: None,
                children: vec![Node::Text { value: String::from("go") }],
            },
            Node::Image {
                url: String::from("pic.png"),
                alt: String::from("alt text"),
                title: Some(String::from("tip")),
            },
        ],
    };
    let html = ast_to_html(root).unwrap();
    assert!(html.contains("<a href=\"https://example.test/x\" title=\"\">go</a>"));
    assert!(html.contains("<img src=\"pic.png\" alt=\"alt text\" title=\"tip\"/>"));
}

#[test]
fn math_nodes_emit_typesetting_instruction() {
    let root = Node::Root {
        children: vec![
            Node::InlineMath { value: String::from("x<1") },
            Node::Math { value: String::from("y") },
        ],
    };
    let html = ast_to_html(root).unwrap();
    assert!(html.contains("<span>x&lt;1</span><script>"));
    assert!(html.contains("displayMode: false"));
    assert!(html.contains("<div>y</div><script>"));
    assert!(html.contains("displayMode: true"));
}

#[test]
fn raw_html_passes_through() {
    let root = Node::Root {
        children: vec![Node::Html { value: String::from("<video controls>") }],
    };
    let html = ast_to_html(root).unwrap();
    assert!(html.contains("<video controls>"));
}

#[test]
fn table_renders_rows_and_cells() {
    let root = Node::Root {
        children: vec![Node::Table {
            children: vec![Node::TableRow {
                children: vec![Node::TableCell {
                    children: vec![Node::Text { value: String::from("c") }],
                }],
            }],
        }],
    };
    let html = ast_to_html(root).unwrap();
    assert!(html.contains("<table><tr><td>c</td></tr></table>"));
}

#[test]
fn definitions_buffers_start_empty() {
    let defs = Definitions::new();
    assert_eq!(defs.yaml_meta_html().as_str(), "");
    assert_eq!(
        defs.footnote_html(),
        "<section class=\"footnotes\"><hr><ol></ol></section>"
    );
}

#[test]
fn callout_marker_found_in_nested_first_child() {
    let inner = Node::Blockquote {
        children: vec![para("[!tip] Deep\nrest")],
    };
    let bq = Node::Blockquote { children: vec![inner] };
    let root = Node::Root { children: vec![bq] };
    let html = ast_to_html(root).unwrap();
    assert!(html.contains("data-callout=\"tip\""));
    assert!(html.contains("icon-flame"));
}

#[test]
fn list_start_at_largest_value() {
    let list = Node::List { ordered: true, start: Some(4294967295), children: vec![] };
    let root = Node::Root { children: vec![list] };
    let html = ast_to_html(root).unwrap();
    assert!(html.contains("<ol start=\"4294967295\"></ol>"));
}

#[test]
fn frontmatter_nested_mapping() {
    let root = Node::Root {
        children: vec![Node::Yaml { value: String::from("a:\n  b: 1") }],
    };
    let html = ast_to_html(root).unwrap();
    assert!(html.contains("<dt>a</dt><dd><dl><dt>b</dt><dd><code>1</code></dd></dl></dd>"));
}

#[test]
fn frontmatter_tagged_value_shows_tag_in_bold() {
    let root = Node::Root {
        children: vec![Node::Yaml { value: String::from("k: !t 1") }],
    };
    let html = ast_to_html(root).unwrap();
    assert!(html.contains("<dt>k</dt><dd><strong>!t</strong><code>1</code></dd>"));
}
