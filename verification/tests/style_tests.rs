use render_html::store::{style_settings_map, ValueStore};
use render_html::style_settings::{
    add_variable_with_value, css_settings_comments, get_style_settings_css, StyleSettingsCss,
};
use render_html::vault::{with_default_body_classes, ObsidianTheme};

fn schema_css(body: &str) -> String {
    let mut css = String::from("/* @settings\n");
    css.push_str(body);
    css.push_str("\n*/\n");
    css
}

#[test]
fn theme_classnames() {
    assert_eq!(ObsidianTheme::Light.classname(), "theme-light");
    assert_eq!(ObsidianTheme::Dark.classname(), "theme-dark");
}

#[test]
fn comment_scanner_collects_comment_chunks() {
    let css = String::from("a /* one */ b /* two */ c");
    let comments = css_settings_comments(&css);
    assert_eq!(comments, vec![String::from("/* one */"), String::from("/* two */")]);
}

#[test]
fn comment_scanner_without_slash_emits_nothing() {
    let css = String::from("body { color: red; }");
    assert_eq!(css_settings_comments(&css).len(), 0);
}

#[test]
fn comment_scanner_buffers_from_any_slash() {
    let css = String::from("a / b */ c");
    assert_eq!(css_settings_comments(&css), vec![String::from("/ b */")]);
}

#[test]
fn add_variable_appends_declaration() {
    let out = add_variable_with_value(String::from("--a:1;"), &String::from("b"), String::from("2px"));
    assert_eq!(out, "--a:1;--b:2px;");
}

#[test]
fn value_store_overwrites_and_looks_up() {
    let mut st = ValueStore::new();
    st.set(String::from("c"), String::from("s"), String::from("1"));
    st.set(String::from("c"), String::from("s"), String::from("2"));
    assert_eq!(st.get(&String::from("c"), &String::from("s")), Some(String::from("2")));
    assert_eq!(st.get(&String::from("c"), &String::from("x")), None);
}

#[test]
fn missing_blob_means_no_store() {
    assert!(style_settings_map(None, None, &ObsidianTheme::Light).is_none());
}

#[test]
fn non_object_blob_means_no_store() {
    let blob = String::from("[1, 2]");
    assert!(style_settings_map(Some(&blob), None, &ObsidianTheme::Light).is_none());
}

#[test]
fn store_splits_keys_and_filters_theme() {
    let blob = String::from(
        "{\"acc@@hue\": \"200\", \"acc@@tone@@dark\": \"5\", \"acc@@tone@@light\": \"7\", \"plain\": \"skipped\"}",
    );
    let st = style_settings_map(Some(&blob), None, &ObsidianTheme::Light).unwrap();
    assert_eq!(st.get(&String::from("acc"), &String::from("hue")), Some(String::from("200")));
    assert_eq!(st.get(&String::from("acc"), &String::from("tone")), Some(String::from("7")));
    let std_ = style_settings_map(Some(&blob), None, &ObsidianTheme::Dark).unwrap();
    assert_eq!(std_.get(&String::from("acc"), &String::from("tone")), Some(String::from("5")));
}

#[test]
fn store_category_filter() {
    let blob = String::from("{\"a@@x\": \"1\", \"b@@x\": \"2\"}");
    let cat = String::from("a");
    let st = style_settings_map(Some(&blob), Some(&cat), &ObsidianTheme::Light).unwrap();
    assert_eq!(st.get(&String::from("a"), &String::from("x")), Some(String::from("1")));
    assert_eq!(st.get(&String::from("b"), &String::from("x")), None);
}

#[test]
fn store_coerces_values_to_text() {
    let blob = String::from("{\"a@@b\": true, \"a@@n\": 200, \"a@@z\": null}");
    let st = style_settings_map(Some(&blob), None, &ObsidianTheme::Light).unwrap();
    assert_eq!(st.get(&String::from("a"), &String::from("b")), Some(String::from("true")));
    assert_eq!(st.get(&String::from("a"), &String::from("n")), Some(String::from("200")));
    assert_eq!(st.get(&String::from("a"), &String::from("z")), Some(String::from("")));
}

#[test]
fn variable_number_without_format() {
    let css = schema_css("id: accent\nsettings:\n  - id: hue\n    type: variable-number");
    let blob = String::from("{\"accent@@hue\": \"200\"}");
    let out = get_style_settings_css(css, Some(&blob), &ObsidianTheme::Light);
    assert_eq!(out.style_overrides, "body.theme-light { --hue:200; }");
    assert_eq!(out.body_classes, "theme-light");
}

#[test]
fn variable_text_with_format_suffix() {
    let css = schema_css("id: accent\nsettings:\n  - id: size\n    type: variable-number\n    format: px");
    let blob = String::from("{\"accent@@size\": 14}");
    let out = get_style_settings_css(css, Some(&blob), &ObsidianTheme::Light);
    assert_eq!(out.style_overrides, "body.theme-light { --size:14px; }");
}

#[test]
fn rgb_split_color_declarations() {
    let css = schema_css(
        "id: accent\nsettings:\n  - id: col\n    type: variable-color\n    format: rgb-split",
    );
    let blob = String::from("{\"accent@@col\": \"#336699\"}");
    let out = get_style_settings_css(css, Some(&blob), &ObsidianTheme::Light);
    assert_eq!(
        out.style_overrides,
        "body.theme-light { --col-r:51;--col-g:102;--col-b:153;--col-a:255; }"
    );
}

#[test]
fn rgb_split_unparseable_color_falls_back_to_transparent_black() {
    let css = schema_css(
        "id: accent\nsettings:\n  - id: col\n    type: variable-color\n    format: rgb-split",
    );
    let blob = String::from("{\"accent@@col\": \"blurple!\"}");
    let out = get_style_settings_css(css, Some(&blob), &ObsidianTheme::Light);
    assert_eq!(
        out.style_overrides,
        "body.theme-light { --col-r:0;--col-g:0;--col-b:0;--col-a:0; }"
    );
}

#[test]
fn color_formats_hex_rgb_and_values() {
    let css = schema_css(
        "id: a\nsettings:\n  - id: c1\n    type: variable-color\n    format: hex\n  - id: c2\n    type: variable-color\n    format: rgb\n  - id: c3\n    type: variable-color\n    format: rgb-values\n  - id: c4\n    type: variable-color",
    );
    let blob = String::from(
        "{\"a@@c1\": \"#336699\", \"a@@c2\": \"#336699\", \"a@@c3\": \"#336699\", \"a@@c4\": \"#336699\"}",
    );
    let out = get_style_settings_css(css, Some(&blob), &ObsidianTheme::Light);
    assert!(out.style_overrides.contains("--c1:#336699;"));
    assert!(out.style_overrides.contains("--c2:rgb(51,102,153);"));
    assert!(out.style_overrides.contains("--c3:51 102 153;"));
    assert!(out.style_overrides.contains("--c4:#336699;"));
}

#[test]
fn hsl_values_and_split_for_black() {
    let css = schema_css(
        "id: a\nsettings:\n  - id: c1\n    type: variable-themed-color\n    format: hsl-values\n  - id: c2\n    type: variable-themed-color\n    format: hsl-split",
    );
    let blob = String::from("{\"a@@c1\": \"#000000\", \"a@@c2\": \"#000000\"}");
    let out = get_style_settings_css(css, Some(&blob), &ObsidianTheme::Light);
    assert!(out.style_overrides.contains("--c1:0 0% 0% 1;"));
    assert!(out.style_overrides.contains("--c2-h:0;--c2-s:0%;--c2-l:0%;--c2-a:1;"));
}

#[test]
fn hsl_lightness_percent_moves_decimal_point() {
    let css = schema_css(
        "id: a\nsettings:\n  - id: c1\n    type: variable-color\n    format: hsl-values",
    );
    let blob = String::from("{\"a@@c1\": \"#404040\"}");
    let out = get_style_settings_css(css, Some(&blob), &ObsidianTheme::Light);
    assert!(out.style_overrides.contains("--c1:0 0% 25.098039215686274% 1;"));
}

#[test]
fn class_toggle_and_class_select() {
    let css = schema_css(
        "id: a\nsettings:\n  - id: tog\n    type: class-toggle\n  - id: pick\n    type: class-select\n  - id: off\n    type: class-toggle",
    );
    let blob = String::from("{\"a@@tog\": true, \"a@@pick\": \"fancy-mode\", \"a@@off\": false}");
    let out = get_style_settings_css(css, Some(&blob), &ObsidianTheme::Light);
    assert_eq!(out.body_classes, "theme-light tog fancy-mode");
}

#[test]
fn settings_without_stored_value_are_skipped() {
    let css = schema_css("id: a\nsettings:\n  - id: missing\n    type: variable-number");
    let blob = String::from("{}");
    let out = get_style_settings_css(css, Some(&blob), &ObsidianTheme::Light);
    assert_eq!(out.style_overrides, "body.theme-light {  }");
}

#[test]
fn unparseable_schema_comment_is_skipped() {
    let mut css = String::from("/* @settings\n:::: not yaml\n*/\n");
    css.push_str(&schema_css("id: a\nsettings:\n  - id: x\n    type: variable-number"));
    let blob = String::from("{\"a@@x\": \"3\"}");
    let out = get_style_settings_css(css, Some(&blob), &ObsidianTheme::Light);
    assert_eq!(out.style_overrides, "body.theme-light { --x:3; }");
}

#[test]
fn missing_store_yields_empty_rule() {
    let css = schema_css("id: a\nsettings:\n  - id: x\n    type: variable-number");
    let out = get_style_settings_css(css.clone(), None, &ObsidianTheme::Light);
    assert_eq!(out.style_overrides, "body.theme-light {  }");
    assert_eq!(out.body_classes, "theme-light");
    assert_eq!(out.theme_css, css);
}

#[test]
fn dark_variant_scopes_rule_to_dark_class() {
    let css = schema_css("id: a\nsettings:\n  - id: x\n    type: variable-number");
    let blob = String::from("{\"a@@x\": \"3\"}");
    let out = get_style_settings_css(css, Some(&blob), &ObsidianTheme::Dark);
    assert_eq!(out.style_overrides, "body.theme-dark { --x:3; }");
}

#[test]
fn tabs_in_schema_content_are_normalized() {
    let css = schema_css("id: a\nsettings:\n  - id: x\n\ttype: variable-number");
    let blob = String::from("{\"a@@x\": \"3\"}");
    let out = get_style_settings_css(css, Some(&blob), &ObsidianTheme::Light);
    assert_eq!(out.style_overrides, "body.theme-light { --x:3; }");
}

#[test]
fn schema_comment_padded_with_unusual_whitespace() {
    let css = String::from(
        "/* @settings\u{c}\nid: a\nsettings:\n  - id: x\n    type: variable-number\n\u{b}*/\n",
    );
    let blob = String::from("{\"a@@x\": \"3\"}");
    let out = get_style_settings_css(css, Some(&blob), &ObsidianTheme::Light);
    assert_eq!(out.style_overrides, "body.theme-light { --x:3; }");
}

#[test]
fn rgb_values_unparseable_color_falls_back_to_three_zeros() {
    let css = schema_css(
        "id: a\nsettings:\n  - id: c1\n    type: variable-color\n    format: rgb-values",
    );
    let blob = String::from("{\"a@@c1\": \"blurple!\"}");
    let out = get_style_settings_css(css, Some(&blob), &ObsidianTheme::Light);
    assert!(out.style_overrides.contains("--c1:0 0 0;"));
}

#[test]
fn default_body_classes_are_appended() {
    let out = with_default_body_classes(String::from("theme-light"));
    assert!(out.starts_with("theme-light mod-linux is-frameless"));
    assert!(out.ends_with("is-maximized is-focused"));
}

#[test]
fn default_style_settings_css_is_empty() {
    let d = StyleSettingsCss::default();
    assert_eq!(d.theme_css, "");
    assert_eq!(d.style_overrides, "");
    assert_eq!(d.body_classes, "");
}
